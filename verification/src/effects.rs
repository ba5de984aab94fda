//! What each call leaves in the ledger entries and asks of the host.
//!
//! The laws here speak of single entries and single commands: which entry holds
//! what after a call, that the others are as before, who was asked to authorize, and
//! what the host is told to do, in order.

use vstd::prelude::*;
use crate::config::{
    blacklist_outcome, fee_bps_outcome, fees_outcome, governance_outcome, kyc_outcome,
    min_limit_outcome, pause_outcome, treasury_outcome, unblacklist_outcome,
};
use crate::fees::fits_i128;
use crate::invocation::{Command, Event, FeeTerms, Invocation, InvocationView, StorageView};
use crate::refunds::{claim_outcome, withdraw_outcome};
use crate::roles::{
    assign_outcome, initialize_outcome, revoke_outcome, set_admin_outcome, transfer_admin_outcome,
};
use crate::router::PaymentRouter;
use crate::routing::credited;
use crate::table::{Membership, UserToken};
use crate::timelock::{
    cancel_outcome, execute_outcome, freeze_outcome, queue_outcome, unfreeze_outcome,
    upgrade_outcome,
};
use crate::treasury::{
    deposit_outcome, harvest_outcome, protocol_outcome, recover_outcome, take_back_outcome,
    Harvest,
};
use crate::types::{ActionType, Address, DataKey, Error, Role, TimelockEntry};

verus! {

// Words for what follows.

/// Who has to authorize what is up to `role`: the account that is designated for it,
/// or the admin where none is.
pub open spec fn in_charge(s: StorageView, role: Role) -> Option<Address> {
    if s.roles.contains_key(role) {
        Some(s.roles[role])
    } else {
        s.admin
    }
}

/// Who has to authorize a change of the fees.
pub open spec fn in_charge_of_fees(s: StorageView) -> Option<Address> {
    match s.governance {
        Some(governance) => Some(governance),
        None => in_charge(s, Role::FeeManager),
    }
}

/// From `e` to `e1` the host was told `commands`, in this order, and nothing else
/// apart from the ledger entries has changed.
pub open spec fn told(e: InvocationView, e1: InvocationView, commands: Seq<Command>) -> bool {
    &&& e1.contract == e.contract
    &&& e1.timestamp == e.timestamp
    &&& e1.commands =~= e.commands + commands
}

/// The instance entries live on for seven days, if less than six are left.
pub open spec fn instance_lives_on() -> Command {
    Command::ExtendInstance { threshold: 103_680, extend_to: 120_960 }
}

/// An entry lives on for thirty days, if less than twenty-nine are left.
pub open spec fn lives_on(key: DataKey) -> Command {
    Command::ExtendPersistent { key, threshold: 501_120, extend_to: 518_400 }
}

/// A call that only `caller` can authorize: without a caller it is refused and changes
/// nothing, otherwise it succeeds, and `caller` is asked before anything else.
pub open spec fn up_to(
    caller: Option<Address>,
    e: InvocationView,
    result: Result<(), Error>,
    e1: InvocationView,
    commands: Seq<Command>,
) -> bool {
    match caller {
        None => result == Err::<(), Error>(Error::NotInitialized) && e1 == e,
        Some(caller) => {
            &&& result == Ok::<(), Error>(())
            &&& told(e, e1, seq![Command::RequireAuth(caller)] + commands)
        },
    }
}

// Reading entries.

/// The constants of the contract.
pub proof fn law_constants()
    ensures
        PaymentRouter::BPS_DIVISOR == 10_000,
        PaymentRouter::XLM_DECIMALS == 10_000_000,
        PaymentRouter::MAX_AMOUNT == 1_000_000_000_000_000,
        PaymentRouter::DAILY_MAX_LIMIT == 10_000_000_000_000,
        PaymentRouter::VOLUME_THRESHOLD == 100_000_000_000,
        PaymentRouter::SECONDS_IN_24H == 86_400,
        PaymentRouter::VERSION == 1,
        PaymentRouter::DAY_IN_LEDGERS == 17_280,
        PaymentRouter::INSTANCE_LIFETIME_THRESHOLD == 103_680,
        PaymentRouter::INSTANCE_BUMP_AMOUNT == 120_960,
        PaymentRouter::PERSISTENT_LIFETIME_THRESHOLD == 501_120,
        PaymentRouter::PERSISTENT_BUMP_AMOUNT == 518_400,
{
}

/// What the laws say of an entry they say of the entry that is stored.
pub proof fn law_entries_are_the_stored_ones(env: Invocation)
    ensures
        env@.contract == env.contract,
        env@.timestamp == env.timestamp,
        env@.commands == env.commands@,
        env@.storage == env.storage@,
        env.storage@.admin == env.storage.admin,
        env.storage@.governance == env.storage.governance,
        env.storage@.platform_treasury == env.storage.platform_treasury,
        env.storage@.fee_bps == env.storage.fee_bps,
        env.storage@.fee_cap == env.storage.fee_cap,
        env.storage@.min_limit == env.storage.min_limit,
        env.storage@.paused == env.storage.paused,
        env.storage@.max_amount == env.storage.max_amount,
        env.storage@.timelock_nonce == env.storage.timelock_nonce,
        env.storage@.frozen == env.storage.frozen,
        env.storage@.yield_protocol == env.storage.yield_protocol,
        env.storage@.kyc_oracle == env.storage.kyc_oracle,
        env.storage@.kyc_threshold == env.storage.kyc_threshold,
        env.storage@.roles == env.storage.roles@,
        env.storage@.user_volume == env.storage.user_volume@,
        env.storage@.user_spending == env.storage.user_spending@,
        env.storage@.blacklist == env.storage.blacklist@,
        env.storage@.refund_balance == env.storage.refund_balance@,
        env.storage@.timelock_entries == env.storage.timelock_entries@,
        env.storage@.yield_principal == env.storage.yield_principal@,
        env.storage@.user_role == env.storage.user_role@,
{
}

/// A contract that nothing was ever written to holds nothing.
pub proof fn law_blank_holds_nothing(
    account: Address,
    token: Address,
    role: Role,
    nonce: u64,
)
    ensures
        ({
            let s = StorageView::blank();
            &&& s.admin is None && s.governance is None && s.platform_treasury is None
            &&& s.fee_bps is None && s.fee_cap is None && s.min_limit is None
            &&& s.paused is None && s.max_amount is None && s.timelock_nonce is None
            &&& s.frozen is None && s.yield_protocol is None && s.kyc_oracle is None
            &&& s.kyc_threshold is None
            &&& !s.roles.contains_key(role)
            &&& !s.user_volume.contains_key(account)
            &&& !s.user_spending.contains_key(account)
            &&& !s.blacklist.contains_key(account)
            &&& !s.refund_balance.contains_key(UserToken { user: account, token })
            &&& !s.timelock_entries.contains_key(nonce)
            &&& !s.yield_principal.contains_key(token)
            &&& !s.user_role.contains_key(Membership { account, role })
        }),
{
}

/// Switches are off and counters and balances are zero until they are written, and
/// are what was written from then on.
pub proof fn law_entries_read_as_written(s: StorageView, account: Address, token: Address)
    ensures
        s.frozen is None ==> !s.is_frozen(),
        s.frozen is Some ==> s.is_frozen() == s.frozen->0,
        s.paused is None ==> !s.is_paused(),
        s.paused is Some ==> s.is_paused() == s.paused->0,
        s.timelock_nonce is None ==> s.nonce() == 0,
        s.timelock_nonce is Some ==> s.nonce() == s.timelock_nonce->0,
        s.max_amount is None ==> s.largest_payment() == 1_000_000_000_000_000,
        s.max_amount is Some ==> s.largest_payment() == s.max_amount->0,
        s.min_limit is None ==> s.smallest_payment() == 0,
        s.min_limit is Some ==> s.smallest_payment() == s.min_limit->0,
        !s.user_volume.contains_key(account) ==> s.volume(account) == 0,
        s.user_volume.contains_key(account) ==> s.volume(account) == s.user_volume[account],
        !s.blacklist.contains_key(account) ==> !s.blacklisted(account),
        s.blacklist.contains_key(account) ==> s.blacklisted(account) == s.blacklist[account],
        !s.yield_principal.contains_key(token) ==> s.principal(token) == 0,
        s.yield_principal.contains_key(token) ==> s.principal(token) == s.yield_principal[token],
        ({
            let key = UserToken { user: account, token };
            &&& !s.refund_balance.contains_key(key) ==> s.refund(account, token) == 0
            &&& s.refund_balance.contains_key(key) ==> s.refund(account, token)
                == s.refund_balance[key]
        }),
{
}

/// The fee configuration is read as it was written, and only when all of it is there.
pub proof fn law_fee_configuration_is_read_as_written(s: StorageView)
    ensures
        s.platform_treasury is None || s.fee_bps is None || s.fee_cap is None
            ==> s.fee_terms() is None,
        s.platform_treasury is Some && s.fee_bps is Some && s.fee_cap is Some ==> {
            &&& s.fee_terms() is Some
            &&& s.fee_terms()->0.platform_treasury == s.platform_treasury->0
            &&& s.fee_terms()->0.fee_bps == s.fee_bps->0
            &&& s.fee_terms()->0.fee_cap == s.fee_cap->0
        },
{
}

/// A role is up to the account that is designated for it, and to the admin while there
/// is none. Fees are up to governance once it is set, whoever is the fee manager.
pub proof fn law_who_acts(s: StorageView, role: Role)
    ensures
        s.roles.contains_key(role) ==> s.holder(role) == Some(s.roles[role]),
        !s.roles.contains_key(role) ==> s.holder(role) == s.admin,
        s.governance is Some ==> s.fee_authority() == s.governance,
        s.governance is None && s.roles.contains_key(Role::FeeManager) ==> s.fee_authority()
            == Some(s.roles[Role::FeeManager]),
        s.governance is None && !s.roles.contains_key(Role::FeeManager) ==> s.fee_authority()
            == s.admin,
{
}

/// An account holds a role if it was given to it and not taken away again, or if the
/// account is designated for it; and not otherwise.
pub proof fn law_who_holds_a_role(s: StorageView, account: Address, role: Role)
    ensures
        s.user_role.contains_key(Membership { account, role }) && s.user_role[Membership {
            account,
            role,
        }] ==> s.member(account, role),
        s.roles.contains_key(role) && s.roles[role] == account ==> s.member(account, role),
        s.member(account, role) ==> {
            ||| s.roles.contains_key(role) && s.roles[role] == account
            ||| s.user_role.contains_key(Membership { account, role })
                && s.user_role[Membership { account, role }]
        },
{
}

/// Each request to the host comes after those before it, and touches nothing else.
pub proof fn law_host_is_told_in_order(
    e: InvocationView,
    command: Command,
    account: Address,
    event: Event,
    key: DataKey,
    s: StorageView,
)
    ensures
        told(e, e.issue(command), seq![command]) && e.issue(command).storage == e.storage,
        told(e, e.authorized_by(account), seq![Command::RequireAuth(account)]) && e.authorized_by(
            account,
        ).storage == e.storage,
        told(e, e.announce(event), seq![Command::Publish(event)]) && e.announce(event).storage
            == e.storage,
        told(e, e.extend_instance(), seq![instance_lives_on()]) && e.extend_instance().storage
            == e.storage,
        told(e, e.extend_persistent(key), seq![lives_on(key)]) && e.extend_persistent(key).storage
            == e.storage,
        told(e, e.store(s), Seq::empty()) && e.store(s).storage == s,
{
    assert(e.commands + Seq::<Command>::empty() =~= e.commands);
}

// Configuration.

/// The treasury that was set is the one that fees go to, and nothing else changes.
pub proof fn law_treasury_is_set(e: InvocationView, new_treasury: Address)
    ensures
        ({
            let (result, e1) = treasury_outcome(e, new_treasury);
            let (s, s1) = (e.storage, e1.storage);
            &&& up_to(
                in_charge(s, Role::TreasuryManager),
                e,
                result,
                e1,
                seq![instance_lives_on()],
            )
            &&& result is Ok ==> {
                &&& s1.platform_treasury == Some(new_treasury)
                &&& s1 == StorageView { platform_treasury: s1.platform_treasury, ..s }
                &&& s.fee_bps is Some && s.fee_cap is Some ==> s1.fee_terms() == Some(
                    FeeTerms {
                        platform_treasury: new_treasury,
                        fee_bps: s.fee_bps->0,
                        fee_cap: s.fee_cap->0,
                    },
                )
            }
        }),
{
}

/// The fee rate and cap that were set are the ones that are charged, and nothing else
/// changes.
pub proof fn law_fee_config_is_set(e: InvocationView, fee_bps: i128, fee_cap: i128)
    ensures
        ({
            let (result, e1) = fees_outcome(e, fee_bps, fee_cap);
            let (s, s1) = (e.storage, e1.storage);
            &&& up_to(in_charge_of_fees(s), e, result, e1, seq![instance_lives_on()])
            &&& result is Ok ==> {
                &&& s1.fee_bps == Some(fee_bps)
                &&& s1.fee_cap == Some(fee_cap)
                &&& s1 == StorageView { fee_bps: s1.fee_bps, fee_cap: s1.fee_cap, ..s }
                &&& s.platform_treasury is Some ==> s1.fee_terms() == Some(
                    FeeTerms { platform_treasury: s.platform_treasury->0, fee_bps, fee_cap },
                )
            }
        }),
{
}

/// The fee rate that was set is the one that is charged; the cap, and everything else,
/// stays.
pub proof fn law_fee_rate_is_set(e: InvocationView, fee_bps: i128)
    ensures
        ({
            let (result, e1) = fee_bps_outcome(e, fee_bps);
            let (s, s1) = (e.storage, e1.storage);
            &&& up_to(in_charge_of_fees(s), e, result, e1, seq![instance_lives_on()])
            &&& result is Ok ==> {
                &&& s1.fee_bps == Some(fee_bps)
                &&& s1 == StorageView { fee_bps: s1.fee_bps, ..s }
                &&& s.platform_treasury is Some && s.fee_cap is Some ==> s1.fee_terms() == Some(
                    FeeTerms {
                        platform_treasury: s.platform_treasury->0,
                        fee_bps,
                        fee_cap: s.fee_cap->0,
                    },
                )
            }
        }),
{
}

/// The governance contract that was set is in charge of the fees, and nothing else
/// changes.
pub proof fn law_governance_is_set(e: InvocationView, governance: Address)
    ensures
        ({
            let (result, e1) = governance_outcome(e, governance);
            let (s, s1) = (e.storage, e1.storage);
            &&& up_to(
                in_charge(s, Role::SuperAdmin),
                e,
                result,
                e1,
                seq![instance_lives_on()],
            )
            &&& result is Ok ==> {
                &&& s1.governance == Some(governance)
                &&& s1 == StorageView { governance: s1.governance, ..s }
                &&& in_charge_of_fees(s1) == Some(governance)
            }
        }),
{
}

/// The smallest payment that was set is the one that holds, and nothing else changes.
pub proof fn law_min_limit_is_set(e: InvocationView, min_limit: i128)
    ensures
        ({
            let (result, e1) = min_limit_outcome(e, min_limit);
            let (s, s1) = (e.storage, e1.storage);
            &&& up_to(
                in_charge(s, Role::FeeManager),
                e,
                result,
                e1,
                seq![instance_lives_on()],
            )
            &&& result is Ok ==> {
                &&& s1.min_limit == Some(min_limit)
                &&& s1 == StorageView { min_limit: s1.min_limit, ..s }
            }
        }),
{
}

/// The pause switch is where it was put, and nothing else changes.
pub proof fn law_pause_is_set(e: InvocationView, paused: bool)
    ensures
        ({
            let (result, e1) = pause_outcome(e, paused);
            let (s, s1) = (e.storage, e1.storage);
            &&& up_to(
                in_charge(s, Role::ComplianceOfficer),
                e,
                result,
                e1,
                seq![instance_lives_on(), Command::Publish(Event::Pause { paused })],
            )
            &&& result is Ok ==> {
                &&& s1.paused == Some(paused)
                &&& s1 == StorageView { paused: s1.paused, ..s }
            }
        }),
{
}

/// An address that is put on the blacklist is on it, every other address is or is not as
/// before, and nothing else changes.
pub proof fn law_address_is_blacklisted(e: InvocationView, address: Address)
    ensures
        ({
            let (result, e1) = blacklist_outcome(e, address);
            let (s, s1) = (e.storage, e1.storage);
            &&& up_to(
                in_charge(s, Role::ComplianceOfficer),
                e,
                result,
                e1,
                seq![lives_on(DataKey::Blacklist(address))],
            )
            &&& result is Ok ==> {
                &&& s1.blacklist.get(address) == Some(true)
                &&& forall|a: Address|
                    a != address ==> #[trigger] s1.blacklist.get(a) == s.blacklist.get(a)
                &&& s1 == StorageView { blacklist: s1.blacklist, ..s }
            }
        }),
{
}

/// An address that is taken off the blacklist is off it, every other address is or is
/// not as before, and nothing else changes.
pub proof fn law_address_is_unblacklisted(e: InvocationView, address: Address)
    ensures
        ({
            let (result, e1) = unblacklist_outcome(e, address);
            let (s, s1) = (e.storage, e1.storage);
            &&& up_to(in_charge(s, Role::ComplianceOfficer), e, result, e1, Seq::empty())
            &&& result is Ok ==> {
                &&& s1.blacklist.get(address) is None
                &&& forall|a: Address|
                    a != address ==> #[trigger] s1.blacklist.get(a) == s.blacklist.get(a)
                &&& s1 == StorageView { blacklist: s1.blacklist, ..s }
            }
        }),
{
}

/// The oracle and the threshold that were set are the ones that hold, unless the
/// threshold is negative, which is refused before anyone is asked.
pub proof fn law_kyc_is_set(e: InvocationView, oracle: Address, threshold: i128)
    ensures
        ({
            let (result, e1) = kyc_outcome(e, oracle, threshold);
            let (s, s1) = (e.storage, e1.storage);
            &&& threshold < 0 ==> result == Err::<(), Error>(Error::InvalidKycThreshold) && e1 == e
            &&& threshold >= 0 ==> up_to(
                in_charge(s, Role::ComplianceOfficer),
                e,
                result,
                e1,
                seq![
                    instance_lives_on(),
                    Command::Publish(Event::KycConfigured { oracle, threshold }),
                ],
            )
            &&& result is Ok ==> {
                &&& s1.kyc_oracle == Some(oracle)
                &&& s1.kyc_threshold == Some(threshold)
                &&& s1 == StorageView {
                    kyc_oracle: s1.kyc_oracle,
                    kyc_threshold: s1.kyc_threshold,
                    ..s
                }
            }
        }),
{
}

// Roles.

/// After the contract was set up, every setting is what was asked for, the admin is
/// designated for every role, and what does not belong to the setup is as before. The
/// admin is asked first. Once there is an admin, setting up is refused.
pub proof fn law_contract_is_set_up(
    e: InvocationView,
    admin: Address,
    treasury: Address,
    fee_bps: i128,
    fee_cap: i128,
    max_amount: i128,
)
    ensures
        ({
            let (result, e1) = initialize_outcome(
                e,
                admin,
                treasury,
                fee_bps,
                fee_cap,
                max_amount,
            );
            let (s, s1) = (e.storage, e1.storage);
            &&& s.admin is Some ==> {
                &&& result == Err::<(), Error>(Error::AlreadyInitialized)
                &&& e1 == e
            }
            &&& s.admin is None ==> {
                &&& result == Ok::<(), Error>(())
                &&& s1.admin == Some(admin)
                &&& s1.platform_treasury == Some(treasury)
                &&& s1.fee_bps == Some(fee_bps)
                &&& s1.fee_cap == Some(fee_cap)
                &&& s1.max_amount == Some(max_amount)
                &&& s1.paused == Some(false)
                &&& s1.frozen == Some(false)
                &&& s1.timelock_nonce == Some(0u64)
                &&& forall|role: Role| #[trigger] s1.roles.get(role) == Some(admin)
                &&& forall|m: Membership| #[trigger]
                    s1.user_role.get(m) == if m.account == admin {
                        Some(true)
                    } else {
                        s.user_role.get(m)
                    }
                &&& s1.governance == s.governance
                &&& s1.min_limit == s.min_limit
                &&& s1.yield_protocol == s.yield_protocol
                &&& s1.kyc_oracle == s.kyc_oracle
                &&& s1.kyc_threshold == s.kyc_threshold
                &&& s1.user_volume == s.user_volume
                &&& s1.user_spending == s.user_spending
                &&& s1.blacklist == s.blacklist
                &&& s1.refund_balance == s.refund_balance
                &&& s1.timelock_entries == s.timelock_entries
                &&& s1.yield_principal == s.yield_principal
                &&& told(
                    e,
                    e1,
                    seq![
                        Command::RequireAuth(admin),
                        lives_on(DataKey::UserRole(admin, Role::SuperAdmin)),
                        lives_on(DataKey::UserRole(admin, Role::TreasuryManager)),
                        lives_on(DataKey::UserRole(admin, Role::ComplianceOfficer)),
                        lives_on(DataKey::UserRole(admin, Role::FeeManager)),
                        instance_lives_on(),
                    ],
                )
            }
        }),
{
    let s1 = initialize_outcome(e, admin, treasury, fee_bps, fee_cap, max_amount).1.storage;
    if e.storage.admin is None {
        assert forall|role: Role| #[trigger] s1.roles.get(role) == Some(admin) by {
            match role {
                Role::SuperAdmin => {},
                Role::TreasuryManager => {},
                Role::ComplianceOfficer => {},
                Role::FeeManager => {},
            }
        }
        assert forall|m: Membership| #[trigger] s1.user_role.get(m) == if m.account == admin {
            Some(true)
        } else {
            e.storage.user_role.get(m)
        } by {
            match m.role {
                Role::SuperAdmin => {},
                Role::TreasuryManager => {},
                Role::ComplianceOfficer => {},
                Role::FeeManager => {},
            }
        }
    }
}

/// `account` is designated for `role` and holds it, and all other designations and
/// assignments are as before.
pub open spec fn designated(
    s: StorageView,
    s1: StorageView,
    role: Role,
    account: Address,
) -> bool {
    &&& s1.roles.get(role) == Some(account)
    &&& forall|r: Role| r != role ==> #[trigger] s1.roles.get(r) == s.roles.get(r)
    &&& s1.user_role.get(Membership { account, role }) == Some(true)
    &&& forall|m: Membership|
        m != (Membership { account, role }) ==> #[trigger] s1.user_role.get(m) == s.user_role.get(m)
}

/// An account that a role is assigned to is designated for it, and nothing else changes.
pub proof fn law_role_is_assigned(e: InvocationView, account: Address, role: Role)
    ensures
        ({
            let (result, e1) = assign_outcome(e, account, role);
            let (s, s1) = (e.storage, e1.storage);
            &&& up_to(
                in_charge(s, Role::SuperAdmin),
                e,
                result,
                e1,
                seq![
                    lives_on(DataKey::UserRole(account, role)),
                    Command::Publish(
                        Event::RoleAssigned { role, account, timestamp: e.timestamp },
                    ),
                ],
            )
            &&& result is Ok ==> {
                &&& designated(s, s1, role, account)
                &&& s1 == StorageView { roles: s1.roles, user_role: s1.user_role, ..s }
            }
        }),
{
}

/// An account that a role is revoked from is no longer designated for it and no longer
/// holds it, whoever else is designated stays so, and nothing else changes. Only the
/// super-admin's own role cannot be revoked by the super-admin.
pub proof fn law_role_is_revoked(e: InvocationView, account: Address, role: Role)
    ensures
        ({
            let (result, e1) = revoke_outcome(e, account, role);
            let (s, s1) = (e.storage, e1.storage);
            let caller = in_charge(s, Role::SuperAdmin);
            &&& role == Role::SuperAdmin && caller == Some(account) ==> {
                &&& result == Err::<(), Error>(Error::InvalidRole)
                &&& s1 == s
                &&& told(e, e1, seq![Command::RequireAuth(account)])
            }
            &&& role != Role::SuperAdmin || caller != Some(account) ==> up_to(
                caller,
                e,
                result,
                e1,
                seq![
                    Command::Publish(Event::RoleRevoked { role, account, timestamp: e.timestamp }),
                ],
            )
            &&& result is Ok ==> {
                &&& s1.user_role.get(Membership { account, role }) == Some(false)
                &&& forall|m: Membership|
                    m != (Membership { account, role }) ==> #[trigger] s1.user_role.get(m)
                        == s.user_role.get(m)
                &&& s.roles.get(role) == Some(account) ==> s1.roles.get(role) is None
                &&& s.roles.get(role) != Some(account) ==> s1.roles.get(role) == s.roles.get(role)
                &&& forall|r: Role| r != role ==> #[trigger] s1.roles.get(r) == s.roles.get(r)
                &&& s1 == StorageView { roles: s1.roles, user_role: s1.user_role, ..s }
            }
        }),
{
}

/// A new admin is admin and designated super-admin, and nothing else changes. While
/// there is no admin nobody is asked; from then on, whoever is super-admin.
pub proof fn law_admin_is_set(e: InvocationView, new_admin: Address)
    ensures
        ({
            let (result, e1) = set_admin_outcome(e, new_admin);
            let (s, s1) = (e.storage, e1.storage);
            let rest = seq![
                lives_on(DataKey::UserRole(new_admin, Role::SuperAdmin)),
                instance_lives_on(),
            ];
            &&& result == Ok::<(), Error>(())
            &&& s.admin is None ==> told(e, e1, rest)
            &&& s.admin is Some ==> up_to(in_charge(s, Role::SuperAdmin), e, result, e1, rest)
            &&& s1.admin == Some(new_admin)
            &&& designated(s, s1, Role::SuperAdmin, new_admin)
            &&& s1 == StorageView {
                admin: s1.admin,
                roles: s1.roles,
                user_role: s1.user_role,
                ..s
            }
        }),
{
}

/// A transfer of admin rights makes the new admin admin and designated super-admin,
/// takes the super-admin role from whoever was in charge of it, and changes nothing
/// else.
pub proof fn law_admin_is_transferred(e: InvocationView, new_admin: Address)
    ensures
        ({
            let (result, e1) = transfer_admin_outcome(e, new_admin);
            let (s, s1) = (e.storage, e1.storage);
            let caller = in_charge(s, Role::SuperAdmin);
            let old = Membership { account: caller->0, role: Role::SuperAdmin };
            let new = Membership { account: new_admin, role: Role::SuperAdmin };
            &&& up_to(
                caller,
                e,
                result,
                e1,
                seq![
                    lives_on(DataKey::UserRole(new_admin, Role::SuperAdmin)),
                    instance_lives_on(),
                ],
            )
            &&& result is Ok ==> {
                &&& s1.admin == Some(new_admin)
                &&& s1.roles.get(Role::SuperAdmin) == Some(new_admin)
                &&& forall|r: Role|
                    r != Role::SuperAdmin ==> #[trigger] s1.roles.get(r) == s.roles.get(r)
                &&& s1.user_role.get(new) == Some(true)
                &&& old != new ==> s1.user_role.get(old) == Some(false)
                &&& forall|m: Membership|
                    m != old && m != new ==> #[trigger] s1.user_role.get(m) == s.user_role.get(m)
                &&& s1 == StorageView {
                    admin: s1.admin,
                    roles: s1.roles,
                    user_role: s1.user_role,
                    ..s
                }
            }
        }),
{
}

// The timelock.

/// Queueing is refused while frozen and before there is an admin. Otherwise the action
/// is kept under the next number, with the time, and nothing else changes.
pub proof fn law_action_is_queued(e: InvocationView, action: ActionType)
    requires
        e.storage.frozen != Some(true) && e.storage.admin is Some ==> e.storage.nonce() < u64::MAX,
    ensures
        ({
            let (result, e1) = queue_outcome(e, action);
            let (s, s1) = (e.storage, e1.storage);
            let next = if s.timelock_nonce is Some {
                s.timelock_nonce->0 + 1
            } else {
                1
            };
            let nonce = next as u64;
            &&& s.frozen == Some(true) ==> {
                &&& result == Err::<u64, Error>(Error::ContractFrozen)
                &&& e1 == e
            }
            &&& s.frozen != Some(true) && s.admin is None ==> {
                &&& result == Err::<u64, Error>(Error::NotInitialized)
                &&& e1 == e
            }
            &&& s.frozen != Some(true) && s.admin is Some ==> {
                &&& result == Ok::<u64, Error>(nonce)
                &&& nonce == next
                &&& s1.timelock_nonce == Some(nonce)
                &&& s1.timelock_entries.get(nonce) == Some(
                    TimelockEntry { queued_at: e.timestamp, action },
                )
                &&& forall|n: u64|
                    n != nonce ==> #[trigger] s1.timelock_entries.get(n) == s.timelock_entries.get(
                        n,
                    )
                &&& s1 == StorageView {
                    timelock_nonce: s1.timelock_nonce,
                    timelock_entries: s1.timelock_entries,
                    ..s
                }
                &&& told(
                    e,
                    e1,
                    seq![
                        Command::RequireAuth(s.admin->0),
                        lives_on(DataKey::TimelockEntry(nonce)),
                        instance_lives_on(),
                        Command::Publish(
                            Event::ActionQueued {
                                admin: s.admin->0,
                                nonce,
                                queued_at: e.timestamp,
                            },
                        ),
                    ],
                )
            }
        }),
{
}

/// What an action is for: the entry that it names holds its argument, and every other
/// entry is as before. Only a new admin and new code are more than one setting.
pub open spec fn carried_out(s: StorageView, s1: StorageView, action: ActionType) -> bool {
    match action {
        ActionType::SetPlatformTreasury(treasury) => {
            &&& s1.platform_treasury == Some(treasury)
            &&& s1 == StorageView { platform_treasury: s1.platform_treasury, ..s }
        },
        ActionType::SetFeeConfig(fee_bps, fee_cap) => {
            &&& s1.fee_bps == Some(fee_bps)
            &&& s1.fee_cap == Some(fee_cap)
            &&& s1 == StorageView { fee_bps: s1.fee_bps, fee_cap: s1.fee_cap, ..s }
        },
        ActionType::SetFeeBps(fee_bps) => {
            &&& s1.fee_bps == Some(fee_bps)
            &&& s1 == StorageView { fee_bps: s1.fee_bps, ..s }
        },
        ActionType::SetGovernance(governance) => {
            &&& s1.governance == Some(governance)
            &&& s1 == StorageView { governance: s1.governance, ..s }
        },
        ActionType::SetMinLimit(min_limit) => {
            &&& s1.min_limit == Some(min_limit)
            &&& s1 == StorageView { min_limit: s1.min_limit, ..s }
        },
        ActionType::TransferAdmin(new_admin) => {
            &&& s1.admin == Some(new_admin)
            &&& designated(s, s1, Role::SuperAdmin, new_admin)
            &&& s1 == StorageView {
                admin: s1.admin,
                roles: s1.roles,
                user_role: s1.user_role,
                ..s
            }
        },
        ActionType::Upgrade(_) => s1 == s,
    }
}

/// Executing is refused while frozen, before there is an admin, when nothing is queued
/// under the number, and within 24 hours of queueing; nothing changes then. Otherwise
/// what was queued is carried out and is no longer queued, and what else is queued
/// stays.
pub proof fn law_action_is_executed(e: InvocationView, nonce: u64)
    ensures
        ({
            let (result, e1) = execute_outcome(e, nonce);
            let (s, s1) = (e.storage, e1.storage);
            let entry = s.timelock_entries[nonce];
            let asked = seq![Command::RequireAuth(s.admin->0)];
            let closing = seq![
                instance_lives_on(),
                Command::Publish(Event::ActionExecuted { admin: s.admin->0, nonce }),
            ];
            if s.frozen == Some(true) {
                result == Err::<(), Error>(Error::ContractFrozen) && e1 == e
            } else if s.admin is None {
                result == Err::<(), Error>(Error::NotInitialized) && e1 == e
            } else if !s.timelock_entries.contains_key(nonce) {
                &&& result == Err::<(), Error>(Error::TimelockNotFound)
                &&& s1 == s
                &&& told(e, e1, asked)
            } else if e.timestamp < entry.queued_at + 86_400 {
                &&& result == Err::<(), Error>(Error::TimelockNotReady)
                &&& s1 == s
                &&& told(e, e1, asked)
            } else {
                &&& result == Ok::<(), Error>(())
                &&& s1.timelock_entries.get(nonce) is None
                &&& forall|n: u64|
                    n != nonce ==> #[trigger] s1.timelock_entries.get(n) == s.timelock_entries.get(
                        n,
                    )
                &&& carried_out(
                    StorageView { timelock_entries: s1.timelock_entries, ..s },
                    s1,
                    entry.action,
                )
                &&& told(
                    e,
                    e1,
                    match entry.action {
                        ActionType::TransferAdmin(new_admin) => asked + seq![
                            lives_on(DataKey::UserRole(new_admin, Role::SuperAdmin)),
                        ] + closing,
                        ActionType::Upgrade(hash) => asked + seq![Command::UpdateWasm(hash)]
                            + closing,
                        _ => asked + closing,
                    },
                )
            }
        }),
{
}

/// Cancelling is refused before there is an admin and when nothing is queued under the
/// number, but not while frozen. Otherwise what was queued is no longer, what else is
/// queued stays, and nothing else changes.
pub proof fn law_action_is_cancelled(e: InvocationView, nonce: u64)
    ensures
        ({
            let (result, e1) = cancel_outcome(e, nonce);
            let (s, s1) = (e.storage, e1.storage);
            let asked = Command::RequireAuth(s.admin->0);
            if s.admin is None {
                result == Err::<(), Error>(Error::NotInitialized) && e1 == e
            } else if !s.timelock_entries.contains_key(nonce) {
                &&& result == Err::<(), Error>(Error::TimelockNotFound)
                &&& s1 == s
                &&& told(e, e1, seq![asked])
            } else {
                &&& result == Ok::<(), Error>(())
                &&& s1.timelock_entries.get(nonce) is None
                &&& forall|n: u64|
                    n != nonce ==> #[trigger] s1.timelock_entries.get(n) == s.timelock_entries.get(
                        n,
                    )
                &&& s1 == StorageView { timelock_entries: s1.timelock_entries, ..s }
                &&& told(
                    e,
                    e1,
                    seq![
                        asked,
                        Command::Publish(Event::ActionCancelled { admin: s.admin->0, nonce }),
                    ],
                )
            }
        }),
{
}

/// Freezing and unfreezing put the switch where they say, and change nothing else.
pub proof fn law_freeze_is_set(e: InvocationView)
    ensures
        ({
            let (result, e1) = freeze_outcome(e);
            let caller = in_charge(e.storage, Role::SuperAdmin);
            &&& up_to(
                caller,
                e,
                result,
                e1,
                seq![
                    instance_lives_on(),
                    Command::Publish(
                        Event::EmergencyFreeze { super_admin: caller->0, timestamp: e.timestamp },
                    ),
                ],
            )
            &&& result is Ok ==> {
                &&& e1.storage.frozen == Some(true)
                &&& e1.storage == StorageView { frozen: e1.storage.frozen, ..e.storage }
            }
        }),
        ({
            let (result, e1) = unfreeze_outcome(e);
            let caller = in_charge(e.storage, Role::SuperAdmin);
            &&& up_to(
                caller,
                e,
                result,
                e1,
                seq![
                    instance_lives_on(),
                    Command::Publish(
                        Event::Unfreeze { super_admin: caller->0, timestamp: e.timestamp },
                    ),
                ],
            )
            &&& result is Ok ==> {
                &&& e1.storage.frozen == Some(false)
                &&& e1.storage == StorageView { frozen: e1.storage.frozen, ..e.storage }
            }
        }),
{
}

/// An upgrade installs the code that it names, and changes no entry.
pub proof fn law_code_is_upgraded(e: InvocationView, hash: [u8; 32])
    ensures
        ({
            let (result, e1) = upgrade_outcome(e, hash);
            &&& up_to(
                in_charge(e.storage, Role::SuperAdmin),
                e,
                result,
                e1,
                seq![Command::UpdateWasm(hash)],
            )
            &&& e1.storage == e.storage
        }),
{
}

// Yield.

/// The lending protocol that was set is the one that holds, and nothing else changes.
pub proof fn law_protocol_is_set(e: InvocationView, protocol: Address)
    ensures
        ({
            let (result, e1) = protocol_outcome(e, protocol);
            let (s, s1) = (e.storage, e1.storage);
            &&& up_to(
                in_charge(s, Role::TreasuryManager),
                e,
                result,
                e1,
                seq![
                    instance_lives_on(),
                    Command::Publish(Event::YieldConfigured { protocol }),
                ],
            )
            &&& result is Ok ==> {
                &&& s1.yield_protocol == Some(protocol)
                &&& s1 == StorageView { yield_protocol: s1.yield_protocol, ..s }
            }
        }),
{
}

/// A deposit moves exactly its amount from the treasury to the lending protocol, once,
/// whatever was lent before, and the principal grows by as much. It is refused, in this
/// order, if it is not positive, if there is no one to authorize it, and if the treasury
/// or the protocol is not known; then nothing is moved and nothing changes.
pub proof fn law_deposit_is_exact(e: InvocationView, token: Address, amount: i128)
    requires
        amount > 0 && in_charge(e.storage, Role::TreasuryManager) is Some
            && e.storage.platform_treasury is Some && e.storage.yield_protocol is Some
            ==> fits_i128(e.storage.principal(token) + amount),
    ensures
        ({
            let (result, e1) = deposit_outcome(e, token, amount);
            let (s, s1) = (e.storage, e1.storage);
            let manager = in_charge(s, Role::TreasuryManager);
            let treasury = s.platform_treasury->0;
            if amount <= 0 {
                result == Err::<(), Error>(Error::InvalidYieldAmount) && e1 == e
            } else if manager is None {
                result == Err::<(), Error>(Error::NotInitialized) && e1 == e
            } else if s.platform_treasury is None {
                &&& result == Err::<(), Error>(Error::NotInitialized)
                &&& s1 == s
                &&& told(e, e1, seq![Command::RequireAuth(manager->0)])
            } else if s.yield_protocol is None {
                &&& result == Err::<(), Error>(Error::YieldProtocolNotConfigured)
                &&& s1 == s
                &&& told(
                    e,
                    e1,
                    seq![Command::RequireAuth(manager->0), Command::RequireAuth(treasury)],
                )
            } else {
                &&& result == Ok::<(), Error>(())
                &&& told(
                    e,
                    e1,
                    seq![
                        Command::RequireAuth(manager->0),
                        Command::RequireAuth(treasury),
                        Command::Deposit {
                            protocol: s.yield_protocol->0,
                            from: treasury,
                            token,
                            amount,
                        },
                        lives_on(DataKey::YieldPrincipal(token)),
                        Command::Publish(Event::YieldDeposited { token, amount }),
                    ],
                )
                &&& s1.yield_principal.contains_key(token)
                &&& s1.yield_principal[token] == amount + if s.yield_principal.contains_key(
                    token,
                ) {
                    s.yield_principal[token] as int
                } else {
                    0
                }
                &&& forall|t: Address|
                    t != token ==> #[trigger] s1.yield_principal.get(t) == s.yield_principal.get(t)
                &&& s1 == StorageView { yield_principal: s1.yield_principal, ..s }
            }
        }),
{
}

/// Taking back moves exactly the amount from the lending protocol to the treasury, once,
/// and the principal shrinks by as much; nothing is kept of a principal that is used up.
/// It is refused, in this order, if the amount is not positive or not covered, if there is
/// no one to authorize it, and if the treasury or the protocol is not known; then nothing
/// is moved and nothing changes.
pub proof fn law_taking_back_is_exact(e: InvocationView, token: Address, amount: i128)
    ensures
        ({
            let (result, e1) = take_back_outcome(e, token, amount);
            let (s, s1) = (e.storage, e1.storage);
            let manager = in_charge(s, Role::TreasuryManager);
            let lent = if s.yield_principal.contains_key(token) {
                s.yield_principal[token] as int
            } else {
                0
            };
            if amount <= 0 || amount > lent {
                result == Err::<(), Error>(Error::InvalidYieldAmount) && e1 == e
            } else if manager is None {
                result == Err::<(), Error>(Error::NotInitialized) && e1 == e
            } else if s.platform_treasury is None {
                &&& result == Err::<(), Error>(Error::NotInitialized)
                &&& s1 == s
                &&& told(e, e1, seq![Command::RequireAuth(manager->0)])
            } else if s.yield_protocol is None {
                &&& result == Err::<(), Error>(Error::YieldProtocolNotConfigured)
                &&& s1 == s
                &&& told(e, e1, seq![Command::RequireAuth(manager->0)])
            } else {
                let moved = seq![
                    Command::RequireAuth(manager->0),
                    Command::Withdraw {
                        protocol: s.yield_protocol->0,
                        to: s.platform_treasury->0,
                        token,
                        amount,
                    },
                ];
                let announced = seq![Command::Publish(Event::YieldWithdrawn { token, amount })];
                &&& result == Ok::<(), Error>(())
                &&& amount == lent ==> {
                    &&& s1.yield_principal.get(token) is None
                    &&& told(e, e1, moved + announced)
                }
                &&& amount < lent ==> {
                    &&& s1.yield_principal.contains_key(token)
                    &&& s1.yield_principal[token] == lent - amount
                    &&& told(
                        e,
                        e1,
                        moved + seq![lives_on(DataKey::YieldPrincipal(token))] + announced,
                    )
                }
                &&& forall|t: Address|
                    t != token ==> #[trigger] s1.yield_principal.get(t) == s.yield_principal.get(t)
                &&& s1 == StorageView { yield_principal: s1.yield_principal, ..s }
            }
        }),
{
}

/// A harvest is put to the lending protocol that is configured, for the token that was
/// asked for, in favour of the treasury. No entry changes.
pub proof fn law_harvest_goes_to_the_treasury(e: InvocationView, token: Address)
    ensures
        ({
            let (result, e1) = harvest_outcome(e, token);
            let s = e.storage;
            let manager = in_charge(s, Role::TreasuryManager);
            &&& e1.storage == s
            &&& if manager is None {
                result == Err::<Harvest, Error>(Error::NotInitialized) && e1 == e
            } else {
                &&& told(e, e1, seq![Command::RequireAuth(manager->0)])
                &&& result == if s.platform_treasury is None {
                    Err::<Harvest, Error>(Error::NotInitialized)
                } else if s.yield_protocol is None {
                    Err(Error::YieldProtocolNotConfigured)
                } else {
                    Ok(
                        Harvest {
                            protocol: s.yield_protocol->0,
                            treasury: s.platform_treasury->0,
                            token,
                        },
                    )
                }
            }
        }),
{
}

/// Recovered tokens go, in exactly the amount that was asked for, from the contract to
/// the treasury manager. No entry changes.
pub proof fn law_recovery_is_exact(e: InvocationView, token: Address, amount: i128)
    ensures
        ({
            let (result, e1) = recover_outcome(e, token, amount);
            let manager = in_charge(e.storage, Role::TreasuryManager);
            &&& e1.storage == e.storage
            &&& up_to(
                manager,
                e,
                result,
                e1,
                seq![Command::Transfer { token, from: e.contract, to: manager->0, amount }],
            )
        }),
{
}

// Refunds.

/// What the contract holds in `token` for `user`, read from the entry.
pub open spec fn held(s: StorageView, user: Address, token: Address) -> int {
    let key = UserToken { user, token };
    if s.refund_balance.contains_key(key) {
        s.refund_balance[key] as int
    } else {
        0
    }
}

/// A credit adds exactly its amount to the user's balance in the token, and is announced.
/// No other balance, and no other entry, changes.
pub proof fn law_credit_is_exact(e: InvocationView, user: Address, token: Address, amount: i128)
    requires
        fits_i128(e.storage.refund(user, token) + amount),
    ensures
        ({
            let e1 = credited(e, user, token, amount);
            let (s, s1) = (e.storage, e1.storage);
            let key = UserToken { user, token };
            &&& s1.refund_balance.contains_key(key)
            &&& held(s1, user, token) == held(s, user, token) + amount
            &&& forall|k: UserToken|
                k != key ==> #[trigger] s1.refund_balance.get(k) == s.refund_balance.get(k)
            &&& s1 == StorageView { refund_balance: s1.refund_balance, ..s }
            &&& told(
                e,
                e1,
                seq![
                    lives_on(DataKey::RefundBalance(user, token)),
                    Command::Publish(Event::Refunded { user, token, amount }),
                ],
            )
        }),
{
}

/// `amount` is paid out of the user's balance: exactly as much leaves the contract for
/// the user, and nothing is kept of a balance that is used up.
pub open spec fn pays_out(
    e: InvocationView,
    e1: InvocationView,
    user: Address,
    token: Address,
    amount: i128,
) -> bool {
    let (s, s1) = (e.storage, e1.storage);
    let key = UserToken { user, token };
    let asked = seq![Command::RequireAuth(user)];
    let moved = seq![
        Command::Transfer { token, from: e.contract, to: user, amount },
        Command::Publish(Event::Withdrawn { user, token, amount }),
    ];
    &&& amount == held(s, user, token) ==> {
        &&& s1.refund_balance.get(key) is None
        &&& told(e, e1, asked + moved)
    }
    &&& amount < held(s, user, token) ==> {
        &&& s1.refund_balance.contains_key(key)
        &&& held(s1, user, token) == held(s, user, token) - amount
        &&& told(e, e1, asked + seq![lives_on(DataKey::RefundBalance(user, token))] + moved)
    }
    &&& forall|k: UserToken|
        k != key ==> #[trigger] s1.refund_balance.get(k) == s.refund_balance.get(k)
    &&& s1 == StorageView { refund_balance: s1.refund_balance, ..s }
}

/// A withdrawal succeeds exactly if its amount is positive and covered, and then pays out
/// that amount; a claim succeeds exactly if there is a balance, and then pays out all of
/// it. Otherwise nothing is moved and nothing changes. The user is asked first.
pub proof fn law_refunds_are_paid_out(
    e: InvocationView,
    user: Address,
    token: Address,
    amount: i128,
)
    ensures
        ({
            let (result, e1) = withdraw_outcome(e, user, token, amount);
            if 0 < amount <= held(e.storage, user, token) {
                result == Ok::<(), Error>(()) && pays_out(e, e1, user, token, amount)
            } else {
                &&& result == Err::<(), Error>(Error::NoRefundAvailable)
                &&& e1.storage == e.storage
                &&& told(e, e1, seq![Command::RequireAuth(user)])
            }
        }),
        ({
            let (result, e1) = claim_outcome(e, user, token);
            let balance = held(e.storage, user, token);
            if balance > 0 {
                &&& result == Ok::<i128, Error>(balance as i128)
                &&& pays_out(e, e1, user, token, balance as i128)
            } else {
                &&& result == Err::<i128, Error>(Error::NoRefundAvailable)
                &&& e1.storage == e.storage
                &&& told(e, e1, seq![Command::RequireAuth(user)])
            }
        }),
{
}

} // verus!
