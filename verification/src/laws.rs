//! Laws that hold across several operations of the contract.

use vstd::prelude::*;
use crate::config::{
    blacklist_outcome, fee_bps_outcome, fees_outcome, governance_outcome, kyc_outcome,
    min_limit_outcome, pause_outcome, treasury_outcome, unblacklist_outcome,
};
use crate::fees::fits_i128;
use crate::invocation::{Command, Event, InvocationView, StorageView};
use crate::refunds::{claim_outcome, withdraw_outcome};
use crate::roles::{
    assign_outcome, initialize_outcome, revoke_outcome, set_admin_outcome, transfer_admin_outcome,
};
use crate::router::PaymentRouter;
use crate::routing::{credited, kyc_rule, objection, opened, Phase};
use crate::table::UserToken;
use crate::timelock::{
    applied, cancel_outcome, dropped, execute_outcome, freeze_outcome, queue_outcome,
    unfreeze_outcome, upgrade_outcome,
};
use crate::treasury::{
    deposit_outcome, harvest_outcome, protocol_outcome, recover_outcome, take_back_outcome, Harvest,
};
use crate::types::{ActionType, Address, Error, Payment, Role, TimelockEntry};

verus! {

/// A new invocation on the ledger entries that `e` left behind.
pub open spec fn later(e: InvocationView, timestamp: u64) -> InvocationView {
    InvocationView { timestamp, commands: Seq::empty(), ..e }
}

// The ledger entries.

/// A contract that nothing was ever written to is well-formed.
pub proof fn law_blank_is_well_formed(now: u64)
    ensures
        StorageView::blank().wf(now),
{
}

/// Well-formed ledger entries stay well-formed while time passes.
pub proof fn law_time_keeps_entries_well_formed(s: StorageView, now: u64, then: u64)
    requires
        s.wf(now),
        now <= then,
    ensures
        s.wf(then),
{
    assert(s.spending_in_limits(then));
    assert(s.timelock_in_order(then));
}

/// Before there is an admin nobody can act for a role or change fees, there is
/// no fee configuration, and every protected operation is refused.
pub proof fn law_nothing_works_before_initialization(e: InvocationView)
    requires
        e.wf(),
        e.storage.admin is None,
    ensures
        e.storage.fee_terms() is None,
        forall|role: Role| #[trigger] e.storage.holder(role) is None,
        forall|bps: i128| #[trigger]
            fee_bps_outcome(e, bps) == (Err::<(), Error>(Error::NotInitialized), e),
        forall|bps: i128, cap: i128| #[trigger]
            fees_outcome(e, bps, cap) == (Err::<(), Error>(Error::NotInitialized), e),
        forall|a: Address| #[trigger]
            treasury_outcome(e, a) == (Err::<(), Error>(Error::NotInitialized), e),
        forall|a: Address| #[trigger]
            governance_outcome(e, a) == (Err::<(), Error>(Error::NotInitialized), e),
        forall|b: bool| #[trigger]
            pause_outcome(e, b) == (Err::<(), Error>(Error::NotInitialized), e),
        forall|a: Address, role: Role| #[trigger]
            assign_outcome(e, a, role) == (Err::<(), Error>(Error::NotInitialized), e),
        forall|a: Address| #[trigger]
            transfer_admin_outcome(e, a) == (Err::<(), Error>(Error::NotInitialized), e),
        forall|a: Address| #[trigger]
            protocol_outcome(e, a) == (Err::<(), Error>(Error::NotInitialized), e),
        forall|token: Address, amount: i128| #[trigger]
            recover_outcome(e, token, amount) == (Err::<(), Error>(Error::NotInitialized), e),
        forall|hash: [u8; 32]| #[trigger]
            upgrade_outcome(e, hash) == (Err::<(), Error>(Error::NotInitialized), e),
        forall|limit: i128| #[trigger]
            min_limit_outcome(e, limit) == (Err::<(), Error>(Error::NotInitialized), e),
        forall|a: Address| #[trigger]
            blacklist_outcome(e, a) == (Err::<(), Error>(Error::NotInitialized), e),
        forall|a: Address| #[trigger]
            unblacklist_outcome(e, a) == (Err::<(), Error>(Error::NotInitialized), e),
        forall|a: Address, threshold: i128| #[trigger]
            kyc_outcome(e, a, threshold).0 is Err && kyc_outcome(e, a, threshold).1 == e,
        forall|a: Address, role: Role| #[trigger]
            revoke_outcome(e, a, role) == (Err::<(), Error>(Error::NotInitialized), e),
        forall|action: ActionType| #[trigger]
            queue_outcome(e, action).0 is Err && queue_outcome(e, action).1 == e,
        forall|nonce: u64| #[trigger]
            execute_outcome(e, nonce).0 is Err && execute_outcome(e, nonce).1 == e,
        forall|nonce: u64| #[trigger]
            cancel_outcome(e, nonce) == (Err::<(), Error>(Error::NotInitialized), e),
        forall|token: Address, amount: i128| #[trigger]
            deposit_outcome(e, token, amount).0 is Err && deposit_outcome(e, token, amount).1 == e,
        forall|token: Address, amount: i128| #[trigger]
            take_back_outcome(e, token, amount).0 is Err && take_back_outcome(e, token, amount).1
                == e,
        forall|token: Address| #[trigger]
            harvest_outcome(e, token) == (Err::<Harvest, Error>(Error::NotInitialized), e),
        freeze_outcome(e) == (Err::<(), Error>(Error::NotInitialized), e),
        unfreeze_outcome(e) == (Err::<(), Error>(Error::NotInitialized), e),
{
    assert(forall|role: Role| !(#[trigger] e.storage.roles.contains_key(role)));
}

// Roles.

/// Initialization gives every role to the admin, sets the fee configuration and
/// the largest payment, and works only once.
pub proof fn law_initialization(
    e: InvocationView,
    admin: Address,
    treasury: Address,
    fee_bps: i128,
    fee_cap: i128,
    max_amount: i128,
)
    requires
        e.storage.admin is None,
    ensures
        ({
            let (result, e1) = initialize_outcome(
                e,
                admin,
                treasury,
                fee_bps,
                fee_cap,
                max_amount,
            );
            &&& result == Ok::<(), Error>(())
            &&& e1.storage.admin == Some(admin)
            &&& forall|role: Role| #[trigger] e1.storage.holder(role) == Some(admin)
            &&& forall|role: Role| #[trigger] e1.storage.member(admin, role)
            &&& e1.storage.fee_terms() is Some
            &&& e1.storage.fee_terms()->0.platform_treasury == treasury
            &&& e1.storage.fee_terms()->0.fee_bps == fee_bps
            &&& e1.storage.fee_terms()->0.fee_cap == fee_cap
            &&& e1.storage.largest_payment() == max_amount
            &&& !e1.storage.is_paused()
            &&& !e1.storage.is_frozen()
            &&& forall|a: Address, t: Address, bps: i128, cap: i128, max: i128| #[trigger]
                initialize_outcome(e1, a, t, bps, cap, max) == (
                    Err::<(), Error>(Error::AlreadyInitialized),
                    e1,
                )
        }),
{
    let e1 = initialize_outcome(e, admin, treasury, fee_bps, fee_cap, max_amount).1;
    assert forall|role: Role| #[trigger] e1.storage.holder(role) == Some(admin) by {
        match role {
            Role::SuperAdmin => {},
            Role::TreasuryManager => {},
            Role::ComplianceOfficer => {},
            Role::FeeManager => {},
        }
    }
    assert forall|role: Role| #[trigger] e1.storage.member(admin, role) by {
        match role {
            Role::SuperAdmin => {},
            Role::TreasuryManager => {},
            Role::ComplianceOfficer => {},
            Role::FeeManager => {},
        }
    }
}

/// An account that a role is assigned to holds it and acts for it, and the other
/// roles stay with whoever acts for them.
pub proof fn law_assigned_role_is_held(e: InvocationView, account: Address, role: Role)
    requires
        assign_outcome(e, account, role).0 is Ok,
    ensures
        assign_outcome(e, account, role).1.storage.member(account, role),
        assign_outcome(e, account, role).1.storage.holder(role) == Some(account),
        forall|other: Role|
            other != role ==> #[trigger] assign_outcome(e, account, role).1.storage.holder(other)
                == e.storage.holder(other),
{
}

/// An account that a role is revoked from no longer holds it, and whoever else
/// holds a role keeps it.
pub proof fn law_revoked_role_is_lost(e: InvocationView, account: Address, role: Role)
    requires
        revoke_outcome(e, account, role).0 is Ok,
    ensures
        !revoke_outcome(e, account, role).1.storage.member(account, role),
        forall|a: Address, r: Role|
            a != account || r != role ==> #[trigger] revoke_outcome(
                e,
                account,
                role,
            ).1.storage.member(a, r) == e.storage.member(a, r),
{
}

/// No revocation takes the super-admin's place away: the contract is never
/// left without one.
pub proof fn law_super_admin_survives_revocation(e: InvocationView, account: Address, role: Role)
    ensures
        revoke_outcome(e, account, role).1.storage.holder(Role::SuperAdmin) == e.storage.holder(
            Role::SuperAdmin,
        ),
        e.storage.holder(Role::SuperAdmin) == Some(account) && role == Role::SuperAdmin
            ==> revoke_outcome(e, account, role).0 == Err::<(), Error>(Error::InvalidRole),
{
}

/// Assigning a role and revoking it again takes it away from the account; if
/// nobody else had been designated, the role falls back to the admin.
pub proof fn law_revoking_undoes_assigning(e: InvocationView, account: Address, role: Role)
    requires
        role != Role::SuperAdmin,
        assign_outcome(e, account, role).0 is Ok,
    ensures
        ({
            let e1 = assign_outcome(e, account, role).1;
            let (result, e2) = revoke_outcome(e1, account, role);
            &&& result == Ok::<(), Error>(())
            &&& !e2.storage.member(account, role)
            &&& e2.storage.holder(role) == e.storage.admin
        }),
{
}

/// After a transfer of admin rights the new admin is admin and super-admin, and
/// the old super-admin no longer holds that role.
pub proof fn law_transferred_admin(e: InvocationView, new_admin: Address)
    requires
        transfer_admin_outcome(e, new_admin).0 is Ok,
    ensures
        ({
            let s = transfer_admin_outcome(e, new_admin).1.storage;
            let before = e.storage.holder(Role::SuperAdmin)->0;
            &&& s.admin == Some(new_admin)
            &&& s.holder(Role::SuperAdmin) == Some(new_admin)
            &&& s.member(new_admin, Role::SuperAdmin)
            &&& before != new_admin ==> !s.member(before, Role::SuperAdmin)
        }),
{
}

/// An admin that is set, directly or through the timelock, is also the
/// super-admin.
pub proof fn law_admin_is_super_admin(e: InvocationView, new_admin: Address)
    ensures
        ({
            let s = set_admin_outcome(e, new_admin).1.storage;
            &&& s.admin == Some(new_admin)
            &&& s.holder(Role::SuperAdmin) == Some(new_admin)
        }),
        ({
            let s = applied(e, ActionType::TransferAdmin(new_admin)).storage;
            &&& s.admin == Some(new_admin)
            &&& s.holder(Role::SuperAdmin) == Some(new_admin)
        }),
{
}

/// Once a governance contract is set, it alone can change fees: it is the one
/// asked to authorize, whoever the fee manager is.
pub proof fn law_governance_takes_over_fees(
    e: InvocationView,
    governance: Address,
    fee_bps: i128,
    fee_cap: i128,
)
    requires
        governance_outcome(e, governance).0 is Ok,
    ensures
        ({
            let e1 = governance_outcome(e, governance).1;
            &&& fee_bps_outcome(e1, fee_bps).1.commands[e1.commands.len() as int]
                == Command::RequireAuth(governance)
            &&& fees_outcome(e1, fee_bps, fee_cap).1.commands[e1.commands.len() as int]
                == Command::RequireAuth(governance)
        }),
{
}

/// Fees that were set are the fees that are charged from then on.
pub proof fn law_fees_take_effect(e: InvocationView, fee_bps: i128, fee_cap: i128)
    requires
        fees_outcome(e, fee_bps, fee_cap).0 is Ok,
        e.storage.fee_terms() is Some,
    ensures
        ({
            let s = fees_outcome(e, fee_bps, fee_cap).1.storage;
            &&& s.fee_terms() is Some
            &&& s.fee_terms()->0.fee_bps == fee_bps
            &&& s.fee_terms()->0.fee_cap == fee_cap
            &&& s.fee_terms()->0.platform_treasury == e.storage.fee_terms()->0.platform_treasury
        }),
{
}

// Switches.

/// A blacklisted recipient is refused every payment, until it is taken off the
/// blacklist again.
pub proof fn law_blacklist(e: InvocationView, p: Payment)
    requires
        e.storage.holder(Role::ComplianceOfficer) is Some,
        p.sender != p.recipient,
    ensures
        ({
            let e1 = blacklist_outcome(e, p.recipient).1;
            let e2 = unblacklist_outcome(e1, p.recipient).1;
            &&& e1.storage.blacklisted(p.recipient)
            &&& objection(e1.storage, p) == Some(Error::Blacklisted)
            &&& !e2.storage.blacklisted(p.recipient)
            &&& objection(e2.storage, p) != Some(Error::Blacklisted)
            &&& !e.storage.blacklist.contains_key(p.recipient) ==> e2.storage == e.storage
        }),
{
    let e2 = unblacklist_outcome(blacklist_outcome(e, p.recipient).1, p.recipient).1;
    if !e.storage.blacklist.contains_key(p.recipient) {
        assert(e2.storage.blacklist =~= e.storage.blacklist);
    }
}

/// A paused contract refuses every payment, and lifting the pause ends that.
pub proof fn law_pause(e: InvocationView, payments: Seq<Payment>)
    requires
        e.storage.holder(Role::ComplianceOfficer) is Some,
        !e.storage.is_frozen(),
    ensures
        ({
            let e1 = pause_outcome(e, true).1;
            let e2 = pause_outcome(e1, false).1;
            &&& opened(e1, payments).0.phase == Phase::Finished(Err(Error::Paused))
            &&& opened(e1, payments).1 == e1
            &&& !e2.storage.is_paused()
            &&& e2.storage == StorageView { paused: Some(false), ..e.storage }
        }),
{
}

/// Above the KYC threshold the oracle decides; up to it nobody is asked.
pub proof fn law_kyc_threshold(e: InvocationView, oracle: Address, threshold: i128, amount: i128)
    requires
        kyc_outcome(e, oracle, threshold).0 is Ok,
    ensures
        kyc_rule(kyc_outcome(e, oracle, threshold).1.storage, amount) == (if amount <= threshold {
            Ok::<Option<Address>, Error>(None)
        } else {
            Ok(Some(oracle))
        }),
{
}

/// Until a KYC threshold is configured, no payment needs the oracle.
pub proof fn law_no_kyc_until_configured(s: StorageView, amount: i128)
    requires
        s.kyc_threshold is None,
    ensures
        kyc_rule(s, amount) == Ok::<Option<Address>, Error>(None),
{
}

/// Freezing works at once whenever there is an admin. While it lasts, nothing can
/// be queued or applied and no payment is made; what is queued can still be
/// cancelled. Unfreezing restores everything.
pub proof fn law_freeze(
    e: InvocationView,
    action: ActionType,
    nonce: u64,
    payments: Seq<Payment>,
    now: u64,
)
    requires
        e.storage.admin is Some,
    ensures
        freeze_outcome(e).0 == Ok::<(), Error>(()),
        ({
            let e1 = later(freeze_outcome(e).1, now);
            let e2 = unfreeze_outcome(e1).1;
            &&& queue_outcome(e1, action) == (Err::<u64, Error>(Error::ContractFrozen), e1)
            &&& execute_outcome(e1, nonce) == (Err::<(), Error>(Error::ContractFrozen), e1)
            &&& opened(e1, payments).0.phase == Phase::Finished(Err(Error::ContractFrozen))
            &&& opened(e1, payments).1 == e1
            &&& cancel_outcome(e1, nonce).0 == cancel_outcome(e, nonce).0
            &&& unfreeze_outcome(e1).0 == Ok::<(), Error>(())
            &&& e2.storage == StorageView { frozen: Some(false), ..e.storage }
        }),
{
}

// The timelock.

/// A queued action gets a nonce that names nothing else, and leaves the other
/// pending actions alone.
pub proof fn law_nonces_are_fresh(e: InvocationView, action: ActionType)
    requires
        e.wf(),
        e.storage.nonce() < u64::MAX,
        queue_outcome(e, action).0 is Ok,
    ensures
        ({
            let nonce = queue_outcome(e, action).0->Ok_0;
            let s = queue_outcome(e, action).1.storage;
            &&& nonce == e.storage.nonce() + 1
            &&& s.nonce() == nonce
            &&& !e.storage.timelock_entries.contains_key(nonce)
            &&& s.timelock_entries == e.storage.timelock_entries.insert(
                nonce,
                TimelockEntry { queued_at: e.timestamp, action },
            )
        }),
{
}

/// A nonce that was given out is never given out again.
pub proof fn law_nonces_are_not_reused(e: InvocationView, action: ActionType, used: u64)
    requires
        e.storage.nonce() < u64::MAX,
        used <= e.storage.nonce(),
    ensures
        queue_outcome(e, action).0 != Ok::<u64, Error>(used),
        queue_outcome(e, action).1.storage.timelock_entries.get(used)
            == e.storage.timelock_entries.get(used),
        used <= queue_outcome(e, action).1.storage.nonce(),
{
}

/// A queued action can be applied 24 hours after it was queued, and not a second
/// sooner.
pub proof fn law_timelock_delay(e: InvocationView, action: ActionType, then: InvocationView)
    requires
        e.storage.nonce() < u64::MAX,
        queue_outcome(e, action).0 is Ok,
        !then.storage.is_frozen(),
        then.storage.admin is Some,
        then.storage.timelock_entries.contains_key(queue_outcome(e, action).0->Ok_0),
        then.storage.timelock_entries[queue_outcome(e, action).0->Ok_0] == (TimelockEntry {
            queued_at: e.timestamp,
            action,
        }),
    ensures
        execute_outcome(then, queue_outcome(e, action).0->Ok_0).0 == (if then.timestamp
            >= e.timestamp + PaymentRouter::SECONDS_IN_24H {
            Ok::<(), Error>(())
        } else {
            Err(Error::TimelockNotReady)
        }),
{
}

/// A queued action that comes to be applied does what it says, once: its entry is
/// gone, and applying it again is refused.
pub proof fn law_queued_action_is_applied_once(
    e: InvocationView,
    action: ActionType,
    now: u64,
    again: u64,
)
    requires
        e.storage.nonce() < u64::MAX,
        queue_outcome(e, action).0 is Ok,
        now >= e.timestamp + PaymentRouter::SECONDS_IN_24H,
    ensures
        ({
            let nonce = queue_outcome(e, action).0->Ok_0;
            let e1 = later(queue_outcome(e, action).1, now);
            let (result, e2) = execute_outcome(e1, nonce);
            let e3 = later(e2, again);
            &&& result == Ok::<(), Error>(())
            &&& e2.storage == applied(dropped(e1, nonce), action).storage
            &&& !e2.storage.timelock_entries.contains_key(nonce)
            &&& execute_outcome(e3, nonce).0 == Err::<(), Error>(Error::TimelockNotFound)
        }),
{
}

/// A cancelled action can never be applied: its entry is gone, and everything
/// else is as before.
pub proof fn law_cancelled_action_is_never_applied(e: InvocationView, nonce: u64, now: u64)
    requires
        cancel_outcome(e, nonce).0 is Ok,
        !e.storage.is_frozen(),
    ensures
        ({
            let e1 = cancel_outcome(e, nonce).1;
            &&& e1.storage == StorageView {
                timelock_entries: e.storage.timelock_entries.remove(nonce),
                ..e.storage
            }
            &&& execute_outcome(later(e1, now), nonce).0 == Err::<(), Error>(
                Error::TimelockNotFound,
            )
        }),
{
}

/// Cancelling what was just queued leaves all as before, but for the counter.
pub proof fn law_cancel_undoes_queue(e: InvocationView, action: ActionType)
    requires
        e.wf(),
        e.storage.nonce() < u64::MAX,
        queue_outcome(e, action).0 is Ok,
    ensures
        ({
            let nonce = queue_outcome(e, action).0->Ok_0;
            let (result, e2) = cancel_outcome(queue_outcome(e, action).1, nonce);
            &&& result == Ok::<(), Error>(())
            &&& e2.storage == StorageView { timelock_nonce: Some(nonce), ..e.storage }
        }),
{
    let nonce = queue_outcome(e, action).0->Ok_0;
    let e2 = cancel_outcome(queue_outcome(e, action).1, nonce).1;
    assert(!e.storage.timelock_entries.contains_key(nonce));
    assert(e2.storage.timelock_entries =~= e.storage.timelock_entries);
}

// Refunds.

/// A withdrawal takes exactly its amount from the user's refund balance, pays it
/// to the user out of the contract, and touches no other balance.
pub proof fn law_withdrawal_is_exact(
    e: InvocationView,
    user: Address,
    token: Address,
    amount: i128,
)
    requires
        withdraw_outcome(e, user, token, amount).0 is Ok,
    ensures
        ({
            let e1 = withdraw_outcome(e, user, token, amount).1;
            &&& e1.storage.refund(user, token) == e.storage.refund(user, token) - amount
            &&& e1.storage.refund(user, token) >= 0
            &&& e1.commands.contains(
                Command::Transfer { token, from: e.contract, to: user, amount },
            )
            &&& e1.commands[e.commands.len() as int] == Command::RequireAuth(user)
            &&& forall|u: Address, t: Address|
                u != user || t != token ==> #[trigger] e1.storage.refund(u, t)
                    == e.storage.refund(u, t)
        }),
{
    let e1 = withdraw_outcome(e, user, token, amount).1;
    let n = e1.commands.len();
    assert(e1.commands[n - 2] == Command::Transfer { token, from: e.contract, to: user, amount });
}

/// Two withdrawals take as much as one withdrawal of their sum.
pub proof fn law_withdrawals_add_up(
    e: InvocationView,
    user: Address,
    token: Address,
    first: i128,
    second: i128,
)
    requires
        withdraw_outcome(e, user, token, first).0 is Ok,
        withdraw_outcome(withdraw_outcome(e, user, token, first).1, user, token, second).0 is Ok,
    ensures
        first + second <= e.storage.refund(user, token),
        withdraw_outcome(
            withdraw_outcome(e, user, token, first).1,
            user,
            token,
            second,
        ).1.storage == withdraw_outcome(e, user, token, (first + second) as i128).1.storage,
{
    let key = UserToken { user, token };
    let e1 = withdraw_outcome(e, user, token, first).1;
    let e2 = withdraw_outcome(e1, user, token, second).1;
    let at_once = withdraw_outcome(e, user, token, (first + second) as i128).1;
    assert(e2.storage.refund_balance =~= at_once.storage.refund_balance);
}

/// Claiming all is withdrawing the whole balance: it leaves nothing, and every
/// further withdrawal is refused.
pub proof fn law_claiming_empties_the_balance(
    e: InvocationView,
    user: Address,
    token: Address,
    amount: i128,
)
    requires
        claim_outcome(e, user, token).0 is Ok,
    ensures
        ({
            let balance = e.storage.refund(user, token);
            let (result, e1) = claim_outcome(e, user, token);
            &&& result == Ok::<i128, Error>(balance)
            &&& e1 == withdraw_outcome(e, user, token, balance).1
            &&& e1.storage.refund(user, token) == 0
            &&& withdraw_outcome(e1, user, token, amount).0 == Err::<(), Error>(
                Error::NoRefundAvailable,
            )
            &&& claim_outcome(e1, user, token).0 == Err::<i128, Error>(Error::NoRefundAvailable)
        }),
{
}

/// What is credited can be claimed back, and then all is as before the credit.
pub proof fn law_credit_can_be_claimed(
    e: InvocationView,
    user: Address,
    token: Address,
    amount: i128,
)
    requires
        amount > 0,
        !e.storage.refund_balance.contains_key(UserToken { user, token }),
    ensures
        ({
            let e1 = credited(e, user, token, amount);
            let (result, e2) = claim_outcome(e1, user, token);
            &&& e1.storage.refund(user, token) == amount
            &&& result == Ok::<i128, Error>(amount)
            &&& e2.storage == e.storage
        }),
{
    let e2 = claim_outcome(credited(e, user, token, amount), user, token).1;
    assert(e2.storage.refund_balance =~= e.storage.refund_balance);
}

// Yield.

/// Funds that were lent out can be taken back, and then all is as before.
pub proof fn law_taking_back_undoes_a_deposit(e: InvocationView, token: Address, amount: i128)
    requires
        e.wf(),
        fits_i128(e.storage.principal(token) + amount),
        deposit_outcome(e, token, amount).0 is Ok,
    ensures
        ({
            let e1 = deposit_outcome(e, token, amount).1;
            let (result, e2) = take_back_outcome(e1, token, amount);
            &&& e1.storage.principal(token) == e.storage.principal(token) + amount
            &&& result == Ok::<(), Error>(())
            &&& e2.storage == e.storage
        }),
{
    let e1 = deposit_outcome(e, token, amount).1;
    let e2 = take_back_outcome(e1, token, amount).1;
    if e.storage.yield_principal.contains_key(token) {
        assert(e.storage.yield_principal[token] > 0);
    }
    assert(e2.storage.yield_principal =~= e.storage.yield_principal);
}

/// No more can be taken back than was lent out, and the principal never turns
/// negative. The principal of other tokens stays.
pub proof fn law_principal_covers_withdrawals(e: InvocationView, token: Address, amount: i128)
    requires
        take_back_outcome(e, token, amount).0 is Ok,
    ensures
        ({
            let s = take_back_outcome(e, token, amount).1.storage;
            &&& 0 < amount <= e.storage.principal(token)
            &&& s.principal(token) == e.storage.principal(token) - amount
            &&& forall|t: Address|
                t != token ==> #[trigger] s.principal(t) == e.storage.principal(t)
        }),
{
}

/// A harvest leaves the principal, and every other ledger entry, as it is.
pub proof fn law_harvest_leaves_principal(e: InvocationView, token: Address)
    ensures
        harvest_outcome(e, token).1.storage == e.storage,
{
}

// Codes.

/// Errors, and roles, can be told apart by their numbers.
pub proof fn law_numbers_are_distinct(a: Error, b: Error, p: Role, q: Role)
    ensures
        a.number() == b.number() ==> a == b,
        p.number() == q.number() ==> p == q,
{
}

/// The numbers under which callers know the errors and the roles.
pub proof fn law_numbers()
    ensures
        Error::Unauthorized.number() == 1,
        Error::InsufficientBalance.number() == 2,
        Error::LimitExceeded.number() == 3,
        Error::AlreadyInitialized.number() == 4,
        Error::NotInitialized.number() == 5,
        Error::Paused.number() == 6,
        Error::InvalidFeeRate.number() == 7,
        Error::InvalidRecipient.number() == 8,
        Error::Blacklisted.number() == 9,
        Error::NoRefundAvailable.number() == 10,
        Error::TimelockPending.number() == 11,
        Error::TimelockNotReady.number() == 12,
        Error::TimelockNotFound.number() == 13,
        Error::ContractFrozen.number() == 14,
        Error::YieldProtocolNotConfigured.number() == 15,
        Error::InvalidYieldAmount.number() == 16,
        Error::KycRequired.number() == 17,
        Error::InvalidKycThreshold.number() == 18,
        Error::RoleNotFound.number() == 19,
        Error::InvalidRole.number() == 20,
        Role::SuperAdmin.number() == 1,
        Role::TreasuryManager.number() == 2,
        Role::ComplianceOfficer.number() == 3,
        Role::FeeManager.number() == 4,
{
}

/// The names under which listeners know the events.
pub proof fn law_event_names(event: Event)
    ensures
        event is PaymentInitiated ==> event.topic() == "payment_initiated"@,
        event is Routed ==> event.topic() == "routed"@,
        event is Refunded ==> event.topic() == "refunded"@,
        event is Withdrawn ==> event.topic() == "withdrawn"@,
        event is RoleAssigned ==> event.topic() == "role_assigned"@,
        event is RoleRevoked ==> event.topic() == "role_revoked"@,
        event is ActionQueued ==> event.topic() == "action_queued"@,
        event is ActionExecuted ==> event.topic() == "action_executed"@,
        event is ActionCancelled ==> event.topic() == "action_cancelled"@,
        event is EmergencyFreeze ==> event.topic() == "emergency_freeze"@,
        event is Unfreeze ==> event.topic() == "unfreeze"@,
        event is Pause ==> event.topic() == "pause"@,
        event is YieldConfigured ==> event.topic() == "yield_cfg"@,
        event is KycConfigured ==> event.topic() == "kyc_cfg"@,
        event is YieldDeposited ==> event.topic() == "yield_dep"@,
        event is YieldWithdrawn ==> event.topic() == "yield_wdr"@,
        event is YieldHarvested ==> event.topic() == "yield_har"@,
{
}

} // verus!
