//! Who may do what: initialization, the admin, and role-based access control.

use vstd::prelude::*;
use crate::invocation::{Event, Invocation, InvocationView, Outcome, StorageView};
use crate::router::PaymentRouter;
use crate::table::Membership;
use crate::types::{Address, DataKey, Error, Role};

verus! {

/// `account` becomes the designated member of `role`.
pub open spec fn role_set(e: InvocationView, role: Role, account: Address) -> InvocationView {
    e.store(e.storage.with_role(role, account)).extend_persistent(
        DataKey::UserRole(account, role),
    )
}

/// Installing an admin, who is also the super-admin, and configuring the contract,
/// keeps the ledger entries in order.
pub(crate) proof fn lemma_admin_keeps_wf(s: StorageView, t: StorageView, account: Address, now: u64)
    requires
        s.wf(now),
        t.admin is Some,
        t.user_spending == s.user_spending,
        t.user_volume == s.user_volume,
        t.refund_balance == s.refund_balance,
        t.yield_principal == s.yield_principal,
        t.timelock_entries == s.timelock_entries,
        t.timelock_nonce == s.timelock_nonce || s.admin is None,
        t.roles == s.roles,
        t.user_role == s.user_role,
        t.kyc_threshold == s.kyc_threshold,
        t.kyc_oracle == s.kyc_oracle,
    ensures
        t.with_role(Role::SuperAdmin, account).wf(now),
{
    let u = t.with_role(Role::SuperAdmin, account);
    assert forall|r: Role| #[trigger] u.roles.contains_key(r) implies u.user_role.get(
        Membership { account: u.roles[r], role: r },
    ) == Some(true) by {
        if r != Role::SuperAdmin {
            assert(s.roles.contains_key(r));
        }
    }
    assert(u.spending_in_limits(now));
    assert(u.balances_positive());
    assert(u.timelock_in_order(now));
}

/// Designating a member keeps the ledger entries in order.
pub(crate) proof fn lemma_with_role_keeps_wf(s: StorageView, role: Role, account: Address, now: u64)
    requires
        s.wf(now),
        s.admin is Some,
    ensures
        s.with_role(role, account).wf(now),
{
    let t = s.with_role(role, account);
    assert forall|r: Role| #[trigger] t.roles.contains_key(r) implies t.user_role.get(
        Membership { account: t.roles[r], role: r },
    ) == Some(true) by {
        if r != role {
            assert(s.roles.contains_key(r));
        }
    }
    assert(t.spending_in_limits(now));
    assert(t.timelock_in_order(now));
    assert(t.balances_positive());
}

/// `new_admin` becomes the admin and the designated super-admin.
pub open spec fn admin_set(e: InvocationView, new_admin: Address) -> InvocationView {
    role_set(
        e.store(StorageView { admin: Some(new_admin), ..e.storage }),
        Role::SuperAdmin,
        new_admin,
    )
}

/// The contract is set up: `admin` holds every role, routing is neither paused
/// nor frozen, and nothing is queued.
pub open spec fn initialized(
    e: InvocationView,
    admin: Address,
    platform_treasury: Address,
    fee_bps: i128,
    fee_cap: i128,
    max_amount: i128,
) -> InvocationView {
    let configured = e.store(
        StorageView {
            admin: Some(admin),
            platform_treasury: Some(platform_treasury),
            fee_bps: Some(fee_bps),
            fee_cap: Some(fee_cap),
            max_amount: Some(max_amount),
            paused: Some(false),
            frozen: Some(false),
            timelock_nonce: Some(0),
            ..e.storage
        },
    );
    role_set(
        role_set(
            role_set(
                role_set(configured, Role::SuperAdmin, admin),
                Role::TreasuryManager,
                admin,
            ),
            Role::ComplianceOfficer,
            admin,
        ),
        Role::FeeManager,
        admin,
    ).extend_instance()
}

/// Setting the contract up: refused once there is an admin.
pub open spec fn initialize_outcome(
    e: InvocationView,
    admin: Address,
    platform_treasury: Address,
    fee_bps: i128,
    fee_cap: i128,
    max_amount: i128,
) -> Outcome<()> {
    if e.storage.admin is Some {
        (Err(Error::AlreadyInitialized), e)
    } else {
        (
            Ok(()),
            initialized(
                e.authorized_by(admin),
                admin,
                platform_treasury,
                fee_bps,
                fee_cap,
                max_amount,
            ),
        )
    }
}

/// Assigning a role: refused only before there is an admin.
pub open spec fn assign_outcome(e: InvocationView, account: Address, role: Role) -> Outcome<()> {
    match e.storage.holder(Role::SuperAdmin) {
        None => (Err(Error::NotInitialized), e),
        Some(caller) => (
            Ok(()),
            role_set(e.authorized_by(caller), role, account).announce(
                Event::RoleAssigned { role, account, timestamp: e.timestamp },
            ),
        ),
    }
}

/// Revoking a role: refused before there is an admin, and if the super-admin
/// would take its own role from itself.
pub open spec fn revoke_outcome(e: InvocationView, account: Address, role: Role) -> Outcome<()> {
    match e.storage.holder(Role::SuperAdmin) {
        None => (Err(Error::NotInitialized), e),
        Some(caller) => if role == Role::SuperAdmin && caller == account {
            (Err(Error::InvalidRole), e.authorized_by(caller))
        } else {
            (
                Ok(()),
                e.authorized_by(caller).store(e.storage.without_role(role, account)).announce(
                    Event::RoleRevoked { role, account, timestamp: e.timestamp },
                ),
            )
        },
    }
}

/// Installing an admin: never refused. Once there is an admin, the super-admin
/// has to authorize it.
pub open spec fn set_admin_outcome(e: InvocationView, new_admin: Address) -> Outcome<()> {
    let asked = if e.storage.admin is Some {
        e.authorized_by(e.storage.holder(Role::SuperAdmin)->0)
    } else {
        e
    };
    (Ok(()), admin_set(asked, new_admin).extend_instance())
}

/// Transferring admin rights: refused only before there is an admin.
pub open spec fn transfer_admin_outcome(e: InvocationView, new_admin: Address) -> Outcome<()> {
    match e.storage.holder(Role::SuperAdmin) {
        None => (Err(Error::NotInitialized), e),
        Some(caller) => (
            Ok(()),
            admin_set(
                e.authorized_by(caller).store(e.storage.without_role(Role::SuperAdmin, caller)),
                new_admin,
            ).extend_instance(),
        ),
    }
}

impl PaymentRouter {
    pub(crate) fn set_role_internal(env: &mut Invocation, role: Role, account: Address)
        ensures
            final(env)@ == role_set(old(env)@, role, account),
    {
        env.storage.roles.set(role, account);
        env.storage.user_role.set(Membership { account, role }, true);
        env.extend_persistent(DataKey::UserRole(account, role));
    }

    fn remove_role_internal(env: &mut Invocation, role: Role, account: Address)
        ensures
            final(env)@ == old(env)@.store(old(env)@.storage.without_role(role, account)),
    {
        match env.storage.roles.get(role) {
            Some(current) => {
                if current == account {
                    env.storage.roles.remove(role);
                }
            },
            None => {},
        }
        env.storage.user_role.set(Membership { account, role }, false);
    }

    /// The admin's address.
    pub(crate) fn require_admin(env: &Invocation) -> (admin: Result<Address, Error>)
        ensures
            admin == (match env@.storage.admin {
                Some(a) => Ok::<Address, Error>(a),
                None => Err(Error::NotInitialized),
            }),
    {
        match env.storage.admin {
            Some(admin) => Ok(admin),
            None => Err(Error::NotInitialized),
        }
    }

    /// Asks whoever acts for `role` to authorize: its designated member, or else
    /// the admin.
    pub(crate) fn require_role(env: &mut Invocation, role: Role) -> (holder: Result<
        Address,
        Error,
    >)
        ensures
            match old(env)@.storage.holder(role) {
                Some(a) => holder == Ok::<Address, Error>(a) && final(env)@ == old(
                    env,
                )@.authorized_by(a),
                None => holder == Err::<Address, Error>(Error::NotInitialized) && final(env)@
                    == old(env)@,
            },
    {
        let holder: Address = match env.storage.roles.get(role) {
            Some(member) => member,
            None => match Self::require_admin(env) {
                Ok(admin) => admin,
                Err(error) => {
                    return Err(error);
                },
            },
        };
        env.require_auth(holder);
        Ok(holder)
    }

    /// Asks whoever may change fees to authorize: the governance contract if it
    /// is set, otherwise the fee manager.
    pub(crate) fn require_fee_authority(env: &mut Invocation) -> (result: Result<(), Error>)
        ensures
            match old(env)@.storage.fee_authority() {
                Some(a) => result == Ok::<(), Error>(()) && final(env)@ == old(
                    env,
                )@.authorized_by(a),
                None => result == Err::<(), Error>(Error::NotInitialized) && final(env)@ == old(
                    env,
                )@,
            },
    {
        match env.storage.governance {
            Some(governance) => {
                env.require_auth(governance);
                Ok(())
            },
            None => match Self::require_role(env, Role::FeeManager) {
                Ok(_) => Ok(()),
                Err(error) => Err(error),
            },
        }
    }

    /// One-time setup: records the admin and the initial fee configuration, and
    /// gives every role to the admin.
    pub fn initialize(
        env: &mut Invocation,
        admin: Address,
        platform_treasury: Address,
        fee_bps: i128,
        fee_cap: i128,
        max_amount: i128,
    ) -> (result: Result<(), Error>)
        ensures
            (result, final(env)@) == initialize_outcome(
                old(env)@,
                admin,
                platform_treasury,
                fee_bps,
                fee_cap,
                max_amount,
            ),
            old(env)@.wf() ==> final(env)@.wf(),
    {
        if env.storage.admin.is_some() {
            return Err(Error::AlreadyInitialized);
        }
        env.require_auth(admin);

        env.storage.admin = Some(admin);
        env.storage.platform_treasury = Some(platform_treasury);
        env.storage.fee_bps = Some(fee_bps);
        env.storage.fee_cap = Some(fee_cap);
        env.storage.max_amount = Some(max_amount);
        env.storage.paused = Some(false);
        env.storage.frozen = Some(false);
        env.storage.timelock_nonce = Some(0);
        proof {
            if old(env)@.wf() {
                let now = env@.timestamp;
                let s0 = env@.storage;
                lemma_admin_keeps_wf(old(env)@.storage, s0, admin, now);
                let s1 = s0.with_role(Role::SuperAdmin, admin);
                lemma_with_role_keeps_wf(s1, Role::TreasuryManager, admin, now);
                let s2 = s1.with_role(Role::TreasuryManager, admin);
                lemma_with_role_keeps_wf(s2, Role::ComplianceOfficer, admin, now);
                let s3 = s2.with_role(Role::ComplianceOfficer, admin);
                lemma_with_role_keeps_wf(s3, Role::FeeManager, admin, now);
            }
        }

        Self::set_role_internal(env, Role::SuperAdmin, admin);
        Self::set_role_internal(env, Role::TreasuryManager, admin);
        Self::set_role_internal(env, Role::ComplianceOfficer, admin);
        Self::set_role_internal(env, Role::FeeManager, admin);

        env.extend_instance();
        Ok(())
    }

    /// Makes `account` the designated member of `role`. SuperAdmin-protected.
    pub fn assign_role(env: &mut Invocation, account: Address, role: Role) -> (result: Result<
        (),
        Error,
    >)
        ensures
            (result, final(env)@) == assign_outcome(old(env)@, account, role),
            old(env)@.wf() ==> final(env)@.wf(),
    {
        match Self::require_role(env, Role::SuperAdmin) {
            Err(error) => {
                return Err(error);
            },
            Ok(_) => {},
        }
        Self::set_role_internal(env, role, account);
        let timestamp: u64 = env.timestamp;
        env.announce(Event::RoleAssigned { role, account, timestamp });
        Ok(())
    }

    /// Takes `role` from `account`. SuperAdmin-protected; the super-admin cannot
    /// take its own role from itself.
    pub fn revoke_role(env: &mut Invocation, account: Address, role: Role) -> (result: Result<
        (),
        Error,
    >)
        ensures
            (result, final(env)@) == revoke_outcome(old(env)@, account, role),
            old(env)@.wf() ==> final(env)@.wf(),
    {
        let caller: Address = match Self::require_role(env, Role::SuperAdmin) {
            Err(error) => {
                return Err(error);
            },
            Ok(caller) => caller,
        };
        if role == Role::SuperAdmin && caller == account {
            return Err(Error::InvalidRole);
        }
        Self::remove_role_internal(env, role, account);
        let timestamp: u64 = env.timestamp;
        env.announce(Event::RoleRevoked { role, account, timestamp });
        Ok(())
    }

    /// Whether `account` holds `role`, by assignment or as its designated member.
    pub fn has_role(env: &Invocation, account: Address, role: Role) -> (b: bool)
        ensures
            b == env@.storage.member(account, role),
    {
        match env.storage.user_role.get(Membership { account, role }) {
            Some(has) => {
                if has {
                    return true;
                }
            },
            None => {},
        }
        match env.storage.roles.get(role) {
            Some(primary) => primary == account,
            None => false,
        }
    }

    /// The designated member of `role`, if there is one.
    pub fn get_role_member(env: &Invocation, role: Role) -> (member: Option<Address>)
        ensures
            member == env@.storage.roles.get(role),
    {
        env.storage.roles.get(role)
    }

    /// The role that governs `role`: `SuperAdmin` governs all of them.
    pub fn get_role_admin(_env: &Invocation, _role: Role) -> (admin: Role)
        ensures
            admin == Role::SuperAdmin,
    {
        Role::SuperAdmin
    }

    /// Installs a new admin. SuperAdmin-protected once there is an admin.
    pub fn set_admin(env: &mut Invocation, new_admin: Address) -> (result: Result<(), Error>)
        ensures
            (result, final(env)@) == set_admin_outcome(old(env)@, new_admin),
            old(env)@.wf() ==> final(env)@.wf(),
    {
        if env.storage.admin.is_some() {
            match Self::require_role(env, Role::SuperAdmin) {
                Err(error) => {
                    return Err(error);
                },
                Ok(_) => {},
            }
        }
        env.storage.admin = Some(new_admin);
        proof {
            if old(env)@.wf() {
                lemma_admin_keeps_wf(
                    old(env)@.storage,
                    env@.storage,
                    new_admin,
                    env@.timestamp,
                );
            }
        }
        Self::set_role_internal(env, Role::SuperAdmin, new_admin);
        env.extend_instance();
        Ok(())
    }

    /// Transfers admin rights: the current super-admin loses its role, and
    /// `new_admin` becomes admin and super-admin. SuperAdmin-protected.
    pub fn transfer_admin(env: &mut Invocation, new_admin: Address) -> (result: Result<(), Error>)
        ensures
            (result, final(env)@) == transfer_admin_outcome(old(env)@, new_admin),
            old(env)@.wf() ==> final(env)@.wf(),
    {
        let caller: Address = match Self::require_role(env, Role::SuperAdmin) {
            Err(error) => {
                return Err(error);
            },
            Ok(caller) => caller,
        };
        Self::remove_role_internal(env, Role::SuperAdmin, caller);
        env.storage.admin = Some(new_admin);
        Self::set_role_internal(env, Role::SuperAdmin, new_admin);
        env.extend_instance();
        Ok(())
    }
}

} // verus!
