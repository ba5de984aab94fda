//! The timelock on sensitive changes, and the emergency freeze.
//!
//! A change is queued, and can be applied no sooner than 24 hours later. Until
//! then it can be cancelled. The freeze takes effect at once: while it lasts,
//! nothing can be queued or applied, and no payment is routed.

use vstd::prelude::*;
use crate::invocation::{Command, Event, Invocation, InvocationView, Outcome, StorageView};
use crate::roles::admin_set;
use crate::router::PaymentRouter;
use crate::types::{ActionType, Address, DataKey, Error, Role, TimelockEntry};

verus! {

/// The earliest time at which an entry can be applied.
pub open spec fn ready_at(entry: TimelockEntry) -> int {
    entry.queued_at + PaymentRouter::SECONDS_IN_24H
}

/// What an action does when it is applied.
pub open spec fn applied(e: InvocationView, action: ActionType) -> InvocationView {
    match action {
        ActionType::SetPlatformTreasury(new_treasury) => e.store(
            StorageView { platform_treasury: Some(new_treasury), ..e.storage },
        ),
        ActionType::SetFeeConfig(fee_bps, fee_cap) => e.store(
            StorageView { fee_bps: Some(fee_bps), fee_cap: Some(fee_cap), ..e.storage },
        ),
        ActionType::SetFeeBps(fee_bps) => e.store(
            StorageView { fee_bps: Some(fee_bps), ..e.storage },
        ),
        ActionType::SetGovernance(governance) => e.store(
            StorageView { governance: Some(governance), ..e.storage },
        ),
        ActionType::SetMinLimit(min_limit) => e.store(
            StorageView { min_limit: Some(min_limit), ..e.storage },
        ),
        ActionType::TransferAdmin(new_admin) => admin_set(e, new_admin),
        ActionType::Upgrade(new_wasm_hash) => e.issue(Command::UpdateWasm(new_wasm_hash)),
    }
}

/// `action` is queued under the next nonce.
pub open spec fn queued(e: InvocationView, admin: Address, action: ActionType) -> InvocationView {
    let nonce = (e.storage.nonce() + 1) as u64;
    e.store(
        StorageView {
            timelock_nonce: Some(nonce),
            timelock_entries: e.storage.timelock_entries.insert(
                nonce,
                TimelockEntry { queued_at: e.timestamp, action },
            ),
            ..e.storage
        },
    ).extend_persistent(DataKey::TimelockEntry(nonce)).extend_instance().announce(
        Event::ActionQueued { admin, nonce, queued_at: e.timestamp },
    )
}

/// The entry under `nonce` is dropped.
pub open spec fn dropped(e: InvocationView, nonce: u64) -> InvocationView {
    e.store(
        StorageView {
            timelock_entries: e.storage.timelock_entries.remove(nonce),
            ..e.storage
        },
    )
}

/// Queueing an action: refused while frozen and before there is an admin.
pub open spec fn queue_outcome(e: InvocationView, action: ActionType) -> Outcome<u64> {
    if e.storage.is_frozen() {
        (Err(Error::ContractFrozen), e)
    } else {
        match e.storage.admin {
            None => (Err(Error::NotInitialized), e),
            Some(admin) => (
                Ok((e.storage.nonce() + 1) as u64),
                queued(e.authorized_by(admin), admin, action),
            ),
        }
    }
}

/// Applying the entry under `nonce`: refused while frozen, before there is an
/// admin, if there is no such entry, and before its time.
pub open spec fn execute_outcome(e: InvocationView, nonce: u64) -> Outcome<()> {
    if e.storage.is_frozen() {
        (Err(Error::ContractFrozen), e)
    } else {
        match e.storage.admin {
            None => (Err(Error::NotInitialized), e),
            Some(admin) => if !e.storage.timelock_entries.contains_key(nonce) {
                (Err(Error::TimelockNotFound), e.authorized_by(admin))
            } else if e.timestamp < ready_at(e.storage.timelock_entries[nonce]) {
                (Err(Error::TimelockNotReady), e.authorized_by(admin))
            } else {
                (
                    Ok(()),
                    applied(
                        dropped(e.authorized_by(admin), nonce),
                        e.storage.timelock_entries[nonce].action,
                    ).extend_instance().announce(Event::ActionExecuted { admin, nonce }),
                )
            },
        }
    }
}

/// Cancelling the entry under `nonce`: refused before there is an admin, and if
/// there is no such entry.
pub open spec fn cancel_outcome(e: InvocationView, nonce: u64) -> Outcome<()> {
    match e.storage.admin {
        None => (Err(Error::NotInitialized), e),
        Some(admin) => if e.storage.timelock_entries.contains_key(nonce) {
            (
                Ok(()),
                dropped(e.authorized_by(admin), nonce).announce(
                    Event::ActionCancelled { admin, nonce },
                ),
            )
        } else {
            (Err(Error::TimelockNotFound), e.authorized_by(admin))
        },
    }
}

/// Freezing the contract: refused only before there is an admin.
pub open spec fn freeze_outcome(e: InvocationView) -> Outcome<()> {
    match e.storage.holder(Role::SuperAdmin) {
        None => (Err(Error::NotInitialized), e),
        Some(super_admin) => (
            Ok(()),
            e.authorized_by(super_admin).store(
                StorageView { frozen: Some(true), ..e.storage },
            ).extend_instance().announce(
                Event::EmergencyFreeze { super_admin, timestamp: e.timestamp },
            ),
        ),
    }
}

/// Ending the freeze: refused only before there is an admin.
pub open spec fn unfreeze_outcome(e: InvocationView) -> Outcome<()> {
    match e.storage.holder(Role::SuperAdmin) {
        None => (Err(Error::NotInitialized), e),
        Some(super_admin) => (
            Ok(()),
            e.authorized_by(super_admin).store(
                StorageView { frozen: Some(false), ..e.storage },
            ).extend_instance().announce(
                Event::Unfreeze { super_admin, timestamp: e.timestamp },
            ),
        ),
    }
}

/// Replacing the contract's code: refused only before there is an admin.
pub open spec fn upgrade_outcome(e: InvocationView, new_wasm_hash: [u8; 32]) -> Outcome<()> {
    match e.storage.holder(Role::SuperAdmin) {
        None => (Err(Error::NotInitialized), e),
        Some(super_admin) => (
            Ok(()),
            e.authorized_by(super_admin).issue(Command::UpdateWasm(new_wasm_hash)),
        ),
    }
}

impl PaymentRouter {
    /// Allocates the next timelock nonce.
    fn next_nonce(env: &mut Invocation) -> (nonce: u64)
        requires
            old(env)@.storage.nonce() < u64::MAX,
        ensures
            nonce == old(env)@.storage.nonce() + 1,
            final(env)@ == old(env)@.store(
                StorageView { timelock_nonce: Some(nonce), ..old(env)@.storage },
            ),
    {
        let next: u64 = env.storage.timelock_nonce.unwrap_or(0) + 1;
        env.storage.timelock_nonce = Some(next);
        next
    }

    /// Queues an admin action, to be applied after a 24-hour delay, and returns
    /// the nonce that names it.
    pub fn queue_action(env: &mut Invocation, action: ActionType) -> (result: Result<u64, Error>)
        requires
            !old(env)@.storage.is_frozen() && old(env)@.storage.admin is Some ==> old(
                env,
            )@.storage.nonce() < u64::MAX,
        ensures
            (result, final(env)@) == queue_outcome(old(env)@, action),
            old(env)@.wf() ==> final(env)@.wf(),
    {
        if Self::is_frozen_internal(env) {
            return Err(Error::ContractFrozen);
        }
        let admin: Address = match Self::require_admin(env) {
            Err(error) => {
                return Err(error);
            },
            Ok(admin) => admin,
        };
        env.require_auth(admin);

        let nonce: u64 = Self::next_nonce(env);
        let queued_at: u64 = env.timestamp;
        env.storage.timelock_entries.set(nonce, TimelockEntry { queued_at, action });
        env.extend_persistent(DataKey::TimelockEntry(nonce));
        env.extend_instance();
        env.announce(Event::ActionQueued { admin, nonce, queued_at });
        Ok(nonce)
    }

    /// Returns the pending entry for the given nonce.
    pub fn get_queued_action(env: &Invocation, nonce: u64) -> (entry: Result<
        TimelockEntry,
        Error,
    >)
        ensures
            entry == (if env@.storage.timelock_entries.contains_key(nonce) {
                Ok::<TimelockEntry, Error>(env@.storage.timelock_entries[nonce])
            } else {
                Err(Error::TimelockNotFound)
            }),
    {
        match env.storage.timelock_entries.get(nonce) {
            Some(entry) => Ok(entry),
            None => Err(Error::TimelockNotFound),
        }
    }

    /// Applies the queued action with the given nonce, once its delay is over.
    pub fn execute_action(env: &mut Invocation, nonce: u64) -> (result: Result<(), Error>)
        requires
            !old(env)@.storage.is_frozen() && old(env)@.storage.admin is Some && old(
                env,
            )@.storage.timelock_entries.contains_key(nonce) ==> ready_at(
                old(env)@.storage.timelock_entries[nonce],
            ) <= u64::MAX,
        ensures
            (result, final(env)@) == execute_outcome(old(env)@, nonce),
            old(env)@.wf() ==> final(env)@.wf(),
    {
        if Self::is_frozen_internal(env) {
            return Err(Error::ContractFrozen);
        }
        let admin: Address = match Self::require_admin(env) {
            Err(error) => {
                return Err(error);
            },
            Ok(admin) => admin,
        };
        env.require_auth(admin);

        let entry: TimelockEntry = match Self::get_queued_action(env, nonce) {
            Err(error) => {
                return Err(error);
            },
            Ok(entry) => entry,
        };
        if env.timestamp < entry.queued_at + Self::SECONDS_IN_24H {
            return Err(Error::TimelockNotReady);
        }
        env.storage.timelock_entries.remove(nonce);

        match entry.action {
            ActionType::SetPlatformTreasury(new_treasury) => {
                env.storage.platform_treasury = Some(new_treasury);
            },
            ActionType::SetFeeConfig(fee_bps, fee_cap) => {
                env.storage.fee_bps = Some(fee_bps);
                env.storage.fee_cap = Some(fee_cap);
            },
            ActionType::SetFeeBps(new_fee_bps) => {
                env.storage.fee_bps = Some(new_fee_bps);
            },
            ActionType::SetGovernance(governance) => {
                env.storage.governance = Some(governance);
            },
            ActionType::SetMinLimit(min_limit) => {
                env.storage.min_limit = Some(min_limit);
            },
            ActionType::TransferAdmin(new_admin) => {
                env.storage.admin = Some(new_admin);
                Self::set_role_internal(env, Role::SuperAdmin, new_admin);
            },
            ActionType::Upgrade(new_wasm_hash) => {
                env.issue(Command::UpdateWasm(new_wasm_hash));
            },
        }

        env.extend_instance();
        env.announce(Event::ActionExecuted { admin, nonce });
        Ok(())
    }

    /// Cancels a pending entry. This works while the contract is frozen, too.
    pub fn cancel_action(env: &mut Invocation, nonce: u64) -> (result: Result<(), Error>)
        ensures
            (result, final(env)@) == cancel_outcome(old(env)@, nonce),
            old(env)@.wf() ==> final(env)@.wf(),
    {
        let admin: Address = match Self::require_admin(env) {
            Err(error) => {
                return Err(error);
            },
            Ok(admin) => admin,
        };
        env.require_auth(admin);

        if !env.storage.timelock_entries.has(nonce) {
            return Err(Error::TimelockNotFound);
        }
        env.storage.timelock_entries.remove(nonce);
        env.announce(Event::ActionCancelled { admin, nonce });
        Ok(())
    }

    /// Freezes the contract at once. SuperAdmin-protected.
    pub fn emergency_freeze(env: &mut Invocation) -> (result: Result<(), Error>)
        ensures
            (result, final(env)@) == freeze_outcome(old(env)@),
            old(env)@.wf() ==> final(env)@.wf(),
    {
        let super_admin: Address = match Self::require_role(env, Role::SuperAdmin) {
            Err(error) => {
                return Err(error);
            },
            Ok(super_admin) => super_admin,
        };
        env.storage.frozen = Some(true);
        env.extend_instance();
        let timestamp: u64 = env.timestamp;
        env.announce(Event::EmergencyFreeze { super_admin, timestamp });
        Ok(())
    }

    /// Ends the freeze at once. SuperAdmin-protected.
    pub fn unfreeze(env: &mut Invocation) -> (result: Result<(), Error>)
        ensures
            (result, final(env)@) == unfreeze_outcome(old(env)@),
            old(env)@.wf() ==> final(env)@.wf(),
    {
        let super_admin: Address = match Self::require_role(env, Role::SuperAdmin) {
            Err(error) => {
                return Err(error);
            },
            Ok(super_admin) => super_admin,
        };
        env.storage.frozen = Some(false);
        env.extend_instance();
        let timestamp: u64 = env.timestamp;
        env.announce(Event::Unfreeze { super_admin, timestamp });
        Ok(())
    }

    /// Returns whether the contract is currently frozen.
    pub fn is_frozen(env: &Invocation) -> (b: bool)
        ensures
            b == env@.storage.is_frozen(),
    {
        Self::is_frozen_internal(env)
    }

    /// Replaces the contract's code. SuperAdmin-protected.
    pub fn upgrade(env: &mut Invocation, new_wasm_hash: [u8; 32]) -> (result: Result<(), Error>)
        ensures
            (result, final(env)@) == upgrade_outcome(old(env)@, new_wasm_hash),
            old(env)@.wf() ==> final(env)@.wf(),
    {
        match Self::require_role(env, Role::SuperAdmin) {
            Err(error) => {
                return Err(error);
            },
            Ok(_) => {},
        }
        env.issue(Command::UpdateWasm(new_wasm_hash));
        Ok(())
    }

    /// Returns the contract version.
    pub fn version(_env: &Invocation) -> (version: u32)
        ensures
            version == 1,
    {
        Self::VERSION
    }
}

} // verus!
