//! Configuration: fees and limits, the pause switch, the blacklist and KYC.

use vstd::prelude::*;
use crate::fees::{above_threshold, effective_bps, effective_fee_rate};
use crate::invocation::{Event, Invocation, InvocationView, Outcome, StorageView};
use crate::router::PaymentRouter;
use crate::types::{Address, DataKey, Error, Role};

verus! {

/// A change of the configuration: refused if nobody can authorize it yet,
/// otherwise `caller` is asked and the ledger entries become `storage`.
pub open spec fn configured(
    e: InvocationView,
    caller: Option<Address>,
    storage: StorageView,
) -> Outcome<()> {
    match caller {
        None => (Err(Error::NotInitialized), e),
        Some(a) => (Ok(()), e.authorized_by(a).store(storage).extend_instance()),
    }
}

/// Setting the treasury, which is up to the treasury manager.
pub open spec fn treasury_outcome(e: InvocationView, new_treasury: Address) -> Outcome<()> {
    configured(
        e,
        e.storage.holder(Role::TreasuryManager),
        StorageView { platform_treasury: Some(new_treasury), ..e.storage },
    )
}

/// Setting the fee rate and the fee cap, which is up to the fee authority.
pub open spec fn fees_outcome(e: InvocationView, fee_bps: i128, fee_cap: i128) -> Outcome<()> {
    configured(
        e,
        e.storage.fee_authority(),
        StorageView { fee_bps: Some(fee_bps), fee_cap: Some(fee_cap), ..e.storage },
    )
}

/// Setting the fee rate alone, which is up to the fee authority.
pub open spec fn fee_bps_outcome(e: InvocationView, fee_bps: i128) -> Outcome<()> {
    configured(
        e,
        e.storage.fee_authority(),
        StorageView { fee_bps: Some(fee_bps), ..e.storage },
    )
}

/// Setting the governance contract, which is up to the super-admin.
pub open spec fn governance_outcome(e: InvocationView, governance: Address) -> Outcome<()> {
    configured(
        e,
        e.storage.holder(Role::SuperAdmin),
        StorageView { governance: Some(governance), ..e.storage },
    )
}

/// Setting the smallest payment, which is up to the fee manager.
pub open spec fn min_limit_outcome(e: InvocationView, min_limit: i128) -> Outcome<()> {
    configured(
        e,
        e.storage.holder(Role::FeeManager),
        StorageView { min_limit: Some(min_limit), ..e.storage },
    )
}

/// Setting the pause switch, which is up to the compliance officer.
pub open spec fn pause_outcome(e: InvocationView, paused: bool) -> Outcome<()> {
    let (result, set) = configured(
        e,
        e.storage.holder(Role::ComplianceOfficer),
        StorageView { paused: Some(paused), ..e.storage },
    );
    if result is Ok {
        (result, set.announce(Event::Pause { paused }))
    } else {
        (result, set)
    }
}

/// Blacklisting an address, which is up to the compliance officer.
pub open spec fn blacklist_outcome(e: InvocationView, address: Address) -> Outcome<()> {
    match e.storage.holder(Role::ComplianceOfficer) {
        None => (Err(Error::NotInitialized), e),
        Some(officer) => (
            Ok(()),
            e.authorized_by(officer).store(
                StorageView { blacklist: e.storage.blacklist.insert(address, true), ..e.storage },
            ).extend_persistent(DataKey::Blacklist(address)),
        ),
    }
}

/// Taking an address off the blacklist, which is up to the compliance officer.
pub open spec fn unblacklist_outcome(e: InvocationView, address: Address) -> Outcome<()> {
    match e.storage.holder(Role::ComplianceOfficer) {
        None => (Err(Error::NotInitialized), e),
        Some(officer) => (
            Ok(()),
            e.authorized_by(officer).store(
                StorageView { blacklist: e.storage.blacklist.remove(address), ..e.storage },
            ),
        ),
    }
}

/// Setting the KYC oracle and threshold, which is up to the compliance officer:
/// refused also if the threshold is negative.
pub open spec fn kyc_outcome(e: InvocationView, oracle: Address, threshold: i128) -> Outcome<()> {
    if threshold < 0 {
        (Err(Error::InvalidKycThreshold), e)
    } else {
        let (result, set) = configured(
            e,
            e.storage.holder(Role::ComplianceOfficer),
            StorageView {
                kyc_oracle: Some(oracle),
                kyc_threshold: Some(threshold),
                ..e.storage
            },
        );
        if result is Ok {
            (result, set.announce(Event::KycConfigured { oracle, threshold }))
        } else {
            (result, set)
        }
    }
}

impl PaymentRouter {
    /// Updates the treasury address that receives the platform fee.
    /// TreasuryManager-protected.
    pub fn set_platform_treasury(env: &mut Invocation, new_treasury: Address) -> (result: Result<
        (),
        Error,
    >)
        ensures
            (result, final(env)@) == treasury_outcome(old(env)@, new_treasury),
            old(env)@.wf() ==> final(env)@.wf(),
    {
        match Self::require_role(env, Role::TreasuryManager) {
            Err(error) => {
                return Err(error);
            },
            Ok(_) => {},
        }
        env.storage.platform_treasury = Some(new_treasury);
        env.extend_instance();
        Ok(())
    }

    /// Updates the fee basis points and fee cap. Needs the governance contract's
    /// authorization if one is set, otherwise the fee manager's.
    pub fn set_fee_config_legacy(env: &mut Invocation, fee_bps: i128, fee_cap: i128) -> (result:
        Result<(), Error>)
        ensures
            (result, final(env)@) == fees_outcome(old(env)@, fee_bps, fee_cap),
            old(env)@.wf() ==> final(env)@.wf(),
    {
        match Self::require_fee_authority(env) {
            Err(error) => {
                return Err(error);
            },
            Ok(_) => {},
        }
        env.storage.fee_bps = Some(fee_bps);
        env.storage.fee_cap = Some(fee_cap);
        env.extend_instance();
        Ok(())
    }

    /// Alias for `set_fee_config_legacy`.
    pub fn set_fee_config(env: &mut Invocation, fee_bps: i128, fee_cap: i128) -> (result: Result<
        (),
        Error,
    >)
        ensures
            (result, final(env)@) == fees_outcome(old(env)@, fee_bps, fee_cap),
            old(env)@.wf() ==> final(env)@.wf(),
    {
        Self::set_fee_config_legacy(env, fee_bps, fee_cap)
    }

    /// Updates the fee basis points. Needs the governance contract's
    /// authorization if one is set, otherwise the fee manager's.
    pub fn set_fee_bps(env: &mut Invocation, new_fee_bps: i128) -> (result: Result<(), Error>)
        ensures
            (result, final(env)@) == fee_bps_outcome(old(env)@, new_fee_bps),
            old(env)@.wf() ==> final(env)@.wf(),
    {
        match Self::require_fee_authority(env) {
            Err(error) => {
                return Err(error);
            },
            Ok(_) => {},
        }
        env.storage.fee_bps = Some(new_fee_bps);
        env.extend_instance();
        Ok(())
    }

    /// Sets the governance contract address. From then on only the governance
    /// contract can update fees. SuperAdmin-protected.
    pub fn set_governance(env: &mut Invocation, gov: Address) -> (result: Result<(), Error>)
        ensures
            (result, final(env)@) == governance_outcome(old(env)@, gov),
            old(env)@.wf() ==> final(env)@.wf(),
    {
        match Self::require_role(env, Role::SuperAdmin) {
            Err(error) => {
                return Err(error);
            },
            Ok(_) => {},
        }
        env.storage.governance = Some(gov);
        env.extend_instance();
        Ok(())
    }

    /// Sets the minimum allowed routing amount. FeeManager-protected.
    pub fn set_min_limit(env: &mut Invocation, min_limit: i128) -> (result: Result<(), Error>)
        ensures
            (result, final(env)@) == min_limit_outcome(old(env)@, min_limit),
            old(env)@.wf() ==> final(env)@.wf(),
    {
        match Self::require_role(env, Role::FeeManager) {
            Err(error) => {
                return Err(error);
            },
            Ok(_) => {},
        }
        env.storage.min_limit = Some(min_limit);
        env.extend_instance();
        Ok(())
    }

    /// Returns the current fee rate in basis points, `0` before initialization.
    pub fn get_fee(env: &Invocation) -> (fee_bps: i128)
        ensures
            fee_bps == env@.storage.fee_bps.unwrap_or(0),
    {
        env.storage.fee_bps.unwrap_or(0)
    }

    /// Returns the fee rate for `sender` after any volume-based discount, `0`
    /// before initialization.
    pub fn get_effective_fee_bps(env: &Invocation, sender: Address) -> (fee_bps: i128)
        ensures
            fee_bps == effective_bps(
                env@.storage.fee_bps.unwrap_or(0),
                above_threshold(env@.storage.volume(sender)),
            ),
            env@.storage.volume(sender) <= PaymentRouter::VOLUME_THRESHOLD ==> fee_bps
                == env@.storage.fee_bps.unwrap_or(0),
    {
        effective_fee_rate(Self::get_fee(env), Self::has_discount(env, sender))
    }

    /// Pauses or unpauses the payment router. ComplianceOfficer-protected, and
    /// effective at once.
    pub fn set_pause(env: &mut Invocation, paused: bool) -> (result: Result<(), Error>)
        ensures
            (result, final(env)@) == pause_outcome(old(env)@, paused),
            old(env)@.wf() ==> final(env)@.wf(),
    {
        match Self::require_role(env, Role::ComplianceOfficer) {
            Err(error) => {
                return Err(error);
            },
            Ok(_) => {},
        }
        env.storage.paused = Some(paused);
        env.extend_instance();
        env.announce(Event::Pause { paused });
        Ok(())
    }

    /// Alias for `set_pause`.
    pub fn set_paused(env: &mut Invocation, paused: bool) -> (result: Result<(), Error>)
        ensures
            (result, final(env)@) == pause_outcome(old(env)@, paused),
            old(env)@.wf() ==> final(env)@.wf(),
    {
        Self::set_pause(env, paused)
    }

    /// Adds an address to the blacklist. ComplianceOfficer-protected.
    pub fn blacklist_address(env: &mut Invocation, address: Address) -> (result: Result<(), Error>)
        ensures
            (result, final(env)@) == blacklist_outcome(old(env)@, address),
            old(env)@.wf() ==> final(env)@.wf(),
    {
        match Self::require_role(env, Role::ComplianceOfficer) {
            Err(error) => {
                return Err(error);
            },
            Ok(_) => {},
        }
        env.storage.blacklist.set(address, true);
        env.extend_persistent(DataKey::Blacklist(address));
        Ok(())
    }

    /// Removes an address from the blacklist. ComplianceOfficer-protected.
    pub fn unblacklist_address(env: &mut Invocation, address: Address) -> (result: Result<
        (),
        Error,
    >)
        ensures
            (result, final(env)@) == unblacklist_outcome(old(env)@, address),
            old(env)@.wf() ==> final(env)@.wf(),
    {
        match Self::require_role(env, Role::ComplianceOfficer) {
            Err(error) => {
                return Err(error);
            },
            Ok(_) => {},
        }
        env.storage.blacklist.remove(address);
        Ok(())
    }

    /// Configures the trusted KYC oracle and the amount above which it is asked.
    /// ComplianceOfficer-protected.
    pub fn set_kyc_config(env: &mut Invocation, oracle: Address, threshold: i128) -> (result:
        Result<(), Error>)
        ensures
            (result, final(env)@) == kyc_outcome(old(env)@, oracle, threshold),
            old(env)@.wf() ==> final(env)@.wf(),
    {
        if threshold < 0 {
            return Err(Error::InvalidKycThreshold);
        }
        match Self::require_role(env, Role::ComplianceOfficer) {
            Err(error) => {
                return Err(error);
            },
            Ok(_) => {},
        }
        env.storage.kyc_oracle = Some(oracle);
        env.storage.kyc_threshold = Some(threshold);
        env.extend_instance();
        env.announce(Event::KycConfigured { oracle, threshold });
        Ok(())
    }

    /// Returns the KYC threshold, or `None` when enforcement is off.
    pub fn get_kyc_threshold(env: &Invocation) -> (threshold: Option<i128>)
        ensures
            threshold == env@.storage.kyc_threshold,
    {
        env.storage.kyc_threshold
    }

    /// Records a token as supported. Routing accepts any token, so this changes
    /// nothing.
    pub fn add_supported_token(_env: &Invocation, _token: Address) -> (result: Result<(), Error>)
        ensures
            result == Ok::<(), Error>(()),
    {
        Ok(())
    }
}

} // verus!
