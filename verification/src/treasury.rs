//! Treasury operations: yield on idle funds, and tokens stranded in the contract.

use vstd::prelude::*;
use crate::config::configured;
use crate::fees::fits_i128;
use crate::invocation::{Command, Event, Invocation, InvocationView, Outcome, StorageView};
use crate::router::PaymentRouter;
use crate::types::{Address, DataKey, Error, Role};

verus! {

/// A harvest that is put to the lending protocol: it is asked to pay all yield
/// in `token` to `treasury`, and answers with the amount.
#[derive(Copy, Clone, Debug, PartialEq, Eq, Structural)]
pub struct Harvest {
    /// The lending protocol.
    pub protocol: Address,
    /// Who receives the yield.
    pub treasury: Address,
    /// The token that the yield is paid in.
    pub token: Address,
}

/// Where treasury funds are lent from and to: the treasury and the lending
/// protocol, or the error if one of them is not configured.
pub open spec fn yield_parties(s: StorageView) -> Result<(Address, Address), Error> {
    if s.platform_treasury is None {
        Err(Error::NotInitialized)
    } else if s.yield_protocol is None {
        Err(Error::YieldProtocolNotConfigured)
    } else {
        Ok((s.platform_treasury->0, s.yield_protocol->0))
    }
}

/// `amount` of `token` is lent out on behalf of the treasury.
pub open spec fn deposited(
    e: InvocationView,
    protocol: Address,
    treasury: Address,
    token: Address,
    amount: i128,
) -> InvocationView {
    e.issue(Command::Deposit { protocol, from: treasury, token, amount }).store(
        StorageView {
            yield_principal: e.storage.yield_principal.insert(
                token,
                (e.storage.principal(token) + amount) as i128,
            ),
            ..e.storage
        },
    ).extend_persistent(DataKey::YieldPrincipal(token)).announce(
        Event::YieldDeposited { token, amount },
    )
}

/// `amount` of the principal in `token` is taken back for the treasury. A
/// principal of zero is not kept.
pub open spec fn taken_back(
    e: InvocationView,
    protocol: Address,
    treasury: Address,
    token: Address,
    amount: i128,
) -> InvocationView {
    let remaining = e.storage.principal(token) - amount;
    let asked = e.issue(Command::Withdraw { protocol, to: treasury, token, amount });
    let kept = if remaining == 0 {
        asked.store(
            StorageView {
                yield_principal: e.storage.yield_principal.remove(token),
                ..e.storage
            },
        )
    } else {
        asked.store(
            StorageView {
                yield_principal: e.storage.yield_principal.insert(token, remaining as i128),
                ..e.storage
            },
        ).extend_persistent(DataKey::YieldPrincipal(token))
    };
    kept.announce(Event::YieldWithdrawn { token, amount })
}

/// Depositing treasury funds: refused unless the amount is positive and the
/// treasury manager, the treasury and the lending protocol are known.
pub open spec fn deposit_outcome(e: InvocationView, token: Address, amount: i128) -> Outcome<()> {
    if amount <= 0 {
        (Err(Error::InvalidYieldAmount), e)
    } else if e.storage.holder(Role::TreasuryManager) is None {
        (Err(Error::NotInitialized), e)
    } else {
        let asked = e.authorized_by(e.storage.holder(Role::TreasuryManager)->0);
        match e.storage.platform_treasury {
            None => (Err(Error::NotInitialized), asked),
            Some(treasury) => match e.storage.yield_protocol {
                None => (Err(Error::YieldProtocolNotConfigured), asked.authorized_by(treasury)),
                Some(protocol) => (
                    Ok(()),
                    deposited(asked.authorized_by(treasury), protocol, treasury, token, amount),
                ),
            },
        }
    }
}

/// Taking treasury funds back: refused unless the amount is positive and covered
/// by the principal, and the parties are known.
pub open spec fn take_back_outcome(e: InvocationView, token: Address, amount: i128) -> Outcome<()> {
    if amount <= 0 || amount > e.storage.principal(token) {
        (Err(Error::InvalidYieldAmount), e)
    } else {
        match e.storage.holder(Role::TreasuryManager) {
            None => (Err(Error::NotInitialized), e),
            Some(manager) => match yield_parties(e.storage) {
                Err(error) => (Err(error), e.authorized_by(manager)),
                Ok((treasury, protocol)) => (
                    Ok(()),
                    taken_back(e.authorized_by(manager), protocol, treasury, token, amount),
                ),
            },
        }
    }
}

/// Asking for a harvest: refused unless the parties are known.
pub open spec fn harvest_outcome(e: InvocationView, token: Address) -> Outcome<Harvest> {
    match e.storage.holder(Role::TreasuryManager) {
        None => (Err(Error::NotInitialized), e),
        Some(manager) => match yield_parties(e.storage) {
            Err(error) => (Err(error), e.authorized_by(manager)),
            Ok((treasury, protocol)) => (
                Ok(Harvest { protocol, treasury, token }),
                e.authorized_by(manager),
            ),
        },
    }
}

/// Setting the lending protocol, which is up to the treasury manager.
pub open spec fn protocol_outcome(e: InvocationView, protocol: Address) -> Outcome<()> {
    let (result, set) = configured(
        e,
        e.storage.holder(Role::TreasuryManager),
        StorageView { yield_protocol: Some(protocol), ..e.storage },
    );
    if result is Ok {
        (result, set.announce(Event::YieldConfigured { protocol }))
    } else {
        (result, set)
    }
}

/// Taking tokens out of the contract: they go to the treasury manager, who has
/// to authorize it.
pub open spec fn recover_outcome(e: InvocationView, token: Address, amount: i128) -> Outcome<()> {
    match e.storage.holder(Role::TreasuryManager) {
        None => (Err(Error::NotInitialized), e),
        Some(manager) => (
            Ok(()),
            e.authorized_by(manager).issue(
                Command::Transfer { token, from: e.contract, to: manager, amount },
            ),
        ),
    }
}

impl PaymentRouter {
    /// Configures the lending protocol used for treasury yield operations.
    /// TreasuryManager-protected.
    pub fn set_yield_protocol(env: &mut Invocation, protocol: Address) -> (result: Result<
        (),
        Error,
    >)
        ensures
            (result, final(env)@) == protocol_outcome(old(env)@, protocol),
            old(env)@.wf() ==> final(env)@.wf(),
    {
        match Self::require_role(env, Role::TreasuryManager) {
            Err(error) => {
                return Err(error);
            },
            Ok(_) => {},
        }
        env.storage.yield_protocol = Some(protocol);
        env.extend_instance();
        env.announce(Event::YieldConfigured { protocol });
        Ok(())
    }

    /// Deposits idle treasury funds into the lending protocol. Both the treasury
    /// manager and the treasury, which holds the funds, have to authorize it.
    pub fn deposit_to_yield(env: &mut Invocation, token: Address, amount: i128) -> (result: Result<
        (),
        Error,
    >)
        requires
            amount > 0 && old(env)@.storage.holder(Role::TreasuryManager) is Some && yield_parties(
                old(env)@.storage,
            ) is Ok ==> fits_i128(old(env)@.storage.principal(token) + amount),
        ensures
            (result, final(env)@) == deposit_outcome(old(env)@, token, amount),
            old(env)@.wf() ==> final(env)@.wf(),
    {
        if amount <= 0 {
            return Err(Error::InvalidYieldAmount);
        }
        match Self::require_role(env, Role::TreasuryManager) {
            Err(error) => {
                return Err(error);
            },
            Ok(_) => {},
        }
        let treasury: Address = match env.storage.platform_treasury {
            Some(treasury) => treasury,
            None => {
                return Err(Error::NotInitialized);
            },
        };
        env.require_auth(treasury);
        let protocol: Address = match env.storage.yield_protocol {
            Some(protocol) => protocol,
            None => {
                return Err(Error::YieldProtocolNotConfigured);
            },
        };

        env.issue(Command::Deposit { protocol, from: treasury, token, amount });
        let principal: i128 = Self::get_yield_position(env, token);
        env.storage.yield_principal.set(token, principal + amount);
        env.extend_persistent(DataKey::YieldPrincipal(token));
        env.announce(Event::YieldDeposited { token, amount });
        Ok(())
    }

    /// Withdraws treasury principal from the lending protocol.
    /// TreasuryManager-protected.
    pub fn withdraw_from_yield(env: &mut Invocation, token: Address, amount: i128) -> (result:
        Result<(), Error>)
        ensures
            (result, final(env)@) == take_back_outcome(old(env)@, token, amount),
            old(env)@.wf() ==> final(env)@.wf(),
    {
        let principal: i128 = Self::get_yield_position(env, token);
        if amount <= 0 || amount > principal {
            return Err(Error::InvalidYieldAmount);
        }
        match Self::require_role(env, Role::TreasuryManager) {
            Err(error) => {
                return Err(error);
            },
            Ok(_) => {},
        }
        let (treasury, protocol): (Address, Address) = match Self::load_yield_parties(env) {
            Ok(parties) => parties,
            Err(error) => {
                return Err(error);
            },
        };

        env.issue(Command::Withdraw { protocol, to: treasury, token, amount });
        let remaining: i128 = principal - amount;
        if remaining == 0 {
            env.storage.yield_principal.remove(token);
        } else {
            env.storage.yield_principal.set(token, remaining);
            env.extend_persistent(DataKey::YieldPrincipal(token));
        }
        env.announce(Event::YieldWithdrawn { token, amount });
        Ok(())
    }

    /// The treasury and the lending protocol.
    fn load_yield_parties(env: &Invocation) -> (parties: Result<(Address, Address), Error>)
        ensures
            parties == yield_parties(env@.storage),
    {
        match env.storage.platform_treasury {
            None => Err(Error::NotInitialized),
            Some(treasury) => match env.storage.yield_protocol {
                None => Err(Error::YieldProtocolNotConfigured),
                Some(protocol) => Ok((treasury, protocol)),
            },
        }
    }

    /// Claims all available yield to the platform treasury. TreasuryManager-protected.
    /// The harvest that is returned has to be put to the lending protocol, and
    /// its answer given to `finish_harvest`.
    pub fn harvest_yield(env: &mut Invocation, token: Address) -> (result: Result<Harvest, Error>)
        ensures
            (result, final(env)@) == harvest_outcome(old(env)@, token),
            old(env)@.wf() ==> final(env)@.wf(),
    {
        match Self::require_role(env, Role::TreasuryManager) {
            Err(error) => {
                return Err(error);
            },
            Ok(_) => {},
        }
        match Self::load_yield_parties(env) {
            Err(error) => Err(error),
            Ok((treasury, protocol)) => Ok(Harvest { protocol, treasury, token }),
        }
    }

    /// Ends a harvest, once the lending protocol has answered that it paid
    /// `harvested`.
    pub fn finish_harvest(env: &mut Invocation, harvest: Harvest, harvested: i128) -> (amount: i128)
        ensures
            amount == harvested,
            final(env)@ == old(env)@.announce(
                Event::YieldHarvested { token: harvest.token, harvested },
            ),
            old(env)@.wf() ==> final(env)@.wf(),
    {
        env.announce(Event::YieldHarvested { token: harvest.token, harvested });
        harvested
    }

    /// Returns the tracked principal deposited for `token`, `0` if none.
    pub fn get_yield_position(env: &Invocation, token: Address) -> (principal: i128)
        ensures
            principal == env@.storage.principal(token),
    {
        env.storage.yield_principal.get(token).unwrap_or(0)
    }

    /// Recovers tokens accidentally sent to the contract: `amount` of them go to
    /// the treasury manager. TreasuryManager-protected.
    pub fn recover_tokens(env: &mut Invocation, token: Address, amount: i128) -> (result: Result<
        (),
        Error,
    >)
        ensures
            (result, final(env)@) == recover_outcome(old(env)@, token, amount),
            old(env)@.wf() ==> final(env)@.wf(),
    {
        let manager: Address = match Self::require_role(env, Role::TreasuryManager) {
            Err(error) => {
                return Err(error);
            },
            Ok(manager) => manager,
        };
        let contract: Address = env.contract;
        env.issue(Command::Transfer { token, from: contract, to: manager, amount });
        Ok(())
    }

    /// Emergency withdrawal of tokens held by the contract: `amount` of them go to
    /// the treasury manager. TreasuryManager-protected.
    pub fn emergency_withdraw(env: &mut Invocation, token: Address, amount: i128) -> (result:
        Result<(), Error>)
        ensures
            (result, final(env)@) == recover_outcome(old(env)@, token, amount),
            old(env)@.wf() ==> final(env)@.wf(),
    {
        let manager: Address = match Self::require_role(env, Role::TreasuryManager) {
            Err(error) => {
                return Err(error);
            },
            Ok(manager) => manager,
        };
        let contract: Address = env.contract;
        env.issue(Command::Transfer { token, from: contract, to: manager, amount });
        Ok(())
    }
}

} // verus!
