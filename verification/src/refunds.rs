//! Refund balances: what the contract holds for senders whose payments could
//! not be delivered.

use vstd::prelude::*;
use crate::invocation::{Command, Event, Invocation, InvocationView, Outcome, StorageView};
use crate::router::PaymentRouter;
use crate::table::UserToken;
use crate::types::{Address, DataKey, Error};

verus! {

/// `amount` of `user`'s refund balance in `token` is paid out. A balance of zero
/// is not kept.
pub open spec fn paid_out(
    e: InvocationView,
    user: Address,
    token: Address,
    amount: i128,
) -> InvocationView {
    let key = UserToken { user, token };
    let left = e.storage.refund(user, token) - amount;
    let kept = if left > 0 {
        e.store(
            StorageView {
                refund_balance: e.storage.refund_balance.insert(key, left as i128),
                ..e.storage
            },
        ).extend_persistent(DataKey::RefundBalance(user, token))
    } else {
        e.store(
            StorageView { refund_balance: e.storage.refund_balance.remove(key), ..e.storage },
        )
    };
    kept.issue(Command::Transfer { token, from: e.contract, to: user, amount }).announce(
        Event::Withdrawn { user, token, amount },
    )
}

/// Withdrawing part of a refund balance: refused unless the amount is positive
/// and covered.
pub open spec fn withdraw_outcome(
    e: InvocationView,
    user: Address,
    token: Address,
    amount: i128,
) -> Outcome<()> {
    if 0 < amount <= e.storage.refund(user, token) {
        (Ok(()), paid_out(e.authorized_by(user), user, token, amount))
    } else {
        (Err(Error::NoRefundAvailable), e.authorized_by(user))
    }
}

/// Withdrawing a whole refund balance: refused if there is none.
pub open spec fn claim_outcome(e: InvocationView, user: Address, token: Address) -> Outcome<i128> {
    let balance = e.storage.refund(user, token);
    if balance > 0 {
        (Ok(balance), paid_out(e.authorized_by(user), user, token, balance))
    } else {
        (Err(Error::NoRefundAvailable), e.authorized_by(user))
    }
}

impl PaymentRouter {
    /// Returns the refund balance of `user` in `token`, `0` if none is held.
    pub fn get_refund_balance(env: &Invocation, user: Address, token: Address) -> (balance: i128)
        ensures
            balance == env@.storage.refund(user, token),
    {
        Self::get_refund_balance_internal(env, user, token)
    }

    /// Withdraws `amount` from the refund balance of `user`, who has to authorize it.
    pub fn withdraw_refund(
        env: &mut Invocation,
        user: Address,
        token: Address,
        amount: i128,
    ) -> (result: Result<(), Error>)
        ensures
            (result, final(env)@) == withdraw_outcome(old(env)@, user, token, amount),
            old(env)@.wf() ==> final(env)@.wf(),
    {
        env.require_auth(user);
        if amount <= 0 {
            return Err(Error::NoRefundAvailable);
        }
        if amount > Self::get_refund_balance_internal(env, user, token) {
            return Err(Error::NoRefundAvailable);
        }
        Self::pay_refund(env, user, token, amount);
        Ok(())
    }

    /// Withdraws the entire refund balance of `user`, who has to authorize it,
    /// and returns the amount.
    pub fn claim_all_refunds(env: &mut Invocation, user: Address, token: Address) -> (result:
        Result<i128, Error>)
        ensures
            (result, final(env)@) == claim_outcome(old(env)@, user, token),
            old(env)@.wf() ==> final(env)@.wf(),
    {
        env.require_auth(user);
        let balance: i128 = Self::get_refund_balance_internal(env, user, token);
        if balance <= 0 {
            return Err(Error::NoRefundAvailable);
        }
        Self::pay_refund(env, user, token, balance);
        Ok(balance)
    }

    /// Pays out `amount` of a refund balance that covers it.
    fn pay_refund(env: &mut Invocation, user: Address, token: Address, amount: i128)
        requires
            0 < amount <= old(env)@.storage.refund(user, token),
        ensures
            final(env)@ == paid_out(old(env)@, user, token, amount),
    {
        let key: UserToken = UserToken { user, token };
        let left: i128 = Self::get_refund_balance_internal(env, user, token) - amount;
        if left > 0 {
            env.storage.refund_balance.set(key, left);
            env.extend_persistent(DataKey::RefundBalance(user, token));
        } else {
            env.storage.refund_balance.remove(key);
        }
        let contract: Address = env.contract;
        env.issue(Command::Transfer { token, from: contract, to: user, amount });
        env.announce(Event::Withdrawn { user, token, amount });
    }
}

} // verus!
