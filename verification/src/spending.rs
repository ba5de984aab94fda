//! The daily spending limit of a sender.

use vstd::prelude::*;
use crate::router::PaymentRouter;
use crate::types::UserSpending;

verus! {

/// The window that counts at time `now`: the recorded one while it is less than
/// 24 hours old, otherwise a fresh one.
pub open spec fn current_window(record: Option<UserSpending>, now: u64) -> UserSpending {
    match record {
        Some(window) if now - window.last_reset_time < PaymentRouter::SECONDS_IN_24H => window,
        _ => UserSpending { last_reset_time: now, accumulated_amount: 0 },
    }
}

/// The window after `amount` was spent in it, or `None` if the daily limit does
/// not allow it.
pub open spec fn charged(window: UserSpending, amount: i128) -> Option<UserSpending> {
    let total = window.accumulated_amount + amount;
    if i128::MIN <= total <= PaymentRouter::DAILY_MAX_LIMIT {
        Some(UserSpending { accumulated_amount: total as i128, ..window })
    } else {
        None
    }
}

/// Spends `amount` at time `now` against a sender's record.
pub fn charge_window(record: Option<UserSpending>, now: u64, amount: i128) -> (window: Option<
    UserSpending,
>)
    requires
        record is Some ==> record->0.last_reset_time <= now,
    ensures
        window == charged(current_window(record, now), amount),
{
    let mut window: UserSpending = match record {
        Some(window) => window,
        None => UserSpending { last_reset_time: now, accumulated_amount: 0 },
    };
    if now - window.last_reset_time >= PaymentRouter::SECONDS_IN_24H {
        window = UserSpending { last_reset_time: now, accumulated_amount: 0 };
    }
    match window.accumulated_amount.checked_add(amount) {
        None => None,
        Some(total) => if total > PaymentRouter::DAILY_MAX_LIMIT {
            None
        } else {
            Some(
                UserSpending {
                    last_reset_time: window.last_reset_time,
                    accumulated_amount: total,
                },
            )
        },
    }
}

/// Within one window, a sender's payments never add up to more than the daily
/// limit, and each counts in full.
pub proof fn law_daily_limit(record: Option<UserSpending>, now: u64, amount: i128)
    requires
        amount > 0,
    ensures
        charged(current_window(record, now), amount) matches Some(window) ==> {
            &&& window.accumulated_amount <= PaymentRouter::DAILY_MAX_LIMIT
            &&& window.accumulated_amount == current_window(record, now).accumulated_amount
                + amount
        },
{
}

/// Once 24 hours have passed since the window opened, the whole daily limit is
/// available again.
pub proof fn law_limit_resets_after_24h(window: UserSpending, now: u64, amount: i128)
    requires
        now - window.last_reset_time >= PaymentRouter::SECONDS_IN_24H,
        0 < amount <= PaymentRouter::DAILY_MAX_LIMIT,
    ensures
        charged(current_window(Some(window), now), amount) == Some(
            UserSpending { last_reset_time: now, accumulated_amount: amount },
        ),
{
}

/// Until then, no more than what is left of the limit is accepted.
pub proof fn law_limit_holds_within_24h(window: UserSpending, now: u64, amount: i128)
    requires
        window.last_reset_time <= now,
        now - window.last_reset_time < PaymentRouter::SECONDS_IN_24H,
        amount > PaymentRouter::DAILY_MAX_LIMIT - window.accumulated_amount,
    ensures
        charged(current_window(Some(window), now), amount) is None,
{
}

} // verus!
