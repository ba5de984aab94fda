//! The platform fee of a single payment.

use vstd::prelude::*;
use crate::router::PaymentRouter;

verus! {

/// Division that rounds toward zero.
pub open spec fn trunc_div(n: int, d: int) -> int
    recommends
        d > 0,
{
    if n >= 0 {
        n / d
    } else {
        -((-n) / d)
    }
}

/// The smaller of two numbers.
pub open spec fn min(a: int, b: int) -> int {
    if a <= b {
        a
    } else {
        b
    }
}

/// Whether a number is a 128-bit signed integer.
pub open spec fn fits_i128(n: int) -> bool {
    i128::MIN <= n <= i128::MAX
}

/// Whether a sender with this lifetime volume gets the discount.
pub open spec fn above_threshold(volume: i128) -> bool {
    volume > PaymentRouter::VOLUME_THRESHOLD
}

/// The fee rate after the discount: half the rate, rounded toward zero.
pub open spec fn effective_bps(fee_bps: i128, discount: bool) -> int {
    if discount {
        trunc_div(fee_bps as int, 2)
    } else {
        fee_bps as int
    }
}

/// `amount` times the rate, in units of a basis point. A product that leaves
/// the 128-bit range is replaced by `amount`.
pub open spec fn fee_product(amount: i128, rate: int) -> int {
    if fits_i128(amount * rate) {
        amount * rate
    } else {
        amount as int
    }
}

/// The fee on `amount`: the rate's share, but no more than the cap, and no more
/// than the amount itself.
pub open spec fn fee_on(amount: i128, fee_bps: i128, fee_cap: i128, discount: bool) -> int {
    min(
        min(
            trunc_div(
                fee_product(amount, effective_bps(fee_bps, discount)),
                PaymentRouter::BPS_DIVISOR as int,
            ),
            fee_cap as int,
        ),
        amount as int,
    )
}

/// Halves the fee rate if the discount applies.
pub fn effective_fee_rate(fee_bps: i128, discount: bool) -> (rate: i128)
    ensures
        rate == effective_bps(fee_bps, discount),
{
    if discount {
        fee_bps / 2
    } else {
        fee_bps
    }
}

/// Computes `(fee_amount, remainder)` for a payment. Funds are conserved: what is
/// not fee is remainder.
pub fn compute_fee(
    amount: i128,
    fee_bps: i128,
    fee_cap: i128,
    user_volume_above_threshold: bool,
) -> (split: (i128, i128))
    requires
        fits_i128(amount - fee_on(amount, fee_bps, fee_cap, user_volume_above_threshold)),
    ensures
        split.0 == fee_on(amount, fee_bps, fee_cap, user_volume_above_threshold),
        split.0 + split.1 == amount,
{
    let fee_amount: i128 = fee_amount(amount, fee_bps, fee_cap, user_volume_above_threshold);
    (fee_amount, amount - fee_amount)
}

/// Computes the fee of a payment.
pub fn fee_amount(amount: i128, fee_bps: i128, fee_cap: i128, discount: bool) -> (fee: i128)
    ensures
        fee == fee_on(amount, fee_bps, fee_cap, discount),
{
    let rate: i128 = effective_fee_rate(fee_bps, discount);
    let product: i128 = amount.checked_mul(rate).unwrap_or(amount);
    let mut fee: i128 = product / PaymentRouter::BPS_DIVISOR;
    if fee > fee_cap {
        fee = fee_cap;
    }
    if fee > amount {
        fee = amount;
    }
    fee
}

/// The fee exceeds neither the cap nor the amount, so that the remainder is not
/// negative, whatever the configuration.
pub proof fn law_fee_bounded(amount: i128, fee_bps: i128, fee_cap: i128, discount: bool)
    ensures
        fee_on(amount, fee_bps, fee_cap, discount) <= fee_cap,
        fee_on(amount, fee_bps, fee_cap, discount) <= amount,
        amount - fee_on(amount, fee_bps, fee_cap, discount) >= 0,
{
}

/// With a rate and a cap that are not negative, no payment has a negative fee.
pub proof fn law_fee_not_negative(amount: i128, fee_bps: i128, fee_cap: i128, discount: bool)
    requires
        amount >= 0,
        fee_bps >= 0,
        fee_cap >= 0,
    ensures
        fee_on(amount, fee_bps, fee_cap, discount) >= 0,
{
    let rate = effective_bps(fee_bps, discount);
    assert(amount * rate >= 0) by (nonlinear_arith)
        requires
            amount >= 0,
            rate >= 0,
    ;
}

/// At a rate of zero the whole amount goes to the recipient.
pub proof fn law_zero_rate_means_no_fee(amount: i128, fee_cap: i128, discount: bool)
    requires
        amount >= 0,
        fee_cap >= 0,
    ensures
        fee_on(amount, 0, fee_cap, discount) == 0,
{
    assert(amount * 0 == 0);
}

/// With a cap of zero no fee is taken, whatever the rate.
pub proof fn law_zero_cap_means_no_fee(amount: i128, fee_bps: i128, discount: bool)
    requires
        amount >= 0,
        fee_bps >= 0,
    ensures
        fee_on(amount, fee_bps, 0, discount) == 0,
{
    law_fee_not_negative(amount, fee_bps, 0, discount);
}

/// The discount never makes a payment dearer. This leaves out negative rates,
/// and amounts so large that the product overflows at the full rate but not at
/// half of it.
pub proof fn law_discount_never_increases_fee(amount: i128, fee_bps: i128, fee_cap: i128)
    requires
        amount >= 0,
        fee_bps >= 0,
        fits_i128(amount * effective_bps(fee_bps, true)) ==> fits_i128(amount * fee_bps),
    ensures
        fee_on(amount, fee_bps, fee_cap, true) <= fee_on(amount, fee_bps, fee_cap, false),
{
    let half = effective_bps(fee_bps, true);
    assert(0 <= amount * half <= amount * fee_bps) by (nonlinear_arith)
        requires
            amount >= 0,
            0 <= half <= fee_bps,
    ;
}

} // verus!
