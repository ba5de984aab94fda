//! The fee calculation, over many inputs.

use payment_router::fees::{effective_fee_rate, fee_amount};
use payment_router::{compute_fee, PaymentRouter};

const MAX_FEE_BPS: i128 = 10_000;
const MAX_AMOUNT: i128 = 1_000_000_000_000_000;
const CASES: usize = 10_000;

/// A small pseudo-random sequence.
struct Sequence(u64);

impl Sequence {
    fn next(&mut self) -> u64 {
        self.0 = self.0.wrapping_mul(6364136223846793005).wrapping_add(1442695040888963407);
        self.0 >> 11
    }

    fn up_to(&mut self, low: i128, high: i128) -> i128 {
        match self.next() % 16 {
            0 => low,
            1 => high,
            _ => low + (self.next() as i128) % (high - low + 1),
        }
    }

    fn amount(&mut self) -> i128 {
        self.up_to(1, MAX_AMOUNT)
    }

    fn fee_bps(&mut self) -> i128 {
        self.up_to(0, MAX_FEE_BPS)
    }

    fn fee_cap(&mut self) -> i128 {
        self.up_to(0, MAX_AMOUNT)
    }

    fn flag(&mut self) -> bool {
        self.next() % 2 == 0
    }
}

#[test]
fn prop_fee_plus_remainder_equals_amount() {
    let mut s = Sequence(1);
    for _ in 0..CASES {
        let (amount, bps, cap, above) = (s.amount(), s.fee_bps(), s.fee_cap(), s.flag());
        let (fee, remainder) = compute_fee(amount, bps, cap, above);
        assert_eq!(fee + remainder, amount);
    }
}

#[test]
fn prop_fee_amount_is_non_negative() {
    let mut s = Sequence(2);
    for _ in 0..CASES {
        let (amount, bps, cap, above) = (s.amount(), s.fee_bps(), s.fee_cap(), s.flag());
        let (fee, _) = compute_fee(amount, bps, cap, above);
        assert!(fee >= 0);
    }
}

#[test]
fn prop_remainder_is_non_negative() {
    let mut s = Sequence(3);
    for _ in 0..CASES {
        let (amount, bps, cap, above) = (s.amount(), s.fee_bps(), s.fee_cap(), s.flag());
        let (_, remainder) = compute_fee(amount, bps, cap, above);
        assert!(remainder >= 0);
    }
}

#[test]
fn prop_fee_respects_cap() {
    let mut s = Sequence(4);
    for _ in 0..CASES {
        let (amount, bps, cap, above) = (s.amount(), s.fee_bps(), s.fee_cap(), s.flag());
        let (fee, _) = compute_fee(amount, bps, cap, above);
        assert!(fee <= cap);
    }
}

#[test]
fn prop_fee_never_exceeds_amount() {
    let mut s = Sequence(5);
    for _ in 0..CASES {
        let (amount, bps, cap, above) = (s.amount(), s.fee_bps(), s.fee_cap(), s.flag());
        let (fee, _) = compute_fee(amount, bps, cap, above);
        assert!(fee <= amount);
    }
}

#[test]
fn prop_zero_fee_bps_means_no_fee() {
    let mut s = Sequence(6);
    for _ in 0..CASES {
        let (amount, cap, above) = (s.amount(), s.fee_cap(), s.flag());
        assert_eq!(compute_fee(amount, 0, cap, above), (0, amount));
    }
}

#[test]
fn prop_zero_fee_cap_means_no_fee() {
    let mut s = Sequence(7);
    for _ in 0..CASES {
        let (amount, bps, above) = (s.amount(), s.fee_bps(), s.flag());
        assert_eq!(compute_fee(amount, bps, 0, above), (0, amount));
    }
}

#[test]
fn prop_tiered_discount_never_increases_fee() {
    let mut s = Sequence(8);
    for _ in 0..CASES {
        let (amount, bps, cap) = (s.amount(), s.fee_bps(), s.fee_cap());
        let (full, _) = compute_fee(amount, bps, cap, false);
        let (discounted, _) = compute_fee(amount, bps, cap, true);
        assert!(discounted <= full);
    }
}

#[test]
fn exact_fees() {
    assert_eq!(compute_fee(2_000, 100, 50, false), (20, 1_980));
    assert_eq!(compute_fee(8_000, 100, 50, false), (50, 7_950));
    assert_eq!(compute_fee(2_000, 101, 50, true), (10, 1_990));
    assert_eq!(compute_fee(99, 100, 50, false), (0, 99));
    assert_eq!(compute_fee(500, 20_000, 1_000, false), (500, 0));
}

#[test]
fn negative_rates_and_caps_round_toward_zero() {
    assert_eq!(effective_fee_rate(-3, true), -1);
    assert_eq!(effective_fee_rate(-3, false), -3);
    assert_eq!(compute_fee(15_000, -1, 50, false), (-1, 15_001));
    assert_eq!(compute_fee(9_999, -1, 50, false), (0, 9_999));
    assert_eq!(compute_fee(1_000, 100, -7, false), (-7, 1_007));
}

#[test]
fn product_that_overflows_is_replaced_by_the_amount() {
    assert_eq!(fee_amount(i128::MAX, 2, i128::MAX, false), i128::MAX / 10_000);
    assert_eq!(fee_amount(i128::MAX, 2, i128::MAX, true), i128::MAX / 10_000);
    // The discount can then be dearer: half the rate no longer overflows.
    let amount = i128::MAX / 10_000;
    assert_eq!(fee_amount(amount, 15_000, i128::MAX, false), amount / 10_000);
    assert_eq!(fee_amount(amount, 15_000, i128::MAX, true), amount * 7_500 / 10_000);
}

#[test]
fn constants_of_the_contract() {
    assert_eq!(PaymentRouter::BPS_DIVISOR, 10_000);
    assert_eq!(PaymentRouter::MAX_AMOUNT, MAX_AMOUNT);
    assert_eq!(PaymentRouter::DAILY_MAX_LIMIT, 10_000_000_000_000);
    assert_eq!(PaymentRouter::VOLUME_THRESHOLD, 100_000_000_000);
    assert_eq!(PaymentRouter::SECONDS_IN_24H, 86_400);
    assert_eq!(PaymentRouter::INSTANCE_BUMP_AMOUNT, 120_960);
    assert_eq!(PaymentRouter::INSTANCE_LIFETIME_THRESHOLD, 103_680);
    assert_eq!(PaymentRouter::PERSISTENT_BUMP_AMOUNT, 518_400);
    assert_eq!(PaymentRouter::PERSISTENT_LIFETIME_THRESHOLD, 501_120);
}
