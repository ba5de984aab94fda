//! The contract and its constants.

use vstd::prelude::*;

verus! {

/// Routes token payments between addresses while collecting a configurable
/// platform fee, enforcing per-user daily spending limits, and supporting a
/// blacklist, a pause switch, roles and a timelock.
pub struct PaymentRouter;

impl PaymentRouter {
    /// Basis points in a whole.
    pub const BPS_DIVISOR: i128 = 10_000;

    /// Smallest units in one XLM.
    pub const XLM_DECIMALS: i128 = 10_000_000;

    /// Largest payment unless configured otherwise: 100M tokens with 7 decimals.
    pub const MAX_AMOUNT: i128 = 1_000_000_000_000_000;

    /// What a sender may route within one window: 1M tokens.
    pub const DAILY_MAX_LIMIT: i128 = 1_000_000 * Self::XLM_DECIMALS;

    /// Volume above which the fee rate is halved: 10,000 XLM.
    pub const VOLUME_THRESHOLD: i128 = 10_000 * Self::XLM_DECIMALS;

    /// The timelock's delay, and the length of a spending window.
    pub const SECONDS_IN_24H: u64 = 24 * 3600;

    /// The contract's version number.
    pub const VERSION: u32 = 1;

    /// Ledgers closed in a day.
    pub const DAY_IN_LEDGERS: u32 = 17280;

    /// Lifetime that instance entries are extended to.
    pub const INSTANCE_BUMP_AMOUNT: u32 = 7 * Self::DAY_IN_LEDGERS;

    /// Remaining lifetime below which instance entries are extended.
    pub const INSTANCE_LIFETIME_THRESHOLD: u32 = Self::INSTANCE_BUMP_AMOUNT - Self::DAY_IN_LEDGERS;

    /// Lifetime that persistent entries are extended to.
    pub const PERSISTENT_BUMP_AMOUNT: u32 = 30 * Self::DAY_IN_LEDGERS;

    /// Remaining lifetime below which persistent entries are extended.
    pub const PERSISTENT_LIFETIME_THRESHOLD: u32 = Self::PERSISTENT_BUMP_AMOUNT
        - Self::DAY_IN_LEDGERS;
}

} // verus!
