//! The plain values that the router works with.

use vstd::prelude::*;

verus! {

/// What stands behind an address.
#[derive(Copy, Clone, Debug, PartialEq, Eq, Structural)]
pub enum AddressKind {
    /// An account, named by its 32-byte public key.
    Account,
    /// A contract, named by its 32-byte identifier.
    Contract,
}

/// The address of an account or a contract.
#[derive(Copy, Clone, Debug, PartialEq, Eq, Structural)]
pub struct Address {
    /// Whether this is an account or a contract.
    pub kind: AddressKind,
    /// The first 16 bytes of the identifier, read as a big-endian number.
    pub hi: u128,
    /// The last 16 bytes of the identifier, read as a big-endian number.
    pub lo: u128,
}

/// A user's rolling 24-hour spending record.
#[derive(Copy, Clone, Debug, PartialEq, Eq, Structural)]
pub struct UserSpending {
    /// Unix timestamp (seconds) at which the 24-hour window last reset.
    pub last_reset_time: u64,
    /// Total amount routed by the user since `last_reset_time`.
    pub accumulated_amount: i128,
}

/// A single transfer instruction.
#[derive(Copy, Clone, Debug, PartialEq, Eq, Structural)]
pub struct Payment {
    /// Address the funds are debited from. Must authorize the call.
    pub sender: Address,
    /// Address the funds (minus the platform fee) are credited to.
    pub recipient: Address,
    /// Contract of the token being transferred.
    pub token_address: Address,
    /// Amount to route, in the token's smallest unit.
    pub amount: i128,
}

/// The administrative change that a timelock entry stands for, with all the
/// arguments needed to apply it once the delay is over.
#[derive(Copy, Clone, Debug, PartialEq, Eq)]
pub enum ActionType {
    /// Change the platform treasury address.
    SetPlatformTreasury(Address),
    /// Update fee basis points and fee cap together.
    SetFeeConfig(i128, i128),
    /// Update fee basis points only.
    SetFeeBps(i128),
    /// Set the governance contract address.
    SetGovernance(Address),
    /// Change the minimum routing limit.
    SetMinLimit(i128),
    /// Transfer admin rights to a new address.
    TransferAdmin(Address),
    /// Upgrade the contract code to the one with this hash.
    Upgrade([u8; 32]),
}

/// A pending timelock entry.
#[derive(Copy, Clone, Debug, PartialEq, Eq)]
pub struct TimelockEntry {
    /// Ledger timestamp (seconds) at which the action was queued.
    pub queued_at: u64,
    /// The action to apply once the delay has elapsed.
    pub action: ActionType,
}

/// The administrative roles.
#[derive(Copy, Clone, Debug, PartialEq, Eq, PartialOrd, Ord, Structural)]
pub enum Role {
    /// Authority over role assignments, upgrades, freeze and governance.
    SuperAdmin,
    /// Authority over the treasury, yield operations and token recovery.
    TreasuryManager,
    /// Authority over the blacklist, the KYC configuration and the pause switch.
    ComplianceOfficer,
    /// Authority over fees and the minimum payment.
    FeeManager,
}

impl Role {
    /// The number under which the role is known outside the contract.
    pub open spec fn number(self) -> u32 {
        match self {
            Role::SuperAdmin => 1,
            Role::TreasuryManager => 2,
            Role::ComplianceOfficer => 3,
            Role::FeeManager => 4,
        }
    }

    /// The number under which the role is known outside the contract.
    pub fn code(self) -> (code: u32)
        ensures
            code == self.number(),
    {
        match self {
            Role::SuperAdmin => 1,
            Role::TreasuryManager => 2,
            Role::ComplianceOfficer => 3,
            Role::FeeManager => 4,
        }
    }
}

/// Keys of the contract's ledger entries.
#[derive(Copy, Clone, Debug, PartialEq, Eq, Structural)]
pub enum DataKey {
    /// The current admin address.
    Admin,
    /// Governance contract address; if set, it takes over fee authority.
    Governance,
    /// Address that receives collected platform fees.
    PlatformTreasury,
    /// Platform fee rate, in basis points.
    FeeBps,
    /// Upper bound on the fee taken from a single payment.
    FeeCap,
    /// Minimum amount accepted for a payment, if set.
    MinLimit,
    /// Whether routing is currently paused.
    Paused,
    /// Maximum amount accepted by a single payment.
    MaxAmount,
    /// Cumulative lifetime amount routed by a sender.
    UserVolume(Address),
    /// The 24-hour spending window of a sender.
    UserSpending(Address),
    /// Whether a recipient address is blacklisted.
    Blacklist(Address),
    /// Refund balance for a (user, token) pair.
    RefundBalance(Address, Address),
    /// Counter of the timelock entries.
    TimelockNonce,
    /// A pending timelock entry, by its nonce.
    TimelockEntry(u64),
    /// Whether the contract is frozen.
    Frozen,
    /// Lending protocol used for treasury yield operations.
    YieldProtocol,
    /// Principal currently deposited for a treasury asset.
    YieldPrincipal(Address),
    /// Oracle queried for the senders of high-value payments.
    KycOracle,
    /// Payments strictly above this amount require a KYC claim.
    KycThreshold,
    /// Designated address of a role.
    Role(Role),
    /// Whether an address has been assigned a role.
    UserRole(Address, Role),
}

/// The errors that the contract answers with.
#[derive(Copy, Clone, Debug, PartialEq, Eq, PartialOrd, Ord, Structural)]
pub enum Error {
    /// Caller is not authorized to perform this action.
    Unauthorized,
    /// Sender's token balance is lower than the requested payment amount.
    InsufficientBalance,
    /// Amount outside allowed bounds, a spending limit exceeded, or a transfer refused.
    LimitExceeded,
    /// `initialize` was called on a contract that already has an admin.
    AlreadyInitialized,
    /// A configured value was read before `initialize`.
    NotInitialized,
    /// The contract is currently paused.
    Paused,
    /// A fee configuration value is out of the allowed range.
    InvalidFeeRate,
    /// Sender and recipient addresses are the same.
    InvalidRecipient,
    /// Recipient address is blacklisted.
    Blacklisted,
    /// Refund withdrawal is not positive or exceeds the refund balance.
    NoRefundAvailable,
    /// An action is already pending in the timelock queue (reserved).
    TimelockPending,
    /// The 24-hour delay of the timelock entry has not elapsed yet.
    TimelockNotReady,
    /// No timelock entry exists for the nonce.
    TimelockNotFound,
    /// The contract is frozen.
    ContractFrozen,
    /// No lending protocol has been configured.
    YieldProtocolNotConfigured,
    /// Yield amount must be positive and withdrawals cannot exceed principal.
    InvalidYieldAmount,
    /// The sender lacks a valid KYC claim for a high-value payment.
    KycRequired,
    /// The KYC threshold must not be negative.
    InvalidKycThreshold,
    /// Account lacks the required role or role does not exist.
    RoleNotFound,
    /// Invalid role assignment or revocation.
    InvalidRole,
}

impl Error {
    /// The stable error code that callers see.
    pub open spec fn number(self) -> u32 {
        match self {
            Error::Unauthorized => 1,
            Error::InsufficientBalance => 2,
            Error::LimitExceeded => 3,
            Error::AlreadyInitialized => 4,
            Error::NotInitialized => 5,
            Error::Paused => 6,
            Error::InvalidFeeRate => 7,
            Error::InvalidRecipient => 8,
            Error::Blacklisted => 9,
            Error::NoRefundAvailable => 10,
            Error::TimelockPending => 11,
            Error::TimelockNotReady => 12,
            Error::TimelockNotFound => 13,
            Error::ContractFrozen => 14,
            Error::YieldProtocolNotConfigured => 15,
            Error::InvalidYieldAmount => 16,
            Error::KycRequired => 17,
            Error::InvalidKycThreshold => 18,
            Error::RoleNotFound => 19,
            Error::InvalidRole => 20,
        }
    }

    /// The stable error code that callers see.
    pub fn code(self) -> (code: u32)
        ensures
            code == self.number(),
    {
        match self {
            Error::Unauthorized => 1,
            Error::InsufficientBalance => 2,
            Error::LimitExceeded => 3,
            Error::AlreadyInitialized => 4,
            Error::NotInitialized => 5,
            Error::Paused => 6,
            Error::InvalidFeeRate => 7,
            Error::InvalidRecipient => 8,
            Error::Blacklisted => 9,
            Error::NoRefundAvailable => 10,
            Error::TimelockPending => 11,
            Error::TimelockNotReady => 12,
            Error::TimelockNotFound => 13,
            Error::ContractFrozen => 14,
            Error::YieldProtocolNotConfigured => 15,
            Error::InvalidYieldAmount => 16,
            Error::KycRequired => 17,
            Error::InvalidKycThreshold => 18,
            Error::RoleNotFound => 19,
            Error::InvalidRole => 20,
        }
    }
}

} // verus!
