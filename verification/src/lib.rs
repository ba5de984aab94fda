//! A payment router for a token ledger, verified with Verus.
//!
//! The router moves token payments between addresses, takes a capped platform
//! fee, and enforces daily spending limits, a recipient blacklist, KYC checks,
//! role-based administration and a 24-hour timelock on sensitive changes.
//!
//! The host that runs the contract is kept at arm's length. An [`Invocation`] holds
//! what one invocation reads as plain values: the contract's ledger entries,
//! the clock, and the contract's own address. What the invocation wants the
//! host to do (check an authorization, publish an event, move tokens) it
//! appends to [`Invocation::commands`], in order. A payment also has to hear back from
//! the host half way through, so it is a state machine, [`Routing`], that names
//! the one [`Request`] it is waiting for.

pub mod balances;
pub mod batch_laws;
pub mod config;
pub mod effects;
pub mod fees;
pub mod histories;
pub mod invocation;
pub mod laws;
pub mod packing;
pub mod payment_laws;
pub mod refunds;
pub mod roles;
pub mod router;
pub mod routing;
pub mod routing_laws;
pub mod spending;
pub mod table;
pub mod timelock;
pub mod treasury;
pub mod types;

pub use fees::compute_fee;
pub use invocation::{
    Command, Event, FeeTerms, Invocation, InvocationView, Outcome, Storage, StorageView,
};
pub use packing::{pack_spending, unpack_spending};
pub use router::PaymentRouter;
pub use routing::{
    Phase, Reply, Request, Routing, RoutingView, Run, Screening, TransferReply,
};
pub use table::{Key, Membership, Table, UserToken};
pub use treasury::Harvest;
pub use types::{
    ActionType, Address, AddressKind, DataKey, Error, Payment, Role, TimelockEntry, UserSpending,
};
