//! What one invocation of the contract reads and what it asks of the host.

use vstd::prelude::*;
use crate::router::PaymentRouter;
use crate::table::{Membership, Table, UserToken};
use crate::types::{Address, DataKey, Error, Role, TimelockEntry, UserSpending};

verus! {

/// The events that the contract publishes. Each variant holds the topics that
/// follow the event's name, and the data.
#[derive(Copy, Clone, Debug, PartialEq, Eq)]
pub enum Event {
    /// A payment is about to be processed.
    PaymentInitiated { sender: Address, amount: i128 },
    /// A payment has been processed.
    Routed { sender: Address, recipient: Address, amount: i128 },
    /// An undeliverable payment has been credited to its sender.
    Refunded { user: Address, token: Address, amount: i128 },
    /// A user has taken out a refund.
    Withdrawn { user: Address, token: Address, amount: i128 },
    /// A role has been given to an account.
    RoleAssigned { role: Role, account: Address, timestamp: u64 },
    /// A role has been taken from an account.
    RoleRevoked { role: Role, account: Address, timestamp: u64 },
    /// An action has been queued in the timelock.
    ActionQueued { admin: Address, nonce: u64, queued_at: u64 },
    /// A queued action has been applied.
    ActionExecuted { admin: Address, nonce: u64 },
    /// A queued action has been dropped.
    ActionCancelled { admin: Address, nonce: u64 },
    /// The contract has been frozen.
    EmergencyFreeze { super_admin: Address, timestamp: u64 },
    /// The contract has been unfrozen.
    Unfreeze { super_admin: Address, timestamp: u64 },
    /// The pause switch has been set.
    Pause { paused: bool },
    /// The lending protocol has been set.
    YieldConfigured { protocol: Address },
    /// The KYC oracle and threshold have been set.
    KycConfigured { oracle: Address, threshold: i128 },
    /// Treasury funds have been lent out.
    YieldDeposited { token: Address, amount: i128 },
    /// Treasury funds have been taken back.
    YieldWithdrawn { token: Address, amount: i128 },
    /// Yield has been paid to the treasury.
    YieldHarvested { token: Address, harvested: i128 },
}

impl Event {
    /// The event's name, which is its first topic.
    pub open spec fn topic(self) -> Seq<char> {
        match self {
            Event::PaymentInitiated { .. } => "payment_initiated"@,
            Event::Routed { .. } => "routed"@,
            Event::Refunded { .. } => "refunded"@,
            Event::Withdrawn { .. } => "withdrawn"@,
            Event::RoleAssigned { .. } => "role_assigned"@,
            Event::RoleRevoked { .. } => "role_revoked"@,
            Event::ActionQueued { .. } => "action_queued"@,
            Event::ActionExecuted { .. } => "action_executed"@,
            Event::ActionCancelled { .. } => "action_cancelled"@,
            Event::EmergencyFreeze { .. } => "emergency_freeze"@,
            Event::Unfreeze { .. } => "unfreeze"@,
            Event::Pause { .. } => "pause"@,
            Event::YieldConfigured { .. } => "yield_cfg"@,
            Event::KycConfigured { .. } => "kyc_cfg"@,
            Event::YieldDeposited { .. } => "yield_dep"@,
            Event::YieldWithdrawn { .. } => "yield_wdr"@,
            Event::YieldHarvested { .. } => "yield_har"@,
        }
    }

    /// The event's name, which is its first topic.
    pub fn name(&self) -> (name: &'static str)
        ensures
            name@ == self.topic(),
    {
        match self {
            Event::PaymentInitiated { .. } => "payment_initiated",
            Event::Routed { .. } => "routed",
            Event::Refunded { .. } => "refunded",
            Event::Withdrawn { .. } => "withdrawn",
            Event::RoleAssigned { .. } => "role_assigned",
            Event::RoleRevoked { .. } => "role_revoked",
            Event::ActionQueued { .. } => "action_queued",
            Event::ActionExecuted { .. } => "action_executed",
            Event::ActionCancelled { .. } => "action_cancelled",
            Event::EmergencyFreeze { .. } => "emergency_freeze",
            Event::Unfreeze { .. } => "unfreeze",
            Event::Pause { .. } => "pause",
            Event::YieldConfigured { .. } => "yield_cfg",
            Event::KycConfigured { .. } => "kyc_cfg",
            Event::YieldDeposited { .. } => "yield_dep",
            Event::YieldWithdrawn { .. } => "yield_wdr",
            Event::YieldHarvested { .. } => "yield_har",
        }
    }
}

/// What the host is asked to do. A command that cannot be carried out aborts
/// the whole invocation, and nothing of it remains. Nor does anything remain of
/// an invocation that returns an error: of its commands, only the authorizations
/// still have to be checked.
#[derive(Copy, Clone, Debug, PartialEq, Eq)]
pub enum Command {
    /// Check that the address has authorized this invocation.
    RequireAuth(Address),
    /// Extend the lifetime of the contract's instance entries to `extend_to`
    /// ledgers, if fewer than `threshold` are left.
    ExtendInstance { threshold: u32, extend_to: u32 },
    /// Extend the lifetime of one persistent entry likewise.
    ExtendPersistent { key: DataKey, threshold: u32, extend_to: u32 },
    /// Move tokens.
    Transfer { token: Address, from: Address, to: Address, amount: i128 },
    /// Lend tokens of `from` to the lending protocol.
    Deposit { protocol: Address, from: Address, token: Address, amount: i128 },
    /// Take lent tokens back from the lending protocol, for `to`.
    Withdraw { protocol: Address, to: Address, token: Address, amount: i128 },
    /// Replace the contract's code by the uploaded code with this hash.
    UpdateWasm([u8; 32]),
    /// Publish an event.
    Publish(Event),
}

/// The ledger entries of the contract. `None`, or a key that a table does not
/// hold, is an entry that was never written or has been removed.
#[derive(Debug)]
pub struct Storage {
    pub admin: Option<Address>,
    pub governance: Option<Address>,
    pub platform_treasury: Option<Address>,
    pub fee_bps: Option<i128>,
    pub fee_cap: Option<i128>,
    pub min_limit: Option<i128>,
    pub paused: Option<bool>,
    pub max_amount: Option<i128>,
    pub timelock_nonce: Option<u64>,
    pub frozen: Option<bool>,
    pub yield_protocol: Option<Address>,
    pub kyc_oracle: Option<Address>,
    pub kyc_threshold: Option<i128>,
    pub roles: Table<Role, Address>,
    pub user_volume: Table<Address, i128>,
    pub user_spending: Table<Address, UserSpending>,
    pub blacklist: Table<Address, bool>,
    pub refund_balance: Table<UserToken, i128>,
    pub timelock_entries: Table<u64, TimelockEntry>,
    pub yield_principal: Table<Address, i128>,
    pub user_role: Table<Membership, bool>,
}

/// The mathematical content of a [`Storage`].
pub struct StorageView {
    pub admin: Option<Address>,
    pub governance: Option<Address>,
    pub platform_treasury: Option<Address>,
    pub fee_bps: Option<i128>,
    pub fee_cap: Option<i128>,
    pub min_limit: Option<i128>,
    pub paused: Option<bool>,
    pub max_amount: Option<i128>,
    pub timelock_nonce: Option<u64>,
    pub frozen: Option<bool>,
    pub yield_protocol: Option<Address>,
    pub kyc_oracle: Option<Address>,
    pub kyc_threshold: Option<i128>,
    pub roles: Map<Role, Address>,
    pub user_volume: Map<Address, i128>,
    pub user_spending: Map<Address, UserSpending>,
    pub blacklist: Map<Address, bool>,
    pub refund_balance: Map<UserToken, i128>,
    pub timelock_entries: Map<u64, TimelockEntry>,
    pub yield_principal: Map<Address, i128>,
    pub user_role: Map<Membership, bool>,
}

impl View for Storage {
    type V = StorageView;

    open spec fn view(&self) -> StorageView {
        StorageView {
            admin: self.admin,
            governance: self.governance,
            platform_treasury: self.platform_treasury,
            fee_bps: self.fee_bps,
            fee_cap: self.fee_cap,
            min_limit: self.min_limit,
            paused: self.paused,
            max_amount: self.max_amount,
            timelock_nonce: self.timelock_nonce,
            frozen: self.frozen,
            yield_protocol: self.yield_protocol,
            kyc_oracle: self.kyc_oracle,
            kyc_threshold: self.kyc_threshold,
            roles: self.roles@,
            user_volume: self.user_volume@,
            user_spending: self.user_spending@,
            blacklist: self.blacklist@,
            refund_balance: self.refund_balance@,
            timelock_entries: self.timelock_entries@,
            yield_principal: self.yield_principal@,
            user_role: self.user_role@,
        }
    }
}

/// The terms on which a payment is charged.
#[derive(Copy, Clone, Debug, PartialEq, Eq, Structural)]
pub struct FeeTerms {
    /// Address that receives the platform fee.
    pub platform_treasury: Address,
    /// Platform fee rate, in basis points.
    pub fee_bps: i128,
    /// Upper bound on the fee.
    pub fee_cap: i128,
}

impl StorageView {
    /// A contract that nothing was ever written to.
    pub open spec fn blank() -> StorageView {
        StorageView {
            admin: None,
            governance: None,
            platform_treasury: None,
            fee_bps: None,
            fee_cap: None,
            min_limit: None,
            paused: None,
            max_amount: None,
            timelock_nonce: None,
            frozen: None,
            yield_protocol: None,
            kyc_oracle: None,
            kyc_threshold: None,
            roles: Map::empty(),
            user_volume: Map::empty(),
            user_spending: Map::empty(),
            blacklist: Map::empty(),
            refund_balance: Map::empty(),
            timelock_entries: Map::empty(),
            yield_principal: Map::empty(),
            user_role: Map::empty(),
        }
    }

    /// Whether payments and timelock executions are blocked.
    pub open spec fn is_frozen(self) -> bool {
        self.frozen == Some(true)
    }

    /// Whether payments are paused.
    pub open spec fn is_paused(self) -> bool {
        self.paused == Some(true)
    }

    /// The number of actions queued so far.
    pub open spec fn nonce(self) -> u64 {
        self.timelock_nonce.unwrap_or(0)
    }

    /// Who acts for `role`: its designated member, or else the admin.
    pub open spec fn holder(self, role: Role) -> Option<Address> {
        if self.roles.contains_key(role) {
            Some(self.roles[role])
        } else {
            self.admin
        }
    }

    /// Who may change fees: the governance contract once it is set, until then
    /// whoever acts as fee manager.
    pub open spec fn fee_authority(self) -> Option<Address> {
        if self.governance is Some {
            self.governance
        } else {
            self.holder(Role::FeeManager)
        }
    }

    /// The fee configuration, once all of it has been set.
    pub open spec fn fee_terms(self) -> Option<FeeTerms> {
        if self.platform_treasury is Some && self.fee_bps is Some && self.fee_cap is Some {
            Some(
                FeeTerms {
                    platform_treasury: self.platform_treasury->0,
                    fee_bps: self.fee_bps->0,
                    fee_cap: self.fee_cap->0,
                },
            )
        } else {
            None
        }
    }

    /// The largest payment accepted.
    pub open spec fn largest_payment(self) -> i128 {
        self.max_amount.unwrap_or(PaymentRouter::MAX_AMOUNT)
    }

    /// The smallest payment accepted (though never less than one unit).
    pub open spec fn smallest_payment(self) -> i128 {
        self.min_limit.unwrap_or(0)
    }

    /// The amount that `user` has routed so far.
    pub open spec fn volume(self, user: Address) -> i128 {
        self.user_volume.get(user).unwrap_or(0)
    }

    /// Whether payments to `address` are refused.
    pub open spec fn blacklisted(self, address: Address) -> bool {
        self.blacklist.get(address) == Some(true)
    }

    /// What the contract holds in `token` for `user`.
    pub open spec fn refund(self, user: Address, token: Address) -> i128 {
        self.refund_balance.get(UserToken { user, token }).unwrap_or(0)
    }

    /// The treasury funds in `token` that are lent out.
    pub open spec fn principal(self, token: Address) -> i128 {
        self.yield_principal.get(token).unwrap_or(0)
    }

    /// Whether `account` holds `role`, by assignment or as its designated member.
    pub open spec fn member(self, account: Address, role: Role) -> bool {
        ||| self.user_role.get(Membership { account, role }) == Some(true)
        ||| self.roles.get(role) == Some(account)
    }

    /// `account` becomes the designated member of `role`.
    pub open spec fn with_role(self, role: Role, account: Address) -> StorageView {
        StorageView {
            roles: self.roles.insert(role, account),
            user_role: self.user_role.insert(Membership { account, role }, true),
            ..self
        }
    }

    /// `account` no longer holds `role`.
    pub open spec fn without_role(self, role: Role, account: Address) -> StorageView {
        StorageView {
            roles: if self.roles.get(role) == Some(account) {
                self.roles.remove(role)
            } else {
                self.roles
            },
            user_role: self.user_role.insert(Membership { account, role }, false),
            ..self
        }
    }

    /// What holds of the ledger entries at time `now` after any sequence of calls.
    pub open spec fn wf(self, now: u64) -> bool {
        &&& self.spending_in_limits(now)
        &&& self.timelock_in_order(now)
        &&& self.balances_positive()
        &&& self.roles_consistent()
        &&& self.kyc_consistent()
        &&& self.admin_first()
        &&& self.super_admin_designated()
    }

    /// No window starts in the future, and no window exceeds the daily limit.
    pub open spec fn spending_in_limits(self, now: u64) -> bool {
        forall|user: Address| #[trigger]
            self.user_spending.contains_key(user) ==> {
                &&& self.user_spending[user].last_reset_time <= now
                &&& 0 <= self.user_spending[user].accumulated_amount
                    <= PaymentRouter::DAILY_MAX_LIMIT
            }
    }

    /// Pending actions were queued in the past, under nonces already given out.
    pub open spec fn timelock_in_order(self, now: u64) -> bool {
        forall|nonce: u64| #[trigger]
            self.timelock_entries.contains_key(nonce) ==> {
                &&& 1 <= nonce <= self.nonce()
                &&& self.timelock_entries[nonce].queued_at <= now
            }
    }

    /// No balance is negative, and no refund or principal is kept as zero.
    pub open spec fn balances_positive(self) -> bool {
        &&& forall|user: Address| #[trigger]
            self.user_volume.contains_key(user) ==> self.user_volume[user] >= 0
        &&& forall|key: UserToken| #[trigger]
            self.refund_balance.contains_key(key) ==> self.refund_balance[key] > 0
        &&& forall|token: Address| #[trigger]
            self.yield_principal.contains_key(token) ==> self.yield_principal[token] > 0
    }

    /// The designated member of a role is also assigned to it.
    pub open spec fn roles_consistent(self) -> bool {
        forall|role: Role| #[trigger]
            self.roles.contains_key(role) ==> self.user_role.get(
                Membership { account: self.roles[role], role },
            ) == Some(true)
    }

    /// The KYC threshold comes with an oracle, and is not negative.
    pub open spec fn kyc_consistent(self) -> bool {
        self.kyc_threshold is Some ==> self.kyc_threshold->0 >= 0 && self.kyc_oracle is Some
    }

    /// Nothing is configured before there is an admin.
    pub open spec fn admin_first(self) -> bool {
        self.admin is None ==> {
            &&& self.governance is None
            &&& self.platform_treasury is None
            &&& self.fee_bps is None
            &&& self.fee_cap is None
            &&& self.min_limit is None
            &&& self.yield_protocol is None
            &&& self.kyc_oracle is None
            &&& self.roles == Map::<Role, Address>::empty()
            &&& self.timelock_entries == Map::<u64, TimelockEntry>::empty()
            &&& self.nonce() == 0
        }
    }

    /// Once there is an admin, the super-admin role has a designated member.
    pub open spec fn super_admin_designated(self) -> bool {
        self.admin is Some ==> self.roles.contains_key(Role::SuperAdmin)
    }
}

impl Storage {
    /// A contract that nothing was ever written to.
    pub fn new() -> (storage: Storage)
        ensures
            storage@ == StorageView::blank(),
    {
        Storage {
            admin: None,
            governance: None,
            platform_treasury: None,
            fee_bps: None,
            fee_cap: None,
            min_limit: None,
            paused: None,
            max_amount: None,
            timelock_nonce: None,
            frozen: None,
            yield_protocol: None,
            kyc_oracle: None,
            kyc_threshold: None,
            roles: Table::new(),
            user_volume: Table::new(),
            user_spending: Table::new(),
            blacklist: Table::new(),
            refund_balance: Table::new(),
            timelock_entries: Table::new(),
            yield_principal: Table::new(),
            user_role: Table::new(),
        }
    }

    /// A second copy of the entries.
    pub fn duplicate(&self) -> (copy: Storage)
        ensures
            copy@ == self@,
    {
        Storage {
            admin: self.admin,
            governance: self.governance,
            platform_treasury: self.platform_treasury,
            fee_bps: self.fee_bps,
            fee_cap: self.fee_cap,
            min_limit: self.min_limit,
            paused: self.paused,
            max_amount: self.max_amount,
            timelock_nonce: self.timelock_nonce,
            frozen: self.frozen,
            yield_protocol: self.yield_protocol,
            kyc_oracle: self.kyc_oracle,
            kyc_threshold: self.kyc_threshold,
            roles: self.roles.duplicate(),
            user_volume: self.user_volume.duplicate(),
            user_spending: self.user_spending.duplicate(),
            blacklist: self.blacklist.duplicate(),
            refund_balance: self.refund_balance.duplicate(),
            timelock_entries: self.timelock_entries.duplicate(),
            yield_principal: self.yield_principal.duplicate(),
            user_role: self.user_role.duplicate(),
        }
    }
}

/// One invocation: the ledger entries, the clock, the contract's own address,
/// and the commands issued to the host so far.
#[derive(Debug)]
pub struct Invocation {
    /// The address of the contract itself.
    pub contract: Address,
    /// The ledger's time, in seconds.
    pub timestamp: u64,
    /// The contract's ledger entries.
    pub storage: Storage,
    /// What the host is to do, first command first.
    pub commands: Vec<Command>,
}

/// The mathematical content of an [`Invocation`].
pub struct InvocationView {
    pub contract: Address,
    pub timestamp: u64,
    pub storage: StorageView,
    pub commands: Seq<Command>,
}

/// What a call returns, and the invocation after it.
pub type Outcome<T> = (Result<T, Error>, InvocationView);

impl View for Invocation {
    type V = InvocationView;

    open spec fn view(&self) -> InvocationView {
        InvocationView {
            contract: self.contract,
            timestamp: self.timestamp,
            storage: self.storage@,
            commands: self.commands@,
        }
    }
}

impl InvocationView {
    /// The same invocation, with one more command.
    pub open spec fn issue(self, command: Command) -> InvocationView {
        InvocationView { commands: self.commands.push(command), ..self }
    }

    /// The same invocation after `address` was asked to authorize it.
    pub open spec fn authorized_by(self, address: Address) -> InvocationView {
        self.issue(Command::RequireAuth(address))
    }

    /// The same invocation after an event was published.
    pub open spec fn announce(self, event: Event) -> InvocationView {
        self.issue(Command::Publish(event))
    }

    /// The same invocation, with other ledger entries.
    pub open spec fn store(self, storage: StorageView) -> InvocationView {
        InvocationView { storage, ..self }
    }

    /// The same invocation after the lifetime of the instance entries was extended.
    pub open spec fn extend_instance(self) -> InvocationView {
        self.issue(
            Command::ExtendInstance {
                threshold: PaymentRouter::INSTANCE_LIFETIME_THRESHOLD,
                extend_to: PaymentRouter::INSTANCE_BUMP_AMOUNT,
            },
        )
    }

    /// The same invocation after the lifetime of a persistent entry was extended.
    pub open spec fn extend_persistent(self, key: DataKey) -> InvocationView {
        self.issue(
            Command::ExtendPersistent {
                key,
                threshold: PaymentRouter::PERSISTENT_LIFETIME_THRESHOLD,
                extend_to: PaymentRouter::PERSISTENT_BUMP_AMOUNT,
            },
        )
    }

    /// What holds of an invocation's ledger entries after any sequence of calls.
    pub open spec fn wf(self) -> bool {
        self.storage.wf(self.timestamp)
    }
}

impl Invocation {
    /// An invocation at time `timestamp` on the given ledger entries.
    pub fn new(contract: Address, timestamp: u64, storage: Storage) -> (env: Invocation)
        ensures
            env@ == (InvocationView {
                contract,
                timestamp,
                storage: storage@,
                commands: Seq::empty(),
            }),
    {
        Invocation { contract, timestamp, storage, commands: Vec::new() }
    }

    /// Appends a command.
    pub fn issue(&mut self, command: Command)
        ensures
            final(self)@ == old(self)@.issue(command),
    {
        self.commands.push(command);
    }

    /// Asks `address` to authorize the invocation.
    pub(crate) fn require_auth(&mut self, address: Address)
        ensures
            final(self)@ == old(self)@.authorized_by(address),
    {
        self.issue(Command::RequireAuth(address));
    }

    /// Publishes an event.
    pub(crate) fn announce(&mut self, event: Event)
        ensures
            final(self)@ == old(self)@.announce(event),
    {
        self.issue(Command::Publish(event));
    }

    /// Asks for a longer lifetime of the instance entries.
    pub(crate) fn extend_instance(&mut self)
        ensures
            final(self)@ == old(self)@.extend_instance(),
    {
        self.issue(
            Command::ExtendInstance {
                threshold: PaymentRouter::INSTANCE_LIFETIME_THRESHOLD,
                extend_to: PaymentRouter::INSTANCE_BUMP_AMOUNT,
            },
        );
    }

    /// Asks for a longer lifetime of one persistent entry.
    pub(crate) fn extend_persistent(&mut self, key: DataKey)
        ensures
            final(self)@ == old(self)@.extend_persistent(key),
    {
        self.issue(
            Command::ExtendPersistent {
                key,
                threshold: PaymentRouter::PERSISTENT_LIFETIME_THRESHOLD,
                extend_to: PaymentRouter::PERSISTENT_BUMP_AMOUNT,
            },
        );
    }
}

} // verus!
