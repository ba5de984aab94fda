//! The contract as its callers see it, on a host that keeps everything in memory.

use payment_router::{
    pack_spending, unpack_spending, ActionType, Address, AddressKind, Command, Error, Event,
    Invocation, Payment, PaymentRouter, Reply, Request, Role, Storage, TimelockEntry,
    TransferReply, UserSpending,
};

/// What the tokens, the lending protocol and the KYC oracle keep.
#[derive(Clone, Default)]
struct World {
    balances: Vec<(Address, Address, i128)>,
    refusing: Vec<Address>,
    lent: Vec<(Address, i128)>,
    yields: Vec<(Address, i128)>,
    verified: Vec<Address>,
}

fn amount_of(list: &[(Address, i128)], key: Address) -> i128 {
    list.iter().find(|e| e.0 == key).map(|e| e.1).unwrap_or(0)
}

fn put_amount(list: &mut Vec<(Address, i128)>, key: Address, amount: i128) {
    list.retain(|e| e.0 != key);
    list.push((key, amount));
}

impl World {
    fn balance(&self, token: Address, account: Address) -> i128 {
        self.balances
            .iter()
            .find(|e| e.0 == token && e.1 == account)
            .map(|e| e.2)
            .unwrap_or(0)
    }

    fn put(&mut self, token: Address, account: Address, amount: i128) {
        self.balances.retain(|e| !(e.0 == token && e.1 == account));
        self.balances.push((token, account, amount));
    }

    fn mint(&mut self, token: Address, account: Address, amount: i128) {
        let balance = self.balance(token, account);
        self.put(token, account, balance + amount);
    }

    fn transfer(&mut self, token: Address, from: Address, to: Address, amount: i128) -> bool {
        if amount < 0 || self.balance(token, from) < amount || self.refusing.contains(&to) {
            return false;
        }
        let left = self.balance(token, from) - amount;
        self.put(token, from, left);
        self.mint(token, to, amount);
        true
    }
}

/// One deployed contract and the world around it.
struct Host {
    contract: Address,
    timestamp: u64,
    storage: Storage,
    world: World,
    events: Vec<Event>,
    auths: Vec<Address>,
    asked: Vec<(Request, Reply)>,
    wasm: Option<[u8; 32]>,
    generated: u128,
}

fn setup_host() -> Host {
    Host {
        contract: Address { kind: AddressKind::Contract, hi: 0, lo: 1 },
        timestamp: 0,
        storage: Storage::new(),
        world: World::default(),
        events: Vec::new(),
        auths: Vec::new(),
        asked: Vec::new(),
        wasm: None,
        generated: 1,
    }
}

impl Host {
    fn generate(&mut self) -> Address {
        self.generated += 1;
        Address { kind: AddressKind::Account, hi: 0, lo: self.generated }
    }

    fn advance(&mut self, seconds: u64) {
        self.timestamp += seconds;
    }

    fn open(&self) -> Invocation {
        Invocation::new(self.contract, self.timestamp, self.storage.duplicate())
    }

    /// Carries out a call. If it fails, nothing of it remains.
    fn invoke<T>(
        &mut self,
        call: impl FnOnce(&mut Invocation) -> Result<T, Error>,
    ) -> Result<T, Error> {
        let mut env = self.open();
        let value = call(&mut env)?;
        self.commit(env);
        Ok(value)
    }

    fn commit(&mut self, env: Invocation) {
        self.auths.clear();
        for command in env.commands {
            match command {
                Command::RequireAuth(address) => self.auths.push(address),
                Command::ExtendInstance { threshold, extend_to } => {
                    assert_eq!((threshold, extend_to), (6 * 17280, 7 * 17280));
                }
                Command::ExtendPersistent { threshold, extend_to, .. } => {
                    assert_eq!((threshold, extend_to), (29 * 17280, 30 * 17280));
                }
                Command::Transfer { token, from, to, amount } => {
                    assert!(self.world.transfer(token, from, to, amount));
                }
                Command::Deposit { protocol, from, token, amount } => {
                    assert!(self.world.transfer(token, from, protocol, amount));
                    let lent = amount_of(&self.world.lent, token);
                    put_amount(&mut self.world.lent, token, lent + amount);
                }
                Command::Withdraw { protocol, to, token, amount } => {
                    let lent = amount_of(&self.world.lent, token);
                    assert!(lent >= amount);
                    assert!(self.world.transfer(token, protocol, to, amount));
                    put_amount(&mut self.world.lent, token, lent - amount);
                }
                Command::UpdateWasm(hash) => self.wasm = Some(hash),
                Command::Publish(event) => self.events.push(event),
            }
        }
        self.storage = env.storage;
    }

    /// Keeps a sender's spending record in its packed form for a while.
    fn repack(&mut self, sender: Address) {
        let ledger = soroban_sdk::Env::default();
        if let Some(window) = self.storage.user_spending.get(sender) {
            let packed = pack_spending(
                &ledger,
                window.last_reset_time,
                window.accumulated_amount,
            );
            let (last_reset_time, accumulated_amount) = unpack_spending(&packed);
            self.storage
                .user_spending
                .set(sender, UserSpending { last_reset_time, accumulated_amount });
        }
    }

    fn answer(&mut self, request: Request) -> Reply {
        match request {
            Request::IsVerified { account, .. } => {
                Reply::Verified(self.world.verified.contains(&account))
            }
            Request::Balance { token, account } => {
                Reply::Balance(self.world.balance(token, account))
            }
            Request::Transfer { token, from, to, amount } => {
                Reply::Transfer(if self.world.transfer(token, from, to, amount) {
                    TransferReply::Done
                } else {
                    TransferReply::Failed
                })
            }
        }
    }

    fn route_payments(&mut self, payments: Vec<Payment>) -> Result<(), Error> {
        let senders: Vec<Address> = payments.iter().map(|p| p.sender).collect();
        let before = self.world.clone();
        let mut env = self.open();
        assert!(PaymentRouter::admits(&env, &payments));
        let mut routing = PaymentRouter::route_payments(&mut env, payments);
        while let Some(request) = routing.request(&env) {
            let reply = self.answer(request);
            self.asked.push((request, reply));
            assert!(routing.accepts(&env, reply));
            routing.resume(&mut env, reply);
        }
        match routing.result().unwrap() {
            Ok(()) => self.commit(env),
            Err(error) => {
                self.world = before;
                return Err(error);
            }
        }
        for sender in senders {
            self.repack(sender);
        }
        Ok(())
    }

    fn route_payment(
        &mut self,
        sender: Address,
        recipient: Address,
        token_address: Address,
        amount: i128,
    ) -> Result<(), Error> {
        self.route_payments(vec![Payment { sender, recipient, token_address, amount }])
    }

    fn initialize(
        &mut self,
        admin: Address,
        treasury: Address,
        fee_bps: i128,
        fee_cap: i128,
        max_amount: i128,
    ) -> Result<(), Error> {
        self.invoke(|e| {
            PaymentRouter::initialize(e, admin, treasury, fee_bps, fee_cap, max_amount)
        })
    }

    fn harvest_yield(&mut self, token: Address) -> Result<i128, Error> {
        let mut env = self.open();
        let harvest = PaymentRouter::harvest_yield(&mut env, token)?;
        let amount = amount_of(&self.world.yields, harvest.token);
        if amount > 0 {
            assert!(self.world.transfer(
                harvest.token,
                harvest.protocol,
                harvest.treasury,
                amount,
            ));
            put_amount(&mut self.world.yields, harvest.token, 0);
        }
        let harvested = PaymentRouter::finish_harvest(&mut env, harvest, amount);
        self.commit(env);
        Ok(harvested)
    }

    fn queue_action(&mut self, action: ActionType) -> Result<u64, Error> {
        self.invoke(|e| PaymentRouter::queue_action(e, action))
    }

    fn execute_action(&mut self, nonce: u64) -> Result<(), Error> {
        self.invoke(|e| PaymentRouter::execute_action(e, nonce))
    }

    fn cancel_action(&mut self, nonce: u64) -> Result<(), Error> {
        self.invoke(|e| PaymentRouter::cancel_action(e, nonce))
    }

    fn get_queued_action(&self, nonce: u64) -> Result<TimelockEntry, Error> {
        PaymentRouter::get_queued_action(&self.open(), nonce)
    }

    fn emergency_freeze(&mut self) -> Result<(), Error> {
        self.invoke(PaymentRouter::emergency_freeze)
    }

    fn unfreeze(&mut self) -> Result<(), Error> {
        self.invoke(PaymentRouter::unfreeze)
    }

    fn is_frozen(&self) -> bool {
        PaymentRouter::is_frozen(&self.open())
    }

    fn get_fee(&self) -> i128 {
        PaymentRouter::get_fee(&self.open())
    }

    fn set_fee_bps(&mut self, bps: i128) -> Result<(), Error> {
        self.invoke(|e| PaymentRouter::set_fee_bps(e, bps))
    }

    fn set_fee_config(&mut self, bps: i128, cap: i128) -> Result<(), Error> {
        self.invoke(|e| PaymentRouter::set_fee_config(e, bps, cap))
    }

    fn set_pause(&mut self, paused: bool) -> Result<(), Error> {
        self.invoke(|e| PaymentRouter::set_pause(e, paused))
    }

    fn set_paused(&mut self, paused: bool) -> Result<(), Error> {
        self.invoke(|e| PaymentRouter::set_paused(e, paused))
    }

    fn is_paused(&self) -> bool {
        PaymentRouter::is_paused(&self.open())
    }

    fn set_kyc_config(&mut self, oracle: Address, threshold: i128) -> Result<(), Error> {
        self.invoke(|e| PaymentRouter::set_kyc_config(e, oracle, threshold))
    }

    fn assign_role(&mut self, account: Address, role: Role) -> Result<(), Error> {
        self.invoke(|e| PaymentRouter::assign_role(e, account, role))
    }

    fn revoke_role(&mut self, account: Address, role: Role) -> Result<(), Error> {
        self.invoke(|e| PaymentRouter::revoke_role(e, account, role))
    }

    fn has_role(&self, account: Address, role: Role) -> bool {
        PaymentRouter::has_role(&self.open(), account, role)
    }

    fn get_role_member(&self, role: Role) -> Option<Address> {
        PaymentRouter::get_role_member(&self.open(), role)
    }

    fn get_user_volume(&self, user: Address) -> i128 {
        PaymentRouter::get_user_volume(&self.open(), user)
    }

    fn get_effective_fee_bps(&self, sender: Address) -> i128 {
        PaymentRouter::get_effective_fee_bps(&self.open(), sender)
    }

    fn get_yield_position(&self, token: Address) -> i128 {
        PaymentRouter::get_yield_position(&self.open(), token)
    }

    fn get_refund_balance(&self, user: Address, token: Address) -> i128 {
        PaymentRouter::get_refund_balance(&self.open(), user, token)
    }

    fn withdraw_refund(
        &mut self,
        user: Address,
        token: Address,
        amount: i128,
    ) -> Result<(), Error> {
        self.invoke(|e| PaymentRouter::withdraw_refund(e, user, token, amount))
    }

    fn claim_all_refunds(&mut self, user: Address, token: Address) -> Result<i128, Error> {
        self.invoke(|e| PaymentRouter::claim_all_refunds(e, user, token))
    }

    fn is_blacklisted(&self, address: Address) -> bool {
        PaymentRouter::is_blacklisted(&self.open(), address)
    }

    fn add_supported_token(&self, token: Address) {
        PaymentRouter::add_supported_token(&self.open(), token).unwrap();
    }
}

#[test]
fn test_treasury_yield_deposit_harvest_and_withdraw() {
    let mut h = setup_host();
    let (admin, treasury, protocol, token) =
        (h.generate(), h.generate(), h.generate(), h.generate());

    h.initialize(admin, treasury, 100, 1_000, PaymentRouter::MAX_AMOUNT).unwrap();
    h.invoke(|e| PaymentRouter::set_yield_protocol(e, protocol)).unwrap();
    h.world.mint(token, treasury, 10_000);

    h.invoke(|e| PaymentRouter::deposit_to_yield(e, token, 6_000)).unwrap();
    assert_eq!(h.get_yield_position(token), 6_000);
    assert_eq!(h.world.balance(token, treasury), 4_000);
    assert_eq!(h.world.balance(token, protocol), 6_000);

    h.world.mint(token, protocol, 500);
    put_amount(&mut h.world.yields, token, 500);
    assert_eq!(h.harvest_yield(token), Ok(500));
    assert_eq!(h.world.balance(token, treasury), 4_500);
    assert_eq!(h.get_yield_position(token), 6_000);

    h.invoke(|e| PaymentRouter::withdraw_from_yield(e, token, 2_000)).unwrap();
    assert_eq!(h.get_yield_position(token), 4_000);
    assert_eq!(h.world.balance(token, treasury), 6_500);
    assert_eq!(h.world.balance(token, protocol), 4_000);
}

#[test]
fn test_yield_operations_require_configuration_and_valid_amounts() {
    let mut h = setup_host();
    let (admin, treasury, token) = (h.generate(), h.generate(), h.generate());
    h.initialize(admin, treasury, 100, 1_000, PaymentRouter::MAX_AMOUNT).unwrap();

    assert_eq!(
        h.invoke(|e| PaymentRouter::deposit_to_yield(e, token, 100)),
        Err(Error::YieldProtocolNotConfigured)
    );
    assert_eq!(
        h.invoke(|e| PaymentRouter::deposit_to_yield(e, token, 0)),
        Err(Error::InvalidYieldAmount)
    );
    assert_eq!(
        h.invoke(|e| PaymentRouter::withdraw_from_yield(e, token, 1)),
        Err(Error::InvalidYieldAmount)
    );
}

#[test]
fn test_kyc_oracle_gates_only_high_value_payments() {
    let mut h = setup_host();
    let (admin, treasury, sender, recipient) =
        (h.generate(), h.generate(), h.generate(), h.generate());
    let (oracle, token) = (h.generate(), h.generate());

    h.initialize(admin, treasury, 100, 1_000, PaymentRouter::MAX_AMOUNT).unwrap();
    h.set_kyc_config(oracle, 1_000).unwrap();
    h.world.mint(token, sender, 10_000);

    h.route_payment(sender, recipient, token, 500).unwrap();
    assert_eq!(h.route_payment(sender, recipient, token, 2_000), Err(Error::KycRequired));

    h.world.verified.push(sender);
    h.route_payment(sender, recipient, token, 2_000).unwrap();
    assert_eq!(PaymentRouter::get_kyc_threshold(&h.open()), Some(1_000));
    assert_eq!(h.world.balance(token, sender), 7_500);
}

#[test]
fn test_kyc_config_rejects_negative_threshold() {
    let mut h = setup_host();
    let (admin, treasury, oracle) = (h.generate(), h.generate(), h.generate());
    h.initialize(admin, treasury, 100, 1_000, PaymentRouter::MAX_AMOUNT).unwrap();

    assert_eq!(h.set_kyc_config(oracle, -1), Err(Error::InvalidKycThreshold));
}

#[test]
fn test_batch_payments_enforce_kyc_for_each_sender() {
    let mut h = setup_host();
    let (admin, treasury, sender, recipient) =
        (h.generate(), h.generate(), h.generate(), h.generate());
    let (oracle, token_address) = (h.generate(), h.generate());
    h.initialize(admin, treasury, 100, 1_000, PaymentRouter::MAX_AMOUNT).unwrap();
    h.set_kyc_config(oracle, 1_000).unwrap();
    h.world.mint(token_address, sender, 5_000);

    let payments = vec![Payment { sender, recipient, token_address, amount: 2_000 }];
    assert_eq!(h.route_payments(payments), Err(Error::KycRequired));
}

#[test]
fn test_queue_and_execute_set_fee_bps_after_delay() {
    let mut h = setup_host();
    let (admin, treasury) = (h.generate(), h.generate());
    h.initialize(admin, treasury, 100, 1000, PaymentRouter::MAX_AMOUNT).unwrap();

    // Queue a fee change.
    let nonce = h.queue_action(ActionType::SetFeeBps(250)).unwrap();
    assert_eq!(nonce, 1);
    assert_eq!(h.get_fee(), 100); // Not applied yet.

    // The delay has not elapsed.
    assert_eq!(h.execute_action(nonce), Err(Error::TimelockNotReady));

    h.advance(PaymentRouter::SECONDS_IN_24H + 1);

    h.execute_action(nonce).unwrap();
    assert_eq!(h.get_fee(), 250);

    // The entry is gone.
    assert_eq!(h.get_queued_action(nonce), Err(Error::TimelockNotFound));
}

#[test]
fn test_queue_and_execute_set_platform_treasury() {
    let mut h = setup_host();
    let (admin, treasury, new_treasury) = (h.generate(), h.generate(), h.generate());
    h.initialize(admin, treasury, 100, 1000, PaymentRouter::MAX_AMOUNT).unwrap();

    let nonce = h.queue_action(ActionType::SetPlatformTreasury(new_treasury)).unwrap();
    h.advance(PaymentRouter::SECONDS_IN_24H + 1);
    h.execute_action(nonce).unwrap();

    // The fee of a payment shows where it lands.
    let (sender, recipient, token) = (h.generate(), h.generate(), h.generate());
    h.world.mint(token, sender, 10_000);
    h.route_payment(sender, recipient, token, 1000).unwrap();

    // 100 bps of 1000 = 10, capped to min(10, 1000) = 10
    assert_eq!(h.world.balance(token, new_treasury), 10);
    assert_eq!(h.world.balance(token, treasury), 0);
}

#[test]
fn test_execute_action_not_found() {
    let mut h = setup_host();
    let (admin, treasury) = (h.generate(), h.generate());
    h.initialize(admin, treasury, 100, 1000, PaymentRouter::MAX_AMOUNT).unwrap();

    assert_eq!(h.execute_action(99), Err(Error::TimelockNotFound));
}

#[test]
fn test_cancel_action() {
    let mut h = setup_host();
    let (admin, treasury) = (h.generate(), h.generate());
    h.initialize(admin, treasury, 100, 1000, PaymentRouter::MAX_AMOUNT).unwrap();

    let nonce = h.queue_action(ActionType::SetFeeBps(999)).unwrap();
    assert!(h.get_queued_action(nonce).is_ok());

    h.cancel_action(nonce).unwrap();

    assert_eq!(h.get_queued_action(nonce), Err(Error::TimelockNotFound));
    assert_eq!(h.get_fee(), 100);
}

#[test]
fn test_cancel_nonexistent_action() {
    let mut h = setup_host();
    let (admin, treasury) = (h.generate(), h.generate());
    h.initialize(admin, treasury, 100, 1000, PaymentRouter::MAX_AMOUNT).unwrap();

    assert_eq!(h.cancel_action(42), Err(Error::TimelockNotFound));
}

#[test]
fn test_nonce_increments() {
    let mut h = setup_host();
    let (admin, treasury) = (h.generate(), h.generate());
    h.initialize(admin, treasury, 100, 1000, PaymentRouter::MAX_AMOUNT).unwrap();

    assert_eq!(h.queue_action(ActionType::SetFeeBps(200)), Ok(1));
    assert_eq!(h.queue_action(ActionType::SetFeeBps(300)), Ok(2));
    assert_eq!(h.queue_action(ActionType::SetFeeBps(400)), Ok(3));
}

#[test]
fn test_emergency_freeze_blocks_payments() {
    let mut h = setup_host();
    let (admin, treasury, sender, recipient) =
        (h.generate(), h.generate(), h.generate(), h.generate());
    let token = h.generate();
    h.world.mint(token, sender, 10_000);

    h.initialize(admin, treasury, 100, 50, PaymentRouter::MAX_AMOUNT).unwrap();
    assert!(!h.is_frozen());

    h.emergency_freeze().unwrap();
    assert!(h.is_frozen());

    assert_eq!(h.route_payment(sender, recipient, token, 1000), Err(Error::ContractFrozen));
}

#[test]
fn test_emergency_freeze_blocks_timelock_execution() {
    let mut h = setup_host();
    let (admin, treasury) = (h.generate(), h.generate());
    h.initialize(admin, treasury, 100, 1000, PaymentRouter::MAX_AMOUNT).unwrap();

    let nonce = h.queue_action(ActionType::SetFeeBps(500)).unwrap();
    h.advance(PaymentRouter::SECONDS_IN_24H + 1);

    // Freeze the contract before execution.
    h.emergency_freeze().unwrap();
    assert_eq!(h.execute_action(nonce), Err(Error::ContractFrozen));
    assert_eq!(h.get_fee(), 100);
}

#[test]
fn test_unfreeze_restores_payments() {
    let mut h = setup_host();
    let (admin, treasury, sender, recipient) =
        (h.generate(), h.generate(), h.generate(), h.generate());
    let token = h.generate();
    h.world.mint(token, sender, 10_000);

    h.initialize(admin, treasury, 100, 50, PaymentRouter::MAX_AMOUNT).unwrap();

    h.emergency_freeze().unwrap();
    assert!(h.is_frozen());

    h.unfreeze().unwrap();
    assert!(!h.is_frozen());

    h.route_payment(sender, recipient, token, 1000).unwrap();
}

#[test]
fn test_freeze_queue_action_blocked() {
    let mut h = setup_host();
    let (admin, treasury) = (h.generate(), h.generate());
    h.initialize(admin, treasury, 100, 1000, PaymentRouter::MAX_AMOUNT).unwrap();

    h.emergency_freeze().unwrap();
    assert_eq!(h.queue_action(ActionType::SetFeeBps(500)), Err(Error::ContractFrozen));
}

#[test]
fn test_cancel_action_allowed_while_frozen() {
    let mut h = setup_host();
    let (admin, treasury) = (h.generate(), h.generate());
    h.initialize(admin, treasury, 100, 1000, PaymentRouter::MAX_AMOUNT).unwrap();

    let nonce = h.queue_action(ActionType::SetFeeBps(500)).unwrap();
    h.emergency_freeze().unwrap();

    h.cancel_action(nonce).unwrap();
    assert_eq!(h.get_queued_action(nonce), Err(Error::TimelockNotFound));
}

#[test]
fn test_queue_action_emits_event() {
    let mut h = setup_host();
    let (admin, treasury) = (h.generate(), h.generate());
    h.initialize(admin, treasury, 100, 1000, PaymentRouter::MAX_AMOUNT).unwrap();

    h.queue_action(ActionType::SetFeeBps(200)).unwrap();

    assert!(h.events.iter().any(|e| e.name() == "action_queued"));
}

#[test]
fn test_freeze_emits_event() {
    let mut h = setup_host();
    let (admin, treasury) = (h.generate(), h.generate());
    h.initialize(admin, treasury, 100, 1000, PaymentRouter::MAX_AMOUNT).unwrap();

    h.emergency_freeze().unwrap();

    assert!(h.events.iter().any(|e| e.name() == "emergency_freeze"));
}

#[test]
fn test_get_fee() {
    let mut h = setup_host();
    let (admin, treasury) = (h.generate(), h.generate());

    // Before initialization, get_fee returns 0
    assert_eq!(h.get_fee(), 0);

    h.initialize(admin, treasury, 150, 5000, PaymentRouter::MAX_AMOUNT).unwrap();
    assert_eq!(h.get_fee(), 150);

    h.set_fee_bps(250).unwrap();
    assert_eq!(h.get_fee(), 250);

    h.set_fee_config(300, 10000).unwrap();
    assert_eq!(h.get_fee(), 300);
}

#[test]
fn test_version_reports_contract_version() {
    let h = setup_host();

    // The version is callable without initialization.
    assert_eq!(PaymentRouter::version(&h.open()), PaymentRouter::VERSION);
    assert_eq!(PaymentRouter::version(&h.open()), 1);
}

#[test]
fn test_admin_restrictions_and_updates() {
    let mut h = setup_host();
    let (admin, treasury, new_admin) = (h.generate(), h.generate(), h.generate());

    h.initialize(admin, treasury, 100, 1000, PaymentRouter::MAX_AMOUNT).unwrap();

    // Trying to initialize again should fail
    assert_eq!(
        h.initialize(admin, treasury, 100, 1000, PaymentRouter::MAX_AMOUNT),
        Err(Error::AlreadyInitialized)
    );

    h.invoke(|e| PaymentRouter::set_admin(e, new_admin)).unwrap();

    h.set_fee_config(200, 2000).unwrap();
    h.set_fee_bps(200).unwrap();
    assert_eq!(h.get_fee(), 200);

    let new_treasury = h.generate();
    h.invoke(|e| PaymentRouter::set_platform_treasury(e, new_treasury)).unwrap();
}

#[test]
fn test_recover_tokens() {
    let mut h = setup_host();
    let (admin, treasury, token) = (h.generate(), h.generate(), h.generate());
    h.initialize(admin, treasury, 100, 1000, PaymentRouter::MAX_AMOUNT).unwrap();

    // Simulate tokens accidentally sent directly to the contract address
    let accidental_amount = 5_000i128;
    h.world.mint(token, h.contract, accidental_amount);

    assert_eq!(h.world.balance(token, h.contract), accidental_amount);
    assert_eq!(h.world.balance(token, admin), 0);

    let recover_amount = 3_000i128;
    h.invoke(|e| PaymentRouter::recover_tokens(e, token, recover_amount)).unwrap();

    assert_eq!(h.world.balance(token, admin), recover_amount);
    assert_eq!(h.world.balance(token, h.contract), accidental_amount - recover_amount);
}

#[test]
fn test_set_pause_emits_event() {
    let mut h = setup_host();
    let (admin, treasury) = (h.generate(), h.generate());
    h.initialize(admin, treasury, 100, 1000, PaymentRouter::MAX_AMOUNT).unwrap();

    h.set_pause(true).unwrap();

    assert!(!h.events.is_empty());
    assert_eq!(h.events[0].name(), "pause");
    assert_eq!(h.events[0], Event::Pause { paused: true });
}

#[test]
fn test_route_payment_emits_payment_initiated_event() {
    let mut h = setup_host();
    let (admin, treasury, sender, recipient) =
        (h.generate(), h.generate(), h.generate(), h.generate());
    let token = h.generate();
    h.world.mint(token, sender, 10_000);

    h.initialize(admin, treasury, 100, 50, PaymentRouter::MAX_AMOUNT).unwrap();
    h.route_payment(sender, recipient, token, 5_000).unwrap();

    assert!(!h.events.is_empty());
    let found = h.events.iter().find(|e| e.name() == "payment_initiated");
    assert_eq!(found, Some(&Event::PaymentInitiated { sender, amount: 5_000 }));
}

#[test]
fn test_route_payment_emits_routed_event() {
    let mut h = setup_host();
    let (admin, treasury, sender, recipient) =
        (h.generate(), h.generate(), h.generate(), h.generate());
    let token = h.generate();
    h.world.mint(token, sender, 10_000);

    h.initialize(admin, treasury, 100, 50, PaymentRouter::MAX_AMOUNT).unwrap();
    h.add_supported_token(token);

    let amount = 2_000i128;
    h.route_payment(sender, recipient, token, amount).unwrap();

    assert!(!h.events.is_empty());
    let routed = h.events.iter().find(|e| e.name() == "routed");
    assert_eq!(routed, Some(&Event::Routed { sender, recipient, amount }));
}

#[test]
fn test_admin_pause_functionality() {
    let mut h = setup_host();
    let (admin, treasury, sender, recipient) =
        (h.generate(), h.generate(), h.generate(), h.generate());
    let token = h.generate();
    h.world.mint(token, sender, 10_000);

    h.initialize(admin, treasury, 100, 50, PaymentRouter::MAX_AMOUNT).unwrap();

    assert!(!h.is_paused());

    h.set_pause(true).unwrap();
    assert!(h.is_paused());

    assert_eq!(h.route_payment(sender, recipient, token, 1000), Err(Error::Paused));

    // Unpause via the alias
    h.set_paused(false).unwrap();
    assert!(!h.is_paused());

    h.route_payment(sender, recipient, token, 1000).unwrap();
}

#[test]
fn test_route_payment_calculates_and_sends_fee() {
    let mut h = setup_host();
    let (admin, treasury, sender, recipient) =
        (h.generate(), h.generate(), h.generate(), h.generate());
    let token = h.generate();
    let initial_balance = 10_000i128;
    h.world.mint(token, sender, initial_balance);

    // 1% fee (100 bps) and cap of 50
    h.initialize(admin, treasury, 100, 50, PaymentRouter::MAX_AMOUNT).unwrap();
    h.add_supported_token(token);

    // 1% of 2000 = 20, below cap of 50
    let amount_1 = 2000i128;
    h.route_payment(sender, recipient, token, amount_1).unwrap();

    assert_eq!(h.world.balance(token, treasury), 20);
    assert_eq!(h.world.balance(token, recipient), 1980);
    assert_eq!(h.world.balance(token, sender), initial_balance - amount_1);
    assert_eq!(h.get_user_volume(sender), amount_1);

    // 1% of 8000 = 80, capped to 50
    let amount_2 = 8000i128;
    h.route_payment(sender, recipient, token, amount_2).unwrap();

    assert_eq!(h.world.balance(token, treasury), 70);
    assert_eq!(h.world.balance(token, recipient), 9930);
    assert_eq!(h.world.balance(token, sender), initial_balance - amount_1 - amount_2);
    assert_eq!(h.get_user_volume(sender), amount_1 + amount_2);
}

#[test]
fn test_insufficient_balance() {
    let mut h = setup_host();
    let (admin, treasury, sender, recipient) =
        (h.generate(), h.generate(), h.generate(), h.generate());
    let token = h.generate();
    h.world.mint(token, sender, 100);

    h.initialize(admin, treasury, 100, 50, PaymentRouter::MAX_AMOUNT).unwrap();
    h.add_supported_token(token);

    // A payment of 500 when the balance is only 100
    assert_eq!(h.route_payment(sender, recipient, token, 500), Err(Error::InsufficientBalance));
}

#[test]
fn test_daily_limit_and_reset() {
    let mut h = setup_host();
    let (admin, treasury, sender, recipient) =
        (h.generate(), h.generate(), h.generate(), h.generate());
    let token = h.generate();

    let limit = 10_000_000_000_000i128;
    h.world.mint(token, sender, limit + 2000);

    h.initialize(admin, treasury, 100, 50, PaymentRouter::MAX_AMOUNT).unwrap();
    h.add_supported_token(token);

    // Up to the daily limit
    h.route_payment(sender, recipient, token, limit).unwrap();

    // The next payment exceeds it
    assert_eq!(h.route_payment(sender, recipient, token, 2000), Err(Error::LimitExceeded));

    h.advance(86400);

    // The first payment pushed the volume past the threshold, so the halved rate
    // applies: 2000 * 50 bps = 10.
    h.route_payment(sender, recipient, token, 2000).unwrap();
    assert_eq!(h.world.balance(token, recipient), (limit - 50) + (2000 - 10));
}

#[test]
fn test_prevent_self_routing() {
    let mut h = setup_host();
    let (admin, treasury, sender, token) =
        (h.generate(), h.generate(), h.generate(), h.generate());
    h.world.mint(token, sender, 10_000);

    h.initialize(admin, treasury, 100, 50, PaymentRouter::MAX_AMOUNT).unwrap();

    assert_eq!(h.route_payment(sender, sender, token, 1000), Err(Error::InvalidRecipient));
}

#[test]
fn test_tiered_fee_discount_applied_after_volume_threshold() {
    let mut h = setup_host();
    let (admin, treasury, sender, recipient) =
        (h.generate(), h.generate(), h.generate(), h.generate());
    let token = h.generate();

    // Threshold is 10,000 XLM = 10,000 * 10,000,000 (7 decimals)
    let threshold = 100_000_000_000i128;
    let first_amount = threshold + 1;
    let second_amount = 1000i128;
    let total_mint = first_amount + second_amount + 10_000_000;
    h.world.mint(token, sender, total_mint);

    // 1% fee (100 bps) and no cap
    h.initialize(admin, treasury, 100, i128::MAX, PaymentRouter::MAX_AMOUNT).unwrap();

    // First payment: volume is 0 (< threshold), full fee applies
    h.route_payment(sender, recipient, token, first_amount).unwrap();

    let full_fee_first = (first_amount * 100) / 10_000;
    assert_eq!(h.world.balance(token, treasury), full_fee_first);
    assert_eq!(h.world.balance(token, recipient), first_amount - full_fee_first);
    assert_eq!(h.get_user_volume(sender), first_amount);
    // Volume is now past threshold, so the next call gets the discount
    assert_eq!(h.get_effective_fee_bps(sender), 50);

    // Second payment: volume > threshold, 50% discount applies
    h.route_payment(sender, recipient, token, second_amount).unwrap();

    let discounted_fee = (second_amount * 50) / 10_000;
    assert_eq!(h.world.balance(token, treasury), full_fee_first + discounted_fee);
    assert_eq!(
        h.world.balance(token, recipient),
        (first_amount - full_fee_first) + (second_amount - discounted_fee)
    );
}

#[test]
fn test_get_effective_fee_bps_no_discount_below_threshold() {
    let mut h = setup_host();
    let (admin, treasury, sender, recipient) =
        (h.generate(), h.generate(), h.generate(), h.generate());
    let token = h.generate();
    h.world.mint(token, sender, 1_000_000);

    h.initialize(admin, treasury, 100, i128::MAX, PaymentRouter::MAX_AMOUNT).unwrap();

    // No volume yet
    assert_eq!(h.get_effective_fee_bps(sender), 100);

    h.route_payment(sender, recipient, token, 1000).unwrap();

    // Volume is 1000, far below the threshold
    assert_eq!(h.get_effective_fee_bps(sender), 100);
}

#[test]
fn test_successful_xlm_routing() {
    let mut h = setup_host();
    let (admin, sender, recipient, platform_treasury) =
        (h.generate(), h.generate(), h.generate(), h.generate());
    let token = h.generate();

    h.initialize(admin, platform_treasury, 40, i128::MAX, PaymentRouter::MAX_AMOUNT).unwrap();

    let initial_balance = 1_000_000_000i128;
    h.world.mint(token, sender, initial_balance);
    h.add_supported_token(token);

    let amount = 100_000_000i128;
    h.route_payment(sender, recipient, token, amount).unwrap();

    let expected_fee = 400_000i128;
    let expected_recipient_amount = amount - expected_fee;

    assert_eq!(h.world.balance(token, sender), initial_balance - amount);
    assert_eq!(h.world.balance(token, recipient), expected_recipient_amount);
    assert_eq!(h.world.balance(token, platform_treasury), expected_fee);
}

#[test]
fn test_initialize_sets_admin() {
    let mut h = setup_host();
    let (admin, treasury) = (h.generate(), h.generate());

    h.initialize(admin, treasury, 100, 1000, PaymentRouter::MAX_AMOUNT).unwrap();

    assert_eq!(h.storage.admin, Some(admin));
}

#[test]
fn test_emergency_withdraw_transfers_tokens_to_admin() {
    let mut h = setup_host();
    let (admin, treasury, token) = (h.generate(), h.generate(), h.generate());
    h.initialize(admin, treasury, 100, 1000, PaymentRouter::MAX_AMOUNT).unwrap();

    // Fund the contract directly.
    let stranded_amount = 10_000i128;
    h.world.mint(token, h.contract, stranded_amount);

    assert_eq!(h.world.balance(token, h.contract), stranded_amount);
    assert_eq!(h.world.balance(token, admin), 0);

    let withdraw_amount = 4_000i128;
    h.invoke(|e| PaymentRouter::emergency_withdraw(e, token, withdraw_amount)).unwrap();

    assert_eq!(h.world.balance(token, admin), withdraw_amount);
    assert_eq!(h.world.balance(token, h.contract), stranded_amount - withdraw_amount);
}

#[test]
fn test_emergency_withdraw_full_balance() {
    let mut h = setup_host();
    let (admin, treasury, token) = (h.generate(), h.generate(), h.generate());
    h.initialize(admin, treasury, 100, 1000, PaymentRouter::MAX_AMOUNT).unwrap();

    let stranded_amount = 7_500i128;
    h.world.mint(token, h.contract, stranded_amount);

    h.invoke(|e| PaymentRouter::emergency_withdraw(e, token, stranded_amount)).unwrap();

    assert_eq!(h.world.balance(token, admin), stranded_amount);
    assert_eq!(h.world.balance(token, h.contract), 0);
}

#[test]
fn test_admin_is_required_for_emergency_withdraw() {
    let mut h = setup_host();
    let (admin, treasury, token) = (h.generate(), h.generate(), h.generate());
    h.initialize(admin, treasury, 100, 1000, PaymentRouter::MAX_AMOUNT).unwrap();
    h.world.mint(token, h.contract, 5_000);

    h.invoke(|e| PaymentRouter::emergency_withdraw(e, token, 1_000)).unwrap();

    // The call asked exactly one address, the admin, to authorize it.
    assert_eq!(h.auths, vec![admin]);
}

#[test]
fn test_blacklist_recipient() {
    let mut h = setup_host();
    let (admin, treasury, sender, recipient) =
        (h.generate(), h.generate(), h.generate(), h.generate());
    let token = h.generate();
    h.world.mint(token, sender, 10_000);

    h.initialize(admin, treasury, 100, 50, PaymentRouter::MAX_AMOUNT).unwrap();

    h.invoke(|e| PaymentRouter::blacklist_address(e, recipient)).unwrap();
    assert!(h.is_blacklisted(recipient));

    assert_eq!(h.route_payment(sender, recipient, token, 1000), Err(Error::Blacklisted));

    h.invoke(|e| PaymentRouter::unblacklist_address(e, recipient)).unwrap();
    assert!(!h.is_blacklisted(recipient));

    h.route_payment(sender, recipient, token, 1000).unwrap();
}

#[test]
fn test_routes_multiple_distinct_assets() {
    let mut h = setup_host();
    let (admin, treasury, sender, recipient) =
        (h.generate(), h.generate(), h.generate(), h.generate());

    h.initialize(admin, treasury, 100, 1_000_000, PaymentRouter::MAX_AMOUNT).unwrap();

    let (usdc_like, eurc_like) = (h.generate(), h.generate());
    assert_ne!(usdc_like, eurc_like);

    h.world.mint(usdc_like, sender, 10_000);
    h.world.mint(eurc_like, sender, 5_000);

    h.route_payment(sender, recipient, usdc_like, 2_000).unwrap();
    h.route_payment(sender, recipient, eurc_like, 1_000).unwrap();

    assert_eq!(h.world.balance(usdc_like, sender), 8_000);
    assert_eq!(h.world.balance(usdc_like, recipient), 1_980);
    assert_eq!(h.world.balance(eurc_like, sender), 4_000);
    assert_eq!(h.world.balance(eurc_like, recipient), 990);
    assert_eq!(h.get_user_volume(sender), 3_000);
}

#[test]
fn test_refund_ledger_and_withdrawal() {
    let mut h = setup_host();
    let (admin, treasury, user, token) =
        (h.generate(), h.generate(), h.generate(), h.generate());

    h.initialize(admin, treasury, 100, 50, PaymentRouter::MAX_AMOUNT).unwrap();

    // Initially zero refund balance
    assert_eq!(h.get_refund_balance(user, token), 0);

    // Stranded tokens in the contract, credited to the user
    let refund_amount = 5_000i128;
    h.world.mint(token, h.contract, refund_amount);
    h.invoke(|e| {
        PaymentRouter::credit_refund_balance(e, user, token, refund_amount);
        Ok(())
    })
    .unwrap();

    assert_eq!(h.get_refund_balance(user, token), refund_amount);

    // Partial withdrawal
    let partial_amount = 2_000i128;
    h.withdraw_refund(user, token, partial_amount).unwrap();

    assert_eq!(h.world.balance(token, user), partial_amount);
    assert_eq!(h.get_refund_balance(user, token), refund_amount - partial_amount);

    // The rest
    let claimed = h.claim_all_refunds(user, token).unwrap();
    assert_eq!(claimed, refund_amount - partial_amount);
    assert_eq!(h.world.balance(token, user), refund_amount);
    assert_eq!(h.get_refund_balance(user, token), 0);

    assert_eq!(h.withdraw_refund(user, token, 100), Err(Error::NoRefundAvailable));
}

#[test]
fn test_governance_takes_over_fees() {
    let mut h = setup_host();
    let (admin, treasury, gov) = (h.generate(), h.generate(), h.generate());

    h.initialize(admin, treasury, 100, 1000, PaymentRouter::MAX_AMOUNT).unwrap();

    // The admin can still update fees before governance is set
    h.set_fee_bps(150).unwrap();
    assert_eq!(h.get_fee(), 150);
    assert_eq!(h.auths, vec![admin]);

    h.invoke(|e| PaymentRouter::set_governance(e, gov)).unwrap();

    // The governance address can now update the fee
    h.set_fee_bps(200).unwrap();
    assert_eq!(h.get_fee(), 200);
    assert_eq!(h.auths, vec![gov]);
}

#[test]
fn test_rbac_initialization_grants_all_roles_to_initial_admin() {
    let mut h = setup_host();
    let (admin, treasury) = (h.generate(), h.generate());

    h.initialize(admin, treasury, 100, 1000, PaymentRouter::MAX_AMOUNT).unwrap();

    assert!(h.has_role(admin, Role::SuperAdmin));
    assert!(h.has_role(admin, Role::TreasuryManager));
    assert!(h.has_role(admin, Role::ComplianceOfficer));
    assert!(h.has_role(admin, Role::FeeManager));

    assert_eq!(h.get_role_member(Role::SuperAdmin), Some(admin));
    assert_eq!(h.get_role_member(Role::TreasuryManager), Some(admin));
    assert_eq!(h.get_role_member(Role::ComplianceOfficer), Some(admin));
    assert_eq!(h.get_role_member(Role::FeeManager), Some(admin));
    assert_eq!(
        PaymentRouter::get_role_admin(&h.open(), Role::TreasuryManager),
        Role::SuperAdmin
    );
}

#[test]
fn test_rbac_assign_and_revoke_operational_roles() {
    let mut h = setup_host();
    let (admin, treasury) = (h.generate(), h.generate());
    let (treasurer, compliance, fee_mgr) = (h.generate(), h.generate(), h.generate());

    h.initialize(admin, treasury, 100, 1000, PaymentRouter::MAX_AMOUNT).unwrap();

    h.assign_role(treasurer, Role::TreasuryManager).unwrap();
    assert!(h.has_role(treasurer, Role::TreasuryManager));
    assert_eq!(h.get_role_member(Role::TreasuryManager), Some(treasurer));

    h.assign_role(compliance, Role::ComplianceOfficer).unwrap();
    assert!(h.has_role(compliance, Role::ComplianceOfficer));
    assert_eq!(h.get_role_member(Role::ComplianceOfficer), Some(compliance));

    h.assign_role(fee_mgr, Role::FeeManager).unwrap();
    assert!(h.has_role(fee_mgr, Role::FeeManager));
    assert_eq!(h.get_role_member(Role::FeeManager), Some(fee_mgr));

    h.revoke_role(treasurer, Role::TreasuryManager).unwrap();
    assert!(!h.has_role(treasurer, Role::TreasuryManager));
    assert_eq!(h.get_role_member(Role::TreasuryManager), None);

    // Cannot revoke one's own SuperAdmin
    assert_eq!(h.revoke_role(admin, Role::SuperAdmin), Err(Error::InvalidRole));
}

#[test]
fn test_rbac_treasury_manager_gates_treasury_operations() {
    let mut h = setup_host();
    let (admin, treasury, treasurer, new_treasury) =
        (h.generate(), h.generate(), h.generate(), h.generate());
    let token = h.generate();

    h.initialize(admin, treasury, 100, 1000, PaymentRouter::MAX_AMOUNT).unwrap();
    h.assign_role(treasurer, Role::TreasuryManager).unwrap();

    h.invoke(|e| PaymentRouter::set_platform_treasury(e, new_treasury)).unwrap();
    assert_eq!(h.auths, vec![treasurer]);

    h.world.mint(token, h.contract, 5_000);
    h.invoke(|e| PaymentRouter::recover_tokens(e, token, 2_000)).unwrap();
    assert_eq!(h.auths, vec![treasurer]);
    assert_eq!(h.world.balance(token, treasurer), 2_000);
}

#[test]
fn test_rbac_compliance_officer_gates_compliance_operations() {
    let mut h = setup_host();
    let (admin, treasury, compliance) = (h.generate(), h.generate(), h.generate());
    let (bad_user, oracle) = (h.generate(), h.generate());

    h.initialize(admin, treasury, 100, 1000, PaymentRouter::MAX_AMOUNT).unwrap();
    h.assign_role(compliance, Role::ComplianceOfficer).unwrap();

    h.invoke(|e| PaymentRouter::blacklist_address(e, bad_user)).unwrap();
    assert_eq!(h.auths, vec![compliance]);
    assert!(h.is_blacklisted(bad_user));

    h.invoke(|e| PaymentRouter::unblacklist_address(e, bad_user)).unwrap();
    assert_eq!(h.auths, vec![compliance]);
    assert!(!h.is_blacklisted(bad_user));

    h.set_kyc_config(oracle, 50_000).unwrap();
    assert_eq!(h.auths, vec![compliance]);
    assert_eq!(PaymentRouter::get_kyc_threshold(&h.open()), Some(50_000));

    h.set_pause(true).unwrap();
    assert_eq!(h.auths, vec![compliance]);
    assert!(h.is_paused());
    h.set_paused(false).unwrap();
    assert!(!h.is_paused());
}

#[test]
fn test_rbac_fee_manager_gates_fee_operations() {
    let mut h = setup_host();
    let (admin, treasury, fee_mgr) = (h.generate(), h.generate(), h.generate());

    h.initialize(admin, treasury, 100, 1000, PaymentRouter::MAX_AMOUNT).unwrap();
    h.assign_role(fee_mgr, Role::FeeManager).unwrap();

    h.set_fee_bps(350).unwrap();
    assert_eq!(h.auths, vec![fee_mgr]);
    assert_eq!(h.get_fee(), 350);

    h.set_fee_config(400, 5_000).unwrap();
    assert_eq!(h.auths, vec![fee_mgr]);
    assert_eq!(h.get_fee(), 400);

    h.invoke(|e| PaymentRouter::set_min_limit(e, 10_000)).unwrap();
    assert_eq!(h.auths, vec![fee_mgr]);
}

// A batch.

#[test]
fn failed_batch_leaves_nothing_behind() {
    let mut h = setup_host();
    let (admin, treasury, alice, bob) = (h.generate(), h.generate(), h.generate(), h.generate());
    let token_address = h.generate();
    h.initialize(admin, treasury, 100, 50, PaymentRouter::MAX_AMOUNT).unwrap();
    h.world.mint(token_address, alice, 1_000);
    h.world.mint(token_address, bob, 10);
    let events = h.events.len();

    let payments = vec![
        Payment { sender: alice, recipient: bob, token_address, amount: 1_000 },
        Payment { sender: bob, recipient: alice, token_address, amount: 1_001 },
    ];
    assert_eq!(h.route_payments(payments), Err(Error::InsufficientBalance));

    assert_eq!(h.world.balance(token_address, alice), 1_000);
    assert_eq!(h.world.balance(token_address, bob), 10);
    assert_eq!(h.world.balance(token_address, treasury), 0);
    assert_eq!(h.get_user_volume(alice), 0);
    assert_eq!(h.storage.user_spending.get(alice), None);
    assert_eq!(h.events.len(), events);
}

#[test]
fn failed_batch_restores_entries_of_the_invocation() {
    let mut h = setup_host();
    let (admin, treasury, alice, bob) = (h.generate(), h.generate(), h.generate(), h.generate());
    let token_address = h.generate();
    h.initialize(admin, treasury, 100, 50, PaymentRouter::MAX_AMOUNT).unwrap();

    let mut env = h.open();
    let payments = vec![
        Payment { sender: alice, recipient: bob, token_address, amount: 1_000 },
        Payment { sender: alice, recipient: bob, token_address, amount: 2_000 },
    ];
    let mut routing = PaymentRouter::route_payments(&mut env, payments);
    routing.resume(&mut env, Reply::Balance(5_000));
    routing.resume(&mut env, Reply::Transfer(TransferReply::Done));
    routing.resume(&mut env, Reply::Transfer(TransferReply::Done));
    assert_eq!(PaymentRouter::get_user_volume(&env, alice), 1_000);
    routing.resume(&mut env, Reply::Balance(5_000));
    routing.resume(&mut env, Reply::Transfer(TransferReply::Done));
    routing.resume(&mut env, Reply::Transfer(TransferReply::Failed));
    routing.resume(&mut env, Reply::Transfer(TransferReply::Failed));
    assert_eq!(routing.result(), Some(Err(Error::LimitExceeded)));
    assert_eq!(PaymentRouter::get_user_volume(&env, alice), 0);
    assert_eq!(env.storage.user_spending.get(alice), None);
    assert_eq!(routing.request(&env), None);
}

#[test]
fn batch_asks_each_sender_once_and_makes_all_payments() {
    let mut h = setup_host();
    let (admin, treasury, alice, bob, carol) =
        (h.generate(), h.generate(), h.generate(), h.generate(), h.generate());
    let token_address = h.generate();
    h.initialize(admin, treasury, 100, 50, PaymentRouter::MAX_AMOUNT).unwrap();
    h.world.mint(token_address, alice, 10_000);
    h.world.mint(token_address, bob, 10_000);

    let payments = vec![
        Payment { sender: alice, recipient: carol, token_address, amount: 1_000 },
        Payment { sender: bob, recipient: carol, token_address, amount: 2_000 },
        Payment { sender: alice, recipient: bob, token_address, amount: 3_000 },
    ];
    h.route_payments(payments).unwrap();

    assert_eq!(h.auths, vec![alice, bob]);
    assert_eq!(h.get_user_volume(alice), 4_000);
    assert_eq!(h.get_user_volume(bob), 2_000);
    assert_eq!(h.world.balance(token_address, treasury), 10 + 20 + 30);
    assert_eq!(h.world.balance(token_address, carol), 990 + 1_980);
    assert_eq!(h.world.balance(token_address, alice), 6_000);
    assert_eq!(h.world.balance(token_address, bob), 8_000 + 2_970);
}

#[test]
fn empty_batch_succeeds_once_fees_are_configured() {
    let mut h = setup_host();
    assert_eq!(h.route_payments(vec![]), Err(Error::NotInitialized));
    let (admin, treasury) = (h.generate(), h.generate());
    h.initialize(admin, treasury, 100, 50, PaymentRouter::MAX_AMOUNT).unwrap();
    assert_eq!(h.route_payments(vec![]), Ok(()));
}

#[test]
fn first_objection_decides_and_nobody_is_asked() {
    let mut h = setup_host();
    let (admin, treasury, alice, bob) = (h.generate(), h.generate(), h.generate(), h.generate());
    let token_address = h.generate();
    h.initialize(admin, treasury, 100, 50, 1_000).unwrap();
    h.invoke(|e| PaymentRouter::blacklist_address(e, bob)).unwrap();

    let mut env = h.open();
    let payments = vec![
        Payment { sender: bob, recipient: alice, token_address, amount: 10 },
        Payment { sender: alice, recipient: alice, token_address, amount: 0 },
        Payment { sender: alice, recipient: bob, token_address, amount: 10 },
    ];
    let routing = PaymentRouter::route_payments(&mut env, payments);
    assert_eq!(routing.result(), Some(Err(Error::InvalidRecipient)));
    assert!(env.commands.is_empty());
}

#[test]
fn first_fault_decides_whatever_the_oracle_says() {
    let mut h = setup_host();
    let (admin, treasury, alice, bob) = (h.generate(), h.generate(), h.generate(), h.generate());
    let (token_address, oracle) = (h.generate(), h.generate());
    h.initialize(admin, treasury, 100, 50, PaymentRouter::MAX_AMOUNT).unwrap();
    h.set_kyc_config(oracle, 100).unwrap();
    h.world.verified.push(alice);
    let pay = |sender, recipient, amount| Payment { sender, recipient, token_address, amount };

    // Alice is vouched for, Bob is not.
    let payments = vec![pay(alice, bob, 200), pay(bob, alice, 100), pay(bob, bob, 300)];
    assert_eq!(h.route_payments(payments), Err(Error::InvalidRecipient));
    let payments = vec![pay(alice, bob, 200), pay(bob, alice, 101), pay(bob, bob, 300)];
    assert_eq!(h.route_payments(payments), Err(Error::KycRequired));
}

#[test]
fn batch_ends_as_its_payments_one_by_one() {
    let mut batch = setup_host();
    let mut singles = setup_host();
    let mut payments = Vec::new();
    let mut accounts = Vec::new();
    for h in [&mut batch, &mut singles] {
        let (admin, treasury, alice, bob, carol) =
            (h.generate(), h.generate(), h.generate(), h.generate(), h.generate());
        let token_address = h.generate();
        h.initialize(admin, treasury, 100, 1_000, PaymentRouter::MAX_AMOUNT).unwrap();
        h.world.mint(token_address, alice, 200_000_000_000);
        h.world.mint(token_address, bob, 1_000);
        h.world.refusing.push(carol);
        let pay = |sender, recipient, amount| Payment { sender, recipient, token_address, amount };
        // The first payment earns the discount for the third.
        payments = vec![
            pay(alice, bob, 100_000_000_001),
            pay(bob, carol, 700),
            pay(alice, carol, 20_000),
        ];
        accounts = vec![alice, bob, carol, treasury, token_address];
    }

    batch.route_payments(payments.clone()).unwrap();
    for p in payments {
        singles.route_payment(p.sender, p.recipient, p.token_address, p.amount).unwrap();
    }

    let token = accounts[4];
    for account in accounts {
        assert_eq!(batch.world.balance(token, account), singles.world.balance(token, account));
        assert_eq!(batch.get_user_volume(account), singles.get_user_volume(account));
        assert_eq!(
            batch.get_refund_balance(account, token),
            singles.get_refund_balance(account, token)
        );
        assert_eq!(
            batch.storage.user_spending.get(account),
            singles.storage.user_spending.get(account)
        );
    }
}

#[test]
fn batch_asks_what_its_payments_ask() {
    let mut batch = setup_host();
    let mut singles = setup_host();
    let mut accounts = Vec::new();
    for h in [&mut batch, &mut singles] {
        let (admin, treasury, alice, bob) =
            (h.generate(), h.generate(), h.generate(), h.generate());
        let (token, oracle) = (h.generate(), h.generate());
        h.initialize(admin, treasury, 100, 50, PaymentRouter::MAX_AMOUNT).unwrap();
        h.set_kyc_config(oracle, 800).unwrap();
        h.world.mint(token, alice, 1_000);
        h.world.mint(token, bob, 500);
        h.world.verified = vec![alice, bob];
        accounts = vec![alice, bob, treasury, token, oracle];
    }
    let (alice, bob, treasury) = (accounts[0], accounts[1], accounts[2]);
    let (token_address, oracle) = (accounts[3], accounts[4]);
    // Bob can only afford the second payment out of the first.
    let payments = vec![
        Payment { sender: alice, recipient: bob, token_address, amount: 1_000 },
        Payment { sender: bob, recipient: alice, token_address, amount: 1_200 },
    ];

    batch.route_payments(payments.clone()).unwrap();
    for p in payments {
        singles.route_payment(p.sender, p.recipient, p.token_address, p.amount).unwrap();
    }

    let balance = |account, balance| {
        (Request::Balance { token: token_address, account }, Reply::Balance(balance))
    };
    let transfer = |from, to, amount| {
        (
            Request::Transfer { token: token_address, from, to, amount },
            Reply::Transfer(TransferReply::Done),
        )
    };
    let verified = |account| (Request::IsVerified { oracle, account }, Reply::Verified(true));
    let first =
        [balance(alice, 1_000), transfer(alice, treasury, 10), transfer(alice, bob, 990)];
    let second = [balance(bob, 1_490), transfer(bob, treasury, 12), transfer(bob, alice, 1_188)];
    assert_eq!(
        batch.asked,
        [&[verified(alice), verified(bob)], &first[..], &second[..]].concat()
    );
    assert_eq!(
        singles.asked,
        [&[verified(alice)], &first[..], &[verified(bob)], &second[..]].concat()
    );
    for account in accounts {
        assert_eq!(
            batch.world.balance(token_address, account),
            singles.world.balance(token_address, account)
        );
    }
}

#[test]
fn super_admin_is_never_lost() {
    let mut h = setup_host();
    let (admin, treasury, a, b) = (h.generate(), h.generate(), h.generate(), h.generate());
    h.initialize(admin, treasury, 100, 1000, PaymentRouter::MAX_AMOUNT).unwrap();
    h.assign_role(a, Role::SuperAdmin).unwrap();
    h.revoke_role(admin, Role::SuperAdmin).unwrap();
    assert_eq!(h.revoke_role(a, Role::SuperAdmin), Err(Error::InvalidRole));
    h.invoke(|e| PaymentRouter::transfer_admin(e, b)).unwrap();
    h.revoke_role(a, Role::SuperAdmin).unwrap();
    h.queue_action(ActionType::TransferAdmin(a)).unwrap();
    h.advance(86_400);
    h.execute_action(1).unwrap();
    h.revoke_role(b, Role::SuperAdmin).unwrap();
    assert_eq!(h.revoke_role(a, Role::SuperAdmin), Err(Error::InvalidRole));
    assert_eq!(h.get_role_member(Role::SuperAdmin), Some(a));
    assert!(h.has_role(a, Role::SuperAdmin));
}

#[test]
fn longest_payment_takes_five_answers() {
    let mut h = setup_host();
    let (admin, treasury, alice, bob) = (h.generate(), h.generate(), h.generate(), h.generate());
    let (token, oracle) = (h.generate(), h.generate());
    h.initialize(admin, treasury, 100, 50, PaymentRouter::MAX_AMOUNT).unwrap();
    h.set_kyc_config(oracle, 0).unwrap();

    let mut env = h.open();
    let mut routing = PaymentRouter::route_payment(&mut env, alice, bob, token, 1_000);
    assert_eq!(
        routing.request(&env),
        Some(Request::IsVerified { oracle, account: alice })
    );
    assert!(env.commands.is_empty());
    assert!(!routing.accepts(&env, Reply::Balance(1)));
    routing.resume(&mut env, Reply::Verified(true));
    assert_eq!(env.commands[0], Command::RequireAuth(alice));
    assert_eq!(routing.request(&env), Some(Request::Balance { token, account: alice }));
    routing.resume(&mut env, Reply::Balance(1_000));
    assert_eq!(
        routing.request(&env),
        Some(Request::Transfer { token, from: alice, to: treasury, amount: 10 })
    );
    routing.resume(&mut env, Reply::Transfer(TransferReply::UnexpectedValue));
    assert_eq!(
        routing.request(&env),
        Some(Request::Transfer { token, from: alice, to: bob, amount: 990 })
    );
    routing.resume(&mut env, Reply::Transfer(TransferReply::UnexpectedValue));
    assert_eq!(
        routing.request(&env),
        Some(Request::Transfer { token, from: alice, to: h.contract, amount: 990 })
    );
    routing.resume(&mut env, Reply::Transfer(TransferReply::Done));
    assert_eq!(routing.result(), Some(Ok(())));
    assert_eq!(PaymentRouter::get_refund_balance(&env, alice, token), 990);
}

#[test]
fn undeliverable_payment_becomes_a_refund() {
    let mut h = setup_host();
    let (admin, treasury, sender, recipient) =
        (h.generate(), h.generate(), h.generate(), h.generate());
    let token = h.generate();
    h.initialize(admin, treasury, 100, 50, PaymentRouter::MAX_AMOUNT).unwrap();
    h.world.mint(token, sender, 3_000);
    h.world.refusing.push(recipient);

    h.route_payment(sender, recipient, token, 2_000).unwrap();
    assert_eq!(h.world.balance(token, treasury), 20);
    assert_eq!(h.world.balance(token, h.contract), 1_980);
    assert_eq!(h.world.balance(token, recipient), 0);
    assert_eq!(h.get_refund_balance(sender, token), 1_980);
    assert_eq!(h.get_user_volume(sender), 2_000);
    assert!(h
        .events
        .contains(&Event::Refunded { user: sender, token, amount: 1_980 }));

    assert_eq!(h.claim_all_refunds(sender, token), Ok(1_980));
    assert_eq!(h.auths, vec![sender]);
    assert_eq!(h.world.balance(token, sender), 1_000 + 1_980);
    assert!(h
        .events
        .contains(&Event::Withdrawn { user: sender, token, amount: 1_980 }));
}

#[test]
fn funds_are_conserved_over_a_batch() {
    let mut h = setup_host();
    let (admin, treasury, alice, bob, carol) =
        (h.generate(), h.generate(), h.generate(), h.generate(), h.generate());
    let (usd, eur) = (h.generate(), h.generate());
    h.initialize(admin, treasury, 250, 70, PaymentRouter::MAX_AMOUNT).unwrap();
    h.world.mint(usd, alice, 10_000);
    h.world.mint(eur, alice, 10_000);
    h.world.mint(usd, bob, 10_000);
    h.world.refusing.push(carol);

    let pay = |sender, recipient, token_address, amount| Payment {
        sender,
        recipient,
        token_address,
        amount,
    };
    h.route_payments(vec![
        pay(alice, carol, usd, 1_000),
        pay(alice, bob, usd, 2_000),
        pay(alice, carol, eur, 3_000),
        pay(bob, carol, usd, 4_000),
        pay(alice, carol, usd, 39),
    ])
    .unwrap();

    assert_eq!(h.world.balance(usd, alice), 10_000 - 3_039);
    assert_eq!(h.world.balance(eur, alice), 10_000 - 3_000);
    assert_eq!(h.world.balance(usd, bob), 10_000 - 4_000 + 1_950);
    assert_eq!(h.world.balance(usd, treasury), 25 + 50 + 70);
    assert_eq!(h.world.balance(eur, treasury), 70);
    assert_eq!(h.get_refund_balance(alice, usd), 975 + 39);
    assert_eq!(h.get_refund_balance(alice, eur), 2_930);
    assert_eq!(h.get_refund_balance(bob, usd), 3_930);
    assert_eq!(h.world.balance(usd, h.contract), 975 + 39 + 3_930);
    assert_eq!(h.world.balance(eur, h.contract), 2_930);
}

#[test]
fn payment_that_even_the_contract_cannot_take_fails() {
    let mut h = setup_host();
    let (admin, treasury, sender, recipient) =
        (h.generate(), h.generate(), h.generate(), h.generate());
    let token = h.generate();
    h.initialize(admin, treasury, 100, 50, PaymentRouter::MAX_AMOUNT).unwrap();
    h.world.mint(token, sender, 3_000);
    h.world.refusing.push(recipient);
    h.world.refusing.push(h.contract);

    assert_eq!(h.route_payment(sender, recipient, token, 2_000), Err(Error::LimitExceeded));
    assert_eq!(h.world.balance(token, sender), 3_000);
    assert_eq!(h.get_refund_balance(sender, token), 0);
}

#[test]
fn failed_fee_transfer_aborts_the_invocation() {
    let mut h = setup_host();
    let (admin, treasury, sender, recipient) =
        (h.generate(), h.generate(), h.generate(), h.generate());
    let token = h.generate();
    h.initialize(admin, treasury, 100, 50, PaymentRouter::MAX_AMOUNT).unwrap();
    h.world.mint(token, sender, 3_000);
    h.world.refusing.push(treasury);

    // Neither success nor an error comes of it: there is no going on.
    let mut env = h.open();
    let mut routing = PaymentRouter::route_payment(&mut env, sender, recipient, token, 2_000);
    routing.resume(&mut env, Reply::Balance(3_000));
    let request = routing.request(&env).unwrap();
    assert_eq!(
        request,
        Request::Transfer { token, from: sender, to: treasury, amount: 20 }
    );
    let reply = h.answer(request);
    assert_eq!(reply, Reply::Transfer(TransferReply::Failed));
    assert!(!routing.accepts(&env, reply));
    assert_eq!(routing.result(), None);
    assert_eq!(h.world.balance(token, recipient), 0);
    assert_eq!(h.get_user_volume(sender), 0);

    // Without a fee the treasury is not asked.
    h.set_fee_bps(0).unwrap();
    h.route_payment(sender, recipient, token, 2_000).unwrap();
    assert_eq!(h.world.balance(token, recipient), 2_000);
}

#[test]
fn window_ahead_of_the_clock_matters_only_once_a_payment_begins() {
    let mut h = setup_host();
    let (admin, treasury, sender, recipient) =
        (h.generate(), h.generate(), h.generate(), h.generate());
    let token_address = h.generate();
    h.initialize(admin, treasury, 100, 50, 1_000).unwrap();
    h.storage
        .user_spending
        .set(sender, UserSpending { last_reset_time: 9, accumulated_amount: 0 });
    let payment = |recipient, amount| {
        vec![Payment { sender, recipient, token_address, amount }]
    };

    assert!(!PaymentRouter::admits(&h.open(), &payment(recipient, 10)));
    assert!(PaymentRouter::admits(&h.open(), &payment(sender, 10)));
    assert_eq!(h.route_payments(payment(sender, 10)), Err(Error::InvalidRecipient));
    assert_eq!(h.route_payments(payment(recipient, 1_001)), Err(Error::LimitExceeded));
    h.emergency_freeze().unwrap();
    assert_eq!(h.route_payments(payment(recipient, 10)), Err(Error::ContractFrozen));
    h.unfreeze().unwrap();
    h.set_pause(true).unwrap();
    assert_eq!(h.route_payments(payment(recipient, 10)), Err(Error::Paused));
    h.set_pause(false).unwrap();
    h.advance(9);
    assert!(PaymentRouter::admits(&h.open(), &payment(recipient, 10)));
}

#[test]
fn fee_of_the_whole_amount_leaves_nothing_to_deliver() {
    let mut h = setup_host();
    let (admin, treasury, sender, recipient) =
        (h.generate(), h.generate(), h.generate(), h.generate());
    let token = h.generate();
    h.initialize(admin, treasury, 10_000, i128::MAX, PaymentRouter::MAX_AMOUNT).unwrap();
    h.world.mint(token, sender, 500);
    h.world.refusing.push(recipient);

    h.route_payment(sender, recipient, token, 500).unwrap();
    assert_eq!(h.world.balance(token, treasury), 500);
    assert_eq!(h.get_refund_balance(sender, token), 0);
    assert_eq!(h.get_user_volume(sender), 500);
}

// Limits.

#[test]
fn amounts_outside_the_limits_are_refused() {
    let mut h = setup_host();
    let (admin, treasury, sender, recipient) =
        (h.generate(), h.generate(), h.generate(), h.generate());
    let token = h.generate();
    h.initialize(admin, treasury, 100, 50, 1_000).unwrap();
    h.invoke(|e| PaymentRouter::set_min_limit(e, 100)).unwrap();
    h.world.mint(token, sender, 10_000);

    for amount in [i128::MIN, -1, 0, 99, 1_001, i128::MAX] {
        assert_eq!(h.route_payment(sender, recipient, token, amount), Err(Error::LimitExceeded));
    }
    h.route_payment(sender, recipient, token, 100).unwrap();
    h.route_payment(sender, recipient, token, 1_000).unwrap();
}

#[test]
fn daily_window_is_not_extended_by_spending() {
    let mut h = setup_host();
    let (admin, treasury, sender, recipient) =
        (h.generate(), h.generate(), h.generate(), h.generate());
    let token = h.generate();
    let limit = PaymentRouter::DAILY_MAX_LIMIT;
    h.initialize(admin, treasury, 0, 0, PaymentRouter::MAX_AMOUNT).unwrap();
    h.world.mint(token, sender, 3 * limit);

    h.advance(1_000);
    h.route_payment(sender, recipient, token, limit - 10).unwrap();
    h.advance(86_399);
    h.route_payment(sender, recipient, token, 10).unwrap();
    assert_eq!(
        h.storage.user_spending.get(sender),
        Some(UserSpending { last_reset_time: 1_000, accumulated_amount: limit })
    );
    assert_eq!(h.route_payment(sender, recipient, token, 1), Err(Error::LimitExceeded));
    h.advance(1);
    h.route_payment(sender, recipient, token, limit).unwrap();
    assert_eq!(
        h.storage.user_spending.get(sender),
        Some(UserSpending { last_reset_time: 87_400, accumulated_amount: limit })
    );
    assert_eq!(h.route_payment(sender, recipient, token, limit + 1), Err(Error::LimitExceeded));
}

#[test]
fn kyc_threshold_itself_needs_no_claim() {
    let mut h = setup_host();
    let (admin, treasury, sender, recipient) =
        (h.generate(), h.generate(), h.generate(), h.generate());
    let (oracle, token) = (h.generate(), h.generate());
    h.initialize(admin, treasury, 100, 50, PaymentRouter::MAX_AMOUNT).unwrap();
    h.world.mint(token, sender, 10_000);
    assert_eq!(PaymentRouter::verify_kyc_for_amount(&h.open(), i128::MAX), Ok(None));

    h.set_kyc_config(oracle, 1_000).unwrap();
    assert!(h.events.contains(&Event::KycConfigured { oracle, threshold: 1_000 }));
    assert_eq!(PaymentRouter::verify_kyc_for_amount(&h.open(), 1_000), Ok(None));
    assert_eq!(PaymentRouter::verify_kyc_for_amount(&h.open(), 1_001), Ok(Some(oracle)));
    h.route_payment(sender, recipient, token, 1_000).unwrap();
    assert_eq!(h.route_payment(sender, recipient, token, 1_001), Err(Error::KycRequired));

    // A threshold without an oracle cannot be met.
    h.storage.kyc_oracle = None;
    assert_eq!(
        PaymentRouter::verify_kyc_for_amount(&h.open(), 1_001),
        Err(Error::KycRequired)
    );
    assert_eq!(h.route_payment(sender, recipient, token, 1_001), Err(Error::KycRequired));
}

// The timelock.

#[test]
fn timelock_delay_is_exactly_24_hours() {
    let mut h = setup_host();
    let (admin, treasury) = (h.generate(), h.generate());
    h.initialize(admin, treasury, 100, 1000, PaymentRouter::MAX_AMOUNT).unwrap();
    h.advance(50);

    let nonce = h.queue_action(ActionType::SetFeeConfig(7, 8)).unwrap();
    assert_eq!(
        h.get_queued_action(nonce),
        Ok(TimelockEntry { queued_at: 50, action: ActionType::SetFeeConfig(7, 8) })
    );
    h.advance(86_399);
    assert_eq!(h.execute_action(nonce), Err(Error::TimelockNotReady));
    h.advance(1);
    h.execute_action(nonce).unwrap();
    assert_eq!((h.storage.fee_bps, h.storage.fee_cap), (Some(7), Some(8)));
    assert_eq!(h.execute_action(nonce), Err(Error::TimelockNotFound));
}

#[test]
fn every_action_does_what_it_says() {
    let mut h = setup_host();
    let (admin, treasury, other) = (h.generate(), h.generate(), h.generate());
    h.initialize(admin, treasury, 100, 1000, PaymentRouter::MAX_AMOUNT).unwrap();

    let actions = [
        ActionType::SetPlatformTreasury(other),
        ActionType::SetFeeConfig(1, 2),
        ActionType::SetFeeBps(3),
        ActionType::SetGovernance(other),
        ActionType::SetMinLimit(4),
        ActionType::Upgrade([9; 32]),
        ActionType::TransferAdmin(other),
    ];
    for action in actions {
        h.queue_action(action).unwrap();
    }
    h.advance(86_400);
    for nonce in 1..=7 {
        h.execute_action(nonce).unwrap();
        assert_eq!(h.auths, vec![admin]);
    }
    assert_eq!(h.storage.platform_treasury, Some(other));
    assert_eq!((h.storage.fee_bps, h.storage.fee_cap), (Some(3), Some(2)));
    assert_eq!(h.storage.governance, Some(other));
    assert_eq!(h.storage.min_limit, Some(4));
    assert_eq!(h.wasm, Some([9; 32]));
    assert_eq!(h.storage.admin, Some(other));
    assert!(h.has_role(other, Role::SuperAdmin));
    assert_eq!(h.get_role_member(Role::SuperAdmin), Some(other));
    assert!(h.events.contains(&Event::ActionExecuted { admin, nonce: 7 }));
}

#[test]
fn cancelled_action_leaves_the_others_and_its_nonce_is_not_reused() {
    let mut h = setup_host();
    let (admin, treasury) = (h.generate(), h.generate());
    h.initialize(admin, treasury, 100, 1000, PaymentRouter::MAX_AMOUNT).unwrap();

    h.queue_action(ActionType::SetFeeBps(1)).unwrap();
    h.queue_action(ActionType::SetFeeBps(2)).unwrap();
    h.cancel_action(2).unwrap();
    assert!(h.events.contains(&Event::ActionCancelled { admin, nonce: 2 }));
    assert_eq!(h.queue_action(ActionType::SetFeeBps(3)), Ok(3));
    h.advance(86_400);
    assert_eq!(h.execute_action(2), Err(Error::TimelockNotFound));
    h.execute_action(1).unwrap();
    assert_eq!(h.get_fee(), 1);
    h.execute_action(3).unwrap();
    assert_eq!(h.get_fee(), 3);
}

#[test]
fn freeze_and_unfreeze_are_announced_with_the_time() {
    let mut h = setup_host();
    let (admin, treasury) = (h.generate(), h.generate());
    assert_eq!(h.emergency_freeze(), Err(Error::NotInitialized));
    h.initialize(admin, treasury, 100, 1000, PaymentRouter::MAX_AMOUNT).unwrap();
    h.advance(7);
    h.emergency_freeze().unwrap();
    h.advance(8);
    h.unfreeze().unwrap();
    assert_eq!(
        h.events,
        vec![
            Event::EmergencyFreeze { super_admin: admin, timestamp: 7 },
            Event::Unfreeze { super_admin: admin, timestamp: 15 },
        ]
    );
}

#[test]
fn upgrade_asks_the_super_admin() {
    let mut h = setup_host();
    let (admin, treasury) = (h.generate(), h.generate());
    assert_eq!(
        h.invoke(|e| PaymentRouter::upgrade(e, [1; 32])),
        Err(Error::NotInitialized)
    );
    h.initialize(admin, treasury, 100, 1000, PaymentRouter::MAX_AMOUNT).unwrap();
    h.invoke(|e| PaymentRouter::upgrade(e, [1; 32])).unwrap();
    assert_eq!(h.auths, vec![admin]);
    assert_eq!(h.wasm, Some([1; 32]));
}

// Roles.

#[test]
fn nothing_works_before_initialization() {
    let mut h = setup_host();
    let (a, b) = (h.generate(), h.generate());
    assert_eq!(h.set_fee_bps(1), Err(Error::NotInitialized));
    assert_eq!(h.set_fee_config(1, 1), Err(Error::NotInitialized));
    assert_eq!(h.set_pause(true), Err(Error::NotInitialized));
    assert_eq!(h.set_kyc_config(a, 1), Err(Error::NotInitialized));
    assert_eq!(h.assign_role(a, Role::FeeManager), Err(Error::NotInitialized));
    assert_eq!(h.revoke_role(a, Role::FeeManager), Err(Error::NotInitialized));
    assert_eq!(h.queue_action(ActionType::SetFeeBps(1)), Err(Error::NotInitialized));
    assert_eq!(h.execute_action(1), Err(Error::NotInitialized));
    assert_eq!(h.cancel_action(1), Err(Error::NotInitialized));
    assert_eq!(h.unfreeze(), Err(Error::NotInitialized));
    assert_eq!(h.harvest_yield(a), Err(Error::NotInitialized));
    assert_eq!(
        h.invoke(|e| PaymentRouter::deposit_to_yield(e, a, 1)),
        Err(Error::NotInitialized)
    );
    assert_eq!(
        h.invoke(|e| PaymentRouter::recover_tokens(e, a, 1)),
        Err(Error::NotInitialized)
    );
    assert_eq!(
        h.invoke(|e| PaymentRouter::transfer_admin(e, a)),
        Err(Error::NotInitialized)
    );
    assert_eq!(h.route_payment(a, b, b, 1), Err(Error::NotInitialized));
}

#[test]
fn set_admin_works_without_an_admin() {
    let mut h = setup_host();
    let (a, b) = (h.generate(), h.generate());
    h.invoke(|e| PaymentRouter::set_admin(e, a)).unwrap();
    assert!(h.auths.is_empty());
    assert_eq!(h.storage.admin, Some(a));
    assert_eq!(h.get_role_member(Role::SuperAdmin), Some(a));
    // The other roles fall back to the admin.
    h.set_pause(true).unwrap();
    assert_eq!(h.auths, vec![a]);
    assert_eq!(h.initialize(b, b, 1, 1, 1), Err(Error::AlreadyInitialized));
    // Without a treasury there is no yield.
    assert_eq!(
        h.invoke(|e| PaymentRouter::deposit_to_yield(e, b, 1)),
        Err(Error::NotInitialized)
    );
    assert_eq!(h.harvest_yield(b), Err(Error::NotInitialized));
}

#[test]
fn transferred_admin_replaces_the_super_admin() {
    let mut h = setup_host();
    let (admin, treasury, next) = (h.generate(), h.generate(), h.generate());
    h.initialize(admin, treasury, 100, 1000, PaymentRouter::MAX_AMOUNT).unwrap();

    h.invoke(|e| PaymentRouter::transfer_admin(e, next)).unwrap();
    assert_eq!(h.auths, vec![admin]);
    assert_eq!(h.storage.admin, Some(next));
    assert!(h.has_role(next, Role::SuperAdmin));
    assert!(!h.has_role(admin, Role::SuperAdmin));
    assert!(h.has_role(admin, Role::FeeManager));
    h.emergency_freeze().unwrap();
    assert_eq!(h.auths, vec![next]);
}

#[test]
fn revoked_role_falls_back_to_the_admin() {
    let mut h = setup_host();
    let (admin, treasury, officer) = (h.generate(), h.generate(), h.generate());
    h.initialize(admin, treasury, 100, 1000, PaymentRouter::MAX_AMOUNT).unwrap();
    h.advance(3);
    h.assign_role(officer, Role::ComplianceOfficer).unwrap();
    h.revoke_role(officer, Role::ComplianceOfficer).unwrap();
    assert_eq!(
        h.events,
        vec![
            Event::RoleAssigned {
                role: Role::ComplianceOfficer,
                account: officer,
                timestamp: 3,
            },
            Event::RoleRevoked { role: Role::ComplianceOfficer, account: officer, timestamp: 3 },
        ]
    );
    h.set_pause(true).unwrap();
    assert_eq!(h.auths, vec![admin]);
    // The admin was assigned the role at the start, and keeps it.
    assert!(h.has_role(admin, Role::ComplianceOfficer));
    // Another holder of the super-admin role can lose it.
    h.assign_role(officer, Role::SuperAdmin).unwrap();
    h.revoke_role(admin, Role::SuperAdmin).unwrap();
    assert!(!h.has_role(admin, Role::SuperAdmin));
    assert_eq!(h.get_role_member(Role::SuperAdmin), Some(officer));
}

// Refunds and yield.

#[test]
fn refunds_are_kept_apart_by_user_and_token() {
    let mut h = setup_host();
    let (alice, bob, usd, eur) = (h.generate(), h.generate(), h.generate(), h.generate());
    h.world.mint(usd, h.contract, 100);
    h.invoke(|e| {
        PaymentRouter::credit_refund_balance(e, alice, usd, 30);
        PaymentRouter::credit_refund_balance(e, bob, usd, 40);
        PaymentRouter::credit_refund_balance(e, alice, eur, 50);
        PaymentRouter::credit_refund_balance(e, alice, usd, 3);
        Ok(())
    })
    .unwrap();

    for amount in [i128::MIN, -1, 0, 34, i128::MAX] {
        assert_eq!(h.withdraw_refund(alice, usd, amount), Err(Error::NoRefundAvailable));
    }
    h.withdraw_refund(alice, usd, 10).unwrap();
    h.withdraw_refund(alice, usd, 23).unwrap();
    assert_eq!(h.get_refund_balance(alice, usd), 0);
    assert_eq!(h.get_refund_balance(bob, usd), 40);
    assert_eq!(h.get_refund_balance(alice, eur), 50);
    assert_eq!(h.world.balance(usd, alice), 33);
    assert_eq!(h.claim_all_refunds(alice, usd), Err(Error::NoRefundAvailable));
}

#[test]
fn taking_back_all_that_was_lent_forgets_the_position() {
    let mut h = setup_host();
    let (admin, treasury, protocol, token) =
        (h.generate(), h.generate(), h.generate(), h.generate());
    h.initialize(admin, treasury, 100, 1_000, PaymentRouter::MAX_AMOUNT).unwrap();
    assert_eq!(h.harvest_yield(token), Err(Error::YieldProtocolNotConfigured));
    h.invoke(|e| PaymentRouter::set_yield_protocol(e, protocol)).unwrap();
    h.world.mint(token, treasury, 10);

    h.invoke(|e| PaymentRouter::deposit_to_yield(e, token, 10)).unwrap();
    assert_eq!(h.auths, vec![admin, treasury]);
    assert_eq!(
        h.invoke(|e| PaymentRouter::withdraw_from_yield(e, token, 11)),
        Err(Error::InvalidYieldAmount)
    );
    h.invoke(|e| PaymentRouter::withdraw_from_yield(e, token, 10)).unwrap();
    assert!(!h.storage.yield_principal.has(token));
    assert_eq!(h.harvest_yield(token), Ok(0));
    assert_eq!(
        h.events,
        vec![
            Event::YieldConfigured { protocol },
            Event::YieldDeposited { token, amount: 10 },
            Event::YieldWithdrawn { token, amount: 10 },
            Event::YieldHarvested { token, harvested: 0 },
        ]
    );
}

// Codes.

#[test]
fn codes_are_stable() {
    let errors = [
        Error::Unauthorized,
        Error::InsufficientBalance,
        Error::LimitExceeded,
        Error::AlreadyInitialized,
        Error::NotInitialized,
        Error::Paused,
        Error::InvalidFeeRate,
        Error::InvalidRecipient,
        Error::Blacklisted,
        Error::NoRefundAvailable,
        Error::TimelockPending,
        Error::TimelockNotReady,
        Error::TimelockNotFound,
        Error::ContractFrozen,
        Error::YieldProtocolNotConfigured,
        Error::InvalidYieldAmount,
        Error::KycRequired,
        Error::InvalidKycThreshold,
        Error::RoleNotFound,
        Error::InvalidRole,
    ];
    for (i, error) in errors.iter().enumerate() {
        assert_eq!(error.code() as usize, i + 1);
    }
    assert_eq!(Role::SuperAdmin.code(), 1);
    assert_eq!(Role::TreasuryManager.code(), 2);
    assert_eq!(Role::ComplianceOfficer.code(), 3);
    assert_eq!(Role::FeeManager.code(), 4);
}
