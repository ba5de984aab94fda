//! The contract on a real host: tokens, authorizations and rollback are the
//! host's own.

use std::cell::RefCell;

use payment_router::{
    pack_spending, Address, AddressKind, Command, DataKey, Error, Invocation, PaymentRouter,
    Reply, Request, Storage, TransferReply, UserToken,
};
use soroban_sdk::testutils::{Address as _, ContractFunctionSet};
use soroban_sdk::{token, Env, IntoVal, Symbol, TryIntoVal, Val};

/// A deployed router. Its entries are kept here; the entries whose lifetime it
/// extends are also written to the host's ledger.
struct Deployed {
    storage: RefCell<Storage>,
    known: RefCell<Vec<soroban_sdk::Address>>,
}

impl Deployed {
    fn new() -> Deployed {
        Deployed { storage: RefCell::new(Storage::new()), known: RefCell::new(Vec::new()) }
    }

    fn inward(&self, address: &soroban_sdk::Address) -> Address {
        let mut known = self.known.borrow_mut();
        let at = match known.iter().position(|a| a == address) {
            Some(at) => at,
            None => {
                known.push(address.clone());
                known.len() - 1
            }
        };
        Address { kind: AddressKind::Contract, hi: 0, lo: at as u128 }
    }

    fn outward(&self, address: Address) -> soroban_sdk::Address {
        self.known.borrow()[address.lo as usize].clone()
    }

    fn argument(&self, env: &Env, val: &Val) -> Address {
        let address: soroban_sdk::Address = val.try_into_val(env).unwrap();
        self.inward(&address)
    }

    /// Carries out the commands from `done` on.
    fn perform(&self, env: &Env, invocation: &Invocation, done: &mut usize) {
        while *done < invocation.commands.len() {
            match invocation.commands[*done] {
                Command::RequireAuth(address) => self.outward(address).require_auth(),
                Command::ExtendInstance { threshold, extend_to } => {
                    env.storage().instance().extend_ttl(threshold, extend_to)
                }
                Command::ExtendPersistent { key, threshold, extend_to } => {
                    let name = self.write(env, invocation, key);
                    env.storage().persistent().extend_ttl(&name, threshold, extend_to);
                }
                Command::Transfer { token, from, to, amount } => {
                    token::Client::new(env, &self.outward(token)).transfer(
                        &self.outward(from),
                        &self.outward(to),
                        &amount,
                    )
                }
                Command::Publish(event) => {
                    env.events().publish((Symbol::new(env, event.name()),), ())
                }
                _ => unreachable!(),
            }
            *done += 1;
        }
    }

    /// Writes the entry under `key`, and returns the key's name on the ledger.
    fn write(&self, env: &Env, invocation: &Invocation, key: DataKey) -> Val {
        let entries = env.storage().persistent();
        match key {
            DataKey::UserSpending(user) => {
                let name: Val = (Symbol::new(env, "spending"), self.outward(user)).into_val(env);
                let window = invocation.storage.user_spending.get(user).unwrap();
                let packed =
                    pack_spending(env, window.last_reset_time, window.accumulated_amount);
                entries.set(&name, &packed);
                name
            }
            DataKey::UserVolume(user) => {
                let name: Val = (Symbol::new(env, "volume"), self.outward(user)).into_val(env);
                entries.set(&name, &invocation.storage.user_volume.get(user).unwrap());
                name
            }
            DataKey::RefundBalance(user, token) => {
                let name: Val =
                    (Symbol::new(env, "refund"), self.outward(user), self.outward(token))
                        .into_val(env);
                let key = UserToken { user, token };
                entries.set(&name, &invocation.storage.refund_balance.get(key).unwrap());
                name
            }
            DataKey::UserRole(account, role) => {
                let name: Val =
                    (Symbol::new(env, "role"), self.outward(account), role.code()).into_val(env);
                entries.set(&name, &true);
                name
            }
            _ => unreachable!(),
        }
    }

    fn answer(&self, env: &Env, request: Request) -> Reply {
        match request {
            Request::IsVerified { .. } => Reply::Verified(false),
            Request::Balance { token, account } => Reply::Balance(
                token::Client::new(env, &self.outward(token)).balance(&self.outward(account)),
            ),
            Request::Transfer { token, from, to, amount } => Reply::Transfer(
                match token::Client::new(env, &self.outward(token)).try_transfer(
                    &self.outward(from),
                    &self.outward(to),
                    &amount,
                ) {
                    Ok(Ok(())) => TransferReply::Done,
                    Ok(Err(_)) => TransferReply::UnexpectedValue,
                    Err(_) => TransferReply::Failed,
                },
            ),
        }
    }
}

impl ContractFunctionSet for Deployed {
    fn call(&self, func: &str, env: Env, args: &[Val]) -> Option<Val> {
        let contract = self.inward(&env.current_contract_address());
        let entries = self.storage.borrow().duplicate();
        let mut invocation = Invocation::new(contract, env.ledger().timestamp(), entries);
        let mut done: usize = 0;
        let result = match func {
            "initialize" => PaymentRouter::initialize(
                &mut invocation,
                self.argument(&env, &args[0]),
                self.argument(&env, &args[1]),
                args[2].try_into_val(&env).unwrap(),
                args[3].try_into_val(&env).unwrap(),
                args[4].try_into_val(&env).unwrap(),
            ),
            "route_payment" => {
                let mut routing = PaymentRouter::route_payment(
                    &mut invocation,
                    self.argument(&env, &args[0]),
                    self.argument(&env, &args[1]),
                    self.argument(&env, &args[2]),
                    args[3].try_into_val(&env).unwrap(),
                );
                while let Some(request) = routing.request(&invocation) {
                    self.perform(&env, &invocation, &mut done);
                    let reply = self.answer(&env, request);
                    assert!(routing.accepts(&invocation, reply));
                    routing.resume(&mut invocation, reply);
                }
                routing.result().unwrap()
            }
            "claim_all_refunds" => {
                let (user, token) =
                    (self.argument(&env, &args[0]), self.argument(&env, &args[1]));
                PaymentRouter::claim_all_refunds(&mut invocation, user, token).map(|_| ())
            }
            _ => return None,
        };
        Some(match result {
            Ok(()) => {
                self.perform(&env, &invocation, &mut done);
                *self.storage.borrow_mut() = invocation.storage;
                ().into_val(&env)
            }
            Err(error) => soroban_sdk::Error::from_contract_error(error.code()).into(),
        })
    }
}

fn initialize(
    env: &Env,
    contract: &soroban_sdk::Address,
    admin: &soroban_sdk::Address,
    treasury: &soroban_sdk::Address,
    fee_bps: i128,
    fee_cap: i128,
) {
    let args: soroban_sdk::Vec<Val> =
        (admin, treasury, fee_bps, fee_cap, PaymentRouter::MAX_AMOUNT).into_val(env);
    env.invoke_contract::<()>(contract, &Symbol::new(env, "initialize"), args)
}

/// Routes a payment, and returns the error code if it is refused.
fn route_payment(
    env: &Env,
    contract: &soroban_sdk::Address,
    sender: &soroban_sdk::Address,
    recipient: &soroban_sdk::Address,
    token: &soroban_sdk::Address,
    amount: i128,
) -> Result<(), u32> {
    let args: soroban_sdk::Vec<Val> = (sender, recipient, token, amount).into_val(env);
    let name = Symbol::new(env, "route_payment");
    match env.try_invoke_contract::<(), soroban_sdk::Error>(contract, &name, args) {
        Ok(Ok(())) => Ok(()),
        Err(Ok(error)) => Err(error.get_code()),
        _ => panic!("the invocation was aborted"),
    }
}

#[test]
fn test_benchmark_gas_costs() {
    let env = Env::default();
    env.mock_all_auths();
    let contract = env.register_contract(None, Deployed::new());
    let admin = soroban_sdk::Address::generate(&env);
    let treasury = soroban_sdk::Address::generate(&env);
    let sender = soroban_sdk::Address::generate(&env);
    let recipient = soroban_sdk::Address::generate(&env);
    let token = env.register_stellar_asset_contract(soroban_sdk::Address::generate(&env));
    token::StellarAssetClient::new(&env, &token).mint(&sender, &10_000);

    env.budget().reset_default();
    initialize(&env, &contract, &admin, &treasury, 100, 50);
    let init_cpu = env.budget().cpu_instruction_cost();
    let init_mem = env.budget().memory_bytes_cost();

    env.budget().reset_default();
    route_payment(&env, &contract, &sender, &recipient, &token, 5_000).unwrap();
    let route_cpu = env.budget().cpu_instruction_cost();
    let route_mem = env.budget().memory_bytes_cost();

    let max_cpu = 5_000_000;
    let max_mem = 2_000_000;
    assert!(init_cpu <= max_cpu, "initialize CPU cost: {}", init_cpu);
    assert!(init_mem <= max_mem, "initialize memory cost: {}", init_mem);
    assert!(route_cpu <= max_cpu, "route_payment CPU cost: {}", route_cpu);
    assert!(route_mem <= max_mem, "route_payment memory cost: {}", route_mem);
}

#[test]
fn payment_moves_real_tokens() {
    let env = Env::default();
    env.mock_all_auths();
    let contract = env.register_contract(None, Deployed::new());
    let admin = soroban_sdk::Address::generate(&env);
    let treasury = soroban_sdk::Address::generate(&env);
    let sender = soroban_sdk::Address::generate(&env);
    let recipient = soroban_sdk::Address::generate(&env);
    let token = env.register_stellar_asset_contract(soroban_sdk::Address::generate(&env));
    token::StellarAssetClient::new(&env, &token).mint(&sender, &10_000);
    initialize(&env, &contract, &admin, &treasury, 100, 50);

    route_payment(&env, &contract, &sender, &recipient, &token, 2_000).unwrap();

    assert!(env.auths().iter().any(|(address, _)| *address == sender));
    let balances = token::Client::new(&env, &token);
    assert_eq!(balances.balance(&treasury), 20);
    assert_eq!(balances.balance(&recipient), 1_980);
    assert_eq!(balances.balance(&sender), 8_000);

    assert_eq!(
        route_payment(&env, &contract, &sender, &recipient, &token, 8_001),
        Err(Error::InsufficientBalance.code())
    );
    assert_eq!(
        route_payment(&env, &contract, &sender, &sender, &token, 1),
        Err(Error::InvalidRecipient.code())
    );
    assert_eq!(balances.balance(&sender), 8_000);
}

#[test]
fn payment_that_the_token_refuses_leaves_a_claimable_refund() {
    let env = Env::default();
    env.mock_all_auths();
    let contract = env.register_contract(None, Deployed::new());
    let admin = soroban_sdk::Address::generate(&env);
    let treasury = soroban_sdk::Address::generate(&env);
    let sender = soroban_sdk::Address::generate(&env);
    let recipient = soroban_sdk::Address::generate(&env);
    let token = env.register_stellar_asset_contract(soroban_sdk::Address::generate(&env));
    let asset = token::StellarAssetClient::new(&env, &token);
    asset.mint(&sender, &10_000);
    // The recipient cannot hold any more of the asset.
    asset.mint(&recipient, &i128::MAX);
    initialize(&env, &contract, &admin, &treasury, 100, 50);

    route_payment(&env, &contract, &sender, &recipient, &token, 2_000).unwrap();

    let balances = token::Client::new(&env, &token);
    assert_eq!(balances.balance(&treasury), 20);
    assert_eq!(balances.balance(&recipient), i128::MAX);
    assert_eq!(balances.balance(&contract), 1_980);
    assert_eq!(balances.balance(&sender), 8_000);

    let args: soroban_sdk::Vec<Val> = (&sender, &token).into_val(&env);
    env.invoke_contract::<()>(&contract, &Symbol::new(&env, "claim_all_refunds"), args);
    assert_eq!(balances.balance(&contract), 0);
    assert_eq!(balances.balance(&sender), 9_980);
}

#[test]
fn failed_fee_transfer_aborts_on_the_host() {
    let env = Env::default();
    env.mock_all_auths();
    let contract = env.register_contract(None, Deployed::new());
    let admin = soroban_sdk::Address::generate(&env);
    let treasury = soroban_sdk::Address::generate(&env);
    let sender = soroban_sdk::Address::generate(&env);
    let recipient = soroban_sdk::Address::generate(&env);
    let token = env.register_stellar_asset_contract(soroban_sdk::Address::generate(&env));
    let asset = token::StellarAssetClient::new(&env, &token);
    asset.mint(&sender, &10_000);
    // The treasury cannot hold any more of the asset.
    asset.mint(&treasury, &i128::MAX);
    initialize(&env, &contract, &admin, &treasury, 100, 50);

    let args: soroban_sdk::Vec<Val> = (&sender, &recipient, &token, 2_000i128).into_val(&env);
    let name = Symbol::new(&env, "route_payment");
    match env.try_invoke_contract::<(), soroban_sdk::Error>(&contract, &name, args) {
        Ok(_) => panic!("the invocation succeeded"),
        Err(Ok(error)) => assert!(!error.is_type(soroban_sdk::xdr::ScErrorType::Contract)),
        Err(Err(_)) => {}
    }

    let balances = token::Client::new(&env, &token);
    assert_eq!(balances.balance(&sender), 10_000);
    assert_eq!(balances.balance(&recipient), 0);
    assert_eq!(balances.balance(&contract), 0);
}
