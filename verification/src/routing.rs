//! Routing payments.
//!
//! A batch of payments is first screened as a whole, then its senders are asked
//! to authorize it, then the payments are processed one by one. Processing
//! depends on what the KYC oracle and the tokens answer, so a batch is a state
//! machine: [`Routing::request`] names the question it is waiting on, and
//! [`Routing::resume`] takes the answer. A batch that fails puts the ledger
//! entries back as they were.

use vstd::prelude::*;
use crate::fees::{above_threshold, compute_fee, fee_amount, fee_on, fits_i128};
use crate::invocation::{
    Command, Event, FeeTerms, Invocation, InvocationView, Storage, StorageView,
};
use crate::router::PaymentRouter;
use crate::spending::{charge_window, charged, current_window};
use crate::table::UserToken;
use crate::types::{Address, DataKey, Error, Payment, UserSpending};

verus! {

/// What came of a token transfer that was tried.
#[derive(Copy, Clone, Debug, PartialEq, Eq, Structural)]
pub enum TransferReply {
    /// The token moved the funds.
    Done,
    /// The token moved the funds, but returned something it should not.
    UnexpectedValue,
    /// The token refused.
    Failed,
}

/// A question to the host. It leaves no trace if the host's answer is a failure.
#[derive(Copy, Clone, Debug, PartialEq, Eq, Structural)]
pub enum Request {
    /// Ask the oracle whether `account` has a valid KYC claim.
    IsVerified { oracle: Address, account: Address },
    /// Ask the token for the balance of `account`.
    Balance { token: Address, account: Address },
    /// Try to move tokens.
    Transfer { token: Address, from: Address, to: Address, amount: i128 },
}

/// The answer to a [`Request`].
#[derive(Copy, Clone, Debug, PartialEq, Eq, Structural)]
pub enum Reply {
    /// Whether the account is verified.
    Verified(bool),
    /// The account's balance.
    Balance(i128),
    /// What came of the transfer.
    Transfer(TransferReply),
}

/// Where a batch stands. `index` is the payment that it is working on.
#[derive(Copy, Clone, Debug, PartialEq, Eq)]
pub enum Phase {
    /// Screening: the oracle is asked about the payment's sender.
    Kyc { index: usize, oracle: Address },
    /// Processing: the token is asked for the sender's balance.
    Balance { index: usize, terms: FeeTerms },
    /// Processing: the fee is on its way to the treasury.
    Fee { index: usize, terms: FeeTerms, fee: i128, remainder: i128 },
    /// Processing: the remainder is on its way to the recipient.
    Remainder { index: usize, terms: FeeTerms, remainder: i128 },
    /// Processing: the recipient could not be paid, and the remainder is on its
    /// way to the contract, to be credited to the sender.
    Refund { index: usize, terms: FeeTerms, remainder: i128 },
    /// All payments were made, or none.
    Finished(Result<(), Error>),
}

/// The result of screening a batch.
#[derive(Copy, Clone, Debug, PartialEq, Eq, Structural)]
pub enum Screening {
    /// Nothing speaks against the payments.
    Cleared,
    /// A payment is refused.
    Refused(Error),
    /// The oracle has to be asked about the sender of a payment.
    NeedsKyc { index: usize, oracle: Address },
}

/// A batch of payments under way.
#[derive(Debug)]
pub struct Routing {
    payments: Vec<Payment>,
    saved: Storage,
    phase: Phase,
}

/// The mathematical content of a [`Routing`].
pub struct RoutingView {
    /// The batch.
    pub payments: Seq<Payment>,
    /// The ledger entries when the batch began.
    pub saved: StorageView,
    /// Where the batch stands.
    pub phase: Phase,
}

impl View for Routing {
    type V = RoutingView;

    closed spec fn view(&self) -> RoutingView {
        RoutingView { payments: self.payments@, saved: self.saved@, phase: self.phase }
    }
}

// What the answers decide.

/// Why a payment is refused before anyone is asked, if it is.
pub open spec fn objection(s: StorageView, payment: Payment) -> Option<Error> {
    if payment.sender == payment.recipient {
        Some(Error::InvalidRecipient)
    } else if s.blacklisted(payment.recipient) {
        Some(Error::Blacklisted)
    } else if payment.amount <= 0 || payment.amount > s.largest_payment() || payment.amount
        < s.smallest_payment() {
        Some(Error::LimitExceeded)
    } else {
        None
    }
}

/// The KYC rule for a payment of `amount`: it passes (`Ok(None)`), it passes if
/// the oracle says so (`Ok(Some(oracle))`), or it is refused.
pub open spec fn kyc_rule(s: StorageView, amount: i128) -> Result<Option<Address>, Error> {
    if s.kyc_threshold is None || amount <= s.kyc_threshold->0 {
        Ok(None)
    } else if s.kyc_oracle is Some {
        Ok(s.kyc_oracle)
    } else {
        Err(Error::KycRequired)
    }
}

/// Screens the payments from index `from` on, up to the first one that is
/// refused or needs the oracle.
pub open spec fn screened(s: StorageView, payments: Seq<Payment>, from: int) -> Screening
    decreases payments.len() - from,
{
    if from < 0 || from >= payments.len() {
        Screening::Cleared
    } else {
        match objection(s, payments[from]) {
            Some(error) => Screening::Refused(error),
            None => match kyc_rule(s, payments[from].amount) {
                Err(error) => Screening::Refused(error),
                Ok(Some(oracle)) => Screening::NeedsKyc { index: from as usize, oracle },
                Ok(None) => screened(s, payments, from + 1),
            },
        }
    }
}

/// The senders of a batch, each once, in the order in which they first occur.
pub open spec fn senders(payments: Seq<Payment>) -> Seq<Address>
    decreases payments.len(),
{
    if payments.len() == 0 {
        Seq::empty()
    } else {
        let before = senders(payments.drop_last());
        if before.contains(payments.last().sender) {
            before
        } else {
            before.push(payments.last().sender)
        }
    }
}

/// The commands that ask each of `addresses` to authorize.
pub open spec fn require_all(addresses: Seq<Address>) -> Seq<Command> {
    addresses.map_values(|address: Address| Command::RequireAuth(address))
}

/// The fee of a payment, given the sender's volume so far.
pub open spec fn fee_for(s: StorageView, payment: Payment, terms: FeeTerms) -> int {
    fee_on(payment.amount, terms.fee_bps, terms.fee_cap, above_threshold(s.volume(payment.sender)))
}

/// A sum that stops at the largest 128-bit integer.
pub open spec fn saturating_sum(a: i128, b: i128) -> i128 {
    if a + b > i128::MAX {
        i128::MAX
    } else if a + b < i128::MIN {
        i128::MIN
    } else {
        (a + b) as i128
    }
}

/// `amount` is credited to the refund balance of `user` in `token`.
pub open spec fn credited(
    e: InvocationView,
    user: Address,
    token: Address,
    amount: i128,
) -> InvocationView {
    e.store(
        StorageView {
            refund_balance: e.storage.refund_balance.insert(
                UserToken { user, token },
                (e.storage.refund(user, token) + amount) as i128,
            ),
            ..e.storage
        },
    ).extend_persistent(DataKey::RefundBalance(user, token)).announce(
        Event::Refunded { user, token, amount },
    )
}

/// `payment` is counted in its sender's lifetime volume, and announced.
pub open spec fn recorded(e: InvocationView, payment: Payment) -> InvocationView {
    e.store(
        StorageView {
            user_volume: e.storage.user_volume.insert(
                payment.sender,
                saturating_sum(e.storage.volume(payment.sender), payment.amount),
            ),
            ..e.storage
        },
    ).extend_persistent(DataKey::UserVolume(payment.sender)).announce(
        Event::Routed {
            sender: payment.sender,
            recipient: payment.recipient,
            amount: payment.amount,
        },
    )
}

/// A batch and the invocation that it runs in.
pub type Run = (RoutingView, InvocationView);

impl RoutingView {
    /// The same batch in another phase.
    pub open spec fn at(self, phase: Phase) -> RoutingView {
        RoutingView { phase, ..self }
    }

    /// The batch fails with `error`, and the ledger entries are put back.
    pub open spec fn refused(self, e: InvocationView, error: Error) -> Run {
        (self.at(Phase::Finished(Err(error))), e.store(self.saved))
    }

    /// Screening goes on with the payment at `from`; when all have passed, the
    /// senders are asked to authorize and the first payment begins.
    pub open spec fn screen(self, e: InvocationView, from: int) -> Run {
        match screened(e.storage, self.payments, from) {
            Screening::Refused(error) => self.refused(e, error),
            Screening::NeedsKyc { index, oracle } => (self.at(Phase::Kyc { index, oracle }), e),
            Screening::Cleared => self.authorize(e),
        }
    }

    /// Each sender is asked once, and the fee configuration is read.
    pub open spec fn authorize(self, e: InvocationView) -> Run {
        let asked = InvocationView {
            commands: e.commands + require_all(senders(self.payments)),
            ..e
        };
        match e.storage.fee_terms() {
            None => self.refused(asked, Error::NotInitialized),
            Some(terms) => self.begin(asked.extend_instance(), 0, terms),
        }
    }

    /// The payment at `index` begins: it is announced, and counted against its
    /// sender's daily limit. Past the last payment, the batch is done.
    pub open spec fn begin(self, e: InvocationView, index: int, terms: FeeTerms) -> Run {
        if index >= self.payments.len() {
            (self.at(Phase::Finished(Ok(()))), e)
        } else {
            let p = self.payments[index];
            let announced = e.announce(
                Event::PaymentInitiated { sender: p.sender, amount: p.amount },
            );
            match charged(
                current_window(e.storage.user_spending.get(p.sender), e.timestamp),
                p.amount,
            ) {
                None => self.refused(announced, Error::LimitExceeded),
                Some(window) => (
                    self.at(Phase::Balance { index: index as usize, terms }),
                    announced.store(
                        StorageView {
                            user_spending: e.storage.user_spending.insert(p.sender, window),
                            ..e.storage
                        },
                    ).extend_persistent(DataKey::UserSpending(p.sender)),
                ),
            }
        }
    }

    /// The sender's balance is known: if it covers the amount, the fee is sent,
    /// unless there is none.
    pub open spec fn funded(
        self,
        e: InvocationView,
        index: usize,
        terms: FeeTerms,
        balance: i128,
    ) -> Run {
        let p = self.payments[index as int];
        let fee = fee_for(e.storage, p, terms);
        let remainder = p.amount - fee;
        if balance < p.amount {
            self.refused(e, Error::InsufficientBalance)
        } else if fee > 0 {
            (
                self.at(
                    Phase::Fee { index, terms, fee: fee as i128, remainder: remainder as i128 },
                ),
                e,
            )
        } else {
            self.deliver(e, index, terms, remainder as i128)
        }
    }

    /// The remainder is sent to the recipient, unless there is none.
    pub open spec fn deliver(
        self,
        e: InvocationView,
        index: usize,
        terms: FeeTerms,
        remainder: i128,
    ) -> Run {
        if remainder > 0 {
            (self.at(Phase::Remainder { index, terms, remainder }), e)
        } else {
            self.settle(e, index, terms)
        }
    }

    /// The payment at `index` is recorded, and the next one begins.
    pub open spec fn settle(self, e: InvocationView, index: usize, terms: FeeTerms) -> Run {
        self.begin(recorded(e, self.payments[index as int]), index + 1, terms)
    }

    /// What the batch does on a reply. A reply that it cannot go on from changes
    /// nothing.
    pub open spec fn advance(self, e: InvocationView, reply: Reply) -> Run {
        match (self.phase, reply) {
            (Phase::Kyc { index, .. }, Reply::Verified(verified)) => if verified {
                self.screen(e, index + 1)
            } else {
                self.refused(e, Error::KycRequired)
            },
            (Phase::Balance { index, terms }, Reply::Balance(balance)) => self.funded(
                e,
                index,
                terms,
                balance,
            ),
            (Phase::Fee { index, terms, remainder, .. }, Reply::Transfer(outcome)) => if outcome
                == TransferReply::Failed {
                (self, e)
            } else {
                self.deliver(e, index, terms, remainder)
            },
            (
                Phase::Remainder { index, terms, remainder },
                Reply::Transfer(outcome),
            ) => if outcome == TransferReply::Done {
                self.settle(e, index, terms)
            } else {
                (self.at(Phase::Refund { index, terms, remainder }), e)
            },
            (Phase::Refund { index, terms, remainder }, Reply::Transfer(outcome)) => {
                let p = self.payments[index as int];
                if outcome == TransferReply::Done {
                    self.settle(credited(e, p.sender, p.token_address, remainder), index, terms)
                } else {
                    self.refused(e, Error::LimitExceeded)
                }
            },
            _ => (self, e),
        }
    }

    /// What the batch is waiting for. `contract` is the contract's own address.
    pub open spec fn requested(self, contract: Address) -> Option<Request> {
        match self.phase {
            Phase::Kyc { index, oracle } => Some(
                Request::IsVerified { oracle, account: self.payments[index as int].sender },
            ),
            Phase::Balance { index, .. } => Some(
                Request::Balance {
                    token: self.payments[index as int].token_address,
                    account: self.payments[index as int].sender,
                },
            ),
            Phase::Fee { index, terms, fee, .. } => Some(
                self.transfer(index, terms.platform_treasury, fee),
            ),
            Phase::Remainder { index, remainder, .. } => Some(
                self.transfer(index, self.payments[index as int].recipient, remainder),
            ),
            Phase::Refund { index, remainder, .. } => Some(
                self.transfer(index, contract, remainder),
            ),
            Phase::Finished(_) => None,
        }
    }

    /// A transfer of the payment's token from the payment's sender.
    pub open spec fn transfer(self, index: usize, to: Address, amount: i128) -> Request {
        Request::Transfer {
            token: self.payments[index as int].token_address,
            from: self.payments[index as int].sender,
            to,
            amount,
        }
    }

    /// The window of the payment at `index`, if there is one, does not begin in the
    /// future, so that it can be counted against.
    pub open spec fn clock_ok(self, e: InvocationView, index: int) -> bool {
        0 <= index < self.payments.len() && e.storage.user_spending.contains_key(
            self.payments[index].sender,
        ) ==> e.storage.user_spending[self.payments[index].sender].last_reset_time <= e.timestamp
    }

    /// If the payments from `from` on pass the screening, so that the first payment
    /// begins, its window allows that.
    pub open spec fn can_screen(self, e: InvocationView, from: int) -> bool {
        screened(e.storage, self.payments, from) is Cleared && e.storage.fee_terms() is Some
            ==> self.clock_ok(e, 0)
    }

    /// The amounts of the payments before `end` are positive.
    pub open spec fn positive_before(self, end: int) -> bool {
        forall|i: int|
            #![trigger self.payments[i]]
            0 <= i < end ==> self.payments[i].amount > 0
    }

    /// All payments have passed the screening, and the one at `index` is being
    /// charged on the terms that the ledger holds.
    pub open spec fn processing(self, e: InvocationView, index: usize, terms: FeeTerms) -> bool {
        &&& index < self.payments.len()
        &&& self.positive_before(self.payments.len() as int)
        &&& e.storage.fee_terms() == Some(terms)
    }

    /// What holds of a batch at every step: the phase speaks of a payment of the
    /// batch, and the fee and remainder under way are those of that payment.
    pub open spec fn wf(self, e: InvocationView) -> bool {
        match self.phase {
            Phase::Kyc { index, .. } => {
                &&& index < self.payments.len()
                &&& self.positive_before(index + 1)
            },
            Phase::Balance { index, terms } => self.processing(e, index, terms),
            Phase::Fee { index, terms, fee, remainder } => {
                let p = self.payments[index as int];
                &&& self.processing(e, index, terms)
                &&& fee > 0
                &&& fee == fee_for(e.storage, p, terms)
                &&& fee + remainder == p.amount
            },
            Phase::Remainder { index, terms, remainder } => {
                let p = self.payments[index as int];
                &&& self.processing(e, index, terms)
                &&& remainder > 0
                &&& remainder == p.amount - fee_for(e.storage, p, terms)
            },
            Phase::Refund { index, terms, remainder } => {
                let p = self.payments[index as int];
                &&& self.processing(e, index, terms)
                &&& remainder > 0
                &&& remainder == p.amount - fee_for(e.storage, p, terms)
            },
            Phase::Finished(_) => true,
        }
    }

    /// Whether the batch can go on from `reply`: it answers what the batch is
    /// waiting for, it is not the failure of a fee transfer, the amounts that follow
    /// from it stay within 128 bits, and the next payment's window does not begin in
    /// the future. On any other reply the whole invocation has to be aborted.
    pub open spec fn accepts(self, e: InvocationView, reply: Reply) -> bool {
        match (self.phase, reply) {
            (Phase::Kyc { index, .. }, Reply::Verified(verified)) => verified
                ==> self.can_screen(e, index + 1),
            (Phase::Balance { index, terms }, Reply::Balance(balance)) => {
                let p = self.payments[index as int];
                balance >= p.amount ==> fits_i128(p.amount - fee_for(e.storage, p, terms))
            },
            (Phase::Fee { index, remainder, .. }, Reply::Transfer(outcome)) => {
                &&& outcome != TransferReply::Failed
                &&& remainder <= 0 ==> self.clock_ok(e, index + 1)
            },
            (Phase::Remainder { index, .. }, Reply::Transfer(outcome)) => outcome
                == TransferReply::Done ==> self.clock_ok(e, index + 1),
            (Phase::Refund { index, remainder, .. }, Reply::Transfer(outcome)) => {
                let p = self.payments[index as int];
                outcome == TransferReply::Done ==> {
                    &&& fits_i128(e.storage.refund(p.sender, p.token_address) + remainder)
                    &&& self.clock_ok(e, index + 1)
                }
            },
            _ => false,
        }
    }
}

/// How a batch begins.
pub open spec fn opened(e: InvocationView, payments: Seq<Payment>) -> Run {
    let r = RoutingView { payments, saved: e.storage, phase: Phase::Finished(Ok(())) };
    if e.storage.is_frozen() {
        r.refused(e, Error::ContractFrozen)
    } else if e.storage.is_paused() {
        r.refused(e, Error::Paused)
    } else {
        r.screen(e, 0)
    }
}

/// Whether a batch can begin at all: if nothing speaks against it, the window of
/// its first payment does not begin in the future.
pub open spec fn admitted(e: InvocationView, payments: Seq<Payment>) -> bool {
    let r = RoutingView { payments, saved: e.storage, phase: Phase::Finished(Ok(())) };
    !e.storage.is_frozen() && !e.storage.is_paused() ==> r.can_screen(e, 0)
}

impl Routing {
    /// The batch's result, once it has one.
    pub fn result(&self) -> (result: Option<Result<(), Error>>)
        ensures
            result == (match self@.phase {
                Phase::Finished(result) => Some(result),
                _ => None,
            }),
    {
        match self.phase {
            Phase::Finished(result) => Some(result),
            _ => None,
        }
    }

    /// What the batch is waiting for, until it is finished.
    pub fn request(&self, env: &Invocation) -> (request: Option<Request>)
        requires
            self@.wf(env@),
        ensures
            request == self@.requested(env@.contract),
    {
        match self.phase {
            Phase::Kyc { index, oracle } => Some(
                Request::IsVerified { oracle, account: self.payments[index].sender },
            ),
            Phase::Balance { index, .. } => Some(
                Request::Balance {
                    token: self.payments[index].token_address,
                    account: self.payments[index].sender,
                },
            ),
            Phase::Fee { index, terms, fee, .. } => Some(
                self.transfer(index, terms.platform_treasury, fee),
            ),
            Phase::Remainder { index, remainder, .. } => Some(
                self.transfer(index, self.payments[index].recipient, remainder),
            ),
            Phase::Refund { index, remainder, .. } => Some(
                self.transfer(index, env.contract, remainder),
            ),
            Phase::Finished(_) => None,
        }
    }

    /// A transfer of the payment's token from the payment's sender.
    fn transfer(&self, index: usize, to: Address, amount: i128) -> (request: Request)
        requires
            index < self@.payments.len(),
        ensures
            request == self@.transfer(index, to, amount),
    {
        let p: Payment = self.payments[index];
        Request::Transfer { token: p.token_address, from: p.sender, to, amount }
    }

    /// Whether the batch can go on from `reply`. If it cannot, the whole invocation
    /// has to be aborted, so that nothing of it remains.
    pub fn accepts(&self, env: &Invocation, reply: Reply) -> (b: bool)
        requires
            self@.wf(env@),
        ensures
            b == self@.accepts(env@, reply),
    {
        match (self.phase, reply) {
            (Phase::Kyc { index, .. }, Reply::Verified(verified)) => {
                assert(index < self.payments.len());
                !verified || can_screen(env, &self.payments, index + 1)
            },
            (Phase::Balance { index, terms }, Reply::Balance(balance)) => {
                let p: Payment = self.payments[index];
                if balance < p.amount {
                    true
                } else {
                    let discount: bool = PaymentRouter::has_discount(env, p.sender);
                    let fee: i128 = fee_amount(p.amount, terms.fee_bps, terms.fee_cap, discount);
                    p.amount.checked_sub(fee).is_some()
                }
            },
            (Phase::Fee { index, remainder, .. }, Reply::Transfer(outcome)) => {
                assert(index < self.payments.len());
                outcome != TransferReply::Failed && (remainder > 0 || clock_ok(
                    env,
                    &self.payments,
                    index + 1,
                ))
            },
            (Phase::Remainder { index, .. }, Reply::Transfer(outcome)) => {
                assert(index < self.payments.len());
                outcome != TransferReply::Done || clock_ok(env, &self.payments, index + 1)
            },
            (Phase::Refund { index, remainder, .. }, Reply::Transfer(outcome)) => {
                let p: Payment = self.payments[index];
                assert(index < self.payments.len());
                if outcome == TransferReply::Done {
                    let held: i128 = PaymentRouter::get_refund_balance_internal(
                        env,
                        p.sender,
                        p.token_address,
                    );
                    held.checked_add(remainder).is_some() && clock_ok(
                        env,
                        &self.payments,
                        index + 1,
                    )
                } else {
                    true
                }
            },
            _ => false,
        }
    }

    /// Takes the host's answer to the batch's request, and goes on to the next
    /// request or to the end.
    pub fn resume(&mut self, env: &mut Invocation, reply: Reply)
        requires
            old(self)@.wf(old(env)@),
            old(self)@.accepts(old(env)@, reply),
        ensures
            (final(self)@, final(env)@) == old(self)@.advance(old(env)@, reply),
            final(self)@.wf(final(env)@),
    {
        match (self.phase, reply) {
            (Phase::Kyc { index, .. }, Reply::Verified(verified)) => {
                if verified {
                    assert(index < self.payments.len());
                    self.screen(env, index + 1);
                } else {
                    self.refuse(env, Error::KycRequired);
                }
            },
            (Phase::Balance { index, terms }, Reply::Balance(balance)) => {
                self.fund(env, index, terms, balance);
            },
            (Phase::Fee { index, terms, remainder, .. }, Reply::Transfer(_)) => {
                self.deliver(env, index, terms, remainder);
            },
            (Phase::Remainder { index, terms, remainder }, Reply::Transfer(outcome)) => {
                if outcome == TransferReply::Done {
                    self.settle(env, index, terms);
                } else {
                    self.phase = Phase::Refund { index, terms, remainder };
                }
            },
            (Phase::Refund { index, terms, remainder }, Reply::Transfer(outcome)) => {
                let p: Payment = self.payments[index];
                if outcome == TransferReply::Done {
                    PaymentRouter::credit_refund_balance(
                        env,
                        p.sender,
                        p.token_address,
                        remainder,
                    );
                    self.settle(env, index, terms);
                } else {
                    self.refuse(env, Error::LimitExceeded);
                }
            },
            _ => {},
        }
    }

    /// Fails, and puts the ledger entries back.
    fn refuse(&mut self, env: &mut Invocation, error: Error)
        ensures
            (final(self)@, final(env)@) == old(self)@.refused(old(env)@, error),
    {
        env.storage = self.saved.duplicate();
        self.phase = Phase::Finished(Err(error));
    }

    /// Goes on screening with the payment at `from`.
    fn screen(&mut self, env: &mut Invocation, from: usize)
        requires
            from <= old(self)@.payments.len(),
            old(self)@.positive_before(from as int),
            old(self)@.can_screen(old(env)@, from as int),
        ensures
            (final(self)@, final(env)@) == old(self)@.screen(old(env)@, from as int),
            final(self)@.wf(final(env)@),
    {
        proof {
            assert(self@.payments.len() == self.payments.len());
            lemma_screened_positive(env@.storage, self@, from as int);
        }
        match screening(env, &self.payments, from) {
            Screening::Refused(error) => {
                self.refuse(env, error);
            },
            Screening::NeedsKyc { index, oracle } => {
                self.phase = Phase::Kyc { index, oracle };
            },
            Screening::Cleared => {
                self.authorize(env);
            },
        }
    }

    /// Asks each sender once to authorize, then begins with the first payment.
    fn authorize(&mut self, env: &mut Invocation)
        requires
            old(self)@.positive_before(old(self)@.payments.len() as int),
            old(env)@.storage.fee_terms() is Some ==> old(self)@.clock_ok(old(env)@, 0),
        ensures
            (final(self)@, final(env)@) == old(self)@.authorize(old(env)@),
            final(self)@.wf(final(env)@),
    {
        let mut asked: Vec<Address> = Vec::new();
        let mut i: usize = 0;
        assert(self.payments@.take(0) =~= Seq::empty());
        assert(env@.commands =~= old(env)@.commands + require_all(Seq::empty()));
        while i < self.payments.len()
            invariant
                i <= self.payments.len(),
                *self == *old(self),
                asked@ == senders(self.payments@.take(i as int)),
                env@ == (InvocationView {
                    commands: old(env)@.commands + require_all(asked@),
                    ..old(env)@
                }),
            decreases self.payments.len() - i,
        {
            let sender: Address = self.payments[i].sender;
            assert(self.payments@.take(i + 1).drop_last() =~= self.payments@.take(i as int));
            if !contains_address(&asked, sender) {
                env.require_auth(sender);
                let ghost before = asked@;
                asked.push(sender);
                assert(require_all(asked@) =~= require_all(before).push(
                    Command::RequireAuth(sender),
                ));
                assert(env@.commands =~= old(env)@.commands + require_all(asked@));
            }
            i = i + 1;
        }
        assert(self.payments@.take(i as int) =~= self.payments@);
        match PaymentRouter::load_fee_config(env) {
            Err(error) => {
                self.refuse(env, error);
            },
            Ok(terms) => {
                self.begin(env, 0, terms);
            },
        }
    }

    /// Begins with the payment at `index`, if there is one.
    fn begin(&mut self, env: &mut Invocation, index: usize, terms: FeeTerms)
        requires
            index <= old(self)@.payments.len(),
            old(self)@.positive_before(old(self)@.payments.len() as int),
            old(self)@.clock_ok(old(env)@, index as int),
            old(env)@.storage.fee_terms() == Some(terms),
        ensures
            (final(self)@, final(env)@) == old(self)@.begin(old(env)@, index as int, terms),
            final(self)@.wf(final(env)@),
    {
        if index >= self.payments.len() {
            self.phase = Phase::Finished(Ok(()));
            return;
        }
        let p: Payment = self.payments[index];
        env.announce(Event::PaymentInitiated { sender: p.sender, amount: p.amount });
        let record: Option<UserSpending> = env.storage.user_spending.get(p.sender);
        match charge_window(record, env.timestamp, p.amount) {
            None => {
                self.refuse(env, Error::LimitExceeded);
            },
            Some(window) => {
                env.storage.user_spending.set(p.sender, window);
                env.extend_persistent(DataKey::UserSpending(p.sender));
                self.phase = Phase::Balance { index, terms };
            },
        }
    }

    /// Goes on with the payment at `index`, knowing its sender's balance.
    fn fund(&mut self, env: &mut Invocation, index: usize, terms: FeeTerms, balance: i128)
        requires
            old(self)@.processing(old(env)@, index, terms),
            balance >= old(self)@.payments[index as int].amount ==> fits_i128(
                old(self)@.payments[index as int].amount - fee_for(
                    old(env)@.storage,
                    old(self)@.payments[index as int],
                    terms,
                ),
            ),
        ensures
            (final(self)@, final(env)@) == old(self)@.funded(old(env)@, index, terms, balance),
            final(self)@.wf(final(env)@),
    {
        let p: Payment = self.payments[index];
        if balance < p.amount {
            self.refuse(env, Error::InsufficientBalance);
            return;
        }
        let discount: bool = PaymentRouter::has_discount(env, p.sender);
        let (fee, remainder): (i128, i128) = compute_fee(
            p.amount,
            terms.fee_bps,
            terms.fee_cap,
            discount,
        );
        if fee > 0 {
            self.phase = Phase::Fee { index, terms, fee, remainder };
        } else {
            self.deliver(env, index, terms, remainder);
        }
    }

    /// Sends the remainder, if there is one.
    fn deliver(&mut self, env: &mut Invocation, index: usize, terms: FeeTerms, remainder: i128)
        requires
            old(self)@.processing(old(env)@, index, terms),
            remainder == old(self)@.payments[index as int].amount - fee_for(
                old(env)@.storage,
                old(self)@.payments[index as int],
                terms,
            ),
            remainder <= 0 ==> old(self)@.clock_ok(old(env)@, index + 1),
        ensures
            (final(self)@, final(env)@) == old(self)@.deliver(old(env)@, index, terms, remainder),
            final(self)@.wf(final(env)@),
    {
        if remainder > 0 {
            self.phase = Phase::Remainder { index, terms, remainder };
        } else {
            self.settle(env, index, terms);
        }
    }

    /// Records the payment at `index`, and begins with the next.
    fn settle(&mut self, env: &mut Invocation, index: usize, terms: FeeTerms)
        requires
            old(self)@.processing(old(env)@, index, terms),
            old(self)@.clock_ok(old(env)@, index + 1),
        ensures
            (final(self)@, final(env)@) == old(self)@.settle(old(env)@, index, terms),
            final(self)@.wf(final(env)@),
    {
        let p: Payment = self.payments[index];
        let volume: i128 = PaymentRouter::get_user_volume(env, p.sender);
        let total: i128 = match volume.checked_add(p.amount) {
            Some(total) => total,
            None => if p.amount > 0 {
                i128::MAX
            } else {
                i128::MIN
            },
        };
        env.storage.user_volume.set(p.sender, total);
        env.extend_persistent(DataKey::UserVolume(p.sender));
        env.announce(
            Event::Routed { sender: p.sender, recipient: p.recipient, amount: p.amount },
        );
        assert(index < self.payments.len());
        self.begin(env, index + 1, terms);
    }
}

/// Payments that pass the screening have positive amounts.
proof fn lemma_screened_positive(s: StorageView, r: RoutingView, from: int)
    requires
        0 <= from <= r.payments.len() <= usize::MAX,
        r.positive_before(from),
    ensures
        screened(s, r.payments, from) is Cleared ==> r.positive_before(r.payments.len() as int),
        screened(s, r.payments, from) matches Screening::NeedsKyc { index, .. } ==> {
            &&& index < r.payments.len()
            &&& r.positive_before(index + 1)
        },
    decreases r.payments.len() - from,
{
    if from < r.payments.len() && objection(s, r.payments[from]) is None {
        lemma_screened_positive(s, r, from + 1);
    }
}

/// Screens the payments from index `from` on.
fn screening(env: &Invocation, payments: &Vec<Payment>, from: usize) -> (screening: Screening)
    requires
        from <= payments@.len(),
    ensures
        screening == screened(env@.storage, payments@, from as int),
{
    let mut i: usize = from;
    while i < payments.len()
        invariant
            i <= payments@.len(),
            screened(env@.storage, payments@, from as int) == screened(
                env@.storage,
                payments@,
                i as int,
            ),
        decreases payments.len() - i,
    {
        let p: Payment = payments[i];
        match PaymentRouter::check_payment(env, p) {
            Some(error) => {
                return Screening::Refused(error);
            },
            None => {},
        }
        match PaymentRouter::verify_kyc_for_amount(env, p.amount) {
            Err(error) => {
                return Screening::Refused(error);
            },
            Ok(Some(oracle)) => {
                return Screening::NeedsKyc { index: i, oracle };
            },
            Ok(None) => {},
        }
        i = i + 1;
    }
    Screening::Cleared
}

/// Whether the window of the payment at `index`, if there is one, can be counted
/// against.
fn clock_ok(env: &Invocation, payments: &Vec<Payment>, index: usize) -> (b: bool)
    ensures
        forall|r: RoutingView| r.payments == payments@ ==> b == #[trigger] r.clock_ok(
            env@,
            index as int,
        ),
{
    if index >= payments.len() {
        return true;
    }
    match env.storage.user_spending.get(payments[index].sender) {
        Some(window) => window.last_reset_time <= env.timestamp,
        None => true,
    }
}

/// Whether screening can go on with the payment at `from`.
fn can_screen(env: &Invocation, payments: &Vec<Payment>, from: usize) -> (b: bool)
    requires
        from <= payments@.len(),
    ensures
        forall|r: RoutingView| r.payments == payments@ ==> b == #[trigger] r.can_screen(
            env@,
            from as int,
        ),
{
    let configured: bool = env.storage.platform_treasury.is_some() && env.storage.fee_bps.is_some()
        && env.storage.fee_cap.is_some();
    match screening(env, payments, from) {
        Screening::Cleared => !configured || clock_ok(env, payments, 0),
        _ => true,
    }
}

/// Whether `address` is in the list.
fn contains_address(addresses: &Vec<Address>, address: Address) -> (b: bool)
    ensures
        b == addresses@.contains(address),
{
    let mut i: usize = 0;
    while i < addresses.len()
        invariant
            i <= addresses.len(),
            forall|j: int| 0 <= j < i ==> addresses@[j] != address,
        decreases addresses.len() - i,
    {
        if addresses[i] == address {
            return true;
        }
        i = i + 1;
    }
    false
}

impl PaymentRouter {
    /// Returns whether the contract is currently frozen.
    pub(crate) fn is_frozen_internal(env: &Invocation) -> (b: bool)
        ensures
            b == env@.storage.is_frozen(),
    {
        env.storage.frozen.unwrap_or(false)
    }

    /// Returns whether the contract is currently paused.
    pub fn is_paused(env: &Invocation) -> (b: bool)
        ensures
            b == env@.storage.is_paused(),
    {
        env.storage.paused.unwrap_or(false)
    }

    /// Returns whether payments to `address` are refused.
    pub fn is_blacklisted(env: &Invocation, address: Address) -> (b: bool)
        ensures
            b == env@.storage.blacklisted(address),
    {
        env.storage.blacklist.get(address).unwrap_or(false)
    }

    /// Returns the cumulative amount that `user` has routed, `0` if none.
    pub fn get_user_volume(env: &Invocation, user: Address) -> (volume: i128)
        ensures
            volume == env@.storage.volume(user),
    {
        env.storage.user_volume.get(user).unwrap_or(0)
    }

    /// Whether `sender` has routed enough to get the discount.
    pub(crate) fn has_discount(env: &Invocation, sender: Address) -> (b: bool)
        ensures
            b == above_threshold(env@.storage.volume(sender)),
    {
        Self::get_user_volume(env, sender) > Self::VOLUME_THRESHOLD
    }

    /// The refund balance of `user` in `token`, `0` if none is held.
    pub(crate) fn get_refund_balance_internal(
        env: &Invocation,
        user: Address,
        token: Address,
    ) -> (balance: i128)
        ensures
            balance == env@.storage.refund(user, token),
    {
        env.storage.refund_balance.get(UserToken { user, token }).unwrap_or(0)
    }

    /// Credits `amount` to the refund balance of `user` in `token`.
    pub fn credit_refund_balance(
        env: &mut Invocation,
        user: Address,
        token: Address,
        amount: i128,
    )
        requires
            fits_i128(old(env)@.storage.refund(user, token) + amount),
        ensures
            final(env)@ == credited(old(env)@, user, token, amount),
            old(env)@.wf() && amount > 0 ==> final(env)@.wf(),
    {
        let balance: i128 = Self::get_refund_balance_internal(env, user, token) + amount;
        env.storage.refund_balance.set(UserToken { user, token }, balance);
        env.extend_persistent(DataKey::RefundBalance(user, token));
        env.announce(Event::Refunded { user, token, amount });
    }

    /// Reads the fee configuration.
    pub(crate) fn load_fee_config(env: &mut Invocation) -> (terms: Result<FeeTerms, Error>)
        ensures
            match old(env)@.storage.fee_terms() {
                Some(t) => terms == Ok::<FeeTerms, Error>(t) && final(env)@ == old(
                    env,
                )@.extend_instance(),
                None => terms == Err::<FeeTerms, Error>(Error::NotInitialized) && final(env)@
                    == old(env)@,
            },
    {
        match (env.storage.platform_treasury, env.storage.fee_bps, env.storage.fee_cap) {
            (Some(platform_treasury), Some(fee_bps), Some(fee_cap)) => {
                env.extend_instance();
                Ok(FeeTerms { platform_treasury, fee_bps, fee_cap })
            },
            _ => Err(Error::NotInitialized),
        }
    }

    /// Enforces KYC only once a threshold has been configured, and only above it.
    /// `Ok(Some(oracle))` leaves the decision to the oracle.
    pub fn verify_kyc_for_amount(env: &Invocation, amount: i128) -> (rule: Result<
        Option<Address>,
        Error,
    >)
        ensures
            rule == kyc_rule(env@.storage, amount),
    {
        match env.storage.kyc_threshold {
            None => Ok(None),
            Some(threshold) => if amount <= threshold {
                Ok(None)
            } else {
                match env.storage.kyc_oracle {
                    Some(oracle) => Ok(Some(oracle)),
                    None => Err(Error::KycRequired),
                }
            },
        }
    }

    /// Why a payment is refused before anyone is asked, if it is.
    pub(crate) fn check_payment(env: &Invocation, payment: Payment) -> (error: Option<Error>)
        ensures
            error == objection(env@.storage, payment),
    {
        let max_amount: i128 = env.storage.max_amount.unwrap_or(Self::MAX_AMOUNT);
        let min_limit: i128 = env.storage.min_limit.unwrap_or(0);
        if payment.sender == payment.recipient {
            Some(Error::InvalidRecipient)
        } else if Self::is_blacklisted(env, payment.recipient) {
            Some(Error::Blacklisted)
        } else if payment.amount <= 0 || payment.amount > max_amount {
            Some(Error::LimitExceeded)
        } else if payment.amount < min_limit {
            Some(Error::LimitExceeded)
        } else {
            None
        }
    }

    /// Whether a batch can begin. If it cannot, the whole invocation has to be
    /// aborted.
    pub fn admits(env: &Invocation, payments: &Vec<Payment>) -> (b: bool)
        ensures
            b == admitted(env@, payments@),
    {
        Self::is_frozen_internal(env) || Self::is_paused(env) || can_screen(env, payments, 0)
    }

    /// Routes a payment from a sender to a recipient, deducting a platform fee.
    pub fn route_payment(
        env: &mut Invocation,
        sender: Address,
        recipient: Address,
        token_address: Address,
        amount: i128,
    ) -> (routing: Routing)
        requires
            admitted(old(env)@, seq![Payment { sender, recipient, token_address, amount }]),
        ensures
            (routing@, final(env)@) == opened(
                old(env)@,
                seq![Payment { sender, recipient, token_address, amount }],
            ),
            routing@.wf(final(env)@),
    {
        let mut payments: Vec<Payment> = Vec::new();
        payments.push(Payment { sender, recipient, token_address, amount });
        assert(payments@ =~= seq![Payment { sender, recipient, token_address, amount }]);
        Self::route_payments(env, payments)
    }

    /// Routes multiple payments in order. If any of them fails, none is made.
    pub fn route_payments(env: &mut Invocation, payments: Vec<Payment>) -> (routing: Routing)
        requires
            admitted(old(env)@, payments@),
        ensures
            (routing@, final(env)@) == opened(old(env)@, payments@),
            routing@.wf(final(env)@),
    {
        let saved: Storage = env.storage.duplicate();
        let mut routing: Routing = Routing { payments, saved, phase: Phase::Finished(Ok(())) };
        if Self::is_frozen_internal(env) {
            routing.refuse(env, Error::ContractFrozen);
        } else if Self::is_paused(env) {
            routing.refuse(env, Error::Paused);
        } else {
            routing.screen(env, 0);
        }
        routing
    }
}

} // verus!
