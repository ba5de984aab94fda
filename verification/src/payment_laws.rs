//! What a payment costs, which payments are taken, and what each answer leads to.
//!
//! The laws here are stated on the stored numbers: the fee rate, the cap, the limits,
//! the volumes and the spending windows.

use vstd::prelude::*;
use crate::effects::{held, instance_lives_on, lives_on, told};
use crate::fees::{above_threshold, effective_bps, fee_on, fits_i128, trunc_div};
use crate::invocation::{Command, Event, FeeTerms, InvocationView, StorageView};
use crate::router::PaymentRouter;
use crate::routing::{
    credited, fee_for, kyc_rule, objection, opened, recorded, require_all, saturating_sum, screened,
    senders, Phase, Reply, Request, RoutingView, Run, TransferReply,
};
use crate::routing_laws::{
    kyc_needed, law_each_sender_is_asked_once, law_only_acceptable_batches_succeed, run, valid_run,
    vouched,
};
use crate::spending::{charged, current_window};
use crate::table::UserToken;
use crate::types::{Address, DataKey, Error, Payment};

verus! {

// Fees.

/// Dividing rounds toward zero.
proof fn lemma_trunc_div(n: int)
    ensures
        n >= 0 ==> trunc_div(n, 10_000) * 10_000 <= n < (trunc_div(n, 10_000) + 1) * 10_000,
        n < 0 ==> (trunc_div(n, 10_000) - 1) * 10_000 < n <= trunc_div(n, 10_000) * 10_000,
        n >= 0 ==> trunc_div(n, 2) * 2 <= n <= trunc_div(n, 2) * 2 + 1,
        n < 0 ==> trunc_div(n, 2) * 2 - 1 <= n <= trunc_div(n, 2) * 2,
{
}

/// The fee is the share of the amount that the rate stands for, in units of a ten
/// thousandth, rounded toward zero; but never more than the cap or the amount. With the
/// discount the rate is half of the configured one, rounded toward zero. Where amount
/// and rate are too large to be multiplied, the share is that of a rate of one.
pub proof fn law_fee_is_the_rates_share(
    amount: i128,
    fee_bps: i128,
    fee_cap: i128,
    discount: bool,
    rate: int,
)
    requires
        !discount ==> rate == fee_bps,
        discount && fee_bps >= 0 ==> 2 * rate <= fee_bps <= 2 * rate + 1,
        discount && fee_bps < 0 ==> 2 * rate - 1 <= fee_bps <= 2 * rate,
    ensures
        ({
            let fee = fee_on(amount, fee_bps, fee_cap, discount);
            let parts = if i128::MIN <= amount * rate <= i128::MAX {
                amount * rate
            } else {
                amount as int
            };
            &&& fee <= fee_cap
            &&& fee <= amount
            &&& parts >= 0 ==> {
                &&& fee * 10_000 <= parts
                &&& fee == fee_cap || fee == amount || (fee + 1) * 10_000 > parts
            }
            &&& parts < 0 ==> {
                &&& (fee - 1) * 10_000 < parts
                &&& fee == fee_cap || fee == amount || fee * 10_000 >= parts
            }
        }),
{
    lemma_trunc_div(fee_bps as int);
    assert(rate == effective_bps(fee_bps, discount));
    if fits_i128(amount * rate) {
        lemma_trunc_div(amount * rate);
    } else {
        lemma_trunc_div(amount as int);
    }
}

/// A sender who has routed no more than 10,000 XLM so far gets the configured rate, and
/// one who has routed more gets half of it, rounded toward zero.
pub proof fn law_rate_of_a_sender(s: StorageView, sender: Address)
    ensures
        ({
            let configured = if s.fee_bps is Some {
                s.fee_bps->0
            } else {
                0
            };
            let rate = effective_bps(s.fee_bps.unwrap_or(0), above_threshold(s.volume(sender)));
            &&& !s.user_volume.contains_key(sender) ==> rate == configured
            &&& s.user_volume.contains_key(sender) && s.user_volume[sender]
                <= PaymentRouter::VOLUME_THRESHOLD ==> rate == configured
            &&& s.user_volume.contains_key(sender) && s.user_volume[sender] <= 100_000_000_000
                ==> rate == configured
            &&& s.user_volume.contains_key(sender) && s.user_volume[sender]
                > PaymentRouter::VOLUME_THRESHOLD ==> {
                &&& configured >= 0 ==> 2 * rate <= configured <= 2 * rate + 1
                &&& configured < 0 ==> 2 * rate - 1 <= configured <= 2 * rate
            }
            &&& s.user_volume.contains_key(sender) && s.user_volume[sender] > 100_000_000_000
                && configured >= 0 ==> 2 * rate <= configured <= 2 * rate + 1
        }),
{
    lemma_trunc_div(s.fee_bps.unwrap_or(0) as int);
}

/// What a payment costs a sender who has routed no more than 10,000 XLM so far: the
/// floor of `amount * fee_bps / 10_000`, unless the cap or the amount is less.
pub proof fn law_fee_up_to_the_threshold(s: StorageView, p: Payment, terms: FeeTerms)
    requires
        s.user_volume.contains_key(p.sender) ==> s.user_volume[p.sender]
            <= PaymentRouter::VOLUME_THRESHOLD,
        p.amount >= 0,
        terms.fee_bps >= 0,
        p.amount * terms.fee_bps <= i128::MAX,
    ensures
        ({
            let share = (p.amount * terms.fee_bps) / 10_000;
            let fee = fee_for(s, p, terms);
            &&& share <= terms.fee_cap && share <= p.amount ==> fee == share
            &&& terms.fee_cap <= share && terms.fee_cap <= p.amount ==> fee == terms.fee_cap
            &&& p.amount <= share && p.amount <= terms.fee_cap ==> fee == p.amount
        }),
{
    assert(p.amount * terms.fee_bps >= 0) by (nonlinear_arith)
        requires
            p.amount >= 0,
            terms.fee_bps >= 0,
    ;
}

/// What a payment costs a sender who has routed more than 10,000 XLM so far: the same at
/// half the rate.
pub proof fn law_fee_above_the_threshold(s: StorageView, p: Payment, terms: FeeTerms)
    requires
        s.user_volume.contains_key(p.sender),
        s.user_volume[p.sender] > PaymentRouter::VOLUME_THRESHOLD,
        p.amount >= 0,
        terms.fee_bps >= 0,
        p.amount * (terms.fee_bps as int / 2) <= i128::MAX,
    ensures
        ({
            let share = (p.amount * (terms.fee_bps as int / 2)) / 10_000;
            let fee = fee_for(s, p, terms);
            &&& share <= terms.fee_cap && share <= p.amount ==> fee == share
            &&& terms.fee_cap <= share && terms.fee_cap <= p.amount ==> fee == terms.fee_cap
            &&& p.amount <= share && p.amount <= terms.fee_cap ==> fee == p.amount
        }),
{
    let half = terms.fee_bps as int / 2;
    assert(p.amount * half >= 0) by (nonlinear_arith)
        requires
            p.amount >= 0,
            half >= 0,
    ;
}

/// What a payment costs depends on the sender's volume only through which side of the
/// threshold it is on, and on nothing else that is stored.
pub proof fn law_fee_depends_on_little(
    s: StorageView,
    t: StorageView,
    p: Payment,
    terms: FeeTerms,
)
    ensures
        fee_for(s, p, terms) == fee_on(
            p.amount,
            terms.fee_bps,
            terms.fee_cap,
            s.user_volume.contains_key(p.sender) && s.user_volume[p.sender]
                > PaymentRouter::VOLUME_THRESHOLD,
        ),
        s.user_volume.get(p.sender) == t.user_volume.get(p.sender) ==> fee_for(s, p, terms)
            == fee_for(t, p, terms),
{
}

// The daily limit.

/// When the window that a payment at `now` falls in was opened, and what was spent in it
/// so far: a record counts for 24 hours, and after that a new window opens.
pub open spec fn spent(s: StorageView, sender: Address, now: u64) -> (u64, int) {
    if s.user_spending.contains_key(sender) && now - s.user_spending[sender].last_reset_time
        < 86_400 {
        (
            s.user_spending[sender].last_reset_time,
            s.user_spending[sender].accumulated_amount as int,
        )
    } else {
        (now, 0)
    }
}

/// An amount can be spent exactly if it comes, with what was spent before in the same 24
/// hours, to no more than 1,000,000 tokens; and then it is added, and the window stays
/// open for as long as it would have.
pub proof fn law_spending_is_counted(s: StorageView, sender: Address, now: u64, amount: i128)
    ensures
        ({
            let (since, before) = spent(s, sender, now);
            let after = charged(current_window(s.user_spending.get(sender), now), amount);
            &&& after is Some <==> i128::MIN <= before + amount <= 10_000_000_000_000
            &&& after is Some ==> {
                &&& after->0.last_reset_time == since
                &&& after->0.accumulated_amount == before + amount
            }
        }),
{
}

/// Within one window, two payments count as much as one of their sum.
pub proof fn law_spending_adds_up(
    s: StorageView,
    sender: Address,
    now: u64,
    first: i128,
    second: i128,
)
    requires
        0 < first,
        0 < second,
        first + second <= i128::MAX,
        s.wf(now),
    ensures
        ({
            let window = current_window(s.user_spending.get(sender), now);
            let at_once = charged(window, (first + second) as i128);
            match charged(window, first) {
                None => at_once is None,
                Some(half) => charged(current_window(Some(half), now), second) == at_once,
            }
        }),
{
}

// Volumes.

/// Volumes are added up exactly, and stay at the largest or the smallest number where
/// the sum is out of range.
pub proof fn law_volumes_add_up(volume: i128, amount: i128)
    ensures
        i128::MIN <= volume + amount <= i128::MAX ==> saturating_sum(volume, amount) == volume
            + amount,
        volume + amount > i128::MAX ==> saturating_sum(volume, amount) == i128::MAX,
        volume + amount < i128::MIN ==> saturating_sum(volume, amount) == i128::MIN,
{
}

// Screening.

/// Whether an amount is out of the bounds that are stored: not positive, above the
/// largest payment, or below the smallest.
pub open spec fn out_of_bounds(s: StorageView, amount: i128) -> bool {
    ||| amount <= 0
    ||| s.max_amount is Some && amount > s.max_amount->0
    ||| s.max_amount is None && amount > 1_000_000_000_000_000
    ||| s.min_limit is Some && amount < s.min_limit->0
}

/// A payment to oneself, one to a recipient on the blacklist and one out of bounds is
/// refused, for the first of these reasons that applies, whatever else is configured. Any
/// other payment meets no objection.
pub proof fn law_objections(s: StorageView, p: Payment)
    ensures
        ({
            let banned = s.blacklist.contains_key(p.recipient) && s.blacklist[p.recipient];
            let own = p.sender == p.recipient;
            &&& objection(s, p) == Some(Error::InvalidRecipient) <==> own
            &&& objection(s, p) == Some(Error::Blacklisted) <==> !own && banned
            &&& objection(s, p) == Some(Error::LimitExceeded) <==> !own && !banned
                && out_of_bounds(s, p.amount)
            &&& objection(s, p) is None <==> !own && !banned && !out_of_bounds(s, p.amount)
        }),
{
}

/// The oracle is asked about exactly the amounts above the threshold, if there is one;
/// and without an oracle those are refused.
pub proof fn law_oracle_is_asked(s: StorageView, amount: i128)
    ensures
        ({
            let high = s.kyc_threshold is Some && amount > s.kyc_threshold->0;
            let rule = kyc_rule(s, amount);
            &&& !high ==> rule == Ok::<Option<Address>, Error>(None)
            &&& high && s.kyc_oracle is Some ==> rule == Ok::<Option<Address>, Error>(
                Some(s.kyc_oracle->0),
            )
            &&& high && s.kyc_oracle is None ==> rule == Err::<Option<Address>, Error>(
                Error::KycRequired,
            )
        }),
{
}

/// A batch that holds a payment to oneself, to a recipient on the blacklist or out of
/// bounds does not succeed, whatever else is configured and whatever the host answers.
pub proof fn law_unacceptable_payment_stops_the_batch(
    e0: InvocationView,
    payments: Seq<Payment>,
    replies: Seq<Reply>,
    i: int,
)
    requires
        e0.wf(),
        payments.len() <= usize::MAX,
        valid_run(opened(e0, payments), replies),
        0 <= i < payments.len(),
        ({
            let p = payments[i];
            ||| p.sender == p.recipient
            ||| e0.storage.blacklist.contains_key(p.recipient) && e0.storage.blacklist[p.recipient]
            ||| out_of_bounds(e0.storage, p.amount)
        }),
    ensures
        run(opened(e0, payments), replies).0.phase != Phase::Finished(Ok(())),
{
    if run(opened(e0, payments), replies).0.phase == Phase::Finished(Ok(())) {
        law_only_acceptable_batches_succeed(e0, payments, replies);
        assert(objection(e0.storage, payments[i]) is None);
    }
}

/// A batch with a payment above the KYC threshold does not succeed unless the oracle
/// vouches for somebody.
pub proof fn law_high_value_payment_needs_the_oracle(
    e0: InvocationView,
    payments: Seq<Payment>,
    replies: Seq<Reply>,
    i: int,
)
    requires
        e0.wf(),
        payments.len() <= usize::MAX,
        valid_run(opened(e0, payments), replies),
        0 <= i < payments.len(),
        e0.storage.kyc_threshold is Some,
        payments[i].amount > e0.storage.kyc_threshold->0,
        !replies.contains(Reply::Verified(true)),
    ensures
        run(opened(e0, payments), replies).0.phase != Phase::Finished(Ok(())),
{
    if run(opened(e0, payments), replies).0.phase == Phase::Finished(Ok(())) {
        law_only_acceptable_batches_succeed(e0, payments, replies);
        assert(kyc_rule(e0.storage, payments[i].amount) is Ok);
        lemma_needed(e0.storage, payments, payments.len() as int, i);
        lemma_none_vouched(replies);
    }
}

proof fn lemma_needed(s: StorageView, payments: Seq<Payment>, end: int, i: int)
    requires
        0 <= i < end <= payments.len(),
        kyc_rule(s, payments[i].amount) matches Ok(Some(_)),
    ensures
        kyc_needed(s, payments, end) > 0,
    decreases end,
{
    if i < end - 1 {
        lemma_needed(s, payments, end - 1, i);
    }
}

proof fn lemma_none_vouched(replies: Seq<Reply>)
    requires
        !replies.contains(Reply::Verified(true)),
    ensures
        vouched(replies) == 0,
    decreases replies.len(),
{
    if replies.len() > 0 {
        let init = replies.drop_last();
        assert(replies[replies.len() - 1] == replies.last());
        assert forall|r: Reply| init.contains(r) implies replies.contains(r) by {
            assert(replies[init.index_of(r)] == r);
        }
        lemma_none_vouched(init);
    }
}

// Who is asked.

/// The senders of a batch are listed in the order in which they first occur, and each
/// once: one more payment adds its sender at the end, unless they are already there.
pub proof fn law_senders_in_order(payments: Seq<Payment>, p: Payment)
    ensures
        senders(Seq::<Payment>::empty()).len() == 0,
        (exists|i: int| 0 <= i < payments.len() && (#[trigger] payments[i]).sender == p.sender)
            ==> senders(payments.push(p)) == senders(payments),
        (forall|i: int|
            0 <= i < payments.len() ==> (#[trigger] payments[i]).sender != p.sender)
            ==> senders(payments.push(p)) == senders(payments).push(p.sender),
{
    assert(payments.push(p).drop_last() =~= payments);
    law_each_sender_is_asked_once(payments);
    assert(senders(payments).contains(p.sender) <==> exists|i: int|
        0 <= i < payments.len() && (#[trigger] payments[i]).sender == p.sender);
}

/// Everyone in a list is asked to authorize, in the order of the list.
pub proof fn law_all_are_asked(addresses: Seq<Address>)
    ensures
        require_all(addresses).len() == addresses.len(),
        forall|i: int|
            0 <= i < addresses.len() ==> #[trigger] require_all(addresses)[i]
                == Command::RequireAuth(addresses[i]),
{
}

// Step by step.

/// A batch that moves on is still the same batch: the same payments, in the same order,
/// and the same ledger entries to go back to.
pub proof fn law_batch_stays_the_same(r: RoutingView, phase: Phase)
    ensures
        r.at(phase).payments == r.payments,
        r.at(phase).saved == r.saved,
        r.at(phase).phase == phase,
{
}

/// The batch `r` ends in `error`: the ledger entries are what they were when it began,
/// and the host was told `commands`.
pub open spec fn batch_fails(
    r: RoutingView,
    e: InvocationView,
    now: Run,
    error: Error,
    commands: Seq<Command>,
) -> bool {
    &&& now.0.phase == Phase::Finished(Err(error))
    &&& now.1.storage == r.saved
    &&& told(e, now.1, commands)
}

/// Payment `index` begins. It is announced, and refused if the daily limit is used up.
/// Otherwise it is counted, and the sender's balance is what is asked for next. After the
/// last payment the batch succeeds.
pub open spec fn payment_begins(
    r: RoutingView,
    e: InvocationView,
    index: int,
    terms: FeeTerms,
    now: Run,
) -> bool {
    let (r1, e1) = now;
    &&& r1.payments == r.payments
    &&& r1.saved == r.saved
    &&& if index >= r.payments.len() {
        r1.phase == Phase::Finished(Ok(())) && e1 == e
    } else {
        let p = r.payments[index];
        let (since, before) = spent(e.storage, p.sender, e.timestamp);
        let announced = Command::Publish(
            Event::PaymentInitiated { sender: p.sender, amount: p.amount },
        );
        if before + p.amount > 10_000_000_000_000 {
            batch_fails(r, e, now, Error::LimitExceeded, seq![announced])
        } else {
            let (s, s1) = (e.storage, e1.storage);
            &&& r1.phase == Phase::Balance { index: index as usize, terms }
            &&& s1.user_spending.contains_key(p.sender)
            &&& s1.user_spending[p.sender].last_reset_time == since
            &&& s1.user_spending[p.sender].accumulated_amount == before + p.amount
            &&& forall|a: Address|
                a != p.sender ==> #[trigger] s1.user_spending.get(a) == s.user_spending.get(a)
            &&& s1 == StorageView { user_spending: s1.user_spending, ..s }
            &&& told(e, e1, seq![announced, lives_on(DataKey::UserSpending(p.sender))])
        }
    }
}

/// Payment `index` has been made: it is added to its sender's volume and announced, and
/// the next one begins.
pub open spec fn payment_settles(
    r: RoutingView,
    e: InvocationView,
    index: usize,
    terms: FeeTerms,
    now: Run,
) -> bool {
    let p = r.payments[index as int];
    let before = if e.storage.user_volume.contains_key(p.sender) {
        e.storage.user_volume[p.sender] as int
    } else {
        0
    };
    let volume = if before + p.amount <= i128::MAX {
        (before + p.amount) as i128
    } else {
        i128::MAX
    };
    payment_begins(
        r,
        InvocationView {
            storage: StorageView {
                user_volume: e.storage.user_volume.insert(p.sender, volume),
                ..e.storage
            },
            commands: e.commands + seq![
                lives_on(DataKey::UserVolume(p.sender)),
                Command::Publish(
                    Event::Routed {
                        sender: p.sender,
                        recipient: p.recipient,
                        amount: p.amount,
                    },
                ),
            ],
            ..e
        },
        index + 1,
        terms,
        now,
    )
}

/// What is left of payment `index` after the fee goes to its recipient next, unless
/// nothing is left.
pub open spec fn payment_goes_out(
    r: RoutingView,
    e: InvocationView,
    index: usize,
    terms: FeeTerms,
    remainder: i128,
    now: Run,
) -> bool {
    if remainder > 0 {
        now == (r.at(Phase::Remainder { index, terms, remainder }), e)
    } else {
        payment_settles(r, e, index, terms, now)
    }
}

/// All payments have passed: the senders are asked, and the first payment begins, if fees
/// are configured.
pub open spec fn screening_ends(r: RoutingView, e: InvocationView, now: Run) -> bool {
    let asked = require_all(senders(r.payments));
    if e.storage.platform_treasury is Some && e.storage.fee_bps is Some && e.storage.fee_cap
        is Some {
        payment_begins(
            r,
            InvocationView { commands: e.commands + asked + seq![instance_lives_on()], ..e },
            0,
            FeeTerms {
                platform_treasury: e.storage.platform_treasury->0,
                fee_bps: e.storage.fee_bps->0,
                fee_cap: e.storage.fee_cap->0,
            },
            now,
        )
    } else {
        batch_fails(r, e, now, Error::NotInitialized, asked)
    }
}

/// Payment `i` is the first that does not simply pass: it is refused, or the oracle is
/// asked about its sender.
pub open spec fn screening_stops(r: RoutingView, e: InvocationView, i: int, now: Run) -> bool {
    let p = r.payments[i];
    match objection(e.storage, p) {
        Some(error) => batch_fails(r, e, now, error, Seq::empty()),
        None => match kyc_rule(e.storage, p.amount) {
            Err(error) => batch_fails(r, e, now, error, Seq::empty()),
            Ok(Some(oracle)) => now == (r.at(Phase::Kyc { index: i as usize, oracle }), e),
            Ok(None) => false,
        },
    }
}

/// Whether a payment passes without a question.
pub open spec fn passes(s: StorageView, p: Payment) -> bool {
    objection(s, p) is None && kyc_rule(s, p.amount) == Ok::<Option<Address>, Error>(None)
}

/// Payments that pass are skipped.
proof fn lemma_screening_skips(s: StorageView, payments: Seq<Payment>, from: int, to: int)
    requires
        0 <= from <= to <= payments.len(),
        forall|j: int| from <= j < to ==> passes(s, #[trigger] payments[j]),
    ensures
        screened(s, payments, from) == screened(s, payments, to),
    decreases to - from,
{
    if from < to {
        assert(passes(s, payments[from]));
        lemma_screening_skips(s, payments, from + 1, to);
    }
}

/// Beginning a payment is what [`payment_begins`] says.
proof fn lemma_begin(r: RoutingView, e: InvocationView, index: int, terms: FeeTerms)
    requires
        0 <= index <= r.payments.len() <= usize::MAX,
        index < r.payments.len() ==> r.payments[index].amount > 0,
    ensures
        payment_begins(r, e, index, terms, r.begin(e, index, terms)),
{
    if index < r.payments.len() {
        law_spending_is_counted(
            e.storage,
            r.payments[index].sender,
            e.timestamp,
            r.payments[index].amount,
        );
    }
}

/// Screening is what [`screening_stops`] and [`screening_ends`] say.
proof fn lemma_screen(r: RoutingView, e: InvocationView, from: int, i: int)
    requires
        0 <= from <= i <= r.payments.len() <= usize::MAX,
        forall|j: int| from <= j < i ==> passes(e.storage, #[trigger] r.payments[j]),
        i < r.payments.len() ==> !passes(e.storage, r.payments[i]),
        i == r.payments.len() && i > 0 ==> r.payments[0].amount > 0,
    ensures
        i < r.payments.len() ==> screening_stops(r, e, i, r.screen(e, from)),
        i == r.payments.len() ==> screening_ends(r, e, r.screen(e, from)),
{
    lemma_screening_skips(e.storage, r.payments, from, i);
    assert(e.commands + Seq::<Command>::empty() =~= e.commands);
    if i == r.payments.len() {
        if let Some(terms) = e.storage.fee_terms() {
            let asked = InvocationView {
                commands: e.commands + require_all(senders(r.payments)),
                ..e
            };
            let begun = asked.extend_instance();
            assert(begun.commands =~= e.commands + require_all(senders(r.payments)) + seq![
                instance_lives_on(),
            ]);
            lemma_begin(r, begun, 0, terms);
        }
    }
}

/// How a batch opens. A frozen contract refuses it, then a paused one; the payments are
/// looked at in order, up to the first, here `i`, that does not simply pass; and if there
/// is none, the senders are asked and the first payment begins.
pub proof fn law_batch_opens(e: InvocationView, payments: Seq<Payment>, i: int)
    requires
        0 <= i <= payments.len() <= usize::MAX,
        forall|j: int| 0 <= j < i ==> passes(e.storage, #[trigger] payments[j]),
        i < payments.len() ==> !passes(e.storage, payments[i]),
    ensures
        ({
            let now = opened(e, payments);
            let r = RoutingView { payments, saved: e.storage, phase: now.0.phase };
            &&& now.0.payments == payments
            &&& now.0.saved == e.storage
            &&& if e.storage.frozen == Some(true) {
                now.0.phase == Phase::Finished(Err(Error::ContractFrozen)) && now.1 == e
            } else if e.storage.paused == Some(true) {
                now.0.phase == Phase::Finished(Err(Error::Paused)) && now.1 == e
            } else if i < payments.len() {
                screening_stops(r, e, i, now)
            } else {
                screening_ends(r, e, now)
            }
        }),
{
    let r = RoutingView { payments, saved: e.storage, phase: Phase::Finished(Ok(())) };
    if i == payments.len() && i > 0 {
        assert(passes(e.storage, payments[0]));
    }
    lemma_screen(r, e, 0, i);
    let now = opened(e, payments);
    let q = RoutingView { payments, saved: e.storage, phase: now.0.phase };
    if e.storage.frozen != Some(true) && e.storage.paused != Some(true) {
        assert(now == r.screen(e, 0));
        if i < payments.len() {
            assert(screening_stops(r, e, i, now));
            assert(screening_stops(q, e, i, now));
        } else {
            assert(screening_ends(r, e, now));
            assert(screening_ends(q, e, now));
        }
    }
}

/// The oracle is asked about the sender of the payment. If it vouches, screening goes on
/// with the next payment, up to the first, here `i`, that does not simply pass; otherwise
/// the batch fails.
pub proof fn law_oracle_decides(r: RoutingView, e: InvocationView, i: int)
    requires
        r.phase is Kyc,
        r.phase->Kyc_index < i <= r.payments.len() <= usize::MAX,
        forall|j: int|
            r.phase->Kyc_index < j < i ==> passes(e.storage, #[trigger] r.payments[j]),
        i < r.payments.len() ==> !passes(e.storage, r.payments[i]),
        r.payments[0].amount > 0,
    ensures
        r.requested(e.contract) == Some(
            Request::IsVerified {
                oracle: r.phase->oracle,
                account: r.payments[r.phase->Kyc_index as int].sender,
            },
        ),
        batch_fails(
            r,
            e,
            r.advance(e, Reply::Verified(false)),
            Error::KycRequired,
            Seq::empty(),
        ),
        i < r.payments.len() ==> screening_stops(
            r,
            e,
            i,
            r.advance(e, Reply::Verified(true)),
        ),
        i == r.payments.len() ==> screening_ends(r, e, r.advance(e, Reply::Verified(true))),
{
    assert(e.commands + Seq::<Command>::empty() =~= e.commands);
    lemma_screen(r, e, r.phase->Kyc_index + 1, i);
}

/// Settling a payment is what [`payment_settles`] says.
proof fn lemma_settle(r: RoutingView, e: InvocationView, index: usize, terms: FeeTerms)
    requires
        index < r.payments.len() <= usize::MAX,
        r.positive_before(r.payments.len() as int),
        e.storage.volume(r.payments[index as int].sender) >= 0,
    ensures
        payment_settles(r, e, index, terms, r.settle(e, index, terms)),
{
    let p = r.payments[index as int];
    let next = recorded(e, p);
    assert(p.amount > 0);
    assert(next.commands =~= e.commands + seq![
        lives_on(DataKey::UserVolume(p.sender)),
        Command::Publish(
            Event::Routed { sender: p.sender, recipient: p.recipient, amount: p.amount },
        ),
    ]);
    lemma_begin(r, next, index + 1, terms);
}

/// What is asked for and done about the sender's balance: the payment's token is asked
/// for it; if it does not cover the amount the batch fails; otherwise the fee, if there
/// is one, is sent next, and what is not fee is left for the recipient.
pub proof fn law_balance_decides(
    r: RoutingView,
    e: InvocationView,
    index: usize,
    terms: FeeTerms,
    balance: i128,
)
    requires
        r.phase == (Phase::Balance { index, terms }),
        index < r.payments.len() <= usize::MAX,
        r.positive_before(r.payments.len() as int),
        e.storage.volume(r.payments[index as int].sender) >= 0,
        balance >= r.payments[index as int].amount ==> fits_i128(
            r.payments[index as int].amount - fee_for(
                e.storage,
                r.payments[index as int],
                terms,
            ),
        ),
    ensures
        ({
            let p = r.payments[index as int];
            let now = r.advance(e, Reply::Balance(balance));
            let fee = fee_for(e.storage, p, terms);
            &&& r.requested(e.contract) == Some(
                Request::Balance { token: p.token_address, account: p.sender },
            )
            &&& balance < p.amount ==> batch_fails(
                r,
                e,
                now,
                Error::InsufficientBalance,
                Seq::empty(),
            )
            &&& balance >= p.amount && fee > 0 ==> {
                &&& now.0 == r.at(now.0.phase)
                &&& now.0.phase is Fee
                &&& now.0.phase->Fee_index == index
                &&& now.0.phase->Fee_terms == terms
                &&& now.0.phase->fee == fee
                &&& now.0.phase->fee + now.0.phase->Fee_remainder == p.amount
                &&& now.1 == e
            }
            &&& balance >= p.amount && fee <= 0 ==> payment_goes_out(
                r,
                e,
                index,
                terms,
                (p.amount - fee) as i128,
                now,
            )
        }),
{
    assert(e.commands + Seq::<Command>::empty() =~= e.commands);
    lemma_settle(r, e, index, terms);
}

/// The fee is sent in the payment's token, from its sender to the treasury. Unless that
/// fails, what is left goes out next.
pub proof fn law_fee_is_sent(
    r: RoutingView,
    e: InvocationView,
    index: usize,
    terms: FeeTerms,
    fee: i128,
    remainder: i128,
    outcome: TransferReply,
)
    requires
        r.phase == (Phase::Fee { index, terms, fee, remainder }),
        index < r.payments.len() <= usize::MAX,
        r.positive_before(r.payments.len() as int),
        e.storage.volume(r.payments[index as int].sender) >= 0,
        outcome != TransferReply::Failed,
    ensures
        r.requested(e.contract) == Some(
            Request::Transfer {
                token: r.payments[index as int].token_address,
                from: r.payments[index as int].sender,
                to: terms.platform_treasury,
                amount: fee,
            },
        ),
        payment_goes_out(
            r,
            e,
            index,
            terms,
            remainder,
            r.advance(e, Reply::Transfer(outcome)),
        ),
{
    lemma_settle(r, e, index, terms);
}

/// What is left is sent in the payment's token, from its sender to its recipient. If it
/// arrives the payment has been made; otherwise it is sent to the contract, in full.
pub proof fn law_remainder_is_sent(
    r: RoutingView,
    e: InvocationView,
    index: usize,
    terms: FeeTerms,
    remainder: i128,
    outcome: TransferReply,
)
    requires
        r.phase == (Phase::Remainder { index, terms, remainder }),
        index < r.payments.len() <= usize::MAX,
        r.positive_before(r.payments.len() as int),
        e.storage.volume(r.payments[index as int].sender) >= 0,
    ensures
        ({
            let p = r.payments[index as int];
            let now = r.advance(e, Reply::Transfer(outcome));
            &&& r.requested(e.contract) == Some(
                Request::Transfer {
                    token: p.token_address,
                    from: p.sender,
                    to: p.recipient,
                    amount: remainder,
                },
            )
            &&& outcome == TransferReply::Done ==> payment_settles(r, e, index, terms, now)
            &&& outcome != TransferReply::Done ==> {
                &&& now == (r.at(Phase::Refund { index, terms, remainder }), e)
                &&& now.0.requested(e.contract) == Some(
                    Request::Transfer {
                        token: p.token_address,
                        from: p.sender,
                        to: e.contract,
                        amount: remainder,
                    },
                )
            }
        }),
{
    lemma_settle(r, e, index, terms);
}

/// What could not be delivered is sent to the contract. If it arrives, exactly as much is
/// added to what the contract holds for the sender in that token, and the payment has been
/// made; otherwise the batch fails.
pub proof fn law_refund_is_sent(
    r: RoutingView,
    e: InvocationView,
    index: usize,
    terms: FeeTerms,
    remainder: i128,
    outcome: TransferReply,
)
    requires
        r.phase == (Phase::Refund { index, terms, remainder }),
        index < r.payments.len() <= usize::MAX,
        r.positive_before(r.payments.len() as int),
        e.storage.volume(r.payments[index as int].sender) >= 0,
        outcome == TransferReply::Done ==> fits_i128(
            held(
                e.storage,
                r.payments[index as int].sender,
                r.payments[index as int].token_address,
            ) + remainder,
        ),
    ensures
        ({
            let p = r.payments[index as int];
            let key = UserToken { user: p.sender, token: p.token_address };
            let now = r.advance(e, Reply::Transfer(outcome));
            let total = (held(e.storage, p.sender, p.token_address) + remainder) as i128;
            &&& r.requested(e.contract) == Some(
                Request::Transfer {
                    token: p.token_address,
                    from: p.sender,
                    to: e.contract,
                    amount: remainder,
                },
            )
            &&& outcome == TransferReply::Done ==> payment_settles(
                r,
                InvocationView {
                    storage: StorageView {
                        refund_balance: e.storage.refund_balance.insert(key, total),
                        ..e.storage
                    },
                    commands: e.commands + seq![
                        lives_on(DataKey::RefundBalance(p.sender, p.token_address)),
                        Command::Publish(
                            Event::Refunded {
                                user: p.sender,
                                token: p.token_address,
                                amount: remainder,
                            },
                        ),
                    ],
                    ..e
                },
                index,
                terms,
                now,
            )
            &&& outcome != TransferReply::Done ==> batch_fails(
                r,
                e,
                now,
                Error::LimitExceeded,
                Seq::empty(),
            )
        }),
{
    let p = r.payments[index as int];
    let credit = credited(e, p.sender, p.token_address, remainder);
    assert(e.commands + Seq::<Command>::empty() =~= e.commands);
    assert(credit.commands =~= e.commands + seq![
        lives_on(DataKey::RefundBalance(p.sender, p.token_address)),
        Command::Publish(
            Event::Refunded { user: p.sender, token: p.token_address, amount: remainder },
        ),
    ]);
    lemma_settle(r, credit, index, terms);
}

/// A batch that has ended asks for nothing.
pub proof fn law_ended_batch_asks_nothing(r: RoutingView, contract: Address)
    ensures
        r.requested(contract) is None <==> r.phase is Finished,
{
}

} // verus!
