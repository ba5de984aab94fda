//! Laws that hold a batch against its payments taken one at a time.

use vstd::prelude::*;
use crate::invocation::{FeeTerms, InvocationView, StorageView};
use crate::routing::{
    credited, kyc_rule, objection, opened, recorded, require_all, senders, Phase, Reply, Request,
    RoutingView, Run,
};
use crate::routing_laws::{
    law_batches_keep_entries_well_formed, law_only_acceptable_batches_succeed,
    law_successful_batch_makes_every_payment, lemma_run, run, valid_run,
};
use crate::types::{Address, Error, Payment};

verus! {

/// Replies can be given in two parts.
proof fn lemma_run_concat(start: Run, a: Seq<Reply>, b: Seq<Reply>)
    ensures
        run(start, a + b) == run(run(start, a), b),
        valid_run(start, a + b) <==> valid_run(start, a) && valid_run(run(start, a), b),
    decreases b.len(),
{
    if b.len() == 0 {
        assert(a + b =~= a);
    } else {
        assert((a + b).drop_last() =~= a + b.drop_last());
        assert((a + b).last() == b.last());
        lemma_run_concat(start, a, b.drop_last());
    }
}

/// A batch that has ended takes no more replies.
proof fn lemma_finished_stays(start: Run, replies: Seq<Reply>)
    requires
        start.0.phase is Finished,
        valid_run(start, replies),
    ensures
        replies.len() == 0,
    decreases replies.len(),
{
    if replies.len() > 0 {
        lemma_finished_stays(start, replies.drop_last());
    }
}

// Screening.

/// What speaks against a payment, given whom the oracle vouches for.
pub open spec fn verdict(
    s: StorageView,
    oracle: spec_fn(Address) -> bool,
    p: Payment,
) -> Option<Error> {
    match objection(s, p) {
        Some(error) => Some(error),
        None => match kyc_rule(s, p.amount) {
            Err(error) => Some(error),
            Ok(None) => None,
            Ok(Some(_)) => if oracle(p.sender) {
                None
            } else {
                Some(Error::KycRequired)
            },
        },
    }
}

/// What the oracle says when a payment is screened: nothing, unless it is asked.
pub open spec fn word(s: StorageView, oracle: spec_fn(Address) -> bool, p: Payment) -> Seq<Reply> {
    if objection(s, p) is None && kyc_rule(s, p.amount) matches Ok(Some(_)) {
        seq![Reply::Verified(oracle(p.sender))]
    } else {
        Seq::empty()
    }
}

/// What the oracle says when payments are screened one after the other.
pub open spec fn words(
    s: StorageView,
    oracle: spec_fn(Address) -> bool,
    payments: Seq<Payment>,
) -> Seq<Reply>
    decreases payments.len(),
{
    if payments.len() == 0 {
        Seq::empty()
    } else {
        words(s, oracle, payments.drop_last()) + word(s, oracle, payments.last())
    }
}

/// A batch before anything is known of it.
pub open spec fn fresh(e: InvocationView, payments: Seq<Payment>) -> RoutingView {
    RoutingView { payments, saved: e.storage, phase: Phase::Finished(Ok(())) }
}

/// If nothing speaks against the payments before `k`, screening goes on there.
proof fn lemma_screens_up_to(
    e0: InvocationView,
    payments: Seq<Payment>,
    oracle: spec_fn(Address) -> bool,
    k: int,
)
    requires
        e0.wf(),
        !e0.storage.is_frozen(),
        !e0.storage.is_paused(),
        0 <= k <= payments.len() <= usize::MAX,
        forall|i: int|
            #![trigger payments[i]]
            0 <= i < k ==> verdict(e0.storage, oracle, payments[i]) is None,
    ensures
        ({
            let replies = words(e0.storage, oracle, payments.take(k));
            &&& valid_run(opened(e0, payments), replies)
            &&& run(opened(e0, payments), replies) == fresh(e0, payments).screen(e0, k)
        }),
    decreases k,
{
    if k == 0 {
        assert(payments.take(0) =~= Seq::empty());
    } else {
        let start = opened(e0, payments);
        let p = payments[k - 1];
        let before = words(e0.storage, oracle, payments.take(k - 1));
        lemma_screens_up_to(e0, payments, oracle, k - 1);
        assert(payments.take(k).drop_last() =~= payments.take(k - 1));
        assert(payments.take(k).last() == p);
        assert(verdict(e0.storage, oracle, p) is None);
        let now = fresh(e0, payments).screen(e0, k - 1);
        match kyc_rule(e0.storage, p.amount) {
            Ok(Some(oracle_address)) => {
                let more = words(e0.storage, oracle, payments.take(k));
                assert(more =~= before.push(Reply::Verified(true)));
                assert(more.drop_last() =~= before);
                assert(now.0.phase == Phase::Kyc {
                    index: (k - 1) as usize,
                    oracle: oracle_address,
                });
                assert(now.0.clock_ok(e0, 0));
            },
            _ => {
                assert(words(e0.storage, oracle, payments.take(k)) =~= before);
            },
        }
    }
}

/// Whatever the oracle says of whom: if nothing speaks against the payments before
/// `first`, and something speaks against the payment at `first`, be it an objection
/// or a missing KYC claim, then the whole batch is refused with that. Only the
/// oracle is asked anything, and nothing changes.
pub proof fn law_first_objection_decides(
    e0: InvocationView,
    payments: Seq<Payment>,
    oracle: spec_fn(Address) -> bool,
    first: int,
)
    requires
        e0.wf(),
        !e0.storage.is_frozen(),
        !e0.storage.is_paused(),
        0 <= first < payments.len() <= usize::MAX,
        forall|i: int|
            #![trigger payments[i]]
            0 <= i < first ==> verdict(e0.storage, oracle, payments[i]) is None,
        verdict(e0.storage, oracle, payments[first]) is Some,
    ensures
        ({
            let replies = words(e0.storage, oracle, payments.take(first + 1));
            let (r, e) = run(opened(e0, payments), replies);
            &&& valid_run(opened(e0, payments), replies)
            &&& r.phase == Phase::Finished(
                Err(verdict(e0.storage, oracle, payments[first])->0),
            )
            &&& e == e0
        }),
{
    let p = payments[first];
    let before = words(e0.storage, oracle, payments.take(first));
    lemma_screens_up_to(e0, payments, oracle, first);
    assert(payments.take(first + 1).drop_last() =~= payments.take(first));
    assert(payments.take(first + 1).last() == p);
    let more = words(e0.storage, oracle, payments.take(first + 1));
    if objection(e0.storage, p) is None && kyc_rule(e0.storage, p.amount) is Ok {
        assert(more =~= before.push(Reply::Verified(false)));
        assert(more.drop_last() =~= before);
    } else {
        assert(more =~= before);
    }
}

// Processing.

/// An oracle that vouches for everyone it is asked about.
pub open spec fn vouching() -> spec_fn(Address) -> bool {
    |account: Address| true
}

/// The invocation after the payments were made one at a time, each as a batch of
/// its own, or `None` if one of them did not succeed. The oracle vouches for every
/// sender it is asked about (no payment succeeds otherwise), and `answers` holds,
/// for each payment, what its token answers.
pub open spec fn one_by_one(
    e: InvocationView,
    payments: Seq<Payment>,
    answers: Seq<Seq<Reply>>,
) -> Option<InvocationView>
    decreases payments.len(),
{
    if payments.len() == 0 {
        Some(e)
    } else {
        let start = opened(e, seq![payments.first()]);
        let replies = word(e.storage, vouching(), payments.first()) + answers.first();
        let (r, after) = run(start, replies);
        if valid_run(start, replies) && r.phase == Phase::Finished(Ok(())) {
            one_by_one(after, payments.drop_first(), answers.drop_first())
        } else {
            None
        }
    }
}

/// Sequences of replies, one after the other.
pub open spec fn joined(answers: Seq<Seq<Reply>>) -> Seq<Reply>
    decreases answers.len(),
{
    if answers.len() == 0 {
        Seq::empty()
    } else {
        answers.first() + joined(answers.drop_first())
    }
}

/// No window begins in the future.
spec fn no_future(e: InvocationView) -> bool {
    forall|user: Address| #[trigger]
        e.storage.user_spending.contains_key(user)
            ==> e.storage.user_spending[user].last_reset_time <= e.timestamp
}

/// The same ledger entries, at the same time, in the same contract.
spec fn same_place(a: InvocationView, b: InvocationView) -> bool {
    &&& a.storage == b.storage
    &&& a.timestamp == b.timestamp
    &&& a.contract == b.contract
}

/// A single payment, and the payment at `k` of a batch, are at the same point of
/// being processed.
spec fn in_step(single: Run, batch: Run, k: usize) -> bool {
    &&& k < batch.0.payments.len() <= usize::MAX
    &&& single.0.payments == seq![batch.0.payments[k as int]]
    &&& same_place(single.1, batch.1)
    &&& no_future(single.1)
    &&& batch.0.payments[k as int].amount > 0
    &&& match (single.0.phase, batch.0.phase) {
        (Phase::Balance { index: i, terms: t }, Phase::Balance { index: j, terms: u }) => {
            i == 0 && j == k && t == u
        },
        (
            Phase::Fee { index: i, terms: t, fee: f, remainder: a },
            Phase::Fee { index: j, terms: u, fee: g, remainder: b },
        ) => i == 0 && j == k && t == u && f == g && a == b,
        (
            Phase::Remainder { index: i, terms: t, remainder: a },
            Phase::Remainder { index: j, terms: u, remainder: b },
        ) => i == 0 && j == k && t == u && a == b,
        (
            Phase::Refund { index: i, terms: t, remainder: a },
            Phase::Refund { index: j, terms: u, remainder: b },
        ) => i == 0 && j == k && t == u && a == b,
        _ => false,
    }
}

/// The terms on which a payment is being charged.
spec fn terms_of(r: RoutingView) -> FeeTerms {
    match r.phase {
        Phase::Balance { terms, .. } => terms,
        Phase::Fee { terms, .. } => terms,
        Phase::Remainder { terms, .. } => terms,
        Phase::Refund { terms, .. } => terms,
        _ => arbitrary(),
    }
}

/// The invocation once the payment at `k` is settled by a reply.
spec fn settled_by(batch: Run, k: usize) -> InvocationView {
    let p = batch.0.payments[k as int];
    match batch.0.phase {
        Phase::Refund { remainder, .. } => recorded(
            credited(batch.1, p.sender, p.token_address, remainder),
            p,
        ),
        _ => recorded(batch.1, p),
    }
}

/// A reply moves a single payment and its counterpart in a batch alike: both go
/// on, both fail, or the single payment is done and the batch begins the next.
proof fn lemma_step(single: Run, batch: Run, k: usize, reply: Reply)
    requires
        in_step(single, batch, k),
    ensures
        single.0.accepts(single.1, reply) == batch.0.accepts(batch.1, reply),
        single.0.accepts(single.1, reply) ==> {
            let next_single = single.0.advance(single.1, reply);
            let next_batch = batch.0.advance(batch.1, reply);
            match next_single.0.phase {
                Phase::Finished(Ok(_)) => {
                    let x = settled_by(batch, k);
                    &&& next_batch == batch.0.begin(x, k + 1, terms_of(batch.0))
                    &&& same_place(x, next_single.1)
                    &&& no_future(x)
                },
                Phase::Finished(Err(error)) => next_batch.0.phase == Phase::Finished(Err(error)),
                _ => in_step(next_single, next_batch, k) && terms_of(next_batch.0) == terms_of(
                    batch.0,
                ) && next_batch.0 == batch.0.at(next_batch.0.phase),
            }
        },
{
    assert(batch.0.clock_ok(batch.1, k + 1));
}

/// A single payment and a batch that is about to process the same payment begin
/// alike.
proof fn lemma_begin_in_step(
    r: RoutingView,
    x: InvocationView,
    single: RoutingView,
    e: InvocationView,
    k: usize,
    terms: FeeTerms,
)
    requires
        k < r.payments.len() <= usize::MAX,
        single.payments == seq![r.payments[k as int]],
        r.payments[k as int].amount > 0,
        same_place(e, x),
        no_future(e),
    ensures
        ({
            let first = single.begin(e, 0, terms);
            let then = r.begin(x, k as int, terms);
            match first.0.phase {
                Phase::Balance { .. } => {
                    &&& in_step(first, then, k)
                    &&& terms_of(then.0) == terms
                    &&& then.0 == r.at(then.0.phase)
                },
                Phase::Finished(Err(error)) => then.0.phase == Phase::Finished(Err(error)),
                _ => false,
            }
        }),
{
    assert(single.payments[0] == r.payments[k as int]);
}

/// A payment that succeeds on its own succeeds in the batch, on the same answers.
proof fn lemma_segment(single: Run, batch: Run, k: usize, answers: Seq<Reply>) -> (x:
    InvocationView)
    requires
        in_step(single, batch, k),
        valid_run(single, answers),
        run(single, answers).0.phase == Phase::Finished(Ok(())),
    ensures
        valid_run(batch, answers),
        run(batch, answers) == batch.0.begin(x, k + 1, terms_of(batch.0)),
        same_place(x, run(single, answers).1),
        no_future(x),
{
    let init = answers.drop_last();
    lemma_prefix(single, batch, k, init);
    let (s, b) = (run(single, init), run(batch, init));
    lemma_step(s, b, k, answers.last());
    settled_by(b, k)
}

/// Up to its end, a single payment and its counterpart stay in step.
proof fn lemma_prefix(single: Run, batch: Run, k: usize, answers: Seq<Reply>)
    requires
        in_step(single, batch, k),
        valid_run(single, answers),
        !(run(single, answers).0.phase is Finished),
    ensures
        valid_run(batch, answers),
        in_step(run(single, answers), run(batch, answers), k),
        terms_of(run(batch, answers).0) == terms_of(batch.0),
        run(batch, answers).0 == batch.0.at(run(batch, answers).0.phase),
    decreases answers.len(),
{
    if answers.len() > 0 {
        let init = answers.drop_last();
        lemma_prefix(single, batch, k, init);
        lemma_step(run(single, init), run(batch, init), k, answers.last());
    }
}

/// Nothing but balances and counters differs.
#[verifier::opaque]
spec fn same_rules(a: StorageView, b: StorageView) -> bool {
    b == StorageView {
        user_volume: b.user_volume,
        user_spending: b.user_spending,
        refund_balance: b.refund_balance,
        ..a
    }
}

/// Whether payments are routed at all, and nothing speaks against this one as long
/// as the oracle vouches for its sender.
#[verifier::opaque]
spec fn welcome(s: StorageView, p: Payment) -> bool {
    &&& !s.is_frozen()
    &&& !s.is_paused()
    &&& s.fee_terms() is Some
    &&& objection(s, p) is None
    &&& kyc_rule(s, p.amount) is Ok
}

/// The invocation in which the first payment of a batch begins.
spec fn authorized(e: InvocationView, payments: Seq<Payment>) -> InvocationView {
    InvocationView {
        commands: e.commands + require_all(senders(payments)),
        ..e
    }.extend_instance()
}

/// A batch of welcome payments passes the screening, and the first payment begins.
proof fn lemma_welcome_begins(e: InvocationView, payments: Seq<Payment>)
    requires
        e.wf(),
        0 < payments.len() <= usize::MAX,
        forall|i: int|
            #![trigger payments[i]]
            0 <= i < payments.len() ==> welcome(e.storage, payments[i]),
    ensures
        ({
            let replies = words(e.storage, vouching(), payments);
            &&& valid_run(opened(e, payments), replies)
            &&& run(opened(e, payments), replies) == fresh(e, payments).begin(
                authorized(e, payments),
                0,
                e.storage.fee_terms()->0,
            )
        }),
{
    let n = payments.len() as int;
    reveal(welcome);
    assert(welcome(e.storage, payments[0]));
    assert forall|i: int| #![trigger payments[i]] 0 <= i < n implies verdict(
        e.storage,
        vouching(),
        payments[i],
    ) is None by {
        assert(welcome(e.storage, payments[i]));
    }
    lemma_screens_up_to(e, payments, vouching(), n);
    assert(payments.take(n) =~= payments);
}

/// The same of a single payment.
proof fn lemma_single_begins(e: InvocationView, p: Payment)
    requires
        e.wf(),
        welcome(e.storage, p),
    ensures
        ({
            let start = opened(e, seq![p]);
            let replies = word(e.storage, vouching(), p);
            &&& valid_run(start, replies)
            &&& run(start, replies) == fresh(e, seq![p]).begin(
                authorized(e, seq![p]),
                0,
                e.storage.fee_terms()->0,
            )
        }),
{
    assert(seq![p].drop_last() =~= Seq::<Payment>::empty());
    reveal_with_fuel(words, 2);
    assert(words(e.storage, vouching(), seq![p]) =~= word(e.storage, vouching(), p));
    lemma_welcome_begins(e, seq![p]);
}

/// What a successful payment tells, and what it leaves behind.
proof fn lemma_single_succeeds(e: InvocationView, p: Payment, replies: Seq<Reply>)
    requires
        e.wf(),
        valid_run(opened(e, seq![p]), replies),
        run(opened(e, seq![p]), replies).0.phase == Phase::Finished(Ok(())),
    ensures
        welcome(e.storage, p),
        ({
            let after = run(opened(e, seq![p]), replies).1;
            &&& after.wf()
            &&& after.timestamp == e.timestamp
            &&& after.contract == e.contract
            &&& same_rules(e.storage, after.storage)
        }),
{
    law_only_acceptable_batches_succeed(e, seq![p], replies);
    law_successful_batch_makes_every_payment(e, seq![p], replies);
    law_batches_keep_entries_well_formed(e, seq![p], replies);
    lemma_run(e, seq![p], replies);
    assert(seq![p][0] == p);
    reveal(same_rules);
    reveal(welcome);
}

/// Well-formed entries have no window in the future.
proof fn lemma_wf_no_future(e: InvocationView)
    requires
        e.wf(),
    ensures
        no_future(e),
{
}

/// Balances and counters do not decide who is welcome.
proof fn lemma_same_rules(a: StorageView, b: StorageView, p: Payment)
    requires
        same_rules(a, b),
    ensures
        welcome(a, p) == welcome(b, p),
        a.fee_terms() == b.fee_terms(),
{
    reveal(same_rules);
    reveal(welcome);
}

// The same notions under names that the solver does not look behind.

#[verifier::opaque]
spec fn end_of(start: Run, replies: Seq<Reply>) -> Run {
    run(start, replies)
}

#[verifier::opaque]
spec fn goes(start: Run, replies: Seq<Reply>) -> bool {
    valid_run(start, replies)
}

#[verifier::opaque]
spec fn began(r: RoutingView, x: InvocationView, k: int, terms: FeeTerms) -> Run {
    r.begin(x, k, terms)
}

#[verifier::opaque]
spec fn series(
    e: InvocationView,
    payments: Seq<Payment>,
    answers: Seq<Seq<Reply>>,
) -> Option<InvocationView> {
    one_by_one(e, payments, answers)
}

#[verifier::opaque]
spec fn alongside(single: Run, batch: Run, k: usize) -> bool {
    in_step(single, batch, k)
}

spec fn is_done(now: Run) -> bool {
    now.0.phase == Phase::Finished(Ok(()))
}

spec fn is_failed(now: Run) -> bool {
    now.0.phase matches Phase::Finished(Err(_))
}

proof fn lemma_goes_concat(start: Run, a: Seq<Reply>, b: Seq<Reply>)
    ensures
        end_of(start, a + b) == end_of(end_of(start, a), b),
        goes(start, a + b) <==> goes(start, a) && goes(end_of(start, a), b),
{
    reveal(end_of);
    reveal(goes);
    lemma_run_concat(start, a, b);
}

proof fn lemma_goes_nowhere(start: Run, replies: Seq<Reply>)
    requires
        start.0.phase is Finished,
        goes(start, replies),
    ensures
        replies == Seq::<Reply>::empty(),
        end_of(start, replies) == start,
{
    reveal(end_of);
    reveal(goes);
    lemma_finished_stays(start, replies);
    assert(replies =~= Seq::empty());
}

proof fn lemma_goes_empty(start: Run)
    ensures
        goes(start, Seq::empty()),
        end_of(start, Seq::empty()) == start,
{
    reveal(end_of);
    reveal(goes);
}

/// A payment that succeeds, and then a series of others, is a series.
proof fn lemma_series_begins(
    e: InvocationView,
    payments: Seq<Payment>,
    mine: Seq<Reply>,
    later: Seq<Seq<Reply>>,
)
    requires
        payments.len() > 0,
        goes(
            opened(e, seq![payments.first()]),
            word(e.storage, vouching(), payments.first()) + mine,
        ),
        is_done(
            end_of(
                opened(e, seq![payments.first()]),
                word(e.storage, vouching(), payments.first()) + mine,
            ),
        ),
    ensures
        series(e, payments, seq![mine] + later) == series(
            end_of(
                opened(e, seq![payments.first()]),
                word(e.storage, vouching(), payments.first()) + mine,
            ).1,
            payments.drop_first(),
            later,
        ),
{
    reveal(end_of);
    reveal(goes);
    reveal(series);
    let answers = seq![mine] + later;
    assert(answers.first() == mine);
    assert(answers.drop_first() =~= later);
}

/// What a successful payment leaves behind.
proof fn lemma_lone_success(e: InvocationView, p: Payment, replies: Seq<Reply>)
    requires
        e.wf(),
        goes(opened(e, seq![p]), replies),
        is_done(end_of(opened(e, seq![p]), replies)),
    ensures
        welcome(e.storage, p),
        end_of(opened(e, seq![p]), replies).1.wf(),
        same_rules(e.storage, end_of(opened(e, seq![p]), replies).1.storage),
{
    reveal(end_of);
    reveal(goes);
    lemma_single_succeeds(e, p, replies);
}

/// A series that succeeds begins with a payment that does.
proof fn lemma_series_first(e: InvocationView, payments: Seq<Payment>, answers: Seq<Seq<Reply>>)
    requires
        payments.len() > 0,
        series(e, payments, answers) is Some,
    ensures
        ({
            let lone = opened(e, seq![payments.first()]);
            let replies = word(e.storage, vouching(), payments.first()) + answers.first();
            &&& goes(lone, replies)
            &&& is_done(end_of(lone, replies))
            &&& series(e, payments, answers) == series(
                end_of(lone, replies).1,
                payments.drop_first(),
                answers.drop_first(),
            )
        }),
{
    reveal(end_of);
    reveal(goes);
    reveal(series);
}

/// Payments that succeed one by one are all welcome from the start.
proof fn lemma_series_welcome(e: InvocationView, payments: Seq<Payment>, answers: Seq<Seq<Reply>>)
    requires
        e.wf(),
        series(e, payments, answers) is Some,
    ensures
        forall|i: int|
            #![trigger payments[i]]
            0 <= i < payments.len() ==> welcome(e.storage, payments[i]),
    decreases payments.len(),
{
    if payments.len() > 0 {
        let p = payments.first();
        let lone = opened(e, seq![p]);
        let replies = word(e.storage, vouching(), p) + answers.first();
        let after = end_of(lone, replies).1;
        lemma_series_first(e, payments, answers);
        lemma_lone_success(e, p, replies);
        lemma_series_welcome(after, payments.drop_first(), answers.drop_first());
        assert forall|i: int| #![trigger payments[i]] 0 <= i < payments.len() implies welcome(
            e.storage,
            payments[i],
        ) by {
            if i > 0 {
                assert(payments.drop_first()[i - 1] == payments[i]);
                lemma_same_rules(e.storage, after.storage, payments[i]);
            }
        }
    }
}

/// Payments that succeed one by one succeed in a batch that has come to the first
/// of them.
proof fn lemma_rest_succeeds(
    r: RoutingView,
    x: InvocationView,
    e: InvocationView,
    k: int,
    answers: Seq<Seq<Reply>>,
)
    requires
        0 <= k <= r.payments.len() <= usize::MAX,
        e.wf(),
        same_place(e, x),
        e.storage.fee_terms() is Some,
        answers.len() == r.payments.len() - k,
        one_by_one(e, r.payments.skip(k), answers) is Some,
    ensures
        ({
            let start = r.begin(x, k, e.storage.fee_terms()->0);
            let (end, after) = run(start, joined(answers));
            &&& valid_run(start, joined(answers))
            &&& end.phase == Phase::Finished(Ok(()))
            &&& after.storage == one_by_one(e, r.payments.skip(k), answers)->0.storage
        }),
    decreases r.payments.len() - k,
{
    let terms = e.storage.fee_terms()->0;
    let start = r.begin(x, k, terms);
    let rest = r.payments.skip(k);
    if k < r.payments.len() {
        let p = r.payments[k];
        assert(rest.first() == p);
        assert(rest.drop_first() =~= r.payments.skip(k + 1));
        let first = word(e.storage, vouching(), p);
        let single_start = opened(e, seq![p]);
        let after = run(single_start, first + answers.first()).1;
        lemma_single_succeeds(e, p, first + answers.first());
        lemma_same_rules(e.storage, after.storage, p);
        lemma_single_begins(e, p);
        reveal(welcome);
        lemma_run_concat(single_start, first, answers.first());
        let single = run(single_start, first);
        lemma_wf_no_future(e);
        lemma_begin_in_step(
            r,
            x,
            fresh(e, seq![p]),
            authorized(e, seq![p]),
            k as usize,
            terms,
        );
        if single.0.phase is Finished {
            lemma_finished_stays(single, answers.first());
            assert(answers.first() =~= Seq::empty());
        }
        let y = lemma_segment(single, start, k as usize, answers.first());
        lemma_rest_succeeds(r, y, after, k + 1, answers.drop_first());
        assert(run(start, answers.first()) == r.begin(y, k + 1, terms));
        lemma_run_concat(start, answers.first(), joined(answers.drop_first()));
    } else {
        assert(rest =~= Seq::empty());
        assert(joined(answers) =~= Seq::empty());
    }
}

/// A batch of welcome payments goes on to its first payment.
proof fn lemma_welcome_began(e: InvocationView, payments: Seq<Payment>)
    requires
        e.wf(),
        0 < payments.len() <= usize::MAX,
        forall|i: int|
            #![trigger payments[i]]
            0 <= i < payments.len() ==> welcome(e.storage, payments[i]),
    ensures
        e.storage.fee_terms() is Some,
        goes(opened(e, payments), words(e.storage, vouching(), payments)),
        end_of(opened(e, payments), words(e.storage, vouching(), payments)) == began(
            fresh(e, payments),
            authorized(e, payments),
            0,
            e.storage.fee_terms()->0,
        ),
{
    lemma_welcome_begins(e, payments);
    assert(welcome(e.storage, payments[0]));
    assert(e.storage.fee_terms() is Some) by {
        reveal(welcome);
    }
    reveal(goes);
    reveal(end_of);
    reveal(began);
}

/// The rest of a batch succeeds, if its payments do one by one.
proof fn lemma_rest_is_done(
    r: RoutingView,
    x: InvocationView,
    e: InvocationView,
    terms: FeeTerms,
    answers: Seq<Seq<Reply>>,
)
    requires
        r.payments.len() <= usize::MAX,
        e.wf(),
        same_place(e, x),
        e.storage.fee_terms() == Some(terms),
        answers.len() == r.payments.len(),
        series(e, r.payments, answers) is Some,
    ensures
        goes(began(r, x, 0, terms), joined(answers)),
        is_done(end_of(began(r, x, 0, terms), joined(answers))),
        end_of(began(r, x, 0, terms), joined(answers)).1.storage == series(
            e,
            r.payments,
            answers,
        )->0.storage,
{
    reveal(series);
    assert(r.payments.skip(0) =~= r.payments);
    lemma_rest_succeeds(r, x, e, 0, answers);
    reveal(began);
    reveal(goes);
    reveal(end_of);
}

/// How a batch begins and ends, given that its payments succeed one by one.
proof fn lemma_batch_begins(e0: InvocationView, payments: Seq<Payment>, answers: Seq<Seq<Reply>>)
    requires
        e0.wf(),
        0 < payments.len() <= usize::MAX,
        answers.len() == payments.len(),
        series(e0, payments, answers) is Some,
    ensures
        e0.storage.fee_terms() is Some,
        forall|i: int|
            #![trigger payments[i]]
            0 <= i < payments.len() ==> welcome(e0.storage, payments[i]),
        ({
            let start = opened(e0, payments);
            let good = words(e0.storage, vouching(), payments);
            let terms = e0.storage.fee_terms()->0;
            let first = began(fresh(e0, payments), authorized(e0, payments), 0, terms);
            let end = end_of(first, joined(answers));
            &&& end_of(start, good) == first
            &&& goes(first, joined(answers))
            &&& is_done(end)
            &&& end.1.storage == series(e0, payments, answers)->0.storage
            &&& goes(start, good + joined(answers))
            &&& end_of(start, good + joined(answers)) == end
        }),
{
    let good = words(e0.storage, vouching(), payments);
    lemma_series_welcome(e0, payments, answers);
    lemma_welcome_began(e0, payments);
    lemma_rest_is_done(
        fresh(e0, payments),
        authorized(e0, payments),
        e0,
        e0.storage.fee_terms()->0,
        answers,
    );
    lemma_goes_concat(opened(e0, payments), good, joined(answers));
}

/// Payments that succeed one by one also succeed as a batch: on the same answers,
/// the oracle's first, the batch ends well and leaves the same ledger entries.
pub proof fn law_batch_succeeds_if_its_payments_do(
    e0: InvocationView,
    payments: Seq<Payment>,
    answers: Seq<Seq<Reply>>,
)
    requires
        e0.wf(),
        0 < payments.len() <= usize::MAX,
        answers.len() == payments.len(),
        one_by_one(e0, payments, answers) is Some,
    ensures
        ({
            let replies = words(e0.storage, vouching(), payments) + joined(answers);
            let (r, e) = run(opened(e0, payments), replies);
            &&& valid_run(opened(e0, payments), replies)
            &&& r.phase == Phase::Finished(Ok(()))
            &&& e.storage == one_by_one(e0, payments, answers)->0.storage
        }),
{
    let replies = words(e0.storage, vouching(), payments) + joined(answers);
    assert(series(e0, payments, answers) == one_by_one(e0, payments, answers)) by {
        reveal(series);
    }
    lemma_batch_begins(e0, payments, answers);
    assert(valid_run(opened(e0, payments), replies)) by {
        reveal(goes);
    }
    assert(run(opened(e0, payments), replies) == end_of(opened(e0, payments), replies)) by {
        reveal(end_of);
    }
}

/// Where the oracle can say a good word, it is the one that is asked.
proof fn lemma_oracle_is_asked(start: Run, a: Seq<Reply>, reply: Reply)
    requires
        goes(start, a.push(Reply::Verified(true))),
        goes(start, a.push(reply)),
    ensures
        reply != Reply::Verified(true) ==> is_failed(end_of(start, a.push(reply))),
        !(end_of(start, a).0.phase is Finished),
{
    reveal(end_of);
    reveal(goes);
    assert(a.push(Reply::Verified(true)).drop_last() =~= a);
    assert(a.push(reply).drop_last() =~= a);
    let now = run(start, a);
    assert(now.0.phase is Kyc);
}

/// A batch that succeeds began with the oracle vouching for every sender it was
/// asked about.
proof fn lemma_words_come_first(start: Run, vouched: Seq<Reply>, replies: Seq<Reply>, j: int)
    requires
        goes(start, vouched),
        forall|i: int| 0 <= i < vouched.len() ==> #[trigger] vouched[i] == Reply::Verified(true),
        goes(start, replies),
        is_done(end_of(start, replies)),
        0 <= j <= vouched.len(),
    ensures
        j <= replies.len(),
        replies.take(j) == vouched.take(j),
    decreases j,
{
    if j == 0 {
        assert(replies.take(0) =~= vouched.take(0));
    } else {
        lemma_words_come_first(start, vouched, replies, j - 1);
        let before = replies.take(j - 1);
        assert(vouched =~= vouched.take(j) + vouched.skip(j));
        lemma_goes_concat(start, vouched.take(j), vouched.skip(j));
        assert(vouched.take(j) =~= before.push(Reply::Verified(true)));
        if j - 1 == replies.len() {
            assert(before =~= replies);
            lemma_oracle_is_asked(start, before, Reply::Verified(true));
        } else {
            let reply = replies[j - 1];
            assert(replies =~= replies.take(j) + replies.skip(j));
            assert(replies.take(j) =~= before.push(reply));
            lemma_goes_concat(start, replies.take(j), replies.skip(j));
            lemma_oracle_is_asked(start, before, reply);
            if reply != Reply::Verified(true) {
                lemma_goes_nowhere(end_of(start, replies.take(j)), replies.skip(j));
            }
        }
    }
}

/// The oracle's words are all good ones, if it vouches for everyone.
proof fn lemma_vouching_words(s: StorageView, payments: Seq<Payment>)
    ensures
        forall|i: int|
            0 <= i < words(s, vouching(), payments).len() ==> #[trigger] words(
                s,
                vouching(),
                payments,
            )[i] == Reply::Verified(true),
    decreases payments.len(),
{
    if payments.len() > 0 {
        lemma_vouching_words(s, payments.drop_last());
    }
}

/// One more reply that the batch takes is one that the single payment takes.
proof fn lemma_one_more(single: Run, batch: Run, k: usize, a: Seq<Reply>, reply: Reply)
    requires
        alongside(single, batch, k),
        goes(single, a),
        !(end_of(single, a).0.phase is Finished),
        goes(batch, a.push(reply)),
    ensures
        goes(single, a.push(reply)),
        is_failed(end_of(single, a.push(reply))) ==> is_failed(end_of(batch, a.push(reply))),
{
    reveal(end_of);
    reveal(goes);
    reveal(alongside);
    lemma_prefix(single, batch, k, a);
    assert(a.push(reply).drop_last() =~= a);
    lemma_step(run(single, a), run(batch, a), k, reply);
}

/// A batch does not end while the single payment has not.
proof fn lemma_not_done(single: Run, batch: Run, k: usize, a: Seq<Reply>)
    requires
        alongside(single, batch, k),
        goes(single, a),
        !(end_of(single, a).0.phase is Finished),
    ensures
        !(end_of(batch, a).0.phase is Finished),
{
    reveal(end_of);
    reveal(goes);
    reveal(alongside);
    lemma_prefix(single, batch, k, a);
}

/// How many of the replies belong to the payment that a batch is processing: the
/// single payment ends with the last of them. The first `j` are known to.
proof fn lemma_find_end(single: Run, batch: Run, k: usize, replies: Seq<Reply>, j: int) -> (end:
    int)
    requires
        alongside(single, batch, k),
        0 <= j <= replies.len(),
        goes(batch, replies),
        is_done(end_of(batch, replies)),
        goes(single, replies.take(j)),
        !(end_of(single, replies.take(j)).0.phase is Finished),
    ensures
        j < end <= replies.len(),
        goes(single, replies.take(end)),
        is_done(end_of(single, replies.take(end))),
    decreases replies.len() - j,
{
    if j == replies.len() {
        assert(replies.take(j) =~= replies);
        lemma_not_done(single, batch, k, replies);
        j
    } else {
        let more = replies.take(j + 1);
        assert(more =~= replies.take(j).push(replies[j]));
        assert(replies =~= more + replies.skip(j + 1));
        lemma_goes_concat(batch, more, replies.skip(j + 1));
        lemma_one_more(single, batch, k, replies.take(j), replies[j]);
        match end_of(single, more).0.phase {
            Phase::Finished(Ok(nothing)) => {
                assert(nothing == ());
                j + 1
            },
            Phase::Finished(Err(_)) => {
                lemma_goes_nowhere(end_of(batch, more), replies.skip(j + 1));
                j + 1
            },
            _ => lemma_find_end(single, batch, k, replies, j + 1),
        }
    }
}

/// The single payment at `k` begins where the batch does.
proof fn lemma_single_alongside(
    r: RoutingView,
    x: InvocationView,
    e: InvocationView,
    k: int,
    replies: Seq<Reply>,
)
    requires
        0 <= k < r.payments.len() <= usize::MAX,
        e.wf(),
        same_place(e, x),
        welcome(e.storage, r.payments[k]),
        goes(began(r, x, k, e.storage.fee_terms()->0), replies),
        is_done(end_of(began(r, x, k, e.storage.fee_terms()->0), replies)),
    ensures
        ({
            let p = r.payments[k];
            let first = word(e.storage, vouching(), p);
            let single = end_of(opened(e, seq![p]), first);
            &&& goes(opened(e, seq![p]), first)
            &&& alongside(single, began(r, x, k, e.storage.fee_terms()->0), k as usize)
            &&& !(single.0.phase is Finished)
        }),
{
    let p = r.payments[k];
    let terms = e.storage.fee_terms()->0;
    assert(p.amount > 0) by {
        reveal(welcome);
    }
    lemma_single_begins(e, p);
    lemma_wf_no_future(e);
    lemma_begin_in_step(r, x, fresh(e, seq![p]), authorized(e, seq![p]), k as usize, terms);
    let start = began(r, x, k, terms);
    assert(start == r.begin(x, k, terms)) by {
        reveal(began);
    }
    if start.0.phase is Finished {
        lemma_goes_nowhere(start, replies);
    }
    reveal(end_of);
    reveal(goes);
    reveal(alongside);
}

/// When the single payment is done, the batch begins the next one in the same place.
proof fn lemma_next_begins(
    r: RoutingView,
    x: InvocationView,
    k: int,
    terms: FeeTerms,
    single: Run,
    mine: Seq<Reply>,
) -> (y: InvocationView)
    requires
        0 <= k < r.payments.len() <= usize::MAX,
        alongside(single, began(r, x, k, terms), k as usize),
        goes(single, mine),
        is_done(end_of(single, mine)),
    ensures
        goes(began(r, x, k, terms), mine),
        end_of(began(r, x, k, terms), mine) == began(r, y, k + 1, terms),
        same_place(y, end_of(single, mine).1),
{
    reveal(end_of);
    reveal(goes);
    reveal(alongside);
    reveal(began);
    let start = r.begin(x, k, terms);
    let y = lemma_segment(single, start, k as usize, mine);
    assert(terms_of(start.0) == terms);
    assert(start.0 == r.at(start.0.phase));
    assert(start.0.begin(y, k + 1, terms) == r.begin(y, k + 1, terms));
    y
}

/// The rest of a batch that succeeds can be taken apart into its payments.
proof fn lemma_rest_splits(
    r: RoutingView,
    x: InvocationView,
    e: InvocationView,
    k: int,
    terms: FeeTerms,
    replies: Seq<Reply>,
) -> (answers: Seq<Seq<Reply>>)
    requires
        0 <= k <= r.payments.len() <= usize::MAX,
        e.wf(),
        same_place(e, x),
        e.storage.fee_terms() == Some(terms),
        forall|i: int|
            #![trigger r.payments[i]]
            k <= i < r.payments.len() ==> welcome(e.storage, r.payments[i]),
        goes(began(r, x, k, terms), replies),
        is_done(end_of(began(r, x, k, terms), replies)),
    ensures
        answers.len() == r.payments.len() - k,
        joined(answers) == replies,
        series(e, r.payments.skip(k), answers) is Some,
        series(e, r.payments.skip(k), answers)->0.storage == end_of(
            began(r, x, k, terms),
            replies,
        ).1.storage,
    decreases r.payments.len() - k,
{
    let start = began(r, x, k, terms);
    let rest = r.payments.skip(k);
    if k == r.payments.len() {
        assert(start == (r.at(Phase::Finished(Ok(()))), x)) by {
            reveal(began);
        }
        lemma_goes_nowhere(start, replies);
        assert(rest =~= Seq::empty());
        assert(series(e, rest, Seq::empty()) == Some(e)) by {
            reveal(series);
        }
        Seq::empty()
    } else {
        let p = r.payments[k];
        let lone = opened(e, seq![p]);
        let first = word(e.storage, vouching(), p);
        assert(rest.first() == p);
        assert(rest.drop_first() =~= r.payments.skip(k + 1));
        assert(welcome(e.storage, p));
        lemma_single_alongside(r, x, e, k, replies);
        let single = end_of(lone, first);
        lemma_goes_empty(single);
        assert(replies.take(0) =~= Seq::empty());
        let end = lemma_find_end(single, start, k as usize, replies, 0);
        let (mine, others) = (replies.take(end), replies.skip(end));
        assert(replies =~= mine + others);
        lemma_goes_concat(start, mine, others);
        lemma_goes_concat(lone, first, mine);
        let y = lemma_next_begins(r, x, k, terms, single, mine);
        let after = end_of(single, mine).1;
        lemma_lone_success(e, p, first + mine);
        lemma_same_rules(e.storage, after.storage, p);
        assert forall|i: int|
            #![trigger r.payments[i]]
            k + 1 <= i < r.payments.len() implies welcome(after.storage, r.payments[i]) by {
            lemma_same_rules(e.storage, after.storage, r.payments[i]);
        }
        let later = lemma_rest_splits(r, y, after, k + 1, terms, others);
        lemma_series_begins(e, rest, mine, later);
        let answers = seq![mine] + later;
        assert(answers.first() == mine);
        assert(answers.drop_first() =~= later);
        answers
    }
}

/// The payments of a successful batch were all welcome.
proof fn lemma_done_welcome(e0: InvocationView, payments: Seq<Payment>, replies: Seq<Reply>)
    requires
        e0.wf(),
        payments.len() <= usize::MAX,
        goes(opened(e0, payments), replies),
        is_done(end_of(opened(e0, payments), replies)),
    ensures
        forall|i: int|
            #![trigger payments[i]]
            0 <= i < payments.len() ==> welcome(e0.storage, payments[i]),
{
    reveal(goes);
    reveal(end_of);
    law_only_acceptable_batches_succeed(e0, payments, replies);
    reveal(welcome);
}

/// Where a successful batch of at least one payment parts: the oracle's words come
/// first, and then the first payment begins.
proof fn lemma_batch_parts(e0: InvocationView, payments: Seq<Payment>, replies: Seq<Reply>) -> (
    rest: Seq<Reply>)
    requires
        e0.wf(),
        0 < payments.len() <= usize::MAX,
        goes(opened(e0, payments), replies),
        is_done(end_of(opened(e0, payments), replies)),
    ensures
        e0.storage.fee_terms() is Some,
        forall|i: int|
            #![trigger payments[i]]
            0 <= i < payments.len() ==> welcome(e0.storage, payments[i]),
        replies == words(e0.storage, vouching(), payments) + rest,
        ({
            let terms = e0.storage.fee_terms()->0;
            let first = began(fresh(e0, payments), authorized(e0, payments), 0, terms);
            &&& goes(first, rest)
            &&& end_of(first, rest) == end_of(opened(e0, payments), replies)
        }),
{
    let start = opened(e0, payments);
    let good = words(e0.storage, vouching(), payments);
    lemma_done_welcome(e0, payments, replies);
    lemma_welcome_began(e0, payments);
    lemma_vouching_words(e0.storage, payments);
    lemma_words_come_first(start, good, replies, good.len() as int);
    assert(good.take(good.len() as int) =~= good);
    let rest = replies.skip(good.len() as int);
    assert(replies =~= good + rest);
    lemma_goes_concat(start, good, rest);
    rest
}

/// The answers are those of the batch, and the payments succeed on them one by one.
spec fn splits(
    e0: InvocationView,
    payments: Seq<Payment>,
    replies: Seq<Reply>,
    answers: Seq<Seq<Reply>>,
) -> bool {
    &&& answers.len() == payments.len()
    &&& replies == words(e0.storage, vouching(), payments) + joined(answers)
    &&& series(e0, payments, answers) is Some
    &&& series(e0, payments, answers)->0.storage == end_of(
        opened(e0, payments),
        replies,
    ).1.storage
}

/// A batch that succeeds can be taken apart into its payments.
proof fn lemma_batch_splits(e0: InvocationView, payments: Seq<Payment>, replies: Seq<Reply>)
    requires
        e0.wf(),
        payments.len() <= usize::MAX,
        goes(opened(e0, payments), replies),
        is_done(end_of(opened(e0, payments), replies)),
    ensures
        exists|answers: Seq<Seq<Reply>>| splits(e0, payments, replies, answers),
{
    if payments.len() == 0 {
        let answers = Seq::<Seq<Reply>>::empty();
        assert(opened(e0, payments).0.phase is Finished);
        assert(opened(e0, payments).0.phase == Phase::Finished(Ok(())) ==> opened(
            e0,
            payments,
        ).1.storage == e0.storage);
        lemma_goes_nowhere(opened(e0, payments), replies);
        assert(series(e0, payments, answers) == Some(e0)) by {
            reveal(series);
        }
        assert(replies =~= words(e0.storage, vouching(), payments) + joined(answers));
        assert(splits(e0, payments, replies, answers));
    } else {
        let rest = lemma_batch_parts(e0, payments, replies);
        assert(payments.skip(0) =~= payments);
        let answers = lemma_rest_splits(
            fresh(e0, payments),
            authorized(e0, payments),
            e0,
            0,
            e0.storage.fee_terms()->0,
            rest,
        );
        assert(splits(e0, payments, replies, answers));
    }
}

/// A batch that succeeds could have been made one by one: its replies are the
/// oracle's good words followed by the answers to each payment, on which each
/// payment succeeds on its own. The tokens are asked the same, in the same order, and
/// so is the oracle, and in the end the ledger entries are the same.
pub proof fn law_payments_succeed_if_their_batch_does(
    e0: InvocationView,
    payments: Seq<Payment>,
    replies: Seq<Reply>,
)
    requires
        e0.wf(),
        payments.len() <= usize::MAX,
        valid_run(opened(e0, payments), replies),
        run(opened(e0, payments), replies).0.phase == Phase::Finished(Ok(())),
    ensures
        exists|answers: Seq<Seq<Reply>>|
            {
                &&& answers.len() == payments.len()
                &&& replies == words(e0.storage, vouching(), payments) + joined(answers)
                &&& (#[trigger] one_by_one(e0, payments, answers)) is Some
                &&& one_by_one(e0, payments, answers)->0.storage == run(
                    opened(e0, payments),
                    replies,
                ).1.storage
                &&& with_tokens(exchanges(opened(e0, payments), replies)) == with_tokens(
                    exchanges_one_by_one(e0, payments, answers),
                )
                &&& with_oracle(exchanges(opened(e0, payments), replies)) == with_oracle(
                    exchanges_one_by_one(e0, payments, answers),
                )
            },
{
    assert(goes(opened(e0, payments), replies)) by {
        reveal(goes);
    }
    assert(end_of(opened(e0, payments), replies) == run(opened(e0, payments), replies)) by {
        reveal(end_of);
    }
    lemma_batch_splits(e0, payments, replies);
    let answers = choose|answers: Seq<Seq<Reply>>|
        splits(e0, payments, replies, answers);
    assert(series(e0, payments, answers) == one_by_one(e0, payments, answers)) by {
        reveal(series);
    }
    if payments.len() > 0 {
        law_batch_asks_what_its_payments_ask(e0, payments, answers);
    } else {
        lemma_goes_nowhere(opened(e0, payments), replies);
    }
}

// What is asked, and of whom.

/// What a batch has asked so far, with the replies.
pub open spec fn exchanges(start: Run, replies: Seq<Reply>) -> Seq<(Request, Reply)>
    decreases replies.len(),
{
    if replies.len() == 0 {
        Seq::empty()
    } else {
        let (r, e) = run(start, replies.drop_last());
        let before = exchanges(start, replies.drop_last());
        match r.requested(e.contract) {
            Some(request) => before.push((request, replies.last())),
            None => before,
        }
    }
}

/// What payments that are made one at a time ask, one after the other, with the
/// replies.
pub open spec fn exchanges_one_by_one(
    e: InvocationView,
    payments: Seq<Payment>,
    answers: Seq<Seq<Reply>>,
) -> Seq<(Request, Reply)>
    decreases payments.len(),
{
    if payments.len() == 0 {
        Seq::empty()
    } else {
        let start = opened(e, seq![payments.first()]);
        let replies = word(e.storage, vouching(), payments.first()) + answers.first();
        exchanges(start, replies) + exchanges_one_by_one(
            run(start, replies).1,
            payments.drop_first(),
            answers.drop_first(),
        )
    }
}

/// What was asked of the KYC oracle.
pub open spec fn with_oracle(asked: Seq<(Request, Reply)>) -> Seq<(Request, Reply)>
    decreases asked.len(),
{
    if asked.len() == 0 {
        Seq::empty()
    } else if asked.last().0 is IsVerified {
        with_oracle(asked.drop_last()).push(asked.last())
    } else {
        with_oracle(asked.drop_last())
    }
}

/// What was asked of the tokens: balances and transfers.
pub open spec fn with_tokens(asked: Seq<(Request, Reply)>) -> Seq<(Request, Reply)>
    decreases asked.len(),
{
    if asked.len() == 0 {
        Seq::empty()
    } else if asked.last().0 is IsVerified {
        with_tokens(asked.drop_last())
    } else {
        with_tokens(asked.drop_last()).push(asked.last())
    }
}

/// What is asked of the oracle about a payment, when it vouches.
spec fn query(s: StorageView, p: Payment) -> Seq<(Request, Reply)> {
    match kyc_rule(s, p.amount) {
        Ok(Some(oracle)) => seq![
            (Request::IsVerified { oracle, account: p.sender }, Reply::Verified(true)),
        ],
        _ => Seq::empty(),
    }
}

/// The same of several payments.
spec fn queries(s: StorageView, payments: Seq<Payment>) -> Seq<(Request, Reply)>
    decreases payments.len(),
{
    if payments.len() == 0 {
        Seq::empty()
    } else {
        queries(s, payments.drop_last()) + query(s, payments.last())
    }
}

#[verifier::opaque]
spec fn talk(start: Run, replies: Seq<Reply>) -> Seq<(Request, Reply)> {
    exchanges(start, replies)
}

#[verifier::opaque]
spec fn series_talk(
    e: InvocationView,
    payments: Seq<Payment>,
    answers: Seq<Seq<Reply>>,
) -> Seq<(Request, Reply)> {
    exchanges_one_by_one(e, payments, answers)
}

proof fn lemma_talk_concat(start: Run, a: Seq<Reply>, b: Seq<Reply>)
    ensures
        talk(start, a + b) == talk(start, a) + talk(end_of(start, a), b),
    decreases b.len(),
{
    if b.len() == 0 {
        assert(a + b =~= a);
        assert(talk(end_of(start, a), b) =~= Seq::empty()) by {
            reveal(talk);
        }
        assert(talk(start, a) + talk(end_of(start, a), b) =~= talk(start, a));
    } else {
        let init = b.drop_last();
        assert((a + b).drop_last() =~= a + init);
        assert((a + b).last() == b.last());
        lemma_talk_concat(start, a, init);
        lemma_goes_concat(start, a, init);
        lemma_talk_more(start, a + b);
        lemma_talk_more(end_of(start, a), b);
        assert(talk(start, a + b) =~= talk(start, a) + talk(end_of(start, a), b));
    }
}

/// One more reply to what is asked.
proof fn lemma_talk_more(start: Run, replies: Seq<Reply>)
    requires
        replies.len() > 0,
    ensures
        ({
            let (r, e) = end_of(start, replies.drop_last());
            talk(start, replies) == match r.requested(e.contract) {
                Some(request) => talk(start, replies.drop_last()).push((request, replies.last())),
                None => talk(start, replies.drop_last()),
            }
        }),
{
    reveal(talk);
    reveal(end_of);
}

proof fn lemma_parts_concat(a: Seq<(Request, Reply)>, b: Seq<(Request, Reply)>)
    ensures
        with_oracle(a + b) == with_oracle(a) + with_oracle(b),
        with_tokens(a + b) == with_tokens(a) + with_tokens(b),
    decreases b.len(),
{
    if b.len() == 0 {
        assert(a + b =~= a);
        assert(with_oracle(a) + with_oracle(b) =~= with_oracle(a));
        assert(with_tokens(a) + with_tokens(b) =~= with_tokens(a));
    } else {
        assert((a + b).drop_last() =~= a + b.drop_last());
        assert((a + b).last() == b.last());
        lemma_parts_concat(a, b.drop_last());
        assert(with_oracle(a + b) =~= with_oracle(a) + with_oracle(b));
        assert(with_tokens(a + b) =~= with_tokens(a) + with_tokens(b));
    }
}

/// Queries are queries to the oracle.
proof fn lemma_queries_parts(s: StorageView, payments: Seq<Payment>)
    ensures
        with_oracle(queries(s, payments)) == queries(s, payments),
        with_tokens(queries(s, payments)) == Seq::<(Request, Reply)>::empty(),
    decreases payments.len(),
{
    if payments.len() > 0 {
        let (before, last) = (queries(s, payments.drop_last()), query(s, payments.last()));
        lemma_queries_parts(s, payments.drop_last());
        lemma_parts_concat(before, last);
        assert(last.len() > 0 ==> last.drop_last() =~= Seq::empty());
        reveal_with_fuel(with_oracle, 2);
        reveal_with_fuel(with_tokens, 2);
        assert(with_oracle(last) =~= last);
        assert(with_tokens(last) =~= Seq::empty());
        assert(with_tokens(before) + with_tokens(last) =~= Seq::empty());
    }
}

/// Queries can be taken apart at the front, too.
proof fn lemma_queries_front(s: StorageView, payments: Seq<Payment>)
    requires
        payments.len() > 0,
    ensures
        queries(s, payments) == query(s, payments.first()) + queries(s, payments.drop_first()),
    decreases payments.len(),
{
    let init = payments.drop_last();
    if payments.len() == 1 {
        assert(init =~= Seq::empty());
        assert(payments.drop_first() =~= Seq::empty());
        assert(queries(s, init) + query(s, payments.last()) =~= query(s, payments.first())
            + queries(s, payments.drop_first()));
    } else {
        lemma_queries_front(s, init);
        assert(init.drop_first() =~= payments.drop_first().drop_last());
        assert(queries(s, payments) =~= query(s, payments.first()) + queries(
            s,
            payments.drop_first(),
        ));
    }
}

/// While welcome payments are screened, only the oracle is asked, once for each
/// payment that needs it.
proof fn lemma_screening_talk(e: InvocationView, payments: Seq<Payment>, k: int)
    requires
        e.wf(),
        0 <= k <= payments.len() <= usize::MAX,
        payments.len() > 0,
        forall|i: int|
            #![trigger payments[i]]
            0 <= i < payments.len() ==> welcome(e.storage, payments[i]),
    ensures
        talk(opened(e, payments), words(e.storage, vouching(), payments.take(k))) == queries(
            e.storage,
            payments.take(k),
        ),
    decreases k,
{
    let start = opened(e, payments);
    let s = e.storage;
    if k == 0 {
        assert(payments.take(0) =~= Seq::empty());
        reveal(talk);
    } else {
        let p = payments[k - 1];
        let before = words(s, vouching(), payments.take(k - 1));
        let now = words(s, vouching(), payments.take(k));
        lemma_screening_talk(e, payments, k - 1);
        assert(payments.take(k).drop_last() =~= payments.take(k - 1));
        assert(payments.take(k).last() == p);
        lemma_screening_asks(e, payments, k - 1);
        match kyc_rule(s, p.amount) {
            Ok(Some(oracle)) => {
                assert(now =~= before.push(Reply::Verified(true)));
                assert(now.drop_last() =~= before);
                lemma_talk_more(start, now);
                assert(talk(start, now) =~= queries(s, payments.take(k)));
            },
            _ => {
                assert(now =~= before);
                assert(queries(s, payments.take(k)) =~= queries(s, payments.take(k - 1)));
            },
        }
    }
}

/// The oracle is asked about the payment at `k`, if it has to be.
proof fn lemma_screening_asks(e: InvocationView, payments: Seq<Payment>, k: int)
    requires
        e.wf(),
        0 <= k < payments.len() <= usize::MAX,
        forall|i: int|
            #![trigger payments[i]]
            0 <= i < payments.len() ==> welcome(e.storage, payments[i]),
    ensures
        objection(e.storage, payments[k]) is None,
        kyc_rule(e.storage, payments[k].amount) is Ok,
        kyc_rule(e.storage, payments[k].amount) matches Ok(Some(oracle)) ==> {
            let now = end_of(
                opened(e, payments),
                words(e.storage, vouching(), payments.take(k)),
            );
            now.0.requested(now.1.contract) == Some(
                Request::IsVerified { oracle, account: payments[k].sender },
            )
        },
{
    reveal(welcome);
    reveal(end_of);
    assert(welcome(e.storage, payments[k]));
    assert forall|i: int| #![trigger payments[i]] 0 <= i < k implies verdict(
        e.storage,
        vouching(),
        payments[i],
    ) is None by {
        assert(welcome(e.storage, payments[i]));
    }
    lemma_screens_up_to(e, payments, vouching(), k);
}

/// The same of a single payment.
proof fn lemma_single_talk(e: InvocationView, p: Payment)
    requires
        e.wf(),
        welcome(e.storage, p),
    ensures
        talk(opened(e, seq![p]), word(e.storage, vouching(), p)) == query(e.storage, p),
{
    let one = seq![p];
    assert(one.drop_last() =~= Seq::<Payment>::empty());
    reveal_with_fuel(words, 2);
    reveal_with_fuel(queries, 2);
    assert(words(e.storage, vouching(), one) =~= word(e.storage, vouching(), p));
    assert(queries(e.storage, one) =~= query(e.storage, p));
    assert(one.take(1) =~= one);
    lemma_screening_talk(e, one, 1);
}

/// A payment asks the same of the tokens on its own as in a batch, and nothing of
/// the oracle.
proof fn lemma_segment_talk(single: Run, batch: Run, k: usize, answers: Seq<Reply>)
    requires
        alongside(single, batch, k),
        goes(single, answers),
    ensures
        talk(single, answers) == talk(batch, answers),
        with_tokens(talk(batch, answers)) == talk(batch, answers),
        with_oracle(talk(batch, answers)) == Seq::<(Request, Reply)>::empty(),
    decreases answers.len(),
{
    if answers.len() == 0 {
        assert(talk(single, answers) =~= Seq::empty()) by {
            reveal(talk);
        }
        assert(talk(batch, answers) =~= Seq::empty()) by {
            reveal(talk);
        }
    } else {
        let init = answers.drop_last();
        lemma_same_question(single, batch, k, answers);
        lemma_segment_talk(single, batch, k, init);
        lemma_talk_more(single, answers);
        lemma_talk_more(batch, answers);
        let before = talk(batch, init);
        assert(talk(batch, answers).drop_last() =~= before);
    }
}

/// In step, the same is asked.
proof fn lemma_same_question(single: Run, batch: Run, k: usize, answers: Seq<Reply>)
    requires
        alongside(single, batch, k),
        goes(single, answers),
        answers.len() > 0,
    ensures
        goes(single, answers.drop_last()),
        ({
            let s = end_of(single, answers.drop_last());
            let b = end_of(batch, answers.drop_last());
            &&& s.0.requested(s.1.contract) == b.0.requested(b.1.contract)
            &&& b.0.requested(b.1.contract) matches Some(request) && !(request is IsVerified)
        }),
{
    reveal(end_of);
    reveal(goes);
    reveal(alongside);
    let init = answers.drop_last();
    lemma_prefix(single, batch, k, init);
    let (s, b) = (run(single, init), run(batch, init));
    assert(s.0.payments[0] == b.0.payments[k as int]);
}

/// What a series asks, from its first payment on.
proof fn lemma_series_talk_first(
    e: InvocationView,
    payments: Seq<Payment>,
    answers: Seq<Seq<Reply>>,
)
    requires
        payments.len() > 0,
    ensures
        ({
            let lone = opened(e, seq![payments.first()]);
            let replies = word(e.storage, vouching(), payments.first()) + answers.first();
            series_talk(e, payments, answers) == talk(lone, replies) + series_talk(
                end_of(lone, replies).1,
                payments.drop_first(),
                answers.drop_first(),
            )
        }),
{
    reveal(talk);
    reveal(series_talk);
    reveal(end_of);
}

/// Balances and counters do not decide what the oracle is asked.
proof fn lemma_same_queries(a: StorageView, b: StorageView, payments: Seq<Payment>)
    requires
        same_rules(a, b),
    ensures
        queries(a, payments) == queries(b, payments),
    decreases payments.len(),
{
    if payments.len() > 0 {
        lemma_same_queries(a, b, payments.drop_last());
        reveal(same_rules);
    }
}

/// From the payment at `k` on, a batch asks of the tokens what its payments ask one
/// by one.
proof fn lemma_rest_talk(
    r: RoutingView,
    x: InvocationView,
    e: InvocationView,
    k: int,
    terms: FeeTerms,
    answers: Seq<Seq<Reply>>,
)
    requires
        0 <= k <= r.payments.len() <= usize::MAX,
        e.wf(),
        same_place(e, x),
        e.storage.fee_terms() == Some(terms),
        answers.len() == r.payments.len() - k,
        series(e, r.payments.skip(k), answers) is Some,
        goes(began(r, x, k, terms), joined(answers)),
        is_done(end_of(began(r, x, k, terms), joined(answers))),
    ensures
        ({
            let together = talk(began(r, x, k, terms), joined(answers));
            let apart = series_talk(e, r.payments.skip(k), answers);
            &&& with_tokens(together) == together
            &&& with_oracle(together) == Seq::<(Request, Reply)>::empty()
            &&& with_tokens(apart) == together
            &&& with_oracle(apart) == queries(e.storage, r.payments.skip(k))
        }),
    decreases r.payments.len() - k,
{
    let start = began(r, x, k, terms);
    let rest = r.payments.skip(k);
    if k == r.payments.len() {
        assert(rest =~= Seq::empty());
        assert(joined(answers) =~= Seq::empty());
        reveal(talk);
        reveal(series_talk);
        assert(talk(start, joined(answers)) =~= Seq::empty());
        assert(series_talk(e, rest, answers) =~= Seq::empty());
    } else {
        let p = r.payments[k];
        let lone = opened(e, seq![p]);
        let first = word(e.storage, vouching(), p);
        let (mine, others) = (answers.first(), answers.drop_first());
        assert(rest.first() == p);
        assert(rest.drop_first() =~= r.payments.skip(k + 1));
        lemma_series_first(e, rest, answers);
        lemma_lone_success(e, p, first + mine);
        lemma_single_alongside(r, x, e, k, joined(answers));
        let single = end_of(lone, first);
        lemma_goes_concat(lone, first, mine);
        let y = lemma_next_begins(r, x, k, terms, single, mine);
        let after = end_of(single, mine).1;
        lemma_same_rules(e.storage, after.storage, p);
        assert(joined(answers) == mine + joined(others));
        lemma_goes_concat(start, mine, joined(others));
        lemma_rest_talk(r, y, after, k + 1, terms, others);

        let mine_talk = talk(start, mine);
        let others_talk = talk(began(r, y, k + 1, terms), joined(others));
        let others_apart = series_talk(after, r.payments.skip(k + 1), others);
        let asked = query(e.storage, p);
        lemma_segment_talk(single, start, k as usize, mine);
        lemma_talk_concat(start, mine, joined(others));
        lemma_talk_concat(lone, first, mine);
        lemma_single_talk(e, p);
        lemma_series_talk_first(e, rest, answers);
        lemma_same_queries(e.storage, after.storage, rest.drop_first());
        lemma_queries_front(e.storage, rest);
        lemma_query_parts(e.storage, p);
        lemma_parts_concat(mine_talk, others_talk);
        lemma_parts_concat(asked, mine_talk);
        lemma_parts_concat(asked + mine_talk, others_apart);
        let empty = Seq::<(Request, Reply)>::empty();
        assert(empty + empty =~= empty);
        assert(empty + mine_talk =~= mine_talk);
        assert(asked + empty =~= asked);
    }
}

proof fn lemma_query_parts(s: StorageView, p: Payment)
    ensures
        with_oracle(query(s, p)) == query(s, p),
        with_tokens(query(s, p)) == Seq::<(Request, Reply)>::empty(),
{
    let one = seq![p];
    assert(one.drop_last() =~= Seq::<Payment>::empty());
    reveal_with_fuel(queries, 2);
    assert(queries(s, one) =~= query(s, p));
    lemma_queries_parts(s, one);
}

/// A batch asks the tokens for the same balances and transfers, in the same order
/// and with the same replies, as its payments made one by one; and it asks the
/// oracle about the same senders, in the same order.
pub proof fn law_batch_asks_what_its_payments_ask(
    e0: InvocationView,
    payments: Seq<Payment>,
    answers: Seq<Seq<Reply>>,
)
    requires
        e0.wf(),
        0 < payments.len() <= usize::MAX,
        answers.len() == payments.len(),
        one_by_one(e0, payments, answers) is Some,
    ensures
        ({
            let replies = words(e0.storage, vouching(), payments) + joined(answers);
            let together = exchanges(opened(e0, payments), replies);
            let apart = exchanges_one_by_one(e0, payments, answers);
            &&& with_tokens(together) == with_tokens(apart)
            &&& with_oracle(together) == with_oracle(apart)
        }),
{
    let replies = words(e0.storage, vouching(), payments) + joined(answers);
    assert(series(e0, payments, answers) is Some) by {
        reveal(series);
    }
    lemma_batch_talk(e0, payments, answers);
    assert(talk(opened(e0, payments), replies) == exchanges(opened(e0, payments), replies)) by {
        reveal(talk);
    }
    assert(series_talk(e0, payments, answers) == exchanges_one_by_one(e0, payments, answers)) by {
        reveal(series_talk);
    }
}

proof fn lemma_batch_talk(e0: InvocationView, payments: Seq<Payment>, answers: Seq<Seq<Reply>>)
    requires
        e0.wf(),
        0 < payments.len() <= usize::MAX,
        answers.len() == payments.len(),
        series(e0, payments, answers) is Some,
    ensures
        ({
            let replies = words(e0.storage, vouching(), payments) + joined(answers);
            let together = talk(opened(e0, payments), replies);
            let apart = series_talk(e0, payments, answers);
            &&& with_tokens(together) == with_tokens(apart)
            &&& with_oracle(together) == with_oracle(apart)
        }),
{
    let start = opened(e0, payments);
    let good = words(e0.storage, vouching(), payments);
    let n = payments.len() as int;
    let terms = e0.storage.fee_terms()->0;
    let first = began(fresh(e0, payments), authorized(e0, payments), 0, terms);
    assert(payments.skip(0) =~= payments);
    assert(payments.take(n) =~= payments);
    lemma_batch_begins(e0, payments, answers);
    lemma_screening_talk(e0, payments, n);
    lemma_talk_concat(start, good, joined(answers));
    lemma_rest_talk(fresh(e0, payments), authorized(e0, payments), e0, 0, terms, answers);
    lemma_queries_parts(e0.storage, payments);
    let asked = queries(e0.storage, payments);
    let moved = talk(first, joined(answers));
    lemma_parts_concat(asked, moved);
    let empty = Seq::<(Request, Reply)>::empty();
    assert(empty + moved =~= moved);
    assert(asked + empty =~= asked);
}

// Hosts.

/// The state of a host after the exchanges, if they are what it answers. A host is
/// all that is outside the contract, the tokens' balances among it: in each state it
/// has one answer to each request, and a next state.
pub open spec fn follows<T>(
    host: spec_fn(T, Request) -> (T, Reply),
    world: T,
    asked: Seq<(Request, Reply)>,
) -> Option<T>
    decreases asked.len(),
{
    if asked.len() == 0 {
        Some(world)
    } else {
        match follows(host, world, asked.drop_last()) {
            None => None,
            Some(w) => {
                let (next, reply) = host(w, asked.last().0);
                if reply == asked.last().1 {
                    Some(next)
                } else {
                    None
                }
            },
        }
    }
}

/// Whether the oracle's answers are fixed: asking it changes nothing, and it says the
/// same whenever it is asked.
pub open spec fn steady_oracle<T>(host: spec_fn(T, Request) -> (T, Reply)) -> bool {
    forall|v: T, w: T, request: Request|
        #![trigger host(v, request), host(w, request)]
        request is IsVerified ==> host(v, request).0 == v && host(v, request).1 == host(
            w,
            request,
        ).1
}

/// The batch succeeds on the host's answers, and leaves behind these ledger entries
/// and this state of the host.
pub open spec fn routed_together<T>(
    e0: InvocationView,
    payments: Seq<Payment>,
    host: spec_fn(T, Request) -> (T, Reply),
    world: T,
    s: StorageView,
    after: T,
) -> bool {
    exists|replies: Seq<Reply>|
        {
            &&& #[trigger] valid_run(opened(e0, payments), replies)
            &&& run(opened(e0, payments), replies).0.phase == Phase::Finished(Ok(()))
            &&& run(opened(e0, payments), replies).1.storage == s
            &&& follows(host, world, exchanges(opened(e0, payments), replies)) == Some(after)
        }
}

/// The payments succeed one by one on the host's answers, and leave behind these
/// ledger entries and this state of the host.
pub open spec fn routed_apart<T>(
    e0: InvocationView,
    payments: Seq<Payment>,
    host: spec_fn(T, Request) -> (T, Reply),
    world: T,
    s: StorageView,
    after: T,
) -> bool {
    exists|answers: Seq<Seq<Reply>>|
        {
            &&& answers.len() == payments.len()
            &&& (#[trigger] one_by_one(e0, payments, answers)) is Some
            &&& one_by_one(e0, payments, answers)->0.storage == s
            &&& follows(host, world, exchanges_one_by_one(e0, payments, answers)) == Some(after)
        }
}

/// Whether the oracle says all this.
spec fn oracle_says<T>(
    host: spec_fn(T, Request) -> (T, Reply),
    world: T,
    asked: Seq<(Request, Reply)>,
) -> bool {
    forall|i: int| 0 <= i < asked.len() ==> host(world, (#[trigger] asked[i]).0).1 == asked[i].1
}

/// Questions to a steady oracle can be told apart from the rest.
proof fn lemma_follows_parts<T>(
    host: spec_fn(T, Request) -> (T, Reply),
    world: T,
    asked: Seq<(Request, Reply)>,
    after: T,
)
    requires
        steady_oracle(host),
    ensures
        follows(host, world, asked) == Some(after) <==> follows(host, world, with_tokens(asked))
            == Some(after) && oracle_says(host, world, with_oracle(asked)),
    decreases asked.len(),
{
    if asked.len() > 0 {
        let init = asked.drop_last();
        let (request, reply) = asked.last();
        if request is IsVerified {
            lemma_follows_parts(host, world, init, after);
            let (before, now) = (with_oracle(init), with_oracle(asked));
            assert(now == before.push((request, reply)));
            assert(forall|i: int| 0 <= i < before.len() ==> now[i] == #[trigger] before[i]);
            assert(now[before.len() as int] == (request, reply));
            match follows(host, world, init) {
                Some(w) => {
                    assert(host(w, request).0 == w);
                    assert(host(w, request).1 == host(world, request).1);
                },
                None => {},
            }
            assert(oracle_says(host, world, now) <==> oracle_says(host, world, before) && host(
                world,
                request,
            ).1 == reply) by {
                if oracle_says(host, world, now) {
                    assert forall|i: int| 0 <= i < before.len() implies host(
                        world,
                        (#[trigger] before[i]).0,
                    ).1 == before[i].1 by {
                        assert(now[i] == before[i]);
                    }
                }
            }
        } else {
            let tokens = with_tokens(asked);
            assert(tokens.drop_last() =~= with_tokens(init));
            match follows(host, world, init) {
                Some(w) => {
                    lemma_follows_parts(host, world, init, w);
                },
                None => {
                    match follows(host, world, with_tokens(init)) {
                        Some(w) => {
                            lemma_follows_parts(host, world, init, w);
                        },
                        None => {},
                    }
                },
            }
        }
    }
}

/// On every host whose oracle's answers are fixed, whatever its tokens do: a batch
/// succeeds exactly if its payments succeed one by one, and then both leave behind the
/// same ledger entries (volumes, spending windows and refund balances among them) and
/// the same state of the host (balances among it).
pub proof fn law_batch_and_payments_agree<T>(
    e0: InvocationView,
    payments: Seq<Payment>,
    host: spec_fn(T, Request) -> (T, Reply),
    world: T,
    s: StorageView,
    after: T,
)
    requires
        e0.wf(),
        0 < payments.len() <= usize::MAX,
        steady_oracle(host),
    ensures
        routed_together(e0, payments, host, world, s, after) <==> routed_apart(
            e0,
            payments,
            host,
            world,
            s,
            after,
        ),
{
    let start = opened(e0, payments);
    if routed_together(e0, payments, host, world, s, after) {
        let replies = choose|replies: Seq<Reply>|
            {
                &&& #[trigger] valid_run(start, replies)
                &&& run(start, replies).0.phase == Phase::Finished(Ok(()))
                &&& run(start, replies).1.storage == s
                &&& follows(host, world, exchanges(start, replies)) == Some(after)
            };
        lemma_together_means_apart(e0, payments, host, world, replies, after);
    }
    if routed_apart(e0, payments, host, world, s, after) {
        let answers = choose|answers: Seq<Seq<Reply>>|
            {
                &&& answers.len() == payments.len()
                &&& (#[trigger] one_by_one(e0, payments, answers)) is Some
                &&& one_by_one(e0, payments, answers)->0.storage == s
                &&& follows(host, world, exchanges_one_by_one(e0, payments, answers)) == Some(
                    after,
                )
            };
        lemma_apart_means_together(e0, payments, host, world, answers, after);
    }
}

proof fn lemma_together_means_apart<T>(
    e0: InvocationView,
    payments: Seq<Payment>,
    host: spec_fn(T, Request) -> (T, Reply),
    world: T,
    replies: Seq<Reply>,
    after: T,
)
    requires
        e0.wf(),
        0 < payments.len() <= usize::MAX,
        steady_oracle(host),
        valid_run(opened(e0, payments), replies),
        run(opened(e0, payments), replies).0.phase == Phase::Finished(Ok(())),
        follows(host, world, exchanges(opened(e0, payments), replies)) == Some(after),
    ensures
        routed_apart(
            e0,
            payments,
            host,
            world,
            run(opened(e0, payments), replies).1.storage,
            after,
        ),
{
    let together = exchanges(opened(e0, payments), replies);
    law_payments_succeed_if_their_batch_does(e0, payments, replies);
    let answers = choose|answers: Seq<Seq<Reply>>|
        {
            &&& answers.len() == payments.len()
            &&& replies == words(e0.storage, vouching(), payments) + joined(answers)
            &&& (#[trigger] one_by_one(e0, payments, answers)) is Some
            &&& one_by_one(e0, payments, answers)->0.storage == run(
                opened(e0, payments),
                replies,
            ).1.storage
            &&& with_tokens(together) == with_tokens(exchanges_one_by_one(e0, payments, answers))
            &&& with_oracle(together) == with_oracle(exchanges_one_by_one(e0, payments, answers))
        };
    lemma_follows_parts(host, world, together, after);
    lemma_follows_parts(host, world, exchanges_one_by_one(e0, payments, answers), after);
}

proof fn lemma_apart_means_together<T>(
    e0: InvocationView,
    payments: Seq<Payment>,
    host: spec_fn(T, Request) -> (T, Reply),
    world: T,
    answers: Seq<Seq<Reply>>,
    after: T,
)
    requires
        e0.wf(),
        0 < payments.len() <= usize::MAX,
        steady_oracle(host),
        answers.len() == payments.len(),
        one_by_one(e0, payments, answers) is Some,
        follows(host, world, exchanges_one_by_one(e0, payments, answers)) == Some(after),
    ensures
        routed_together(
            e0,
            payments,
            host,
            world,
            one_by_one(e0, payments, answers)->0.storage,
            after,
        ),
{
    let replies = words(e0.storage, vouching(), payments) + joined(answers);
    let together = exchanges(opened(e0, payments), replies);
    law_batch_succeeds_if_its_payments_do(e0, payments, answers);
    law_batch_asks_what_its_payments_ask(e0, payments, answers);
    lemma_follows_parts(host, world, exchanges_one_by_one(e0, payments, answers), after);
    lemma_follows_parts(host, world, together, after);
    assert(valid_run(opened(e0, payments), replies));
}

proof fn lemma_host_decides_replies<T>(
    start: Run,
    host: spec_fn(T, Request) -> (T, Reply),
    world: T,
    a: Seq<Reply>,
    b: Seq<Reply>,
)
    requires
        valid_run(start, a),
        valid_run(start, b),
        follows(host, world, exchanges(start, a)) is Some,
        follows(host, world, exchanges(start, b)) is Some,
        a.len() <= b.len(),
    ensures
        a == b.take(a.len() as int),
    decreases a.len() + b.len(),
{
    if b.len() > 0 {
        let before = b.drop_last();
        assert(exchanges(start, b).drop_last() =~= exchanges(start, before));
        if a.len() < b.len() {
            lemma_host_decides_replies(start, host, world, a, before);
            assert(b.take(a.len() as int) =~= before.take(a.len() as int));
        } else {
            assert(exchanges(start, a).drop_last() =~= exchanges(start, a.drop_last()));
            lemma_host_decides_replies(start, host, world, a.drop_last(), before);
            assert(before.take(before.len() as int) =~= before);
            assert(a.last() == b.last());
            assert(a =~= a.drop_last().push(a.last()));
            assert(b =~= before.push(b.last()));
        }
    }
    assert(a =~= b.take(a.len() as int));
}

/// A run that has ended is not the beginning of a longer one.
proof fn lemma_end_comes_once(start: Run, a: Seq<Reply>, b: Seq<Reply>)
    requires
        run(start, a).0.phase is Finished,
        valid_run(start, b),
        a.len() <= b.len(),
        a == b.take(a.len() as int),
    ensures
        a == b,
{
    let rest = b.skip(a.len() as int);
    assert(b =~= a + rest);
    assert(rest == Seq::<Reply>::empty()) by {
        lemma_run_concat(start, a, rest);
        lemma_finished_stays(run(start, a), rest);
    }
    assert(b =~= a);
}

/// A host leaves a batch one way to end: the replies, and with them the result, the
/// ledger entries and the state of the host, are fixed by the state that it starts in.
pub proof fn law_host_decides_how_a_batch_ends<T>(
    start: Run,
    host: spec_fn(T, Request) -> (T, Reply),
    world: T,
    a: Seq<Reply>,
    b: Seq<Reply>,
)
    requires
        valid_run(start, a),
        valid_run(start, b),
        run(start, a).0.phase is Finished,
        run(start, b).0.phase is Finished,
        follows(host, world, exchanges(start, a)) is Some,
        follows(host, world, exchanges(start, b)) is Some,
    ensures
        a == b,
{
    if a.len() <= b.len() {
        lemma_host_decides_replies(start, host, world, a, b);
        lemma_end_comes_once(start, a, b);
    } else {
        lemma_host_decides_replies(start, host, world, b, a);
        lemma_end_comes_once(start, b, a);
    }
}

} // verus!
