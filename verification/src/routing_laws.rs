//! Laws of routing: what holds of every batch, whatever the host answers.

use vstd::prelude::*;
use crate::fees::{above_threshold, fits_i128, law_fee_bounded, law_fee_not_negative};
use crate::invocation::{FeeTerms, InvocationView, StorageView};
use crate::router::PaymentRouter;
use crate::routing::{
    admitted, credited, fee_for, kyc_rule, objection, opened, recorded, require_all,
    saturating_sum, screened, senders, Phase, Reply, Request, RoutingView, Run, Screening,
    TransferReply,
};
use crate::spending::{charged, current_window};
use crate::table::{Membership, UserToken};
use crate::types::{Address, Error, Payment, Role, UserSpending};

verus! {

/// Where a batch stands after a sequence of replies.
pub open spec fn run(start: Run, replies: Seq<Reply>) -> Run
    decreases replies.len(),
{
    if replies.len() == 0 {
        start
    } else {
        let before = run(start, replies.drop_last());
        before.0.advance(before.1, replies.last())
    }
}

/// Whether each reply in turn is one that the batch is waiting for.
pub open spec fn valid_run(start: Run, replies: Seq<Reply>) -> bool
    decreases replies.len(),
{
    replies.len() == 0 || {
        let before = run(start, replies.drop_last());
        &&& valid_run(start, replies.drop_last())
        &&& before.0.accepts(before.1, replies.last())
    }
}

/// The lifetime volumes after the payments have been made.
pub open spec fn volumes_after(
    volumes: Map<Address, i128>,
    payments: Seq<Payment>,
) -> Map<Address, i128>
    decreases payments.len(),
{
    if payments.len() == 0 {
        volumes
    } else {
        let before = volumes_after(volumes, payments.drop_last());
        let p = payments.last();
        before.insert(p.sender, saturating_sum(before.get(p.sender).unwrap_or(0), p.amount))
    }
}

/// The spending windows after the payments have been counted at time `now`, or
/// `None` if one of them exceeds a daily limit.
pub open spec fn windows_after(
    windows: Map<Address, UserSpending>,
    payments: Seq<Payment>,
    now: u64,
) -> Option<Map<Address, UserSpending>>
    decreases payments.len(),
{
    if payments.len() == 0 {
        Some(windows)
    } else {
        let p = payments.last();
        match windows_after(windows, payments.drop_last(), now) {
            None => None,
            Some(before) => match charged(current_window(before.get(p.sender), now), p.amount) {
                None => None,
                Some(window) => Some(before.insert(p.sender, window)),
            },
        }
    }
}

/// Refund balances have only grown, and only those of the batch's senders in the
/// tokens that they sent.
pub open spec fn refunds_grown(
    before: Map<UserToken, i128>,
    after: Map<UserToken, i128>,
    payments: Seq<Payment>,
) -> bool {
    forall|key: UserToken|
        #![trigger after.get(key)]
        after.get(key) != before.get(key) ==> {
            &&& after.get(key).unwrap_or(0) > before.get(key).unwrap_or(0)
            &&& exists|i: int|
                #![trigger payments[i]]
                0 <= i < payments.len() && payments[i].sender == key.user
                    && payments[i].token_address == key.token
        }
}

/// The payments before `end` are acceptable, apart from what the oracle says.
pub open spec fn acceptable_before(s: StorageView, payments: Seq<Payment>, end: int) -> bool {
    forall|i: int|
        #![trigger payments[i]]
        0 <= i < end ==> objection(s, payments[i]) is None && kyc_rule(s, payments[i].amount) is Ok
}

/// How many of the payments before `end` need the oracle's word.
pub open spec fn kyc_needed(s: StorageView, payments: Seq<Payment>, end: int) -> nat
    decreases end,
{
    if end <= 0 {
        0
    } else {
        kyc_needed(s, payments, end - 1) + if kyc_rule(s, payments[end - 1].amount) matches Ok(
            Some(_),
        ) {
            1nat
        } else {
            0
        }
    }
}

/// How often the oracle has vouched for a sender.
pub open spec fn vouched(replies: Seq<Reply>) -> nat
    decreases replies.len(),
{
    if replies.len() == 0 {
        0
    } else {
        vouched(replies.drop_last()) + if replies.last() == Reply::Verified(true) {
            1nat
        } else {
            0
        }
    }
}

/// The ledger entries while a batch is being processed: `made` payments are in
/// the volumes, `counted` payments are in the spending windows, and apart from
/// refunds nothing else has changed.
pub open spec fn processed(
    s0: StorageView,
    s: StorageView,
    payments: Seq<Payment>,
    now: u64,
    made: int,
    counted: int,
) -> bool {
    &&& windows_after(s0.user_spending, payments.take(counted), now) == Some(s.user_spending)
    &&& refunds_grown(s0.refund_balance, s.refund_balance, payments)
    &&& s == StorageView {
        user_volume: volumes_after(s0.user_volume, payments.take(made)),
        user_spending: s.user_spending,
        refund_balance: s.refund_balance,
        ..s0
    }
}

/// What is known when processing has begun: the batch was accepted as a whole,
/// and its senders were the first thing that the host was asked for.
pub open spec fn accepted(
    e0: InvocationView,
    e: InvocationView,
    payments: Seq<Payment>,
    replies: Seq<Reply>,
) -> bool {
    &&& !e0.storage.is_frozen()
    &&& !e0.storage.is_paused()
    &&& acceptable_before(e0.storage, payments, payments.len() as int)
    &&& vouched(replies) == kyc_needed(e0.storage, payments, payments.len() as int)
    &&& e0.storage.fee_terms() is Some
    &&& (e0.commands + require_all(senders(payments))).is_prefix_of(e.commands)
}

/// What relates a batch at any step to the invocation `e0` that it began in.
pub open spec fn on_track(e0: InvocationView, now: Run, replies: Seq<Reply>) -> bool {
    let (r, e) = now;
    &&& r.saved == e0.storage
    &&& e.contract == e0.contract
    &&& e.timestamp == e0.timestamp
    &&& match r.phase {
        Phase::Kyc { index, .. } => {
            &&& e == e0
            &&& !e0.storage.is_frozen()
            &&& !e0.storage.is_paused()
            &&& index < r.payments.len()
            &&& acceptable_before(e0.storage, r.payments, index + 1)
            &&& kyc_rule(e0.storage, r.payments[index as int].amount) matches Ok(Some(_))
            &&& vouched(replies) == kyc_needed(e0.storage, r.payments, index as int)
        },
        Phase::Balance { index, terms } => underway(e0, now, replies, index, terms),
        Phase::Fee { index, terms, .. } => underway(e0, now, replies, index, terms),
        Phase::Remainder { index, terms, .. } => underway(e0, now, replies, index, terms),
        Phase::Refund { index, terms, .. } => underway(e0, now, replies, index, terms),
        Phase::Finished(Err(_)) => e.storage == e0.storage,
        Phase::Finished(Ok(_)) => {
            &&& accepted(e0, e, r.payments, replies)
            &&& processed(
                e0.storage,
                e.storage,
                r.payments,
                e.timestamp,
                r.payments.len() as int,
                r.payments.len() as int,
            )
        },
    }
}

/// The payment at `index` is being processed.
pub open spec fn underway(
    e0: InvocationView,
    now: Run,
    replies: Seq<Reply>,
    index: usize,
    terms: FeeTerms,
) -> bool {
    let (r, e) = now;
    &&& index < r.payments.len()
    &&& e0.storage.fee_terms() == Some(terms)
    &&& accepted(e0, e, r.payments, replies)
    &&& processed(e0.storage, e.storage, r.payments, e.timestamp, index as int, index + 1)
}

/// What the screening of the payments from `from` on tells.
proof fn lemma_screened(s: StorageView, payments: Seq<Payment>, from: int)
    requires
        0 <= from <= payments.len() <= usize::MAX,
        acceptable_before(s, payments, from),
    ensures
        match screened(s, payments, from) {
            Screening::Cleared => {
                &&& acceptable_before(s, payments, payments.len() as int)
                &&& kyc_needed(s, payments, payments.len() as int) == kyc_needed(s, payments, from)
            },
            Screening::NeedsKyc { index, oracle } => {
                &&& from <= index < payments.len()
                &&& acceptable_before(s, payments, index + 1)
                &&& kyc_rule(s, payments[index as int].amount) == Ok::<Option<Address>, Error>(
                    Some(oracle),
                )
                &&& kyc_needed(s, payments, index as int) == kyc_needed(s, payments, from)
            },
            Screening::Refused(_) => true,
        },
    decreases payments.len() - from,
{
    if from < payments.len() {
        if objection(s, payments[from]) is None && kyc_rule(s, payments[from].amount) == Ok::<
            Option<Address>,
            Error,
        >(None) {
            lemma_screened(s, payments, from + 1);
        }
    }
}

/// Beginning the payment at `index` keeps a batch on track.
proof fn lemma_begin_on_track(
    e0: InvocationView,
    r: RoutingView,
    e: InvocationView,
    replies: Seq<Reply>,
    index: int,
    terms: FeeTerms,
)
    requires
        r.saved == e0.storage,
        e.contract == e0.contract,
        e.timestamp == e0.timestamp,
        0 <= index <= r.payments.len() <= usize::MAX,
        e0.storage.fee_terms() == Some(terms),
        accepted(e0, e, r.payments, replies),
        processed(e0.storage, e.storage, r.payments, e.timestamp, index, index),
    ensures
        on_track(e0, r.begin(e, index, terms), replies),
{
    if index < r.payments.len() {
        let p = r.payments[index];
        assert(r.payments.take(index + 1).drop_last() =~= r.payments.take(index));
        assert(r.payments.take(index + 1).last() == p);
    } else {
        assert(r.payments.take(index) =~= r.payments);
    }
}

/// Recording the payment at `index` moves it from the counted to the made ones.
proof fn lemma_settle_on_track(
    e0: InvocationView,
    r: RoutingView,
    e: InvocationView,
    replies: Seq<Reply>,
    index: usize,
    terms: FeeTerms,
)
    requires
        r.saved == e0.storage,
        e.contract == e0.contract,
        e.timestamp == e0.timestamp,
        r.payments.len() <= usize::MAX,
        underway(e0, (r, e), replies, index, terms),
    ensures
        on_track(e0, r.settle(e, index, terms), replies),
{
    let p = r.payments[index as int];
    let next = recorded(e, p);
    assert(r.payments.take(index + 1).drop_last() =~= r.payments.take(index as int));
    assert(r.payments.take(index + 1).last() == p);
    assert(next.storage.refund_balance == e.storage.refund_balance);
    lemma_begin_on_track(e0, r, next, replies, index + 1, terms);
}

/// Crediting a refund for the payment at `index` keeps a batch underway.
proof fn lemma_credit_underway(
    e0: InvocationView,
    r: RoutingView,
    e: InvocationView,
    replies: Seq<Reply>,
    index: usize,
    terms: FeeTerms,
    remainder: i128,
)
    requires
        underway(e0, (r, e), replies, index, terms),
        remainder > 0,
        fits_i128(
            e.storage.refund(
                r.payments[index as int].sender,
                r.payments[index as int].token_address,
            ) + remainder,
        ),
    ensures
        underway(
            e0,
            (
                r,
                credited(
                    e,
                    r.payments[index as int].sender,
                    r.payments[index as int].token_address,
                    remainder,
                ),
            ),
            replies,
            index,
            terms,
        ),
{
    let p = r.payments[index as int];
    let key = UserToken { user: p.sender, token: p.token_address };
    let next = credited(e, p.sender, p.token_address, remainder);
    let (b0, b1, b2) = (
        e0.storage.refund_balance,
        e.storage.refund_balance,
        next.storage.refund_balance,
    );
    assert forall|k: UserToken| #![trigger b2.get(k)] b2.get(k) != b0.get(k) implies {
        &&& b2.get(k).unwrap_or(0) > b0.get(k).unwrap_or(0)
        &&& exists|i: int|
            #![trigger r.payments[i]]
            0 <= i < r.payments.len() && r.payments[i].sender == k.user
                && r.payments[i].token_address == k.token
    } by {
        if k != key {
            assert(b2.get(k) == b1.get(k));
        } else {
            assert(b1.get(k) != b0.get(k) ==> b1.get(k).unwrap_or(0) > b0.get(k).unwrap_or(0));
            assert(r.payments[index as int].sender == k.user);
        }
    }
}

/// When the senders are asked, the batch stays on track.
proof fn lemma_authorize_on_track(
    e0: InvocationView,
    r: RoutingView,
    replies: Seq<Reply>,
)
    requires
        r.saved == e0.storage,
        r.payments.len() <= usize::MAX,
        !e0.storage.is_frozen(),
        !e0.storage.is_paused(),
        acceptable_before(e0.storage, r.payments, r.payments.len() as int),
        vouched(replies) == kyc_needed(e0.storage, r.payments, r.payments.len() as int),
    ensures
        on_track(e0, r.authorize(e0), replies),
{
    let asked = InvocationView {
        commands: e0.commands + require_all(senders(r.payments)),
        ..e0
    };
    match e0.storage.fee_terms() {
        None => {},
        Some(terms) => {
            let e = asked.extend_instance();
            assert(r.payments.take(0) =~= Seq::empty());
            assert(refunds_grown(
                e0.storage.refund_balance,
                e.storage.refund_balance,
                r.payments,
            ));
            lemma_begin_on_track(e0, r, e, replies, 0, terms);
        },
    }
}

/// When screening goes on from a place where all is well, the batch stays on track.
proof fn lemma_screen_on_track(
    e0: InvocationView,
    r: RoutingView,
    replies: Seq<Reply>,
    from: int,
)
    requires
        r.saved == e0.storage,
        0 <= from <= r.payments.len() <= usize::MAX,
        !e0.storage.is_frozen(),
        !e0.storage.is_paused(),
        acceptable_before(e0.storage, r.payments, from),
        vouched(replies) == kyc_needed(e0.storage, r.payments, from),
    ensures
        on_track(e0, r.screen(e0, from), replies),
{
    lemma_screened(e0.storage, r.payments, from);
    match screened(e0.storage, r.payments, from) {
        Screening::Cleared => {
            lemma_authorize_on_track(e0, r, replies);
        },
        _ => {},
    }
}

/// One more reply keeps a batch on track.
proof fn lemma_advance_on_track(
    e0: InvocationView,
    now: Run,
    replies: Seq<Reply>,
    reply: Reply,
)
    requires
        on_track(e0, now, replies),
        now.0.wf(now.1),
        now.0.accepts(now.1, reply),
        now.0.payments.len() <= usize::MAX,
    ensures
        on_track(e0, now.0.advance(now.1, reply), replies.push(reply)),
{
    let (r, e) = now;
    let more = replies.push(reply);
    assert(more.drop_last() =~= replies);
    assert(vouched(more) == vouched(replies) + if reply == Reply::Verified(true) {
        1nat
    } else {
        0
    });
    match (r.phase, reply) {
        (Phase::Kyc { index, .. }, Reply::Verified(verified)) => {
            if verified {
                lemma_screen_on_track(e0, r, more, index + 1);
            }
        },
        (Phase::Balance { index, terms }, Reply::Balance(_)) => {
            assert(underway(e0, now, more, index, terms));
            lemma_settle_on_track(e0, r, e, more, index, terms);
        },
        (Phase::Fee { index, terms, .. }, Reply::Transfer(_)) => {
            assert(underway(e0, now, more, index, terms));
            lemma_settle_on_track(e0, r, e, more, index, terms);
        },
        (Phase::Remainder { index, terms, .. }, Reply::Transfer(_)) => {
            assert(underway(e0, now, more, index, terms));
            lemma_settle_on_track(e0, r, e, more, index, terms);
        },
        (Phase::Refund { index, terms, remainder }, Reply::Transfer(outcome)) => {
            assert(underway(e0, now, more, index, terms));
            if outcome == TransferReply::Done {
                let p = r.payments[index as int];
                lemma_credit_underway(e0, r, e, more, index, terms, remainder);
                lemma_settle_on_track(
                    e0,
                    r,
                    credited(e, p.sender, p.token_address, remainder),
                    more,
                    index,
                    terms,
                );
            }
        },
        _ => {},
    }
}

// What holds of the machine itself.

/// Beginning a payment leaves a well-formed batch.
proof fn lemma_begin_wf(r: RoutingView, e: InvocationView, index: int, terms: FeeTerms)
    requires
        0 <= index <= r.payments.len() <= usize::MAX,
        r.positive_before(r.payments.len() as int),
        e.storage.fee_terms() == Some(terms),
    ensures
        r.begin(e, index, terms).0.wf(r.begin(e, index, terms).1),
        r.begin(e, index, terms).0.payments == r.payments,
{
}

/// Screening leaves a well-formed batch.
proof fn lemma_screen_wf(r: RoutingView, e: InvocationView, from: int)
    requires
        0 <= from <= r.payments.len() <= usize::MAX,
        acceptable_before(e.storage, r.payments, from),
    ensures
        r.screen(e, from).0.wf(r.screen(e, from).1),
        r.screen(e, from).0.payments == r.payments,
{
    lemma_screened(e.storage, r.payments, from);
    match screened(e.storage, r.payments, from) {
        Screening::Cleared => {
            match e.storage.fee_terms() {
                None => {},
                Some(terms) => {
                    let asked = InvocationView {
                        commands: e.commands + require_all(senders(r.payments)),
                        ..e
                    };
                    lemma_begin_wf(r, asked.extend_instance(), 0, terms);
                },
            }
        },
        _ => {},
    }
}

/// An accepted reply leaves a well-formed batch.
proof fn lemma_advance_wf(
    e0: InvocationView,
    now: Run,
    replies: Seq<Reply>,
    reply: Reply,
)
    requires
        on_track(e0, now, replies),
        now.0.wf(now.1),
        now.0.accepts(now.1, reply),
        now.0.payments.len() <= usize::MAX,
    ensures
        now.0.advance(now.1, reply).0.wf(now.0.advance(now.1, reply).1),
        now.0.advance(now.1, reply).0.payments == now.0.payments,
{
    let (r, e) = now;
    match (r.phase, reply) {
        (Phase::Kyc { index, .. }, Reply::Verified(verified)) => {
            if verified {
                lemma_screen_wf(r, e, index + 1);
            }
        },
        (Phase::Balance { index, terms }, _) => {
            lemma_begin_wf(r, recorded(e, r.payments[index as int]), index + 1, terms);
        },
        (Phase::Fee { index, terms, .. }, _) => {
            lemma_begin_wf(r, recorded(e, r.payments[index as int]), index + 1, terms);
        },
        (Phase::Remainder { index, terms, .. }, _) => {
            lemma_begin_wf(r, recorded(e, r.payments[index as int]), index + 1, terms);
        },
        (Phase::Refund { index, terms, remainder }, _) => {
            let p = r.payments[index as int];
            let next = recorded(credited(e, p.sender, p.token_address, remainder), p);
            lemma_begin_wf(r, next, index + 1, terms);
        },
        _ => {},
    }
}

/// How many more answers a batch can take.
pub open spec fn steps_left(r: RoutingView) -> int {
    let n = r.payments.len();
    match r.phase {
        Phase::Kyc { index, .. } => 4 * n + (n - index),
        Phase::Balance { index, .. } => 4 * (n - index),
        Phase::Fee { index, .. } => 4 * (n - index) - 1,
        Phase::Remainder { index, .. } => 4 * (n - index) - 2,
        Phase::Refund { index, .. } => 4 * (n - index) - 3,
        Phase::Finished(_) => 0,
    }
}

/// Each accepted reply uses up one of them.
proof fn lemma_steps_left(
    e0: InvocationView,
    now: Run,
    replies: Seq<Reply>,
    reply: Reply,
)
    requires
        on_track(e0, now, replies),
        now.0.wf(now.1),
        now.0.accepts(now.1, reply),
        now.0.payments.len() <= usize::MAX,
    ensures
        steps_left(now.0.advance(now.1, reply).0) < steps_left(now.0),
{
    let (r, e) = now;
    match r.phase {
        Phase::Kyc { index, .. } => {
            lemma_screened(e.storage, r.payments, index + 1);
        },
        _ => {},
    }
}

/// What is known of a batch after any replies that it accepts.
pub(crate) proof fn lemma_run(e0: InvocationView, payments: Seq<Payment>, replies: Seq<Reply>)
    requires
        e0.wf(),
        payments.len() <= usize::MAX,
        valid_run(opened(e0, payments), replies),
    ensures
        ({
            let now = run(opened(e0, payments), replies);
            &&& now.0.payments == payments
            &&& now.0.wf(now.1)
            &&& on_track(e0, now, replies)
            &&& replies.len() + steps_left(now.0) <= 5 * payments.len()
        }),
    decreases replies.len(),
{
    if replies.len() == 0 {
        let r = RoutingView { payments, saved: e0.storage, phase: Phase::Finished(Ok(())) };
        if !e0.storage.is_frozen() && !e0.storage.is_paused() {
            lemma_screen_on_track(e0, r, replies, 0);
            lemma_screen_wf(r, e0, 0);
        }
    } else {
        let before = run(opened(e0, payments), replies.drop_last());
        lemma_run(e0, payments, replies.drop_last());
        lemma_advance_on_track(e0, before, replies.drop_last(), replies.last());
        lemma_advance_wf(e0, before, replies.drop_last(), replies.last());
        lemma_steps_left(e0, before, replies.drop_last(), replies.last());
        assert(replies.drop_last().push(replies.last()) =~= replies);
    }
}

/// Lifetime volumes stay non-negative.
proof fn lemma_volumes_after(volumes: Map<Address, i128>, payments: Seq<Payment>)
    requires
        forall|user: Address| #[trigger] volumes.contains_key(user) ==> volumes[user] >= 0,
        forall|i: int| #![trigger payments[i]] 0 <= i < payments.len() ==> payments[i].amount > 0,
    ensures
        forall|user: Address| #[trigger]
            volumes_after(volumes, payments).contains_key(user) ==> volumes_after(
                volumes,
                payments,
            )[user] >= 0,
    decreases payments.len(),
{
    if payments.len() > 0 {
        let before = volumes_after(volumes, payments.drop_last());
        let p = payments.last();
        lemma_volumes_after(volumes, payments.drop_last());
        assert(p.amount > 0);
        assert(before.get(p.sender).unwrap_or(0) >= 0) by {
            if before.contains_key(p.sender) {
                assert(before[p.sender] >= 0);
            }
        }
    }
}

/// Spending windows stay within their limits.
proof fn lemma_windows_after(windows: Map<Address, UserSpending>, payments: Seq<Payment>, now: u64)
    requires
        forall|user: Address| #[trigger]
            windows.contains_key(user) ==> {
                &&& windows[user].last_reset_time <= now
                &&& 0 <= windows[user].accumulated_amount <= PaymentRouter::DAILY_MAX_LIMIT
            },
        forall|i: int| #![trigger payments[i]] 0 <= i < payments.len() ==> payments[i].amount > 0,
        windows_after(windows, payments, now) is Some,
    ensures
        ({
            let after = windows_after(windows, payments, now)->0;
            forall|user: Address| #[trigger]
                after.contains_key(user) ==> {
                    &&& after[user].last_reset_time <= now
                    &&& 0 <= after[user].accumulated_amount <= PaymentRouter::DAILY_MAX_LIMIT
                }
        }),
    decreases payments.len(),
{
    if payments.len() > 0 {
        lemma_windows_after(windows, payments.drop_last(), now);
        assert(payments.last().amount > 0);
    }
}

/// The entries of a batch being processed are well-formed.
proof fn lemma_processed_wf(
    s0: StorageView,
    s: StorageView,
    payments: Seq<Payment>,
    now: u64,
    made: int,
    counted: int,
)
    requires
        s0.wf(now),
        acceptable_before(s0, payments, payments.len() as int),
        0 <= made <= payments.len(),
        0 <= counted <= payments.len(),
        processed(s0, s, payments, now, made, counted),
    ensures
        s.wf(now),
{
    assert forall|i: int|
        #![trigger payments[i]]
        0 <= i < payments.len() implies payments[i].amount > 0 by {
        assert(objection(s0, payments[i]) is None);
    }
    lemma_volumes_after(s0.user_volume, payments.take(made));
    lemma_windows_after(s0.user_spending, payments.take(counted), now);
    assert forall|key: UserToken| #[trigger]
        s.refund_balance.contains_key(key) implies s.refund_balance[key] > 0 by {
        if s.refund_balance.get(key) == s0.refund_balance.get(key) {
            assert(s0.refund_balance.contains_key(key));
        } else if s0.refund_balance.contains_key(key) {
            assert(s0.refund_balance[key] > 0);
        }
    }
    assert(s.roles == s0.roles && s.user_role == s0.user_role);
    assert(s.timelock_entries == s0.timelock_entries);
    assert(s.yield_principal == s0.yield_principal);
    assert(s.balances_positive());
    assert(windows_after(s0.user_spending, payments.take(counted), now)->0 == s.user_spending);
    assert(s.spending_in_limits(now));
    assert forall|nonce: u64| #[trigger] s.timelock_entries.contains_key(nonce) implies {
        &&& 1 <= nonce <= s.nonce()
        &&& s.timelock_entries[nonce].queued_at <= now
    } by {
        assert(s0.timelock_entries.contains_key(nonce));
    }
    assert forall|role: Role| #[trigger] s.roles.contains_key(role) implies s.user_role.get(
        Membership { account: s.roles[role], role },
    ) == Some(true) by {
        assert(s0.roles.contains_key(role));
    }
}

// The laws.

/// A batch that fails leaves every ledger entry as it was.
pub proof fn law_failed_batch_changes_nothing(
    e0: InvocationView,
    payments: Seq<Payment>,
    replies: Seq<Reply>,
)
    requires
        e0.wf(),
        payments.len() <= usize::MAX,
        valid_run(opened(e0, payments), replies),
        run(opened(e0, payments), replies).0.phase matches Phase::Finished(Err(_)),
    ensures
        run(opened(e0, payments), replies).1.storage == e0.storage,
{
    lemma_run(e0, payments, replies);
}

/// A batch that succeeds has made every payment: each sender's volume grew by
/// what they sent, each amount was counted against its sender's daily limit and
/// stayed within it, refund balances only grew, and only for senders of the
/// batch, and no other ledger entry changed.
pub proof fn law_successful_batch_makes_every_payment(
    e0: InvocationView,
    payments: Seq<Payment>,
    replies: Seq<Reply>,
)
    requires
        e0.wf(),
        payments.len() <= usize::MAX,
        valid_run(opened(e0, payments), replies),
        run(opened(e0, payments), replies).0.phase == Phase::Finished(Ok(())),
    ensures
        ({
            let s = run(opened(e0, payments), replies).1.storage;
            &&& windows_after(e0.storage.user_spending, payments, e0.timestamp) == Some(
                s.user_spending,
            )
            &&& refunds_grown(e0.storage.refund_balance, s.refund_balance, payments)
            &&& s == StorageView {
                user_volume: volumes_after(e0.storage.user_volume, payments),
                user_spending: s.user_spending,
                refund_balance: s.refund_balance,
                ..e0.storage
            }
        }),
{
    lemma_run(e0, payments, replies);
    let n = payments.len() as int;
    let s = run(opened(e0, payments), replies).1.storage;
    assert(payments.take(n) =~= payments);
    assert(processed(e0.storage, s, payments, e0.timestamp, n, n));
}

/// A batch succeeds only if the contract was neither frozen nor paused, the fee
/// configuration was set, no payment was objectionable, and the oracle vouched
/// once for each payment above the KYC threshold.
pub proof fn law_only_acceptable_batches_succeed(
    e0: InvocationView,
    payments: Seq<Payment>,
    replies: Seq<Reply>,
)
    requires
        e0.wf(),
        payments.len() <= usize::MAX,
        valid_run(opened(e0, payments), replies),
        run(opened(e0, payments), replies).0.phase == Phase::Finished(Ok(())),
    ensures
        !e0.storage.is_frozen(),
        !e0.storage.is_paused(),
        e0.storage.fee_terms() is Some,
        acceptable_before(e0.storage, payments, payments.len() as int),
        vouched(replies) == kyc_needed(e0.storage, payments, payments.len() as int),
{
    lemma_run(e0, payments, replies);
}

/// No balance is asked for and no token is moved before every sender of the
/// batch has been asked to authorize it.
pub proof fn law_senders_authorize_first(
    e0: InvocationView,
    payments: Seq<Payment>,
    replies: Seq<Reply>,
)
    requires
        e0.wf(),
        payments.len() <= usize::MAX,
        valid_run(opened(e0, payments), replies),
    ensures
        ({
            let now = run(opened(e0, payments), replies);
            match now.0.requested(e0.contract) {
                Some(Request::Balance { .. }) | Some(Request::Transfer { .. }) => (e0.commands
                    + require_all(senders(payments))).is_prefix_of(now.1.commands),
                Some(Request::IsVerified { .. }) => now.1 == e0,
                None => true,
            }
        }),
{
    lemma_run(e0, payments, replies);
}

/// Each sender of a batch is asked exactly once, however many payments they make.
pub proof fn law_each_sender_is_asked_once(payments: Seq<Payment>)
    ensures
        senders(payments).no_duplicates(),
        forall|account: Address| #[trigger]
            senders(payments).contains(account) <==> exists|i: int|
                0 <= i < payments.len() && (#[trigger] payments[i]).sender == account,
    decreases payments.len(),
{
    if payments.len() > 0 {
        let init = payments.drop_last();
        let last = payments.last().sender;
        let before = senders(init);
        law_each_sender_is_asked_once(init);
        assert forall|account: Address| #[trigger]
            senders(payments).contains(account) <==> exists|i: int|
                0 <= i < payments.len() && (#[trigger] payments[i]).sender == account by {
            if senders(payments).contains(account) {
                if account == last {
                    assert(payments[payments.len() - 1].sender == account);
                } else {
                    assert(before.contains(account));
                    let i = choose|i: int|
                        0 <= i < init.len() && (#[trigger] init[i]).sender == account;
                    assert(payments[i].sender == account);
                }
            }
            if exists|i: int|
                0 <= i < payments.len() && (#[trigger] payments[i]).sender == account {
                let i = choose|i: int|
                    0 <= i < payments.len() && (#[trigger] payments[i]).sender == account;
                if i < init.len() {
                    assert(init[i].sender == account);
                    assert(before.contains(account));
                    if !before.contains(last) {
                        let j = before.index_of(account);
                        assert(before.push(last)[j] == account);
                    }
                } else if !before.contains(last) {
                    assert(before.push(last)[before.len() as int] == account);
                }
            }
        }
    }
}

/// A batch of n payments takes at most 5 n answers, so it always comes to an
/// end; and until then it waits for exactly one.
pub proof fn law_batches_end(e0: InvocationView, payments: Seq<Payment>, replies: Seq<Reply>)
    requires
        e0.wf(),
        payments.len() <= usize::MAX,
        valid_run(opened(e0, payments), replies),
    ensures
        replies.len() <= 5 * payments.len(),
        run(opened(e0, payments), replies).0.phase is Finished <==> run(
            opened(e0, payments),
            replies,
        ).0.requested(e0.contract) is None,
{
    lemma_run(e0, payments, replies);
}

/// The ledger entries stay well-formed at every step of a batch.
pub proof fn law_batches_keep_entries_well_formed(
    e0: InvocationView,
    payments: Seq<Payment>,
    replies: Seq<Reply>,
)
    requires
        e0.wf(),
        payments.len() <= usize::MAX,
        valid_run(opened(e0, payments), replies),
    ensures
        run(opened(e0, payments), replies).1.wf(),
{
    lemma_run(e0, payments, replies);
    let now = run(opened(e0, payments), replies);
    let s = now.1.storage;
    match now.0.phase {
        Phase::Balance { index, .. } | Phase::Fee { index, .. } | Phase::Remainder { index, .. }
        | Phase::Refund { index, .. } => {
            lemma_processed_wf(
                e0.storage,
                s,
                payments,
                e0.timestamp,
                index as int,
                index + 1,
            );
        },
        Phase::Finished(Ok(_)) => {
            lemma_processed_wf(
                e0.storage,
                s,
                payments,
                e0.timestamp,
                payments.len() as int,
                payments.len() as int,
            );
        },
        _ => {},
    }
}

/// A failed fee transfer aborts the invocation: no batch goes on from it, neither
/// to success nor to an error.
pub proof fn law_failed_fee_transfer_aborts(start: Run, replies: Seq<Reply>)
    requires
        run(start, replies).0.phase is Fee,
    ensures
        !valid_run(start, replies.push(Reply::Transfer(TransferReply::Failed))),
{
    let more = replies.push(Reply::Transfer(TransferReply::Failed));
    assert(more.drop_last() =~= replies);
}

/// Well-formed entries never keep a batch from going on: it goes on from every
/// answer to its question but the failure of a fee transfer, as long as the amounts
/// stay within range.
pub proof fn law_answers_are_accepted(
    e0: InvocationView,
    payments: Seq<Payment>,
    replies: Seq<Reply>,
    reply: Reply,
)
    requires
        e0.wf(),
        payments.len() <= usize::MAX,
        valid_run(opened(e0, payments), replies),
    ensures
        admitted(e0, payments),
        ({
            let (r, e) = run(opened(e0, payments), replies);
            r.accepts(e, reply) == match (r.phase, reply) {
                (Phase::Kyc { .. }, Reply::Verified(_)) => true,
                (Phase::Balance { index, terms }, Reply::Balance(balance)) => {
                    let p = payments[index as int];
                    balance >= p.amount ==> fits_i128(p.amount - fee_for(e.storage, p, terms))
                },
                (Phase::Fee { .. }, Reply::Transfer(outcome)) => outcome != TransferReply::Failed,
                (Phase::Remainder { .. }, Reply::Transfer(_)) => true,
                (Phase::Refund { index, remainder, .. }, Reply::Transfer(outcome)) => {
                    let p = payments[index as int];
                    outcome == TransferReply::Done ==> fits_i128(
                        e.storage.refund(p.sender, p.token_address) + remainder,
                    )
                },
                _ => false,
            }
        }),
{
    lemma_run(e0, payments, replies);
    law_batches_keep_entries_well_formed(e0, payments, replies);
    let (r, e) = run(opened(e0, payments), replies);
    assert forall|i: int| #[trigger] r.clock_ok(e, i) by {}
}

/// A frozen contract refuses every batch, and so does a paused one. Nothing is
/// asked of the host, and nothing changes.
pub proof fn law_frozen_or_paused_refuses_payments(e0: InvocationView, payments: Seq<Payment>)
    requires
        e0.storage.is_frozen() || e0.storage.is_paused(),
    ensures
        opened(e0, payments).0.phase == Phase::Finished(
            Err(
                if e0.storage.is_frozen() {
                    Error::ContractFrozen
                } else {
                    Error::Paused
                },
            ),
        ),
        opened(e0, payments).1 == e0,
{
}

/// A sender whom the oracle does not vouch for is refused, before anyone is
/// asked to authorize, and nothing changes.
pub proof fn law_unverified_sender_is_refused(
    e0: InvocationView,
    payments: Seq<Payment>,
    replies: Seq<Reply>,
)
    requires
        e0.wf(),
        payments.len() <= usize::MAX,
        valid_run(opened(e0, payments), replies),
        run(opened(e0, payments), replies).0.phase is Kyc,
    ensures
        ({
            let now = run(opened(e0, payments), replies);
            let next = now.0.advance(now.1, Reply::Verified(false));
            &&& next.0.phase == Phase::Finished(Err(Error::KycRequired))
            &&& next.1 == e0
        }),
{
    lemma_run(e0, payments, replies);
}

/// Whether nothing speaks against a payment as far as the contract itself can
/// tell, and its amounts are within range.
pub open spec fn ready(e0: InvocationView, p: Payment) -> bool {
    &&& !e0.storage.is_frozen()
    &&& !e0.storage.is_paused()
    &&& objection(e0.storage, p) is None
    &&& kyc_rule(e0.storage, p.amount) == Ok::<Option<Address>, Error>(None)
    &&& e0.storage.fee_terms() is Some
    &&& charged(current_window(e0.storage.user_spending.get(p.sender), e0.timestamp), p.amount)
        is Some
    &&& fits_i128(p.amount - fee_for(e0.storage, p, e0.storage.fee_terms()->0))
}

/// The ledger entries after a payment has been made.
pub open spec fn paid(e0: InvocationView, p: Payment) -> StorageView {
    StorageView {
        user_spending: e0.storage.user_spending.insert(
            p.sender,
            charged(
                current_window(e0.storage.user_spending.get(p.sender), e0.timestamp),
                p.amount,
            )->0,
        ),
        user_volume: e0.storage.user_volume.insert(
            p.sender,
            saturating_sum(e0.storage.volume(p.sender), p.amount),
        ),
        ..e0.storage
    }
}

/// A payment that is ready and covered by the sender's balance is made: the fee
/// goes from the sender to the treasury, the rest of the amount from the sender
/// to the recipient, and the payment is counted.
pub proof fn law_payment_is_delivered(e0: InvocationView, p: Payment, balance: i128)
    requires
        ready(e0, p),
        balance >= p.amount,
    ensures
        ({
            let terms = e0.storage.fee_terms()->0;
            let fee = fee_for(e0.storage, p, terms);
            let rest = p.amount - fee;
            let (r1, e1) = opened(e0, seq![p]);
            let (r2, e2) = r1.advance(e1, Reply::Balance(balance));
            let (r3, e3) = if fee > 0 {
                r2.advance(e2, Reply::Transfer(TransferReply::Done))
            } else {
                (r2, e2)
            };
            let (r4, e4) = if rest > 0 {
                r3.advance(e3, Reply::Transfer(TransferReply::Done))
            } else {
                (r3, e3)
            };
            &&& r1.requested(e0.contract) == Some(
                Request::Balance { token: p.token_address, account: p.sender },
            )
            &&& fee > 0 ==> r2.requested(e0.contract) == Some(
                Request::Transfer {
                    token: p.token_address,
                    from: p.sender,
                    to: terms.platform_treasury,
                    amount: fee as i128,
                },
            )
            &&& rest > 0 ==> r3.requested(e0.contract) == Some(
                Request::Transfer {
                    token: p.token_address,
                    from: p.sender,
                    to: p.recipient,
                    amount: rest as i128,
                },
            )
            &&& r4.phase == Phase::Finished(Ok(()))
            &&& e4.storage == paid(e0, p)
        }),
{
    reveal_with_fuel(screened, 2);
    lemma_single_payment_begins(e0, p);
}

/// A payment that is ready, alone in its batch, goes on to ask for the balance.
proof fn lemma_single_payment_begins(e0: InvocationView, p: Payment)
    requires
        ready(e0, p),
    ensures
        ({
            let (r1, e1) = opened(e0, seq![p]);
            &&& r1.phase == Phase::Balance { index: 0, terms: e0.storage.fee_terms()->0 }
            &&& r1.payments == seq![p]
            &&& r1.saved == e0.storage
            &&& e1.timestamp == e0.timestamp
            &&& e1.storage == StorageView {
                user_spending: paid(e0, p).user_spending,
                ..e0.storage
            }
        }),
{
    reveal_with_fuel(screened, 2);
    assert(seq![p][0] == p);
}

/// A payment whose recipient cannot be paid goes to the contract instead, and
/// the sender can claim it back: their refund balance grows by exactly the
/// amount less the fee.
pub proof fn law_undeliverable_payment_becomes_refund(
    e0: InvocationView,
    p: Payment,
    balance: i128,
    refusal: TransferReply,
)
    requires
        ready(e0, p),
        balance >= p.amount,
        refusal != TransferReply::Done,
        fee_for(e0.storage, p, e0.storage.fee_terms()->0) < p.amount,
        fits_i128(
            e0.storage.refund(p.sender, p.token_address) + p.amount - fee_for(
                e0.storage,
                p,
                e0.storage.fee_terms()->0,
            ),
        ),
    ensures
        ({
            let terms = e0.storage.fee_terms()->0;
            let fee = fee_for(e0.storage, p, terms);
            let rest = p.amount - fee;
            let (r1, e1) = opened(e0, seq![p]);
            let (r2, e2) = r1.advance(e1, Reply::Balance(balance));
            let (r3, e3) = if fee > 0 {
                r2.advance(e2, Reply::Transfer(TransferReply::Done))
            } else {
                (r2, e2)
            };
            let (r4, e4) = r3.advance(e3, Reply::Transfer(refusal));
            let (r5, e5) = r4.advance(e4, Reply::Transfer(TransferReply::Done));
            &&& r4.requested(e0.contract) == Some(
                Request::Transfer {
                    token: p.token_address,
                    from: p.sender,
                    to: e0.contract,
                    amount: rest as i128,
                },
            )
            &&& r5.phase == Phase::Finished(Ok(()))
            &&& e5.storage == StorageView {
                refund_balance: e0.storage.refund_balance.insert(
                    UserToken { user: p.sender, token: p.token_address },
                    (e0.storage.refund(p.sender, p.token_address) + rest) as i128,
                ),
                ..paid(e0, p)
            }
        }),
{
    lemma_single_payment_begins(e0, p);
}

/// A payment above the sender's balance is refused, and nothing changes.
pub proof fn law_uncovered_payment_is_refused(e0: InvocationView, p: Payment, balance: i128)
    requires
        ready(e0, p),
        balance < p.amount,
    ensures
        ({
            let (r1, e1) = opened(e0, seq![p]);
            let (r2, e2) = r1.advance(e1, Reply::Balance(balance));
            &&& r2.phase == Phase::Finished(Err(Error::InsufficientBalance))
            &&& e2.storage == e0.storage
        }),
{
    lemma_single_payment_begins(e0, p);
}

// Where the money goes.

/// What `account` owes in `token` for a payment: its amount, if it is theirs.
pub open spec fn owed(p: Payment, account: Address, token: Address) -> int {
    if p.sender == account && p.token_address == token {
        p.amount as int
    } else {
        0
    }
}

/// What `account` owes in `token` for all of the payments.
pub open spec fn owed_in_all(payments: Seq<Payment>, account: Address, token: Address) -> int
    decreases payments.len(),
{
    if payments.len() == 0 {
        0
    } else {
        owed_in_all(payments.drop_last(), account, token) + owed(payments.last(), account, token)
    }
}

/// What a reply takes from `account` in `token`, given what was requested.
pub open spec fn taken(
    request: Option<Request>,
    reply: Reply,
    account: Address,
    token: Address,
) -> int {
    match request {
        Some(Request::Transfer { token: t, from, amount, .. }) => if t == token && from == account
            && reply == Reply::Transfer(TransferReply::Done) {
            amount as int
        } else {
            0
        },
        _ => 0,
    }
}

/// What the transfers of a run have taken from `account` in `token`.
pub open spec fn taken_in_all(
    start: Run,
    replies: Seq<Reply>,
    account: Address,
    token: Address,
) -> int
    decreases replies.len(),
{
    if replies.len() == 0 {
        0
    } else {
        let before = run(start, replies.drop_last());
        taken_in_all(start, replies.drop_last(), account, token) + taken(
            before.0.requested(before.1.contract),
            replies.last(),
            account,
            token,
        )
    }
}

/// What has been taken when a batch stands at `r`.
pub open spec fn settled(r: RoutingView, sum: int, account: Address, token: Address) -> bool {
    match r.phase {
        Phase::Kyc { .. } => sum == 0,
        Phase::Balance { index, .. } => sum == owed_in_all(
            r.payments.take(index as int),
            account,
            token,
        ),
        Phase::Fee { index, .. } => sum == owed_in_all(
            r.payments.take(index as int),
            account,
            token,
        ),
        Phase::Remainder { index, remainder, .. } | Phase::Refund { index, remainder, .. } => {
            let p = r.payments[index as int];
            sum == owed_in_all(r.payments.take(index as int), account, token) + if p.sender
                == account && p.token_address == token {
                p.amount - remainder
            } else {
                0
            }
        },
        Phase::Finished(Ok(_)) => sum == owed_in_all(r.payments, account, token),
        Phase::Finished(Err(_)) => true,
    }
}

/// Once the payment at `index` is paid in full, what was taken is what is owed.
proof fn lemma_settle_settled(
    r: RoutingView,
    e: InvocationView,
    index: usize,
    terms: FeeTerms,
    sum: int,
    account: Address,
    token: Address,
)
    requires
        index < r.payments.len() <= usize::MAX,
        sum == owed_in_all(r.payments.take(index + 1), account, token),
    ensures
        settled(r.settle(e, index, terms).0, sum, account, token),
{
    if index + 1 == r.payments.len() {
        assert(r.payments.take(index + 1) =~= r.payments);
    }
}

/// While the payment at `index` is processed, a reply keeps what was taken in step
/// with what is owed.
proof fn lemma_payment_settled(
    now: Run,
    reply: Reply,
    sum: int,
    account: Address,
    token: Address,
    index: usize,
    terms: FeeTerms,
)
    requires
        now.0.wf(now.1),
        now.0.accepts(now.1, reply),
        now.0.payments.len() <= usize::MAX,
        now.0.processing(now.1, index, terms),
        terms.fee_bps >= 0,
        terms.fee_cap >= 0,
        reply != Reply::Transfer(TransferReply::UnexpectedValue),
        settled(now.0, sum, account, token),
        match now.0.phase {
            Phase::Balance { index: i, terms: t } => i == index && t == terms,
            Phase::Fee { index: i, terms: t, .. } => i == index && t == terms,
            Phase::Remainder { index: i, terms: t, .. } => i == index && t == terms,
            Phase::Refund { index: i, terms: t, .. } => i == index && t == terms,
            _ => false,
        },
    ensures
        settled(
            now.0.advance(now.1, reply).0,
            sum + taken(now.0.requested(now.1.contract), reply, account, token),
            account,
            token,
        ),
{
    let (r, e) = now;
    let p = r.payments[index as int];
    let next_sum = sum + taken(r.requested(e.contract), reply, account, token);
    let discount = above_threshold(e.storage.volume(p.sender));
    law_fee_not_negative(p.amount, terms.fee_bps, terms.fee_cap, discount);
    law_fee_bounded(p.amount, terms.fee_bps, terms.fee_cap, discount);
    assert(r.payments.take(index + 1).drop_last() =~= r.payments.take(index as int));
    assert(r.payments.take(index + 1).last() == p);
    assert(owed_in_all(r.payments.take(index + 1), account, token) == owed_in_all(
        r.payments.take(index as int),
        account,
        token,
    ) + owed(p, account, token));
    if next_sum == owed_in_all(r.payments.take(index + 1), account, token) {
        lemma_settle_settled(r, e, index, terms, next_sum, account, token);
        if let Phase::Refund { remainder, .. } = r.phase {
            let credit = credited(e, p.sender, p.token_address, remainder);
            lemma_settle_settled(r, credit, index, terms, next_sum, account, token);
        }
    }
}

/// One more reply keeps what was taken in step with what is owed.
proof fn lemma_advance_settled(
    e0: InvocationView,
    now: Run,
    replies: Seq<Reply>,
    reply: Reply,
    sum: int,
    account: Address,
    token: Address,
)
    requires
        on_track(e0, now, replies),
        now.0.wf(now.1),
        now.0.accepts(now.1, reply),
        now.0.payments.len() <= usize::MAX,
        e0.storage.fee_bps.unwrap_or(0) >= 0,
        e0.storage.fee_cap.unwrap_or(0) >= 0,
        reply != Reply::Transfer(TransferReply::UnexpectedValue),
        settled(now.0, sum, account, token),
    ensures
        settled(
            now.0.advance(now.1, reply).0,
            sum + taken(now.0.requested(now.1.contract), reply, account, token),
            account,
            token,
        ),
{
    let (r, e) = now;
    match r.phase {
        Phase::Kyc { index, .. } => {
            lemma_screened(e.storage, r.payments, index + 1);
            assert(r.payments.take(0) =~= Seq::empty());
        },
        Phase::Balance { index, terms } => {
            lemma_payment_settled(now, reply, sum, account, token, index, terms);
        },
        Phase::Fee { index, terms, .. } => {
            lemma_payment_settled(now, reply, sum, account, token, index, terms);
        },
        Phase::Remainder { index, terms, .. } => {
            lemma_payment_settled(now, reply, sum, account, token, index, terms);
        },
        Phase::Refund { index, terms, .. } => {
            lemma_payment_settled(now, reply, sum, account, token, index, terms);
        },
        _ => {},
    }
}

/// What is known of the money after any replies that a batch accepts.
proof fn lemma_run_settled(
    e0: InvocationView,
    payments: Seq<Payment>,
    replies: Seq<Reply>,
    account: Address,
    token: Address,
)
    requires
        e0.wf(),
        payments.len() <= usize::MAX,
        valid_run(opened(e0, payments), replies),
        e0.storage.fee_bps.unwrap_or(0) >= 0,
        e0.storage.fee_cap.unwrap_or(0) >= 0,
        !replies.contains(Reply::Transfer(TransferReply::UnexpectedValue)),
    ensures
        settled(
            run(opened(e0, payments), replies).0,
            taken_in_all(opened(e0, payments), replies, account, token),
            account,
            token,
        ),
    decreases replies.len(),
{
    let start = opened(e0, payments);
    if replies.len() == 0 {
        assert(payments.take(0) =~= Seq::empty());
        lemma_screened(e0.storage, payments, 0);
    } else {
        let init = replies.drop_last();
        assert forall|reply: Reply| init.contains(reply) implies replies.contains(reply) by {
            let i = init.index_of(reply);
            assert(replies[i] == reply);
        }
        assert(replies[replies.len() - 1] == replies.last());
        lemma_run(e0, payments, init);
        lemma_run_settled(e0, payments, init, account, token);
        lemma_advance_settled(
            e0,
            run(start, init),
            init,
            replies.last(),
            taken_in_all(start, init, account, token),
            account,
            token,
        );
    }
}

/// Funds are conserved: a batch that succeeds has taken from every account, in
/// every token, exactly what its payments add up to, no matter which recipients
/// could be paid directly. This holds of fees that are not negative and of tokens
/// that answer a transfer as they should.
pub proof fn law_funds_are_conserved(
    e0: InvocationView,
    payments: Seq<Payment>,
    replies: Seq<Reply>,
    account: Address,
    token: Address,
)
    requires
        e0.wf(),
        payments.len() <= usize::MAX,
        valid_run(opened(e0, payments), replies),
        e0.storage.fee_bps.unwrap_or(0) >= 0,
        e0.storage.fee_cap.unwrap_or(0) >= 0,
        !replies.contains(Reply::Transfer(TransferReply::UnexpectedValue)),
        run(opened(e0, payments), replies).0.phase == Phase::Finished(Ok(())),
    ensures
        taken_in_all(opened(e0, payments), replies, account, token) == owed_in_all(
            payments,
            account,
            token,
        ),
{
    lemma_run(e0, payments, replies);
    lemma_run_settled(e0, payments, replies, account, token);
}

/// What a reply adds to what the contract holds for `account` in `token`: the
/// remainder of a payment of theirs, when it went to the contract in place of its
/// recipient.
pub open spec fn redirected(r: RoutingView, reply: Reply, account: Address, token: Address) -> int {
    match r.phase {
        Phase::Refund { index, remainder, .. } => {
            let p = r.payments[index as int];
            if p.sender == account && p.token_address == token && reply == Reply::Transfer(
                TransferReply::Done,
            ) {
                remainder as int
            } else {
                0
            }
        },
        _ => 0,
    }
}

/// What a run has redirected to the contract for `account` in `token`.
pub open spec fn redirected_in_all(
    start: Run,
    replies: Seq<Reply>,
    account: Address,
    token: Address,
) -> int
    decreases replies.len(),
{
    if replies.len() == 0 {
        0
    } else {
        redirected_in_all(start, replies.drop_last(), account, token) + redirected(
            run(start, replies.drop_last()).0,
            replies.last(),
            account,
            token,
        )
    }
}

/// Unless a batch has failed, its refund balances have grown by what it redirected.
proof fn lemma_run_redirected(
    e0: InvocationView,
    payments: Seq<Payment>,
    replies: Seq<Reply>,
    account: Address,
    token: Address,
)
    requires
        e0.wf(),
        payments.len() <= usize::MAX,
        valid_run(opened(e0, payments), replies),
    ensures
        ({
            let (r, e) = run(opened(e0, payments), replies);
            r.phase matches Phase::Finished(Err(_)) || e.storage.refund(account, token)
                == e0.storage.refund(account, token) + redirected_in_all(
                opened(e0, payments),
                replies,
                account,
                token,
            )
        }),
    decreases replies.len(),
{
    if replies.len() > 0 {
        let init = replies.drop_last();
        let (r, e) = run(opened(e0, payments), init);
        lemma_run(e0, payments, init);
        lemma_run_redirected(e0, payments, init, account, token);
        lemma_advance_redirected(r, e, replies.last(), account, token);
    }
}

/// One more reply keeps refund balances in step with what was redirected.
proof fn lemma_advance_redirected(
    r: RoutingView,
    e: InvocationView,
    reply: Reply,
    account: Address,
    token: Address,
)
    requires
        r.wf(e),
        r.accepts(e, reply),
    ensures
        ({
            let (r1, e1) = r.advance(e, reply);
            r1.phase matches Phase::Finished(Err(_)) || e1.storage.refund(account, token)
                == e.storage.refund(account, token) + redirected(r, reply, account, token)
        }),
{
    match r.phase {
        Phase::Refund { index, remainder, .. } => {
            let p = r.payments[index as int];
            let credit = credited(e, p.sender, p.token_address, remainder);
            assert(reply == Reply::Transfer(TransferReply::Done) ==> credit.storage.refund(
                account,
                token,
            ) == e.storage.refund(account, token) + redirected(r, reply, account, token));
        },
        _ => {},
    }
}

/// A batch that succeeds has credited to every account, in every token, exactly
/// what it sent to the contract because a recipient could not be paid.
pub proof fn law_refunds_match_redirected_funds(
    e0: InvocationView,
    payments: Seq<Payment>,
    replies: Seq<Reply>,
    account: Address,
    token: Address,
)
    requires
        e0.wf(),
        payments.len() <= usize::MAX,
        valid_run(opened(e0, payments), replies),
        run(opened(e0, payments), replies).0.phase == Phase::Finished(Ok(())),
    ensures
        run(opened(e0, payments), replies).1.storage.refund(account, token)
            == e0.storage.refund(account, token) + redirected_in_all(
            opened(e0, payments),
            replies,
            account,
            token,
        ),
{
    lemma_run_redirected(e0, payments, replies, account, token);
}

/// Every transfer that a batch asks for moves the token of one of its payments
/// from that payment's sender to the treasury, the payment's recipient or the
/// contract, and moves more than nothing. If fees are not negative, it moves no
/// more than the payment's amount.
pub proof fn law_transfers_belong_to_payments(
    e0: InvocationView,
    payments: Seq<Payment>,
    replies: Seq<Reply>,
)
    requires
        e0.wf(),
        payments.len() <= usize::MAX,
        valid_run(opened(e0, payments), replies),
    ensures
        run(opened(e0, payments), replies).0.requested(e0.contract) matches Some(
            Request::Transfer { token, from, to, amount },
        ) ==> {
            &&& amount > 0
            &&& exists|i: int|
                #![trigger payments[i]]
                {
                    &&& 0 <= i < payments.len()
                    &&& from == payments[i].sender
                    &&& token == payments[i].token_address
                    &&& Some(to) == e0.storage.platform_treasury || to == payments[i].recipient
                        || to == e0.contract
                    &&& e0.storage.fee_bps.unwrap_or(0) >= 0 && e0.storage.fee_cap.unwrap_or(0)
                        >= 0 ==> amount <= payments[i].amount
                }
        },
{
    lemma_run(e0, payments, replies);
    let now = run(opened(e0, payments), replies);
    match now.0.phase {
        Phase::Fee { index, terms, .. } | Phase::Remainder { index, terms, .. } | Phase::Refund {
            index,
            terms,
            ..
        } => {
            let p = payments[index as int];
            let discount = above_threshold(now.1.storage.volume(p.sender));
            if terms.fee_bps >= 0 && terms.fee_cap >= 0 {
                law_fee_not_negative(p.amount, terms.fee_bps, terms.fee_cap, discount);
            }
            law_fee_bounded(p.amount, terms.fee_bps, terms.fee_cap, discount);
        },
        _ => {},
    }
}

} // verus!
