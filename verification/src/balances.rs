//! What was moved and what is kept of it, over any sequence of calls.

use vstd::prelude::*;
use crate::histories::{
    completes, effect, history, lemma_history_step, lemma_history_wf, moment, possible, Call,
};
use crate::invocation::{Command, Event, FeeTerms, InvocationView};
use crate::routing::{credited, opened, recorded, require_all, senders, Phase, Reply, RoutingView};
use crate::routing_laws::{law_failed_batch_changes_nothing, lemma_run, run, valid_run};
use crate::types::{Address, Payment};

verus! {

/// What a command takes out of the treasury for the lending protocol in `token`; what it
/// brings back counts as negative.
pub open spec fn lends(command: Command, token: Address) -> int {
    match command {
        Command::Deposit { token: t, amount, .. } => if t == token {
            amount as int
        } else {
            0
        },
        Command::Withdraw { token: t, amount, .. } => if t == token {
            -(amount as int)
        } else {
            0
        },
        _ => 0,
    }
}

/// The same of several commands.
pub open spec fn lent(commands: Seq<Command>, token: Address) -> int
    decreases commands.len(),
{
    if commands.len() == 0 {
        0
    } else {
        lent(commands.drop_last(), token) + lends(commands.last(), token)
    }
}

/// What an announcement adds to what the contract holds for `user` in `token`: what is
/// refunded to them, less what they withdraw.
pub open spec fn owes(command: Command, user: Address, token: Address) -> int {
    match command {
        Command::Publish(Event::Refunded { user: u, token: t, amount }) => if u == user && t
            == token {
            amount as int
        } else {
            0
        },
        Command::Publish(Event::Withdrawn { user: u, token: t, amount }) => if u == user && t
            == token {
            -(amount as int)
        } else {
            0
        },
        _ => 0,
    }
}

/// The same of several commands.
pub open spec fn owed(commands: Seq<Command>, user: Address, token: Address) -> int
    decreases commands.len(),
{
    if commands.len() == 0 {
        0
    } else {
        owed(commands.drop_last(), user, token) + owes(commands.last(), user, token)
    }
}

/// What the calls that succeeded have lent out in `token`, less what they took back.
pub open spec fn lent_in_all(e: InvocationView, calls: Seq<(u64, Call)>, token: Address) -> int
    decreases calls.len(),
{
    if calls.len() == 0 {
        0
    } else {
        let n = calls.len() - 1;
        let (done, after) = effect(moment(e, calls, n), calls[n].1);
        lent_in_all(e, calls.drop_last(), token) + if done {
            lent(after.commands, token)
        } else {
            0
        }
    }
}

/// What the calls that succeeded have refunded to `user` in `token`, less what was
/// withdrawn.
pub open spec fn owed_to(
    e: InvocationView,
    calls: Seq<(u64, Call)>,
    user: Address,
    token: Address,
) -> int
    decreases calls.len(),
{
    if calls.len() == 0 {
        0
    } else {
        let n = calls.len() - 1;
        let (done, after) = effect(moment(e, calls, n), calls[n].1);
        owed_to(e, calls.drop_last(), user, token) + if done {
            owed(after.commands, user, token)
        } else {
            0
        }
    }
}

/// One more command.
proof fn lemma_push(user: Address, token: Address)
    ensures
        forall|s: Seq<Command>, c: Command| #[trigger]
            lent(s.push(c), token) == lent(s, token) + lends(c, token),
        forall|s: Seq<Command>, c: Command| #[trigger]
            owed(s.push(c), user, token) == owed(s, user, token) + owes(c, user, token),
{
    assert forall|s: Seq<Command>, c: Command| #[trigger]
        lent(s.push(c), token) == lent(s, token) + lends(c, token) by {
        assert(s.push(c).drop_last() =~= s);
    }
    assert forall|s: Seq<Command>, c: Command| #[trigger]
        owed(s.push(c), user, token) == owed(s, user, token) + owes(c, user, token) by {
        assert(s.push(c).drop_last() =~= s);
    }
}

/// Asking for authorization moves nothing.
proof fn lemma_asking(s: Seq<Command>, addresses: Seq<Address>, user: Address, token: Address)
    ensures
        lent(s + require_all(addresses), token) == lent(s, token),
        owed(s + require_all(addresses), user, token) == owed(s, user, token),
    decreases addresses.len(),
{
    let all = s + require_all(addresses);
    if addresses.len() == 0 {
        assert(all =~= s);
    } else {
        let init = addresses.drop_last();
        lemma_asking(s, init, user, token);
        lemma_push(user, token);
        assert(all =~= (s + require_all(init)).push(Command::RequireAuth(addresses.last())));
    }
}

/// Beginning a payment moves nothing and leaves what is held.
proof fn lemma_begin_moves_nothing(
    r: RoutingView,
    e: InvocationView,
    index: int,
    terms: FeeTerms,
    user: Address,
    token: Address,
)
    ensures
        ({
            let (r1, e1) = r.begin(e, index, terms);
            &&& lent(e1.commands, token) == lent(e.commands, token)
            &&& owed(e1.commands, user, token) == owed(e.commands, user, token)
            &&& (r1.phase matches Phase::Finished(Err(_))) || e1.storage.refund(user, token)
                == e.storage.refund(user, token)
        }),
{
    lemma_push(user, token);
}

/// Nor does recording one.
proof fn lemma_settle_moves_nothing(
    r: RoutingView,
    e: InvocationView,
    index: usize,
    terms: FeeTerms,
    user: Address,
    token: Address,
)
    ensures
        ({
            let (r1, e1) = r.settle(e, index, terms);
            &&& lent(e1.commands, token) == lent(e.commands, token)
            &&& owed(e1.commands, user, token) == owed(e.commands, user, token)
            &&& (r1.phase matches Phase::Finished(Err(_))) || e1.storage.refund(user, token)
                == e.storage.refund(user, token)
        }),
{
    lemma_push(user, token);
    let next = recorded(e, r.payments[index as int]);
    lemma_begin_moves_nothing(r, next, index + 1, terms, user, token);
}

/// Nor does screening.
proof fn lemma_screen_moves_nothing(
    r: RoutingView,
    e: InvocationView,
    from: int,
    user: Address,
    token: Address,
)
    ensures
        ({
            let (r1, e1) = r.screen(e, from);
            &&& lent(e1.commands, token) == lent(e.commands, token)
            &&& owed(e1.commands, user, token) == owed(e.commands, user, token)
            &&& (r1.phase matches Phase::Finished(Err(_))) || e1.storage.refund(user, token)
                == e.storage.refund(user, token)
        }),
{
    lemma_push(user, token);
    lemma_asking(e.commands, senders(r.payments), user, token);
    if let Some(terms) = e.storage.fee_terms() {
        let asked = InvocationView {
            commands: e.commands + require_all(senders(r.payments)),
            ..e
        };
        lemma_begin_moves_nothing(r, asked.extend_instance(), 0, terms, user, token);
    }
}

/// Whatever the host answers, a batch lends nothing, and what it announces as refunded is
/// what it adds to what is held, unless it fails.
proof fn lemma_advance_balances(
    r: RoutingView,
    e: InvocationView,
    reply: Reply,
    user: Address,
    token: Address,
)
    requires
        r.wf(e),
        r.accepts(e, reply),
    ensures
        ({
            let (r1, e1) = r.advance(e, reply);
            &&& lent(e1.commands, token) == lent(e.commands, token)
            &&& (r1.phase matches Phase::Finished(Err(_))) || e1.storage.refund(user, token)
                - e.storage.refund(user, token) == owed(e1.commands, user, token) - owed(
                e.commands,
                user,
                token,
            )
        }),
{
    match r.phase {
        Phase::Kyc { index, .. } => {
            lemma_screen_moves_nothing(r, e, index + 1, user, token);
        },
        Phase::Balance { index, terms } => {
            lemma_settle_moves_nothing(r, e, index, terms, user, token);
        },
        Phase::Fee { index, terms, .. } => {
            lemma_settle_moves_nothing(r, e, index, terms, user, token);
        },
        Phase::Remainder { index, terms, .. } => {
            lemma_settle_moves_nothing(r, e, index, terms, user, token);
        },
        Phase::Refund { index, terms, remainder } => {
            let p = r.payments[index as int];
            let credit = credited(e, p.sender, p.token_address, remainder);
            lemma_push(user, token);
            lemma_settle_moves_nothing(r, credit, index, terms, user, token);
        },
        _ => {},
    }
}

proof fn lemma_run_balances(
    e0: InvocationView,
    payments: Seq<Payment>,
    replies: Seq<Reply>,
    user: Address,
    token: Address,
)
    requires
        e0.wf(),
        payments.len() <= usize::MAX,
        valid_run(opened(e0, payments), replies),
    ensures
        ({
            let (r, e) = run(opened(e0, payments), replies);
            &&& lent(e.commands, token) == lent(e0.commands, token)
            &&& (r.phase matches Phase::Finished(Err(_))) || e.storage.refund(user, token)
                - e0.storage.refund(user, token) == owed(e.commands, user, token) - owed(
                e0.commands,
                user,
                token,
            )
        }),
    decreases replies.len(),
{
    if replies.len() == 0 {
        let r = RoutingView { payments, saved: e0.storage, phase: Phase::Finished(Ok(())) };
        lemma_screen_moves_nothing(r, e0, 0, user, token);
    } else {
        let init = replies.drop_last();
        let (r, e) = run(opened(e0, payments), init);
        lemma_run(e0, payments, init);
        lemma_run_balances(e0, payments, init, user, token);
        lemma_advance_balances(r, e, replies.last(), user, token);
    }
}

/// A call that succeeds has moved what it changes, and one that fails changes nothing.
spec fn balanced(e: InvocationView, call: Call, user: Address, token: Address) -> bool {
    let (done, after) = effect(e, call);
    &&& after.storage.principal(token) - e.storage.principal(token) == if done {
        lent(after.commands, token)
    } else {
        0
    }
    &&& after.storage.refund(user, token) - e.storage.refund(user, token) == if done {
        owed(after.commands, user, token)
    } else {
        0
    }
}

/// Settings.
proof fn lemma_settings_balances(e: InvocationView, call: Call, user: Address, token: Address)
    requires
        e.wf(),
        e.commands.len() == 0,
        completes(e, call),
        call is SetPlatformTreasury || call is SetFeeConfig || call is SetFeeBps
            || call is SetGovernance || call is SetMinLimit || call is SetPause,
    ensures
        balanced(e, call, user, token),
{
    lemma_push(user, token);
    assert(lent(e.commands, token) == 0);
    assert(owed(e.commands, user, token) == 0);
}

/// Switches and lists.
proof fn lemma_switches_balances(e: InvocationView, call: Call, user: Address, token: Address)
    requires
        e.wf(),
        e.commands.len() == 0,
        completes(e, call),
        call is BlacklistAddress || call is UnblacklistAddress || call is SetKycConfig
            || call is SetYieldProtocol || call is EmergencyFreeze || call is Unfreeze
            || call is Upgrade,
    ensures
        balanced(e, call, user, token),
{
    lemma_push(user, token);
    assert(lent(e.commands, token) == 0);
    assert(owed(e.commands, user, token) == 0);
}

/// Roles.
proof fn lemma_roles_balances(e: InvocationView, call: Call, user: Address, token: Address)
    requires
        e.wf(),
        e.commands.len() == 0,
        completes(e, call),
        call is Initialize || call is AssignRole || call is RevokeRole || call is SetAdmin
            || call is TransferAdmin,
    ensures
        balanced(e, call, user, token),
{
    lemma_push(user, token);
    assert(lent(e.commands, token) == 0);
    assert(owed(e.commands, user, token) == 0);
}

/// The timelock.
proof fn lemma_timelock_balances(e: InvocationView, call: Call, user: Address, token: Address)
    requires
        e.wf(),
        e.commands.len() == 0,
        completes(e, call),
        call is QueueAction || call is ExecuteAction || call is CancelAction,
    ensures
        balanced(e, call, user, token),
{
    lemma_push(user, token);
    assert(lent(e.commands, token) == 0);
    assert(owed(e.commands, user, token) == 0);
}

/// Yield.
proof fn lemma_yield_balances(e: InvocationView, call: Call, user: Address, token: Address)
    requires
        e.wf(),
        e.commands.len() == 0,
        completes(e, call),
        call is DepositToYield || call is WithdrawFromYield || call is HarvestYield
            || call is RecoverTokens,
    ensures
        balanced(e, call, user, token),
{
    lemma_push(user, token);
    assert(lent(e.commands, token) == 0);
    assert(owed(e.commands, user, token) == 0);
}

/// Refunds.
proof fn lemma_refund_balances(e: InvocationView, call: Call, user: Address, token: Address)
    requires
        e.wf(),
        e.commands.len() == 0,
        completes(e, call),
        call is WithdrawRefund || call is ClaimAllRefunds,
    ensures
        balanced(e, call, user, token),
{
    lemma_push(user, token);
    assert(lent(e.commands, token) == 0);
    assert(owed(e.commands, user, token) == 0);
}

/// One call moves what it changes.
proof fn lemma_call_balances(e: InvocationView, call: Call, user: Address, token: Address)
    requires
        e.wf(),
        e.commands.len() == 0,
        completes(e, call),
    ensures
        balanced(e, call, user, token),
{
    if let Call::RoutePayments { payments, replies } = call {
        let now = run(opened(e, payments), replies);
        lemma_run(e, payments, replies);
        lemma_run_balances(e, payments, replies, user, token);
        match now.0.phase {
            Phase::Finished(Ok(nothing)) => {
                assert(nothing == ());
            },
            _ => {
                law_failed_batch_changes_nothing(e, payments, replies);
            },
        }
    } else if call is BlacklistAddress || call is UnblacklistAddress || call is SetKycConfig
        || call is SetYieldProtocol || call is EmergencyFreeze || call is Unfreeze
        || call is Upgrade {
        lemma_switches_balances(e, call, user, token);
    } else if call is Initialize || call is AssignRole || call is RevokeRole || call is SetAdmin
        || call is TransferAdmin {
        lemma_roles_balances(e, call, user, token);
    } else if call is QueueAction || call is ExecuteAction || call is CancelAction {
        lemma_timelock_balances(e, call, user, token);
    } else if call is DepositToYield || call is WithdrawFromYield || call is HarvestYield
        || call is RecoverTokens {
        lemma_yield_balances(e, call, user, token);
    } else if call is WithdrawRefund || call is ClaimAllRefunds {
        lemma_refund_balances(e, call, user, token);
    } else {
        lemma_settings_balances(e, call, user, token);
    }
}

/// Over any sequence of calls, the principal in a token is what was deposited less what
/// was taken back, and what the contract holds for a user is what was refunded to them
/// less what they withdrew.
pub proof fn law_balances_match_what_was_moved(
    e: InvocationView,
    calls: Seq<(u64, Call)>,
    user: Address,
    token: Address,
)
    requires
        e.wf(),
        possible(e, calls),
    ensures
        history(e, calls).storage.principal(token) == e.storage.principal(token) + lent_in_all(
            e,
            calls,
            token,
        ),
        history(e, calls).storage.refund(user, token) == e.storage.refund(user, token) + owed_to(
            e,
            calls,
            user,
            token,
        ),
    decreases calls.len(),
{
    if calls.len() > 0 {
        let n = calls.len() - 1;
        let init = calls.drop_last();
        assert(calls.take(n) =~= init);
        assert(calls.take(n + 1) =~= calls);
        assert forall|i: int| #![trigger init[i]] 0 <= i < init.len() implies {
            &&& history(e, init.take(i)).timestamp <= init[i].0
            &&& completes(moment(e, init, i), init[i].1)
        } by {
            assert(init.take(i) =~= calls.take(i));
            assert(calls[i] == init[i]);
        }
        law_balances_match_what_was_moved(e, init, user, token);
        lemma_history_wf(e, calls, n);
        lemma_history_step(e, calls, n);
        assert(completes(moment(e, calls, n), calls[n].1));
        lemma_call_balances(moment(e, calls, n), calls[n].1, user, token);
    }
}

} // verus!
