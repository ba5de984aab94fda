//! Laws over any sequence of calls.

use vstd::prelude::*;
use crate::config::{
    blacklist_outcome, fee_bps_outcome, fees_outcome, governance_outcome, kyc_outcome,
    min_limit_outcome, pause_outcome, treasury_outcome, unblacklist_outcome,
};
use crate::fees::fits_i128;
use crate::invocation::{Event, InvocationView, StorageView};
use crate::laws::{later, law_time_keeps_entries_well_formed};
use crate::refunds::{claim_outcome, withdraw_outcome};
use crate::roles::{
    assign_outcome, initialize_outcome, lemma_admin_keeps_wf, lemma_with_role_keeps_wf,
    revoke_outcome, set_admin_outcome, transfer_admin_outcome,
};
use crate::router::PaymentRouter;
use crate::routing::{opened, Phase, Reply};
use crate::routing_laws::{
    law_batches_keep_entries_well_formed, law_failed_batch_changes_nothing,
    law_successful_batch_makes_every_payment, lemma_run, run, valid_run,
};
use crate::table::Membership;
use crate::timelock::{
    cancel_outcome, execute_outcome, freeze_outcome, queue_outcome, ready_at, unfreeze_outcome,
    upgrade_outcome,
};
use crate::treasury::{
    deposit_outcome, harvest_outcome, protocol_outcome, recover_outcome, take_back_outcome,
    yield_parties,
};
use crate::types::{ActionType, Address, Error, Payment, Role, TimelockEntry};

verus! {

/// A call that can change something, with all that its outcome depends on.
pub enum Call {
    Initialize {
        admin: Address,
        platform_treasury: Address,
        fee_bps: i128,
        fee_cap: i128,
        max_amount: i128,
    },
    AssignRole { account: Address, role: Role },
    RevokeRole { account: Address, role: Role },
    SetAdmin { new_admin: Address },
    TransferAdmin { new_admin: Address },
    QueueAction { action: ActionType },
    ExecuteAction { nonce: u64 },
    CancelAction { nonce: u64 },
    EmergencyFreeze,
    Unfreeze,
    Upgrade { new_wasm_hash: [u8; 32] },
    SetPlatformTreasury { new_treasury: Address },
    SetFeeConfig { fee_bps: i128, fee_cap: i128 },
    SetFeeBps { new_fee_bps: i128 },
    SetGovernance { gov: Address },
    SetMinLimit { min_limit: i128 },
    SetPause { paused: bool },
    BlacklistAddress { address: Address },
    UnblacklistAddress { address: Address },
    SetKycConfig { oracle: Address, threshold: i128 },
    SetYieldProtocol { protocol: Address },
    DepositToYield { token: Address, amount: i128 },
    WithdrawFromYield { token: Address, amount: i128 },
    /// A harvest, with what the lending protocol pays.
    HarvestYield { token: Address, harvested: i128 },
    RecoverTokens { token: Address, amount: i128 },
    WithdrawRefund { user: Address, token: Address, amount: i128 },
    ClaimAllRefunds { user: Address, token: Address },
    /// A batch, with the host's answers to its questions.
    RoutePayments { payments: Seq<Payment>, replies: Seq<Reply> },
}

/// Whether a call succeeds, and the invocation after it.
pub open spec fn effect(e: InvocationView, call: Call) -> (bool, InvocationView) {
    match call {
        Call::Initialize { admin, platform_treasury, fee_bps, fee_cap, max_amount } => {
            let o = initialize_outcome(e, admin, platform_treasury, fee_bps, fee_cap, max_amount);
            (o.0 is Ok, o.1)
        },
        Call::AssignRole { account, role } => {
            let o = assign_outcome(e, account, role);
            (o.0 is Ok, o.1)
        },
        Call::RevokeRole { account, role } => {
            let o = revoke_outcome(e, account, role);
            (o.0 is Ok, o.1)
        },
        Call::SetAdmin { new_admin } => {
            let o = set_admin_outcome(e, new_admin);
            (o.0 is Ok, o.1)
        },
        Call::TransferAdmin { new_admin } => {
            let o = transfer_admin_outcome(e, new_admin);
            (o.0 is Ok, o.1)
        },
        Call::QueueAction { action } => {
            let o = queue_outcome(e, action);
            (o.0 is Ok, o.1)
        },
        Call::ExecuteAction { nonce } => {
            let o = execute_outcome(e, nonce);
            (o.0 is Ok, o.1)
        },
        Call::CancelAction { nonce } => {
            let o = cancel_outcome(e, nonce);
            (o.0 is Ok, o.1)
        },
        Call::EmergencyFreeze => (freeze_outcome(e).0 is Ok, freeze_outcome(e).1),
        Call::Unfreeze => (unfreeze_outcome(e).0 is Ok, unfreeze_outcome(e).1),
        Call::Upgrade { new_wasm_hash } => {
            let o = upgrade_outcome(e, new_wasm_hash);
            (o.0 is Ok, o.1)
        },
        Call::SetPlatformTreasury { new_treasury } => {
            let o = treasury_outcome(e, new_treasury);
            (o.0 is Ok, o.1)
        },
        Call::SetFeeConfig { fee_bps, fee_cap } => {
            let o = fees_outcome(e, fee_bps, fee_cap);
            (o.0 is Ok, o.1)
        },
        Call::SetFeeBps { new_fee_bps } => {
            let o = fee_bps_outcome(e, new_fee_bps);
            (o.0 is Ok, o.1)
        },
        Call::SetGovernance { gov } => {
            let o = governance_outcome(e, gov);
            (o.0 is Ok, o.1)
        },
        Call::SetMinLimit { min_limit } => {
            let o = min_limit_outcome(e, min_limit);
            (o.0 is Ok, o.1)
        },
        Call::SetPause { paused } => {
            let o = pause_outcome(e, paused);
            (o.0 is Ok, o.1)
        },
        Call::BlacklistAddress { address } => {
            let o = blacklist_outcome(e, address);
            (o.0 is Ok, o.1)
        },
        Call::UnblacklistAddress { address } => {
            let o = unblacklist_outcome(e, address);
            (o.0 is Ok, o.1)
        },
        Call::SetKycConfig { oracle, threshold } => {
            let o = kyc_outcome(e, oracle, threshold);
            (o.0 is Ok, o.1)
        },
        Call::SetYieldProtocol { protocol } => {
            let o = protocol_outcome(e, protocol);
            (o.0 is Ok, o.1)
        },
        Call::DepositToYield { token, amount } => {
            let o = deposit_outcome(e, token, amount);
            (o.0 is Ok, o.1)
        },
        Call::WithdrawFromYield { token, amount } => {
            let o = take_back_outcome(e, token, amount);
            (o.0 is Ok, o.1)
        },
        Call::HarvestYield { token, harvested } => {
            let o = harvest_outcome(e, token);
            if o.0 is Ok {
                (true, o.1.announce(Event::YieldHarvested { token, harvested }))
            } else {
                (false, o.1)
            }
        },
        Call::RecoverTokens { token, amount } => {
            let o = recover_outcome(e, token, amount);
            (o.0 is Ok, o.1)
        },
        Call::WithdrawRefund { user, token, amount } => {
            let o = withdraw_outcome(e, user, token, amount);
            (o.0 is Ok, o.1)
        },
        Call::ClaimAllRefunds { user, token } => {
            let o = claim_outcome(e, user, token);
            (o.0 is Ok, o.1)
        },
        Call::RoutePayments { payments, replies } => {
            let (r, after) = run(opened(e, payments), replies);
            (r.phase == Phase::Finished(Ok(())), after)
        },
    }
}

/// Whether a call runs to its end: no number in it leaves its range, and a batch
/// gets the answers that it needs.
pub open spec fn completes(e: InvocationView, call: Call) -> bool {
    match call {
        Call::QueueAction { .. } => !e.storage.is_frozen() && e.storage.admin is Some
            ==> e.storage.nonce() < u64::MAX,
        Call::ExecuteAction { nonce } => !e.storage.is_frozen() && e.storage.admin is Some
            && e.storage.timelock_entries.contains_key(nonce) ==> ready_at(
            e.storage.timelock_entries[nonce],
        ) <= u64::MAX,
        Call::DepositToYield { token, amount } => amount > 0 && e.storage.holder(
            Role::TreasuryManager,
        ) is Some && yield_parties(e.storage) is Ok ==> fits_i128(
            e.storage.principal(token) + amount,
        ),
        Call::RoutePayments { payments, replies } => {
            &&& payments.len() <= usize::MAX
            &&& valid_run(opened(e, payments), replies)
            &&& run(opened(e, payments), replies).0.phase is Finished
        },
        _ => true,
    }
}

/// The invocation after calls that were made one after the other, each at its time.
pub open spec fn history(e: InvocationView, calls: Seq<(u64, Call)>) -> InvocationView
    decreases calls.len(),
{
    if calls.len() == 0 {
        e
    } else {
        effect(later(history(e, calls.drop_last()), calls.last().0), calls.last().1).1
    }
}

/// The invocation in which the call at `i` is made.
pub open spec fn moment(e: InvocationView, calls: Seq<(u64, Call)>, i: int) -> InvocationView {
    later(history(e, calls.take(i)), calls[i].0)
}

/// Whether the calls can be made: time does not run back, and each call runs to its
/// end.
pub open spec fn possible(e: InvocationView, calls: Seq<(u64, Call)>) -> bool {
    forall|i: int|
        #![trigger calls[i]]
        0 <= i < calls.len() ==> {
            &&& history(e, calls.take(i)).timestamp <= calls[i].0
            &&& completes(moment(e, calls, i), calls[i].1)
        }
}

/// New settings keep the ledger entries in order, if there is an admin.
proof fn lemma_settings_keep_wf(s: StorageView, t: StorageView, now: u64)
    requires
        s.wf(now),
        s.admin is Some,
        t.admin == s.admin,
        t.user_spending == s.user_spending,
        t.user_volume == s.user_volume,
        t.refund_balance == s.refund_balance,
        t.yield_principal == s.yield_principal,
        t.timelock_entries == s.timelock_entries,
        t.timelock_nonce == s.timelock_nonce,
        t.roles == s.roles,
        t.user_role == s.user_role,
        t.kyc_consistent(),
    ensures
        t.wf(now),
{
    assert(t.spending_in_limits(now));
    assert(t.timelock_in_order(now));
    assert(t.balances_positive());
    assert(t.roles_consistent());
}

/// Nobody acts for a role before there is an admin.
proof fn lemma_holder_means_admin(s: StorageView, now: u64, role: Role)
    requires
        s.wf(now),
        s.holder(role) is Some || s.fee_authority() is Some,
    ensures
        s.admin is Some,
{
}

/// Calls about roles keep the ledger entries in order.
proof fn lemma_role_calls_keep_wf(e: InvocationView, call: Call)
    requires
        e.wf(),
        call is Initialize || call is AssignRole || call is RevokeRole || call is SetAdmin
            || call is TransferAdmin,
    ensures
        effect(e, call).1.wf(),
{
    let now = e.timestamp;
    let s = e.storage;
    match call {
        Call::Initialize { admin, platform_treasury, fee_bps, fee_cap, max_amount } => {
            if s.admin is None {
                let s0 = StorageView {
                    admin: Some(admin),
                    platform_treasury: Some(platform_treasury),
                    fee_bps: Some(fee_bps),
                    fee_cap: Some(fee_cap),
                    max_amount: Some(max_amount),
                    paused: Some(false),
                    frozen: Some(false),
                    timelock_nonce: Some(0),
                    ..s
                };
                lemma_admin_keeps_wf(s, s0, admin, now);
                let s1 = s0.with_role(Role::SuperAdmin, admin);
                lemma_with_role_keeps_wf(s1, Role::TreasuryManager, admin, now);
                let s2 = s1.with_role(Role::TreasuryManager, admin);
                lemma_with_role_keeps_wf(s2, Role::ComplianceOfficer, admin, now);
                let s3 = s2.with_role(Role::ComplianceOfficer, admin);
                lemma_with_role_keeps_wf(s3, Role::FeeManager, admin, now);
            }
        },
        Call::AssignRole { account, role } => {
            if s.holder(Role::SuperAdmin) is Some {
                lemma_holder_means_admin(s, now, Role::SuperAdmin);
                lemma_with_role_keeps_wf(s, role, account, now);
            }
        },
        Call::RevokeRole { account, role } => {
            if effect(e, call).0 {
                lemma_holder_means_admin(s, now, Role::SuperAdmin);
                lemma_without_role_keeps_wf(s, role, account, now);
            }
        },
        Call::SetAdmin { new_admin } => {
            let t = StorageView { admin: Some(new_admin), ..s };
            lemma_admin_keeps_wf(s, t, new_admin, now);
        },
        Call::TransferAdmin { new_admin } => {
            if let Some(caller) = s.holder(Role::SuperAdmin) {
                let t = s.without_role(Role::SuperAdmin, caller);
                let u = StorageView { admin: Some(new_admin), ..t }.with_role(
                    Role::SuperAdmin,
                    new_admin,
                );
                lemma_holder_means_admin(s, now, Role::SuperAdmin);
                assert forall|r: Role| #[trigger] u.roles.contains_key(r) implies u.user_role.get(
                    Membership { account: u.roles[r], role: r },
                ) == Some(true) by {
                    if r != Role::SuperAdmin {
                        assert(s.roles.contains_key(r));
                    }
                }
                assert(u.spending_in_limits(now));
                assert(u.timelock_in_order(now));
                assert(u.balances_positive());
            }
        },
        _ => {},
    }
}

/// Taking a role from an account, other than the super-admin role from its
/// designated member, keeps the ledger entries in order.
proof fn lemma_without_role_keeps_wf(s: StorageView, role: Role, account: Address, now: u64)
    requires
        s.wf(now),
        s.admin is Some,
        !(role == Role::SuperAdmin && s.roles.get(Role::SuperAdmin) == Some(account)),
    ensures
        s.without_role(role, account).wf(now),
{
    let t = s.without_role(role, account);
    assert forall|r: Role| #[trigger] t.roles.contains_key(r) implies t.user_role.get(
        Membership { account: t.roles[r], role: r },
    ) == Some(true) by {
        assert(s.roles.contains_key(r));
    }
    assert(t.spending_in_limits(now));
    assert(t.timelock_in_order(now));
    assert(t.balances_positive());
}

/// Calls of the timelock keep the ledger entries in order.
proof fn lemma_timelock_calls_keep_wf(e: InvocationView, call: Call)
    requires
        e.wf(),
        completes(e, call),
        call is QueueAction || call is ExecuteAction || call is CancelAction,
    ensures
        effect(e, call).1.wf(),
{
    let now = e.timestamp;
    let s = e.storage;
    let t = effect(e, call).1.storage;
    match call {
        Call::ExecuteAction { nonce } => {
            if effect(e, call).0 {
                let d = StorageView { timelock_entries: s.timelock_entries.remove(nonce), ..s };
                assert(d.spending_in_limits(now));
                assert(d.timelock_in_order(now));
                assert(d.balances_positive());
                assert(d.roles_consistent());
                assert(d.wf(now));
                match s.timelock_entries[nonce].action {
                    ActionType::TransferAdmin(new_admin) => {
                        let u = StorageView { admin: Some(new_admin), ..d };
                        lemma_admin_keeps_wf(d, u, new_admin, now);
                    },
                    _ => {
                        lemma_settings_keep_wf(d, t, now);
                    },
                }
            }
        },
        _ => {
            if effect(e, call).0 {
                assert(t.spending_in_limits(now));
                assert(t.timelock_in_order(now));
                assert(t.balances_positive());
                assert(t.roles_consistent());
            }
        },
    }
}

/// Calls that move money keep the ledger entries in order.
proof fn lemma_money_calls_keep_wf(e: InvocationView, call: Call)
    requires
        e.wf(),
        completes(e, call),
        call is DepositToYield || call is WithdrawFromYield || call is WithdrawRefund
            || call is ClaimAllRefunds || call is RoutePayments,
    ensures
        effect(e, call).1.wf(),
{
    let now = e.timestamp;
    let s = e.storage;
    let t = effect(e, call).1.storage;
    match call {
        Call::RoutePayments { payments, replies } => {
            law_batches_keep_entries_well_formed(e, payments, replies);
        },
        _ => {
            assert(t.spending_in_limits(now));
            assert(t.timelock_in_order(now));
            assert(t.roles_consistent());
            assert(t.balances_positive());
        },
    }
}

/// Calls that change a setting, or nothing, keep the ledger entries in order.
proof fn lemma_setting_calls_keep_wf(e: InvocationView, call: Call)
    requires
        e.wf(),
        call is SetPlatformTreasury || call is SetFeeConfig || call is SetFeeBps
            || call is SetGovernance || call is SetMinLimit || call is SetPause
            || call is BlacklistAddress || call is UnblacklistAddress || call is SetKycConfig
            || call is SetYieldProtocol || call is EmergencyFreeze || call is Unfreeze
            || call is Upgrade || call is HarvestYield || call is RecoverTokens,
    ensures
        effect(e, call).1.wf(),
{
    if effect(e, call).0 {
        lemma_settings_keep_wf(e.storage, effect(e, call).1.storage, e.timestamp);
    }
}

/// Every call keeps the ledger entries in order.
proof fn lemma_calls_keep_wf(e: InvocationView, call: Call)
    requires
        e.wf(),
        completes(e, call),
    ensures
        effect(e, call).1.wf(),
{
    if call is Initialize || call is AssignRole || call is RevokeRole || call is SetAdmin
        || call is TransferAdmin {
        lemma_role_calls_keep_wf(e, call);
    } else if call is QueueAction || call is ExecuteAction || call is CancelAction {
        lemma_timelock_calls_keep_wf(e, call);
    } else if call is DepositToYield || call is WithdrawFromYield || call is WithdrawRefund
        || call is ClaimAllRefunds || call is RoutePayments {
        lemma_money_calls_keep_wf(e, call);
    } else {
        lemma_setting_calls_keep_wf(e, call);
    }
}

/// Whether a call queues an action, as `entry` under `nonce`.
pub open spec fn queues(e: InvocationView, call: Call, nonce: u64, entry: TimelockEntry) -> bool {
    call matches Call::QueueAction { action } && queue_outcome(e, action).0 == Ok::<u64, Error>(
        nonce,
    ) && entry == (TimelockEntry { queued_at: e.timestamp, action })
}

/// Whether a call ends the action under `nonce`, by applying or cancelling it.
pub open spec fn ends(e: InvocationView, call: Call, nonce: u64) -> bool {
    &&& call == Call::ExecuteAction { nonce } || call == Call::CancelAction { nonce }
    &&& effect(e, call).0
}

/// What a call can do to the timelock and the admin.
spec fn timelock_step(e: InvocationView, call: Call, after: InvocationView) -> bool {
    &&& after.timestamp == e.timestamp
    &&& after.storage.nonce() >= e.storage.nonce()
    &&& e.storage.admin is Some ==> after.storage.admin is Some
    &&& forall|n: u64| #[trigger]
        after.storage.timelock_entries.contains_key(n) ==> {
            ||| e.storage.timelock_entries.contains_key(n) && after.storage.timelock_entries[n]
                == e.storage.timelock_entries[n]
            ||| queues(e, call, n, after.storage.timelock_entries[n]) && n > e.storage.nonce()
        }
}

/// Whether a call leaves the timelock and the admin as they are.
spec fn leaves_timelock(e: InvocationView, after: InvocationView) -> bool {
    &&& after.timestamp == e.timestamp
    &&& after.storage.timelock_nonce == e.storage.timelock_nonce
    &&& after.storage.timelock_entries == e.storage.timelock_entries
    &&& after.storage.admin == e.storage.admin
}

/// Routing leaves the timelock and the admin alone.
proof fn lemma_routing_timelock(e: InvocationView, payments: Seq<Payment>, replies: Seq<Reply>)
    requires
        e.wf(),
        completes(e, Call::RoutePayments { payments, replies }),
    ensures
        leaves_timelock(e, run(opened(e, payments), replies).1),
{
    let now = run(opened(e, payments), replies);
    lemma_run(e, payments, replies);
    assert(now.1.timestamp == e.timestamp);
    match now.0.phase {
        Phase::Finished(Ok(nothing)) => {
            assert(nothing == ());
            law_successful_batch_makes_every_payment(e, payments, replies);
        },
        _ => {
            law_failed_batch_changes_nothing(e, payments, replies);
        },
    }
}

/// Settings leave the timelock and the admin as they are.
proof fn lemma_settings_and_timelock(e: InvocationView, call: Call)
    requires
        call is SetPlatformTreasury || call is SetFeeConfig || call is SetFeeBps
            || call is SetGovernance || call is SetMinLimit || call is SetPause
            || call is BlacklistAddress || call is UnblacklistAddress || call is SetKycConfig
            || call is SetYieldProtocol || call is EmergencyFreeze || call is Unfreeze
            || call is Upgrade,
    ensures
        leaves_timelock(e, effect(e, call).1),
{
}

/// So do calls about money and about roles other than the admin's.
proof fn lemma_money_and_timelock(e: InvocationView, call: Call)
    requires
        call is DepositToYield || call is WithdrawFromYield || call is HarvestYield
            || call is RecoverTokens || call is WithdrawRefund || call is ClaimAllRefunds
            || call is AssignRole || call is RevokeRole,
    ensures
        leaves_timelock(e, effect(e, call).1),
{
}

/// What the calls that touch the timelock or the admin do to them.
proof fn lemma_timelock_calls(e: InvocationView, call: Call)
    requires
        e.wf(),
        completes(e, call),
        call is Initialize || call is SetAdmin || call is TransferAdmin || call is QueueAction
            || call is ExecuteAction || call is CancelAction,
    ensures
        timelock_step(e, call, effect(e, call).1),
{
}

/// What every call can do to the timelock and the admin.
proof fn lemma_calls_and_timelock(e: InvocationView, call: Call)
    requires
        e.wf(),
        completes(e, call),
    ensures
        timelock_step(e, call, effect(e, call).1),
{
    let after = effect(e, call).1;
    if call is Initialize || call is SetAdmin || call is TransferAdmin || call is QueueAction
        || call is ExecuteAction || call is CancelAction {
        lemma_timelock_calls(e, call);
    } else {
        if let Call::RoutePayments { payments, replies } = call {
            lemma_routing_timelock(e, payments, replies);
            assert(after == run(opened(e, payments), replies).1);
        } else if call is DepositToYield || call is WithdrawFromYield || call is HarvestYield
            || call is RecoverTokens || call is WithdrawRefund || call is ClaimAllRefunds
            || call is AssignRole || call is RevokeRole {
            lemma_money_and_timelock(e, call);
        } else {
            lemma_settings_and_timelock(e, call);
        }
        lemma_leaving_is_a_step(e, call, after);
    }
}

/// To leave the timelock alone is one of the things that a call can do.
proof fn lemma_leaving_is_a_step(e: InvocationView, call: Call, after: InvocationView)
    requires
        leaves_timelock(e, after),
    ensures
        timelock_step(e, call, after),
{
}

/// A queued action gets the next nonce.
proof fn lemma_queued_nonce(e: InvocationView, call: Call, nonce: u64, entry: TimelockEntry)
    requires
        completes(e, call),
        queues(e, call, nonce, entry),
    ensures
        nonce == e.storage.nonce() + 1,
        effect(e, call).1.storage.nonce() == nonce,
{
}

/// An action that has been ended is gone, and its nonce was given out before.
proof fn lemma_ended_is_gone(e: InvocationView, call: Call, nonce: u64)
    requires
        e.wf(),
        ends(e, call, nonce),
    ensures
        e.storage.timelock_entries.contains_key(nonce),
        nonce <= e.storage.nonce(),
        !effect(e, call).1.storage.timelock_entries.contains_key(nonce),
        effect(e, call).1.storage.nonce() >= e.storage.nonce(),
{
}

/// The ledger entries after the first `j` calls are well-formed.
pub(crate) proof fn lemma_history_wf(e: InvocationView, calls: Seq<(u64, Call)>, j: int)
    requires
        e.wf(),
        possible(e, calls),
        0 <= j <= calls.len(),
    ensures
        history(e, calls.take(j)).wf(),
        j < calls.len() ==> moment(e, calls, j).wf(),
    decreases j,
{
    if j == 0 {
        assert(calls.take(0) =~= Seq::empty());
    } else {
        let call = calls[j - 1];
        lemma_history_wf(e, calls, j - 1);
        lemma_calls_keep_wf(moment(e, calls, j - 1), call.1);
        lemma_history_step(e, calls, j - 1);
    }
    if j < calls.len() {
        let before = history(e, calls.take(j));
        assert(before.timestamp <= calls[j].0);
        law_time_keeps_entries_well_formed(before.storage, before.timestamp, calls[j].0);
    }
}

/// One more call.
pub(crate) proof fn lemma_history_step(e: InvocationView, calls: Seq<(u64, Call)>, j: int)
    requires
        0 <= j < calls.len(),
    ensures
        history(e, calls.take(j + 1)) == effect(moment(e, calls, j), calls[j].1).1,
{
    assert(calls.take(j + 1).drop_last() =~= calls.take(j));
    assert(calls.take(j + 1).last() == calls[j]);
}

/// From the first `i` calls to the first `j`: nonces only grow, an admin stays, and
/// an action that is gone does not come back.
proof fn lemma_forward(e: InvocationView, calls: Seq<(u64, Call)>, i: int, j: int, gone: u64)
    requires
        e.wf(),
        possible(e, calls),
        0 <= i <= j <= calls.len(),
    ensures
        ({
            let s = history(e, calls.take(i)).storage;
            let t = history(e, calls.take(j)).storage;
            &&& s.nonce() <= t.nonce()
            &&& s.admin is Some ==> t.admin is Some
            &&& gone <= s.nonce() && !s.timelock_entries.contains_key(gone)
                ==> !t.timelock_entries.contains_key(gone)
        }),
    decreases j - i,
{
    if i < j {
        lemma_forward(e, calls, i, j - 1, gone);
        lemma_history_wf(e, calls, j - 1);
        lemma_history_step(e, calls, j - 1);
        assert(completes(moment(e, calls, j - 1), calls[j - 1].1));
        lemma_calls_and_timelock(moment(e, calls, j - 1), calls[j - 1].1);
    }
}

/// What holds of the ledger entries holds after any sequence of calls.
pub proof fn law_histories_keep_entries_well_formed(e: InvocationView, calls: Seq<(u64, Call)>)
    requires
        e.wf(),
        possible(e, calls),
    ensures
        history(e, calls).wf(),
{
    lemma_history_wf(e, calls, calls.len() as int);
    assert(calls.take(calls.len() as int) =~= calls);
}

/// Over any sequence of calls, no nonce is given out twice: each is larger than all
/// before it.
pub proof fn law_nonces_are_never_reused(
    e: InvocationView,
    calls: Seq<(u64, Call)>,
    i: int,
    j: int,
    first: (u64, TimelockEntry),
    second: (u64, TimelockEntry),
)
    requires
        e.wf(),
        possible(e, calls),
        0 <= i < j < calls.len(),
        queues(moment(e, calls, i), calls[i].1, first.0, first.1),
        queues(moment(e, calls, j), calls[j].1, second.0, second.1),
    ensures
        first.0 < second.0,
{
    lemma_forward(e, calls, i + 1, j, 0);
    lemma_history_step(e, calls, i);
    lemma_queued_nonce(moment(e, calls, i), calls[i].1, first.0, first.1);
    lemma_queued_nonce(moment(e, calls, j), calls[j].1, second.0, second.1);
}

/// Over any sequence of calls, an action is applied at most once, and never after it
/// was cancelled.
pub proof fn law_actions_end_once(
    e: InvocationView,
    calls: Seq<(u64, Call)>,
    i: int,
    j: int,
    nonce: u64,
)
    requires
        e.wf(),
        possible(e, calls),
        0 <= i < j < calls.len(),
        ends(moment(e, calls, i), calls[i].1, nonce),
    ensures
        !ends(moment(e, calls, j), calls[j].1, nonce),
{
    lemma_history_wf(e, calls, i);
    lemma_history_wf(e, calls, j);
    lemma_ended_is_gone(moment(e, calls, i), calls[i].1, nonce);
    lemma_history_step(e, calls, i);
    lemma_forward(e, calls, i + 1, j, nonce);
    if ends(moment(e, calls, j), calls[j].1, nonce) {
        lemma_ended_is_gone(moment(e, calls, j), calls[j].1, nonce);
    }
}

/// Where a pending action comes from: one of the calls queued it.
proof fn lemma_pending_was_queued(
    e: InvocationView,
    calls: Seq<(u64, Call)>,
    j: int,
    nonce: u64,
) -> (i: int)
    requires
        e.wf(),
        possible(e, calls),
        0 <= j <= calls.len(),
        e.storage.timelock_entries == Map::<u64, TimelockEntry>::empty(),
        history(e, calls.take(j)).storage.timelock_entries.contains_key(nonce),
    ensures
        0 <= i < j,
        queues(
            moment(e, calls, i),
            calls[i].1,
            nonce,
            history(e, calls.take(j)).storage.timelock_entries[nonce],
        ),
    decreases j,
{
    if j == 0 {
        assert(calls.take(0) =~= Seq::empty());
        0
    } else {
        let before = moment(e, calls, j - 1);
        lemma_history_wf(e, calls, j - 1);
        lemma_history_step(e, calls, j - 1);
        assert(completes(before, calls[j - 1].1));
        lemma_calls_and_timelock(before, calls[j - 1].1);
        let entry = history(e, calls.take(j)).storage.timelock_entries[nonce];
        if queues(before, calls[j - 1].1, nonce, entry) {
            j - 1
        } else {
            lemma_pending_was_queued(e, calls, j - 1, nonce)
        }
    }
}

/// Over any sequence of calls, every action that is applied was queued by one of
/// them, under the same nonce, at least 24 hours before.
pub proof fn law_applied_actions_were_queued(
    e: InvocationView,
    calls: Seq<(u64, Call)>,
    j: int,
    nonce: u64,
)
    requires
        e.wf(),
        possible(e, calls),
        e.storage.timelock_entries == Map::<u64, TimelockEntry>::empty(),
        0 <= j < calls.len(),
        calls[j].1 == (Call::ExecuteAction { nonce }),
        effect(moment(e, calls, j), calls[j].1).0,
    ensures
        exists|i: int|
            #![trigger calls[i]]
            {
                &&& 0 <= i < j
                &&& queues(
                    moment(e, calls, i),
                    calls[i].1,
                    nonce,
                    moment(e, calls, j).storage.timelock_entries[nonce],
                )
                &&& calls[i].0 + PaymentRouter::SECONDS_IN_24H <= calls[j].0
            },
{
    let i = lemma_pending_was_queued(e, calls, j, nonce);
    assert(calls[i].0 + PaymentRouter::SECONDS_IN_24H <= calls[j].0);
}

/// Over any sequence of calls, once there is an admin there is always one, and the
/// super-admin role always has a designated member who holds it.
pub proof fn law_super_admin_is_never_lost(e: InvocationView, calls: Seq<(u64, Call)>)
    requires
        e.wf(),
        possible(e, calls),
        e.storage.admin is Some,
    ensures
        ({
            let s = history(e, calls).storage;
            &&& s.admin is Some
            &&& s.roles.contains_key(Role::SuperAdmin)
            &&& s.member(s.roles[Role::SuperAdmin], Role::SuperAdmin)
            &&& s.holder(Role::SuperAdmin) == Some(s.roles[Role::SuperAdmin])
        }),
{
    let n = calls.len() as int;
    lemma_history_wf(e, calls, n);
    lemma_forward(e, calls, 0, n, 0);
    assert(calls.take(n) =~= calls);
    assert(calls.take(0) =~= Seq::empty());
}

} // verus!
