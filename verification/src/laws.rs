//! What holds of the matcher as a whole.
//!
//! Each function states one law over the states that the operations pass
//! through; the operations' own contracts tie them to those states.
use crate::activity::{activity_result, external_activity_result, local_activity_result};
use crate::child::{child_result, left_by_loser, started_child};
use crate::event::WorkflowEvent;
use crate::external::{lemma_no_request_ahead, RequestKind};
use crate::json::{json_same_reflexive, json_view, JsonView};
use crate::kinds::{is_redrive, is_stashable, is_update};
use crate::moves::{
    lemma_absorbed_frame, lemma_at, lemma_drained, lemma_moved_to, lemma_next_open,
    lemma_next_open_here, lemma_nothing_to_await, lemma_prepared, lemma_resolved,
    lemma_resolved_idle, lemma_scan_stop, lemma_scanned, lemma_stashed_frame, lemma_step_classes,
};
use crate::origin::{failure_tail, is_silent};
use crate::origin_laws::law_silent_events_are_transparent;
use crate::outcome::{
    ChildOrTimerView, HistoryMatchView, MutexGrantView, SagaMarkerMatch, SideEffectNowMatch,
    SignalOrTimerView,
};
use crate::replay::Replay;
use crate::scan::{
    activity_outcome, activity_progress, child_outcome, local_outcome, timer_fired, ScanView,
};
use crate::search::{
    lemma_first_index, lemma_first_index_is, lemma_first_index_same, lemma_last_index,
};
use crate::stash::{cancel_position, signal_position};
use crate::types::{
    ActivityExecId, ExecutionId, ExternalCancelId, ExternalSignalId, ExternalTarget,
    ParentClosePolicy, SideEffectKind,
};
use vstd::prelude::*;

verus! {

// ── Past the end of history ─────────────────────────────────────────────────
/// With no recorded history ahead, preparing for a command only moves the cursor
/// to the end.
proof fn lemma_prepared_at_end(s: Replay)
    requires
        s.wf(),
        !s.replaying(),
    ensures
        s.prepared() == s.advanced(),
        s.advanced().drained() == s.advanced(),
        !s.advanced().replaying(),
        s.advanced().cursor == s.len(),
{
    lemma_next_open(s, s.cursor);
    let a = s.advanced();
    lemma_next_open_here(a, a.cursor);
}

/// Past the end of history every command is new: activities, timers, locks,
/// children, markers and side effects, whatever was asked for, and nothing but
/// the cursor moves.
pub proof fn law_commands_past_the_end_are_new(
    s: Replay,
    name: Seq<char>,
    input: JsonView,
    duration: u64,
    policy: ParentClosePolicy,
    kind: SideEffectKind,
    seq: u32,
    count: usize,
    upstreams: Seq<usize>,
)
    requires
        s.wf(),
        !s.replaying(),
    ensures
        s.activity(name, None) == (s.advanced(), HistoryMatchView::NoMatch),
        s.activity(name, Some(input)) == (s.advanced(), HistoryMatchView::NoMatch),
        s.external_activity(name) == (s.advanced(), HistoryMatchView::NoMatch),
        s.local_activity(name, None) == (s.advanced(), HistoryMatchView::NoMatch),
        s.local_activity_strict(name, input) == (s.advanced(), HistoryMatchView::NoMatch),
        s.timer(name, None) == (s.advanced(), HistoryMatchView::NoMatch),
        s.timer(name, Some(duration)) == (s.advanced(), HistoryMatchView::NoMatch),
        s.timer_arm(name, duration) == (s.advanced(), HistoryMatchView::NoMatch),
        s.mutex_granted(name) == (s.advanced(), MutexGrantView::NoMatch),
        s.child_workflow(name, input) == (s.advanced(), HistoryMatchView::NoMatch),
        s.child_or_timer(name, input, name, Some(duration)) == (
            s.advanced(),
            ChildOrTimerView::NoMatch,
        ),
        s.detached_child(name, input, policy) == (s.advanced(), HistoryMatchView::NoMatch),
        s.continue_as_new(input, None) == (s.advanced(), HistoryMatchView::NoMatch),
        s.continue_as_new(input, Some(name)) == (s.advanced(), HistoryMatchView::NoMatch),
        s.side_effect(kind, Some(name)) == (s.advanced(), HistoryMatchView::NoMatch),
        s.side_effect_now() == (s.advanced(), SideEffectNowMatch::Frontier),
        s.fan_out_marker(seq, count) == (s.advanced(), HistoryMatchView::NoMatch),
        s.u64_marker(name, duration) == (s.advanced(), HistoryMatchView::NoMatch),
        s.session_marker(seq) == (s.advanced(), HistoryMatchView::NoMatch),
        s.named_marker(name, name, upstreams) == (s.advanced(), HistoryMatchView::NoMatch),
        s.peeked_marker(name) == (s.advanced(), None::<u64>),
        s.saga_marker(name) == (s.advanced(), SagaMarkerMatch::LiveFrontier),
{
    lemma_prepared_at_end(s);
}

/// Past the end of history, with nothing taken out and left unclaimed, signals
/// and requests to other workflows are new.
pub proof fn law_requests_past_the_end_are_new(
    s: Replay,
    name: Seq<char>,
    bound: Option<Seq<char>>,
    timer: Seq<char>,
    duration: Option<u64>,
    target: ExternalTarget,
    awaited: ExecutionId,
)
    requires
        s.wf(),
        !s.buffered(),
    ensures
        s.signal(name, bound) == (s.advanced(), HistoryMatchView::NoMatch),
        s.signal_or_timer(name, timer, duration) == (s.advanced(), SignalOrTimerView::NoMatch),
        s.signal_claimed(name) == (s.advanced(), None::<JsonView>),
        s.external_signal(target, name) == (s.advanced(), HistoryMatchView::NoMatch),
        s.external_cancel(target) == (s.advanced(), HistoryMatchView::NoMatch),
        s.external_await(awaited) == (s.advanced(), HistoryMatchView::NoMatch),
{
    lemma_prepared_at_end(s);
    lemma_no_request_ahead(s, RequestKind::Signal);
    lemma_no_request_ahead(s, RequestKind::Cancel);
    lemma_no_request_ahead(s, RequestKind::Await);
}

/// Past the end of history a version gate takes the highest version and an
/// undeprecated patch gate the new branch; both are noted as about to be
/// recorded.
pub proof fn law_version_and_patch_past_the_end(s: Replay, id: Seq<char>, min: u32, max: u32)
    requires
        s.wf(),
        !s.replaying(),
    ensures
        s.version(id, min, max).1 == max,
        s.version(id, min, max).0.latched == s.latched.insert(id),
        !s.deprecated.contains_key(id) ==> s.patch(id).1 is NewlyPatched && s.patch(id).0.latched
            == s.latched.insert(id),
{
    lemma_prepared_at_end(s);
}

// ── Where a command is looked for ───────────────────────────────────────────
/// A command is looked for at the first event that is neither taken nor kept
/// aside; a look ahead that takes nothing finds the same place.
pub proof fn law_command_position(s: Replay)
    requires
        s.wf(),
    ensures
        s.prepared().cursor == s.next_structural(s.cursor),
{
    let a = s.advanced();
    lemma_moved_to(s, s.cursor);
    lemma_next_open(s, s.cursor);
    let r = a.scan_stop(ScanView::Drain, a.cursor, a.len());
    lemma_scan_stop(a, ScanView::Drain, a.cursor, a.len());
    lemma_drained(a);
    lemma_resolved(a.drained(), a.drained().cursor, a.drained().len());
    let p = |i: int| !s.consumed(i) && !is_stashable(s.events[i]) && !is_update(s.events[i]);
    assert(s.prepared().cursor == r);
    assert(r < s.len() ==> p(r));
    assert forall|i: int| s.cursor <= i < r implies !#[trigger] p(i) by {
        if i < a.cursor {
            assert(s.consumed(i));
        } else {
            assert(!(a.step_at(ScanView::Drain, i) is Halt));
        }
    }
    lemma_first_index_is(p, s.cursor, s.len(), r);
}

/// With the cursor at an event that a command claims, and no request taken out,
/// there is nothing to prepare.
pub proof fn law_nothing_to_prepare(s: Replay)
    requires
        s.wf(),
        s.open_at(s.cursor),
        !is_stashable(s.events[s.cursor]),
        !is_update(s.events[s.cursor]),
        s.external_signals.len() == 0,
        s.external_cancels.len() == 0,
    ensures
        s.advanced() == s,
        s.drained() == s,
        s.prepared() == s,
        s.replaying(),
{
    lemma_next_open_here(s, s.cursor);
    let ends = |i: int|
        s.step_at(ScanView::Drain, i) is Hit || s.step_at(ScanView::Drain, i) is Halt;
    assert(ends(s.cursor));
    lemma_first_index_is(ends, s.cursor, s.len(), s.cursor);
    assert forall|j: int| s.cursor <= j < s.len() && !#[trigger] s.consumed(
        j,
    ) implies !s.awaits_outcome(s.events[j]) by {
        lemma_nothing_to_await(s, s.events[j]);
    }
    lemma_resolved_idle(s, s.cursor, s.len());
}

/// Looking ahead for a race of a child finds it only where the race itself is
/// looked for.
pub proof fn law_peek_agrees_with_the_race(s: Replay, timer: Seq<char>)
    requires
        s.wf(),
        s.child_race_next(timer),
    ensures
        s.prepared().replaying(),
        s.events[s.prepared().cursor] is ChildWorkflowStarted,
{
    law_command_position(s);
    lemma_prepared(s);
}

/// No command is ever held against an event that no command claims, against a
/// signal, an external primitive or an update: what is looked at is not taken
/// and is none of these.
pub proof fn law_divergence_is_never_against_transparent_events(s: Replay)
    requires
        s.wf(),
        s.prepared().replaying(),
    ensures
        ({
            let e = s.events[s.prepared().cursor];
            &&& !s.prepared().transparent.contains(s.prepared().cursor)
            &&& !is_silent(e)
            &&& !is_redrive(e)
            &&& !is_stashable(e)
            &&& !is_update(e)
        }),
{
    lemma_prepared(s);
    let e = s.events[s.prepared().cursor];
    if is_silent(e) || is_redrive(e) {
        law_silent_events_are_transparent(s.events, s.prepared().cursor);
    }
}

/// A state that was prepared stays prepared when some of what was taken out is
/// claimed.
pub proof fn lemma_prepared_stays(s: Replay, t: Replay)
    requires
        s.wf(),
        t == (Replay {
            pending_signals: t.pending_signals,
            external_signals: t.external_signals,
            external_cancels: t.external_cancels,
            external_awaits: t.external_awaits,
            ..s.prepared()
        }),
        forall|e: WorkflowEvent| #[trigger]
            t.awaits_outcome(e) ==> s.prepared().awaits_outcome(e),
    ensures
        t.prepared() == t,
{
    let p = s.prepared();
    lemma_prepared(s);
    lemma_next_open_here(t, t.cursor);
    assert(t.advanced() == t);
    let ends = |i: int|
        t.step_at(ScanView::Drain, i) is Hit || t.step_at(ScanView::Drain, i) is Halt;
    assert(t.cursor < t.len() ==> ends(t.cursor));
    lemma_first_index_is(ends, t.cursor, t.len(), t.cursor);
    assert(t.drained() == t);
    lemma_nothing_awaited_when_prepared(s);
    assert forall|j: int| t.cursor <= j < t.len() && !#[trigger] t.consumed(
        j,
    ) implies !t.awaits_outcome(t.events[j]) by {
        assert(!p.consumed(j));
    }
    lemma_resolved_idle(t, t.cursor, t.len());
}

/// Preparing for a command twice is preparing once.
pub proof fn law_preparation_is_idempotent(s: Replay)
    requires
        s.wf(),
    ensures
        s.prepared().prepared() == s.prepared(),
{
    lemma_prepared_stays(s, s.prepared());
}

/// Noting outcomes changes no id among the requests.
proof fn lemma_resolved_ids(s: Replay, from: int, to: int)
    ensures
        s.resolved(from, to).events == s.events,
        forall|e: WorkflowEvent| #[trigger]
            s.resolved(from, to).awaits_outcome(e) == s.awaits_outcome(e),
    decreases to - from,
{
    if from < to {
        let b = s.resolved(from, to - 1);
        lemma_resolved_ids(s, from, to - 1);
        if !b.consumed(to - 1) && b.awaits_outcome(s.events[to - 1]) {
            lemma_absorbed_ids(b, to - 1);
        }
    }
}

/// Noting one outcome changes no id among the requests.
proof fn lemma_absorbed_ids(s: Replay, i: int)
    requires
        s.awaits_outcome(s.events[i]),
    ensures
        s.absorbed(i).events == s.events,
        forall|e: WorkflowEvent| #[trigger] s.absorbed(i).awaits_outcome(e) == s.awaits_outcome(e),
{
    let t = s.absorbed(i);
    let signals = s.external_signals;
    let cancels = s.external_cancels;
    match s.events[i] {
        WorkflowEvent::ExternalSignalDelivered { signal_id } => lemma_first_index(
            |k: int| signals[k].signal_id == signal_id,
            0,
            signals.len() as int,
        ),
        WorkflowEvent::ExternalSignalFailed { signal_id, .. } => lemma_first_index(
            |k: int| signals[k].signal_id == signal_id,
            0,
            signals.len() as int,
        ),
        WorkflowEvent::ExternalCancelDelivered { cancel_id } => lemma_first_index(
            |k: int| cancels[k].cancel_id == cancel_id,
            0,
            cancels.len() as int,
        ),
        WorkflowEvent::ExternalCancelFailed { cancel_id, .. } => lemma_first_index(
            |k: int| cancels[k].cancel_id == cancel_id,
            0,
            cancels.len() as int,
        ),
        _ => {},
    }
    assert(t.external_signals.len() == s.external_signals.len());
    assert(t.external_cancels.len() == s.external_cancels.len());
    assert forall|k: int| 0 <= k < s.external_signals.len() implies (
    #[trigger] t.external_signals[k]).signal_id == s.external_signals[k].signal_id by {}
    assert forall|k: int| 0 <= k < s.external_cancels.len() implies (
    #[trigger] t.external_cancels[k]).cancel_id == s.external_cancels[k].cancel_id by {}
    assert forall|e: WorkflowEvent| #[trigger] t.awaits_outcome(e) == s.awaits_outcome(e) by {
        match e {
            WorkflowEvent::ExternalSignalDelivered { signal_id } => lemma_same_signal(
                s,
                t,
                signal_id,
            ),
            WorkflowEvent::ExternalSignalFailed { signal_id, .. } => lemma_same_signal(
                s,
                t,
                signal_id,
            ),
            WorkflowEvent::ExternalCancelDelivered { cancel_id } => lemma_same_cancel(
                s,
                t,
                cancel_id,
            ),
            WorkflowEvent::ExternalCancelFailed { cancel_id, .. } => lemma_same_cancel(
                s,
                t,
                cancel_id,
            ),
            _ => {},
        }
    }
}

/// Where a signal stands depends on the ids alone.
proof fn lemma_same_signal(s: Replay, t: Replay, id: ExternalSignalId)
    requires
        t.external_signals.len() == s.external_signals.len(),
        forall|k: int|
            0 <= k < s.external_signals.len() ==> (#[trigger] t.external_signals[k]).signal_id
                == s.external_signals[k].signal_id,
    ensures
        signal_position(t.external_signals, id) == signal_position(
            s.external_signals,
            id,
        ),
{
    let a = s.external_signals;
    let b = t.external_signals;
    lemma_first_index_same(
        |k: int| b[k].signal_id == id,
        |k: int| a[k].signal_id == id,
        0,
        a.len() as int,
    );
}

/// Where a cancel stands depends on the ids alone.
proof fn lemma_same_cancel(s: Replay, t: Replay, id: ExternalCancelId)
    requires
        t.external_cancels.len() == s.external_cancels.len(),
        forall|k: int|
            0 <= k < s.external_cancels.len() ==> (#[trigger] t.external_cancels[k]).cancel_id
                == s.external_cancels[k].cancel_id,
    ensures
        cancel_position(t.external_cancels, id) == cancel_position(
            s.external_cancels,
            id,
        ),
{
    let a = s.external_cancels;
    let b = t.external_cancels;
    lemma_first_index_same(
        |k: int| b[k].cancel_id == id,
        |k: int| a[k].cancel_id == id,
        0,
        a.len() as int,
    );
}

/// After outcomes were noted, none that is awaited is left in the range.
proof fn lemma_nothing_awaited(s: Replay, from: int, to: int)
    requires
        s.wf(),
        0 <= from,
        to <= s.len(),
    ensures
        forall|j: int|
            from <= j < to && !#[trigger] s.resolved(from, to).consumed(j) ==> !s.resolved(
                from,
                to,
            ).awaits_outcome(s.events[j]),
    decreases to - from,
{
    if from < to {
        let b = s.resolved(from, to - 1);
        let t = s.resolved(from, to);
        lemma_nothing_awaited(s, from, to - 1);
        lemma_resolved_ids(s, from, to - 1);
        lemma_resolved_ids(s, from, to);
        assert forall|j: int| from <= j < to && !#[trigger] t.consumed(j) implies !t.awaits_outcome(
            s.events[j],
        ) by {
            if !b.consumed(to - 1) && b.awaits_outcome(s.events[to - 1]) {
                lemma_absorbed_frame(b, to - 1);
                assert(t.consumed(j) == (b.consumed(j) || j == to - 1));
            }
            if j < to - 1 {
                assert(!b.consumed(j));
            }
            assert(t.awaits_outcome(s.events[j]) == s.awaits_outcome(s.events[j]));
            assert(b.awaits_outcome(s.events[j]) == s.awaits_outcome(s.events[j]));
        }
    }
}

/// Once prepared, no outcome of a request that was taken out is left ahead.
pub proof fn lemma_nothing_awaited_when_prepared(s: Replay)
    requires
        s.wf(),
    ensures
        forall|j: int|
            s.prepared().cursor <= j < s.len() && !#[trigger] s.prepared().consumed(j)
                ==> !s.prepared().awaits_outcome(s.events[j]),
{
    let d = s.advanced().drained();
    lemma_moved_to(s, s.cursor);
    lemma_drained(s.advanced());
    lemma_nothing_awaited(d, d.cursor, d.len());
    lemma_resolved(d, d.cursor, d.len());
}

/// Preparing for a command takes no signal from behind the command's place.
pub proof fn law_preparation_takes_only_what_precedes(s: Replay, i: int)
    requires
        s.wf(),
        s.prepared().cursor <= i < s.len(),
        s.events[i] is SignalReceived,
    ensures
        s.prepared().consumed(i) == s.consumed(i),
{
    let a = s.advanced();
    lemma_moved_to(s, s.cursor);
    lemma_drained(a);
    let d = a.drained();
    lemma_stashed_frame(a, ScanView::Drain, a.cursor, d.cursor);
    lemma_resolved(d, d.cursor, d.len());
    assert(a.stashed(ScanView::Drain, a.cursor, d.cursor).consumed(i) == a.consumed(i));
    assert(s.prepared().consumed(i) == d.consumed(i));
}

// ── Failed runs ─────────────────────────────────────────────────────────────
/// From the failure of a run on to the end of its history, everything is
/// transparent, and everything behind the failure is silent.
pub proof fn law_failure_tail_is_transparent(s: Replay, i: int)
    requires
        s.wf(),
        s.failure_tail is Some,
        s.failure_tail.unwrap() <= i < s.len(),
    ensures
        s.consumed(i),
        s.events[s.failure_tail.unwrap()] is WorkflowFailed,
        i > s.failure_tail.unwrap() ==> is_silent(s.events[i]),
{
    let p = |i: int| !is_silent(s.events[i]);
    lemma_last_index(p, s.len());
    if i > s.failure_tail.unwrap() {
        assert(!p(i));
    }
}

/// Once everything before the failure of a run was claimed, commands find the end
/// of history.
pub proof fn law_failing_frontier(s: Replay)
    requires
        s.wf(),
        s.failure_tail is Some,
        forall|i: int| s.cursor <= i < s.failure_tail.unwrap() ==> #[trigger] s.consumed(i),
    ensures
        s.at_failure_frontier(),
{
    lemma_next_open(s, s.cursor);
    let n = s.next_open(s.cursor);
    if n < s.len() {
        if n >= s.failure_tail.unwrap() {
            law_failure_tail_is_transparent(s, n);
        } else {
            assert(s.consumed(n));
        }
    }
}

// ── Recorded outcomes are given back ────────────────────────────────────────
/// A scan finds the first event that it looks for, as long as it may cross
/// everything before it.
proof fn lemma_scan_finds(s: Replay, scan: ScanView, from: int, end: int, t: int)
    requires
        from <= t < end,
        s.step_at(scan, t) is Hit,
        forall|j: int|
            from <= j < t ==> !(#[trigger] s.step_at(scan, j) is Hit) && !(s.step_at(
                scan,
                j,
            ) is Halt),
    ensures
        s.scan_stop(scan, from, end) == t,
        s.scan_hits(scan, from, end),
{
    let ends = |i: int| s.step_at(scan, i) is Hit || s.step_at(scan, i) is Halt;
    assert(ends(t));
    assert forall|j: int| from <= j < t implies !#[trigger] ends(j) by {
        assert(!(s.step_at(scan, j) is Hit));
    }
    lemma_first_index_is(ends, from, end, t);
}

/// What is settled is never looked for again: it is taken, or it lies behind the
/// cursor.
proof fn lemma_settled_is_past(s: Replay, t: int, command: Option<int>)
    requires
        s.wf(),
        s.cursor <= t < s.len(),
        command matches Some(c) ==> s.cursor <= c <= s.len(),
    ensures
        s.settled_outcome(t, command).consumed(t) || t < s.settled_outcome(t, command).cursor,
        s.settled(t, command).consumed(t) || t < s.settled(t, command).cursor,
{
    match command {
        Some(c) => {},
        None => lemma_moved_to(s, t + 1),
    }
}

/// An activity whose scheduling stands where it is looked for, and whose first
/// outcome is recorded behind events that may be crossed, gives that outcome
/// back, with its recorded input as without; the outcome is then settled for
/// good.
pub proof fn law_recorded_activity_is_given_back(s: Replay, id: ActivityExecId, t: int)
    requires
        s.wf(),
        s.prepared().replaying(),
        s.events[s.prepared().cursor] matches WorkflowEvent::ActivityScheduled {
            activity_id,
            ..
        } && activity_id == id,
        s.prepared().cursor < t < s.len(),
        s.prepared().open_at(t),
        activity_outcome(s.events[t], id),
        forall|j: int|
            s.prepared().cursor < j < t ==> !(#[trigger] s.prepared().step_at(
                ScanView::Activity(id),
                j,
            ) is Hit) && !(s.prepared().step_at(ScanView::Activity(id), j) is Halt),
    ensures
        s.events[s.prepared().cursor] matches WorkflowEvent::ActivityScheduled {
            name,
            input,
            ..
        } && {
            let (after, r) = s.activity(name@, None);
            &&& r == activity_result(s.events[t])
            &&& s.activity(name@, Some(json_view(input))) == (after, r)
            &&& after.consumed(t) || t < after.cursor
        },
{
    let p = s.prepared();
    lemma_prepared(s);
    let q = p.at(p.cursor + 1);
    lemma_at(p, p.cursor + 1);
    let scan = ScanView::Activity(id);
    assert(q.step_at(scan, t) is Hit);
    assert forall|j: int| q.cursor <= j < t implies !(#[trigger] q.step_at(scan, j) is Hit) && !(
    q.step_at(scan, j) is Halt) by {
        assert(q.step_at(scan, j) == p.step_at(scan, j));
    }
    lemma_scan_finds(q, scan, q.cursor, q.len(), t);
    lemma_scanned(q, scan, q.cursor, q.len());
    lemma_settled_is_past(
        q.scanned(scan, q.cursor, q.len()),
        t,
        q.scan_command(scan, q.cursor, q.len()),
    );
    match s.events[p.cursor] {
        WorkflowEvent::ActivityScheduled { input, .. } => json_same_reflexive(json_view(input)),
        _ => {},
    }
}

/// Replaying one activity after the other: where an activity's scheduling stands
/// at the cursor with its completion right behind it, and nothing was taken out
/// before, the recorded output is given back and the cursor moves past both;
/// nothing else changes.
pub proof fn law_activities_replay_in_sequence(s: Replay, id: ActivityExecId)
    requires
        s.wf(),
        s.external_signals.len() == 0,
        s.external_cancels.len() == 0,
        s.open_at(s.cursor),
        s.open_at(s.cursor + 1),
        s.events[s.cursor] matches WorkflowEvent::ActivityScheduled { activity_id, .. }
            && activity_id == id,
        s.events[s.cursor + 1] matches WorkflowEvent::ActivityCompleted { activity_id, .. }
            && activity_id == id,
    ensures
        s.events[s.cursor] matches WorkflowEvent::ActivityScheduled { name, .. }
            && s.events[s.cursor + 1] matches WorkflowEvent::ActivityCompleted { output, .. }
            && s.activity(name@, None) == (
            s.moved_to(s.cursor + 2),
            HistoryMatchView::Matched { output: json_view(output) },
        ),
{
    law_nothing_to_prepare(s);
    let q = s.at(s.cursor + 1);
    let scan = ScanView::Activity(id);
    assert(q.step_at(scan, s.cursor + 1) is Hit);
    lemma_scan_finds(q, scan, q.cursor, q.len(), q.cursor);
    let command = |i: int| q.step_at(scan, i) is Command;
    lemma_first_index_is(command, q.cursor, q.cursor, q.cursor);
    assert(q.scanned(scan, q.cursor, q.len()) == q);
    lemma_first_index_same(
        |i: int| !q.consumed(i),
        |i: int| !s.consumed(i),
        s.cursor + 2,
        s.len(),
    );
}

/// A local activity whose scheduling stands where it is looked for, and whose
/// completion or exhaustion is recorded behind events that may be crossed, gives
/// that outcome back, whatever attempts failed before.
pub proof fn law_recorded_local_activity_is_given_back(s: Replay, id: ActivityExecId, t: int)
    requires
        s.wf(),
        s.prepared().replaying(),
        s.events[s.prepared().cursor] matches WorkflowEvent::LocalActivityScheduled {
            activity_id,
            ..
        } && activity_id == id,
        s.prepared().cursor < t < s.len(),
        s.prepared().open_at(t),
        local_outcome(s.events[t], id),
        forall|j: int|
            s.prepared().cursor < j < t ==> !(#[trigger] s.prepared().step_at(
                ScanView::LocalActivity(id),
                j,
            ) is Hit) && !(s.prepared().step_at(ScanView::LocalActivity(id), j) is Halt),
    ensures
        s.events[s.prepared().cursor] matches WorkflowEvent::LocalActivityScheduled {
            name,
            input,
            ..
        } && {
            let (after, r) = s.local_activity(name@, None);
            &&& r == local_activity_result(s.events[t])
            &&& s.local_activity_strict(name@, json_view(input)) == (after, r)
            &&& after.consumed(t) || t < after.cursor
        },
{
    let p = s.prepared();
    lemma_prepared(s);
    let q = p.at(p.cursor + 1);
    lemma_at(p, p.cursor + 1);
    let scan = ScanView::LocalActivity(id);
    assert(q.step_at(scan, t) is Hit);
    assert forall|j: int| q.cursor <= j < t implies !(#[trigger] q.step_at(scan, j) is Hit) && !(
    q.step_at(scan, j) is Halt) by {
        assert(q.step_at(scan, j) == p.step_at(scan, j));
    }
    lemma_scan_finds(q, scan, q.cursor, q.len(), t);
    lemma_scanned(q, scan, q.cursor, q.len());
    lemma_settled_is_past(
        q.scanned(scan, q.cursor, q.len()),
        t,
        q.scan_command(scan, q.cursor, q.len()),
    );
    match s.events[p.cursor] {
        WorkflowEvent::LocalActivityScheduled { input, .. } => json_same_reflexive(
            json_view(input),
        ),
        _ => {},
    }
}

/// An activity completed by an outside system, whose announcement stands where it
/// is looked for and whose first outcome is recorded behind events that may be
/// crossed, gives that outcome back; the outcome is then settled for good.
pub proof fn law_recorded_external_activity_is_given_back(s: Replay, id: ActivityExecId, t: int)
    requires
        s.wf(),
        s.prepared().replaying(),
        s.events[s.prepared().cursor] matches WorkflowEvent::ActivityAwaitingExternal {
            activity_id,
            ..
        } && activity_id == id,
        s.prepared().cursor < t < s.len(),
        s.prepared().step_at(ScanView::ExternalActivity(id), t) is Hit,
        forall|j: int|
            s.prepared().cursor < j < t ==> !(#[trigger] s.prepared().step_at(
                ScanView::ExternalActivity(id),
                j,
            ) is Hit) && !(s.prepared().step_at(ScanView::ExternalActivity(id), j) is Halt),
    ensures
        s.events[s.prepared().cursor] matches WorkflowEvent::ActivityAwaitingExternal {
            name,
            ..
        } && {
            let (after, r) = s.external_activity(name@);
            &&& r == external_activity_result(s.events[t])
            &&& after.consumed(t) || t < after.cursor
        },
{
    let p = s.prepared();
    lemma_prepared(s);
    let q = p.at(p.cursor + 1);
    lemma_at(p, p.cursor + 1);
    let scan = ScanView::ExternalActivity(id);
    assert(q.step_at(scan, t) is Hit);
    assert forall|j: int| q.cursor <= j < t implies !(#[trigger] q.step_at(scan, j) is Hit) && !(
    q.step_at(scan, j) is Halt) by {
        assert(q.step_at(scan, j) == p.step_at(scan, j));
    }
    lemma_scan_finds(q, scan, q.cursor, q.len(), t);
    lemma_scanned(q, scan, q.cursor, q.len());
    lemma_settled_is_past(
        q.scanned(scan, q.cursor, q.len()),
        t,
        q.scan_command(scan, q.cursor, q.len()),
    );
}

/// What is reported as still in progress bears the ids that were recorded, so
/// that it can be resumed under them.
pub proof fn law_in_progress_keeps_the_recorded_ids(
    s: Replay,
    name: Seq<char>,
    input: JsonView,
)
    requires
        s.wf(),
    ensures
        ({
            let e = s.events[s.prepared().cursor];
            &&& s.activity(name, Some(input)).1 matches HistoryMatchView::ActivityInProgress {
                activity_id: id,
            } ==> (e matches WorkflowEvent::ActivityScheduled { activity_id, .. } && activity_id
                == id)
            &&& s.local_activity(name, Some(input)).1
                matches HistoryMatchView::LocalActivityInProgress { activity_id: id, .. } ==> (
            e matches WorkflowEvent::LocalActivityScheduled { activity_id, .. } && activity_id
                == id)
            &&& s.external_activity(name).1
                matches HistoryMatchView::AwaitingExternalCompletion {
                activity_id: id,
                token: key,
            } ==> (e matches WorkflowEvent::ActivityAwaitingExternal { activity_id, token, .. }
                && activity_id == id && token == key)
            &&& s.child_workflow(name, input).1 matches HistoryMatchView::ChildInProgress {
                child_id: id,
            } ==> (e matches WorkflowEvent::ChildWorkflowStarted { child_id, .. } && child_id == id)
        }),
{
    lemma_prepared(s);
}

/// A timer whose arming stands where it is looked for, and whose fire is recorded
/// behind events that may be crossed, has fired; the fire is then settled for
/// good.
pub proof fn law_recorded_fire_is_given_back(s: Replay, t: int)
    requires
        s.wf(),
        s.prepared().replaying(),
        s.events[s.prepared().cursor] is TimerStarted,
        s.prepared().cursor < t < s.len(),
        s.prepared().open_at(t),
        s.events[s.prepared().cursor] matches WorkflowEvent::TimerStarted { timer_id, .. } && {
            &&& timer_fired(s.events[t], timer_id@)
            &&& forall|j: int|
                s.prepared().cursor < j < t ==> !(#[trigger] s.prepared().step_at(
                    ScanView::Timer(timer_id@),
                    j,
                ) is Hit) && !(s.prepared().step_at(ScanView::Timer(timer_id@), j) is Halt)
        },
    ensures
        s.events[s.prepared().cursor] matches WorkflowEvent::TimerStarted {
            timer_id,
            duration_secs,
        } && {
            let (after, r) = s.timer(timer_id@, Some(duration_secs));
            &&& r == (HistoryMatchView::Matched { output: JsonView::Null })
            &&& s.timer(timer_id@, None) == (after, r)
            &&& after.consumed(t) || t < after.cursor
        },
{
    let p = s.prepared();
    lemma_prepared(s);
    let q = p.at(p.cursor + 1);
    lemma_at(p, p.cursor + 1);
    match s.events[p.cursor] {
        WorkflowEvent::TimerStarted { timer_id, .. } => {
            let scan = ScanView::Timer(timer_id@);
            assert(q.step_at(scan, t) is Hit);
            assert forall|j: int| q.cursor <= j < t implies !(#[trigger] q.step_at(
                scan,
                j,
            ) is Hit) && !(q.step_at(scan, j) is Halt) by {
                assert(q.step_at(scan, j) == p.step_at(scan, j));
            }
            lemma_scan_finds(q, scan, q.cursor, q.len(), t);
            lemma_scanned(q, scan, q.cursor, q.len());
            lemma_settled_is_past(
                q.scanned(scan, q.cursor, q.len()),
                t,
                q.scan_command(scan, q.cursor, q.len()),
            );
        },
        _ => {},
    }
}

/// A child whose start stands where it is looked for gives back its first
/// recorded outcome, whatever stands in between; the cursor stays right behind
/// the start, so that what stands in between is matched next.
pub proof fn law_recorded_child_is_given_back(s: Replay, t: int)
    requires
        s.wf(),
        s.prepared().replaying(),
        s.events[s.prepared().cursor] is ChildWorkflowStarted,
        s.prepared().cursor < t < s.len(),
        child_outcome(s.events[t], started_child(s.events[s.prepared().cursor])),
        forall|j: int|
            s.prepared().cursor < j < t ==> !child_outcome(
                #[trigger] s.events[j],
                started_child(s.events[s.prepared().cursor]),
            ),
    ensures
        s.events[s.prepared().cursor] matches WorkflowEvent::ChildWorkflowStarted {
            workflow_name,
            input,
            ..
        } && {
            let (after, r) = s.child_workflow(workflow_name@, json_view(input));
            &&& r == child_result(s.events[t])
            &&& after.consumed(t)
            &&& forall|j: int|
                s.prepared().cursor < j < after.cursor ==> #[trigger] after.consumed(j)
        },
{
    let p = s.prepared();
    lemma_prepared(s);
    let child = started_child(s.events[p.cursor]);
    let q = |i: int| child_outcome(p.events[i], child);
    assert(q(t));
    assert forall|j: int| p.cursor + 1 <= j < t implies !#[trigger] q(j) by {
        assert(!child_outcome(s.events[j], child));
    }
    lemma_first_index_is(q, p.cursor + 1, p.len(), t);
    let c = p.claimed(t);
    lemma_next_open(c, p.cursor + 1);
    match s.events[p.cursor] {
        WorkflowEvent::ChildWorkflowStarted { input, .. } => json_same_reflexive(json_view(input)),
        _ => {},
    }
    assert forall|j: int| p.cursor < j < c.moved_to(p.cursor + 1).cursor implies #[trigger] c.moved_to(
        p.cursor + 1,
    ).consumed(j) by {
        assert(c.consumed(j));
    }
}

// ── What a command leaves alone ─────────────────────────────────────────────
/// What looking for an outcome from the cursor on newly takes is kept aside, or is
/// the outcome that was found, or progress of the activity whose outcome it is.
proof fn lemma_search_takes(q: Replay, scan: ScanView, t: Replay, i: int)
    requires
        ({
            let stop = q.scan_stop(scan, q.cursor, q.len());
            let command = q.scan_command(scan, q.cursor, q.len());
            let w = q.scanned(scan, q.cursor, q.len());
            ||| t == w
            ||| t == w.rewound(command)
            ||| t == w.moved_to(stop)
            ||| q.scan_hits(scan, q.cursor, q.len()) && t == w.settled_outcome(stop, command)
        }),
        q.wf(),
        t.consumed(i),
        !q.consumed(i),
    ensures
        ({
            let stop = q.scan_stop(scan, q.cursor, q.len());
            let e = q.events[i];
            ||| is_stashable(e)
            ||| is_update(e)
            ||| q.scan_hits(scan, q.cursor, q.len()) && (i == stop || (match q.events[stop] {
                WorkflowEvent::ActivityCompleted { activity_id, .. } => activity_progress(
                    e,
                    activity_id,
                ),
                WorkflowEvent::ActivityFailed { activity_id, .. } => activity_progress(
                    e,
                    activity_id,
                ),
                WorkflowEvent::ActivityTimedOut { activity_id, .. } => activity_progress(
                    e,
                    activity_id,
                ),
                _ => false,
            }))
        }),
{
    let stop = q.scan_stop(scan, q.cursor, q.len());
    let command = q.scan_command(scan, q.cursor, q.len());
    let w = q.scanned(scan, q.cursor, q.len());
    lemma_scan_stop(q, scan, q.cursor, q.len());
    lemma_stashed_frame(q, scan, q.cursor, stop);
    lemma_step_classes(scan, q.events[i]);
    assert(w.consumed(i) == (q.consumed(i) || (q.cursor <= i < stop && q.step_at(
        scan,
        i,
    ) is Stash)));
    if !w.consumed(i) {
        assert(command is Some);
        assert(i == stop || w.progress_before(command.unwrap(), stop).contains(i));
    }
}

/// Matching a command takes no event of another one. What it newly takes is kept
/// aside for its own command, or is outcome or progress of the very activity,
/// timer or child that was matched.
pub proof fn law_commands_take_only_their_own(
    s: Replay,
    name: Seq<char>,
    input: JsonView,
    compared: Option<JsonView>,
    timer: Seq<char>,
    duration: Option<u64>,
    i: int,
)
    requires
        s.wf(),
        0 <= i < s.len(),
        !s.consumed(i),
        !is_stashable(s.events[i]),
        !is_update(s.events[i]),
    ensures
        ({
            let e = s.events[i];
            let at = s.events[s.prepared().cursor];
            &&& s.activity(name, compared).0.consumed(i) ==> (
            at matches WorkflowEvent::ActivityScheduled { activity_id, .. } && (activity_outcome(
                e,
                activity_id,
            ) || activity_progress(e, activity_id)))
            &&& s.local_activity(name, compared).0.consumed(i) ==> (
            at matches WorkflowEvent::LocalActivityScheduled { activity_id, .. } && local_outcome(
                e,
                activity_id,
            ))
            &&& s.timer(timer, duration).0.consumed(i) ==> timer_fired(e, timer)
            &&& s.child_workflow(name, input).0.consumed(i) ==> child_outcome(e, started_child(at))
        }),
{
    lemma_prepared(s);
    let p = s.prepared();
    if p.consumed(i) {
        lemma_preparation_takes(s, i);
    }
    if p.replaying() {
        let q = p.at(p.cursor + 1);
        lemma_at(p, p.cursor + 1);
        assert(q.consumed(i) == p.consumed(i));
        match p.events[p.cursor] {
            WorkflowEvent::ActivityScheduled { activity_id, .. } => {
                let t = q.activity_from_here(activity_id).0;
                if t.consumed(i) {
                    lemma_search_takes(q, ScanView::Activity(activity_id), t, i);
                }
            },
            WorkflowEvent::LocalActivityScheduled { activity_id, .. } => {
                let t = q.local_activity_from_here(activity_id).0;
                if t.consumed(i) {
                    lemma_search_takes(q, ScanView::LocalActivity(activity_id), t, i);
                }
            },
            WorkflowEvent::TimerStarted { .. } => {
                let t = s.timer(timer, duration).0;
                if t != p && t.consumed(i) {
                    lemma_search_takes(q, ScanView::Timer(timer), t, i);
                }
            },
            WorkflowEvent::ChildWorkflowStarted { child_id, .. } => {
                let outcome = |i: int| child_outcome(p.events[i], child_id);
                lemma_first_index(outcome, p.cursor + 1, p.len());
            },
            _ => {},
        }
    }
}

/// What preparing for a command newly takes is kept aside.
proof fn lemma_preparation_takes(s: Replay, i: int)
    requires
        s.wf(),
        s.prepared().consumed(i),
        !s.consumed(i),
    ensures
        is_stashable(s.events[i]) || is_update(s.events[i]),
{
    let a = s.advanced();
    lemma_moved_to(s, s.cursor);
    lemma_drained(a);
    let d = a.drained();
    lemma_stashed_frame(a, ScanView::Drain, a.cursor, d.cursor);
    lemma_resolved(d, d.cursor, d.len());
    lemma_step_classes(ScanView::Drain, a.events[i]);
    assert(a.stashed(ScanView::Drain, a.cursor, d.cursor).consumed(i) == (a.consumed(i) || (
    a.cursor <= i < d.cursor && a.step_at(ScanView::Drain, i) is Stash)));
    assert(s.prepared().consumed(i) == d.consumed(i) || is_stashable(s.events[i]));
}

/// Claiming what the losing branches of a race left takes nothing of any other
/// command.
pub proof fn law_losers_claim_only_their_own(
    s: Replay,
    activities: Seq<ActivityExecId>,
    children: Seq<ExecutionId>,
    i: int,
)
    requires
        s.wf(),
        0 <= i < s.len(),
        !left_by_loser(s.events[i], activities, children),
    ensures
        s.losers_claimed(activities, children).consumed(i) == s.consumed(i),
{
}

} // verus!
