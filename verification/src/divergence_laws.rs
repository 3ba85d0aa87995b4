//! Commands that are held against what is recorded in their place, and what is
//! counted of a history.
use crate::activity::schedules_local;
use crate::event::WorkflowEvent;
use crate::json::{json_same, json_text, json_view, JsonView};
use crate::kinds::event_label;
use crate::moves::{lemma_next_open, lemma_prepared, lemma_scan_stop};
use crate::outcome::{HistoryMatchView, LocalActivityResolution};
use crate::record_laws::points_at;
use crate::replay::Replay;
use crate::scan::ScanView;
use crate::search::lemma_first_index_is;
use crate::types::{opt_text, ActivityExecId, SideEffectKind};
use vstd::prelude::*;

verus! {

// ── How events are shown ────────────────────────────────────────────────────
/// The name under which events of a kind are known.
pub open spec fn known_as(e: WorkflowEvent) -> Seq<char> {
    match e {
        WorkflowEvent::ActivityScheduled { .. } => "ActivityScheduled"@,
        WorkflowEvent::ActivityStarted { .. } => "ActivityStarted"@,
        WorkflowEvent::ActivityHeartbeat { .. } => "ActivityHeartbeat"@,
        WorkflowEvent::ActivityCompleted { .. } => "ActivityCompleted"@,
        WorkflowEvent::ActivityFailed { .. } => "ActivityFailed"@,
        WorkflowEvent::ActivityTimedOut { .. } => "ActivityTimedOut"@,
        WorkflowEvent::ActivityAwaitingExternal { .. } => "ActivityAwaitingExternal"@,
        WorkflowEvent::ActivityCompletedExternally { .. } => "ActivityCompletedExternally"@,
        WorkflowEvent::ActivityFailedExternally { .. } => "ActivityFailedExternally"@,
        WorkflowEvent::ActivityExternalDeadlineExtended { .. } => "ActivityExternalDeadlineExtended"@,
        WorkflowEvent::LocalActivityScheduled { .. } => "LocalActivityScheduled"@,
        WorkflowEvent::LocalActivityCompleted { .. } => "LocalActivityCompleted"@,
        WorkflowEvent::LocalActivityFailed { .. } => "LocalActivityFailed"@,
        WorkflowEvent::LocalActivityExhausted { .. } => "LocalActivityExhausted"@,
        WorkflowEvent::ChildWorkflowStarted { .. } => "ChildWorkflowStarted"@,
        WorkflowEvent::ChildWorkflowCompleted { .. } => "ChildWorkflowCompleted"@,
        WorkflowEvent::ChildWorkflowFailed { .. } => "ChildWorkflowFailed"@,
        WorkflowEvent::ChildWorkflowSpawnedDetached { .. } => "ChildWorkflowSpawnedDetached"@,
        WorkflowEvent::ChildWorkflowCascadeApplied { .. } => "ChildWorkflowCascadeApplied"@,
        WorkflowEvent::ExternalSignalRequested { .. } => "ExternalSignalRequested"@,
        WorkflowEvent::ExternalSignalDelivered { .. } => "ExternalSignalDelivered"@,
        WorkflowEvent::ExternalSignalFailed { .. } => "ExternalSignalFailed"@,
        WorkflowEvent::ExternalCancelRequested { .. } => "ExternalCancelRequested"@,
        WorkflowEvent::ExternalCancelDelivered { .. } => "ExternalCancelDelivered"@,
        WorkflowEvent::ExternalCancelFailed { .. } => "ExternalCancelFailed"@,
        WorkflowEvent::ExternalAwaitRequested { .. } => "ExternalAwaitRequested"@,
        WorkflowEvent::ExternalAwaitResolved { .. } => "ExternalAwaitResolved"@,
        WorkflowEvent::ExternalAwaitFailed { .. } => "ExternalAwaitFailed"@,
        WorkflowEvent::MarkerRecorded { .. } => "MarkerRecorded"@,
        WorkflowEvent::SideEffectRecorded { .. } => "SideEffectRecorded"@,
        WorkflowEvent::SignalReceived { .. } => "SignalReceived"@,
        WorkflowEvent::TimerStarted { .. } => "TimerStarted"@,
        WorkflowEvent::TimerFired { .. } => "TimerFired"@,
        WorkflowEvent::TimerCancelled { .. } => "TimerCancelled"@,
        WorkflowEvent::MutexGranted { .. } => "MutexGranted"@,
        WorkflowEvent::UpdateAdmitted { .. } => "UpdateAdmitted"@,
        WorkflowEvent::UpdateCompleted { .. } => "UpdateCompleted"@,
        WorkflowEvent::UpdateFailed { .. } => "UpdateFailed"@,
        WorkflowEvent::WorkflowStarted { .. } => "WorkflowStarted"@,
        WorkflowEvent::WorkflowCompleted { .. } => "WorkflowCompleted"@,
        WorkflowEvent::WorkflowFailed { .. } => "WorkflowFailed"@,
        WorkflowEvent::WorkflowCancelled { .. } => "WorkflowCancelled"@,
        WorkflowEvent::WorkflowContinuedAsNew { .. } => "WorkflowContinuedAsNew"@,
        WorkflowEvent::WorkflowExecutionPaused { .. } => "WorkflowExecutionPaused"@,
        WorkflowEvent::WorkflowExecutionResumed { .. } => "WorkflowExecutionResumed"@,
        WorkflowEvent::WorkflowRedriven { .. } => "WorkflowRedriven"@,
        WorkflowEvent::WorkflowResetFork { .. } => "WorkflowResetFork"@,
        WorkflowEvent::WorkflowRetryScheduled { .. } => "WorkflowRetryScheduled"@,
    }
}

/// A kind with what tells events of that kind apart.
pub open spec fn called(kind: Seq<char>, what: Seq<char>) -> Seq<char> {
    kind + "("@ + what + ")"@
}

/// How an event is shown: a marker with its name, a side effect with its kind and
/// its name, where it has one; any other event by its kind alone.
pub open spec fn shown_as(e: WorkflowEvent) -> Seq<char> {
    match e {
        WorkflowEvent::MarkerRecorded { name, .. } => called("MarkerRecorded"@, name@),
        WorkflowEvent::SideEffectRecorded { kind, name, .. } => {
            let kind = match kind {
                SideEffectKind::Custom => "custom"@,
                SideEffectKind::Now => "now"@,
                SideEffectKind::Random => "random"@,
                SideEffectKind::Uuid => "uuid"@,
            };
            match opt_text(name) {
                Some(name) => called("SideEffectRecorded"@, kind + ":"@ + name),
                None => called("SideEffectRecorded"@, kind),
            }
        },
        other => known_as(other),
    }
}

/// Every event is known by its kind, and is shown so that its kind can be told.
pub proof fn law_events_are_known_by_their_kind(e: WorkflowEvent)
    ensures
        e.kind_name() == known_as(e),
        event_label(e) == shown_as(e),
{
}

/// Whether the result is a divergence that points at the event `i` and shows these
/// two sides.
pub open spec fn shows(
    r: HistoryMatchView,
    expected: Seq<char>,
    actual: Seq<char>,
    i: int,
) -> bool {
    &&& points_at(r, i)
    &&& r->expected == expected
    &&& r->actual == actual
}

// ── Activities ──────────────────────────────────────────────────────────────
/// An activity is held against what is recorded in its place: another event,
/// another name, or another input where the input is compared, is a divergence
/// that points there and shows both sides, and nothing changes. Anything else is
/// no divergence, and is not new.
pub proof fn law_other_activity_diverges(s: Replay, name: Seq<char>, input: Option<JsonView>)
    requires
        s.wf(),
        s.prepared().cursor < s.len(),
    ensures
        ({
            let p = s.prepared();
            let (after, r) = s.activity(name, input);
            match s.events[p.cursor] {
                WorkflowEvent::ActivityScheduled { name: recorded, input: recorded_input, .. } => {
                    if recorded@ != name {
                        &&& shows(
                            r,
                            called("ActivityScheduled"@, name),
                            called("ActivityScheduled"@, recorded@),
                            p.cursor,
                        )
                        &&& after == p
                    } else if input is Some && !json_same(
                        json_view(recorded_input),
                        input.unwrap(),
                    ) {
                        &&& shows(
                            r,
                            called(
                                "ActivityScheduled"@,
                                name + ", input="@ + json_text(json_view(recorded_input)),
                            ),
                            called("ActivityScheduled"@, name + ", input="@ + json_text(input.unwrap())),
                            p.cursor,
                        )
                        &&& after == p
                    } else {
                        &&& !(r is Diverged)
                        &&& !(r is NoMatch)
                    }
                },
                other => {
                    &&& shows(r, called("ActivityScheduled"@, name), shown_as(other), p.cursor)
                    &&& after == p
                },
            }
        }),
{
    lemma_prepared(s);
    let p = s.prepared();
    match s.events[p.cursor] {
        WorkflowEvent::ActivityScheduled { activity_id, .. } => {
            let q = p.at(p.cursor + 1);
            lemma_scan_stop(q, ScanView::Activity(activity_id), q.cursor, q.len());
        },
        _ => {},
    }
}

/// A local activity is held against what is recorded in its place, in the same
/// way as an activity.
pub proof fn law_other_local_activity_diverges(s: Replay, name: Seq<char>, input: Option<JsonView>)
    requires
        s.wf(),
        s.prepared().cursor < s.len(),
    ensures
        ({
            let p = s.prepared();
            let (after, r) = s.local_activity(name, input);
            match s.events[p.cursor] {
                WorkflowEvent::LocalActivityScheduled {
                    name: recorded,
                    input: recorded_input,
                    ..
                } => {
                    if recorded@ != name {
                        &&& shows(
                            r,
                            called("LocalActivityScheduled"@, name),
                            called("LocalActivityScheduled"@, recorded@),
                            p.cursor,
                        )
                        &&& after == p
                    } else if input is Some && !json_same(
                        json_view(recorded_input),
                        input.unwrap(),
                    ) {
                        &&& shows(
                            r,
                            called(
                                "LocalActivityScheduled"@,
                                name + ", input="@ + json_text(json_view(recorded_input)),
                            ),
                            called(
                                "LocalActivityScheduled"@,
                                name + ", input="@ + json_text(input.unwrap()),
                            ),
                            p.cursor,
                        )
                        &&& after == p
                    } else {
                        &&& !(r is Diverged)
                        &&& !(r is NoMatch)
                    }
                },
                other => {
                    &&& shows(r, called("LocalActivityScheduled"@, name), shown_as(other), p.cursor)
                    &&& after == p
                },
            }
        }),
{
    lemma_prepared(s);
    let p = s.prepared();
    match s.events[p.cursor] {
        WorkflowEvent::LocalActivityScheduled { activity_id, .. } => {
            let q = p.at(p.cursor + 1);
            lemma_scan_stop(q, ScanView::LocalActivity(activity_id), q.cursor, q.len());
        },
        _ => {},
    }
}

/// An activity that an outside system completes is held against what is recorded
/// in its place: another event or another name is a divergence that points there
/// and shows both sides, and nothing changes. Anything else is no divergence, and
/// is not new.
pub proof fn law_other_external_activity_diverges(s: Replay, name: Seq<char>)
    requires
        s.wf(),
        s.prepared().cursor < s.len(),
    ensures
        ({
            let p = s.prepared();
            let (after, r) = s.external_activity(name);
            match s.events[p.cursor] {
                WorkflowEvent::ActivityAwaitingExternal { name: recorded, .. } => {
                    if recorded@ != name {
                        &&& shows(
                            r,
                            called("ActivityAwaitingExternal"@, name),
                            called("ActivityAwaitingExternal"@, recorded@),
                            p.cursor,
                        )
                        &&& after == p
                    } else {
                        &&& !(r is Diverged)
                        &&& !(r is NoMatch)
                    }
                },
                other => {
                    &&& shows(
                        r,
                        called("ActivityAwaitingExternal"@, name),
                        shown_as(other),
                        p.cursor,
                    )
                    &&& after == p
                },
            }
        }),
{
    lemma_prepared(s);
    let p = s.prepared();
    match s.events[p.cursor] {
        WorkflowEvent::ActivityAwaitingExternal { activity_id, .. } => {
            let q = p.at(p.cursor + 1);
            lemma_scan_stop(q, ScanView::ExternalActivity(activity_id), q.cursor, q.len());
        },
        _ => {},
    }
}

/// Whether a local activity is in progress of which no attempt failed yet.
pub open spec fn unattempted(r: HistoryMatchView) -> bool {
    r matches HistoryMatchView::LocalActivityInProgress { failed_attempts, .. } && failed_attempts
        == 0
}

/// A local activity with its input compared differs from one without in one case
/// only: one that was scheduled and of which no attempt failed yet counts as new.
pub proof fn law_unattempted_local_activity_is_new(s: Replay, name: Seq<char>, input: JsonView)
    ensures
        ({
            let (after, r) = s.local_activity(name, Some(input));
            let (strict, t) = s.local_activity_strict(name, input);
            &&& strict == after
            &&& unattempted(r) ==> t is NoMatch
            &&& !unattempted(r) ==> t == r
        }),
{
}

/// The settings of a local activity are those that were recorded with its first
/// scheduling, whether or not that was claimed; without one, nothing is settled.
pub proof fn law_local_settings_are_those_of_the_first_scheduling(
    s: Replay,
    id: ActivityExecId,
    t: int,
)
    requires
        0 <= t <= s.len(),
        t < s.len() ==> (s.events[t] matches WorkflowEvent::LocalActivityScheduled {
            activity_id,
            ..
        } && activity_id == id),
        forall|j: int|
            0 <= j < t ==> !(#[trigger] s.events[j] matches WorkflowEvent::LocalActivityScheduled {
                activity_id,
                ..
            } && activity_id == id),
    ensures
        t == s.len() ==> s.local_resolution(id) == (LocalActivityResolution {
            resolved: false,
            retry_policy: None,
            start_to_close_nanos: None,
        }),
        t < s.len() ==> (s.events[t] matches WorkflowEvent::LocalActivityScheduled {
            resolved,
            retry_policy,
            start_to_close_nanos,
            ..
        } && s.local_resolution(id) == (LocalActivityResolution {
            resolved,
            retry_policy,
            start_to_close_nanos,
        })),
{
    lemma_first_index_is(
        |i: int| schedules_local(s.events[i], id),
        0,
        s.len(),
        t,
    );
}

// ── Counts ──────────────────────────────────────────────────────────────────
/// The positions from `from` up to `to` at which an activity was scheduled that
/// nobody claimed yet.
pub open spec fn waiting_activities(s: Replay, from: int, to: int) -> Set<int> {
    Set::new(|i: int| from <= i < to && s.open_at(i) && s.events[i] is ActivityScheduled)
}

/// Activities that are still to be claimed are counted once each, and nothing else
/// is counted.
pub proof fn law_each_waiting_activity_is_counted_once(s: Replay, from: int, to: int)
    requires
        0 <= from,
        to <= s.len(),
    ensures
        waiting_activities(s, from, to).finite(),
        s.open_scheduled(from, to) == waiting_activities(s, from, to).len(),
    decreases to - from,
{
    if from < to {
        law_each_waiting_activity_is_counted_once(s, from, to - 1);
        let before = waiting_activities(s, from, to - 1);
        if s.open_at(to - 1) && s.events[to - 1] is ActivityScheduled {
            assert(waiting_activities(s, from, to) =~= before.insert(to - 1));
        } else {
            assert(waiting_activities(s, from, to) =~= before);
        }
    } else {
        assert(waiting_activities(s, from, to) =~= Set::empty());
    }
}

/// The positions from the cursor up to `to` of signals of that name that nobody
/// claimed, other than those that lost a race.
pub open spec fn unclaimed_of(s: Replay, name: Seq<char>, to: int) -> Set<int> {
    Set::new(
        |i: int|
            s.cursor <= i < to && s.open_at(i) && (s.events[i]
                matches WorkflowEvent::SignalReceived { signal_name, .. } && signal_name@ == name)
                && !s.late.contains(i),
    )
}

/// The places among the first `n` waiting signals of those of that name, other
/// than those that lost a race.
pub open spec fn waiting_of(s: Replay, name: Seq<char>, n: int) -> Set<int> {
    Set::new(
        |k: int|
            0 <= k < n && s.pending_signals[k].name == name && !s.late.contains(
                s.pending_signals[k].index,
            ),
    )
}

/// The signals ahead are counted once each.
proof fn lemma_unclaimed_of(s: Replay, name: Seq<char>, to: int)
    requires
        0 <= s.cursor,
        to <= s.len(),
    ensures
        unclaimed_of(s, name, to).finite(),
        s.unclaimed_signals(name, to) == unclaimed_of(s, name, to).len(),
    decreases to - s.cursor,
{
    if s.cursor < to {
        lemma_unclaimed_of(s, name, to - 1);
        let before = unclaimed_of(s, name, to - 1);
        if s.unclaimed_signal(name, to - 1) {
            assert(unclaimed_of(s, name, to) =~= before.insert(to - 1));
        } else {
            assert(unclaimed_of(s, name, to) =~= before);
        }
    } else {
        assert(unclaimed_of(s, name, to) =~= Set::empty());
    }
}

/// The signals that wait are counted once each.
proof fn lemma_waiting_of(s: Replay, name: Seq<char>, n: int)
    ensures
        waiting_of(s, name, n).finite(),
        s.undelivered_signals(name, n) == waiting_of(s, name, n).len(),
    decreases n,
{
    if n > 0 {
        lemma_waiting_of(s, name, n - 1);
        let before = waiting_of(s, name, n - 1);
        if s.pending_signals[n - 1].name == name && !s.late.contains(
            s.pending_signals[n - 1].index,
        ) {
            assert(waiting_of(s, name, n) =~= before.insert(n - 1));
        } else {
            assert(waiting_of(s, name, n) =~= before);
        }
    } else {
        assert(waiting_of(s, name, n) =~= Set::empty());
    }
}

/// Signals that no wait got are counted under their own names, once each, whether
/// they stand ahead of the cursor or were taken out; those that lost a race are
/// not counted.
pub proof fn law_each_undelivered_signal_is_counted_once(s: Replay, name: Seq<char>)
    requires
        s.wf(),
    ensures
        s.unconsumed_signals(name) == unclaimed_of(s, name, s.len()).len() + waiting_of(
            s,
            name,
            s.pending_signals.len() as int,
        ).len(),
{
    lemma_unclaimed_of(s, name, s.len());
    lemma_waiting_of(s, name, s.pending_signals.len() as int);
}

// ── What is left ────────────────────────────────────────────────────────────
/// History is being replayed exactly while an event from the cursor on is still to
/// be claimed; a failed run is at its frontier exactly when there is none; and
/// history is left exactly while there is one, or something that was taken out
/// waits.
pub proof fn law_replay_lasts_while_events_are_left(s: Replay)
    requires
        s.wf(),
    ensures
        s.replaying() <==> exists|i: int| s.cursor <= i && #[trigger] s.open_at(i),
        s.at_failure_frontier() <==> s.failure_tail is Some && forall|i: int|
            s.cursor <= i ==> !#[trigger] s.open_at(i),
        s.buffered() <==> {
            ||| exists|i: int| s.cursor <= i && #[trigger] s.open_at(i)
            ||| s.pending_signals.len() > 0
            ||| s.external_signals.len() > 0
            ||| s.external_cancels.len() > 0
            ||| s.external_awaits.len() > 0
        },
{
    lemma_next_open(s, s.cursor);
    let n = s.next_open(s.cursor);
    if n < s.len() {
        assert(s.open_at(n));
    }
    assert forall|i: int| s.cursor <= i && #[trigger] s.open_at(i) implies n < s.len() by {
        if i < n {
            assert(s.consumed(i));
        }
    }
}

} // verus!
