//! Kinds of events, as the matcher tells them apart.
use crate::event::WorkflowEvent;
use crate::text::{glue, split_once, strip_prefix, tag, tagged};
use crate::types::{opt_str, opt_text};
use vstd::prelude::*;

verus! {

// ── Kinds ───────────────────────────────────────────────────────────────────
/// An operator paused or resumed the run: no command claims such an event.
pub open spec fn is_pause(e: WorkflowEvent) -> bool {
    ||| e is WorkflowExecutionPaused
    ||| e is WorkflowExecutionResumed
}

/// An operator paused or resumed the run: no command claims such an event.
pub(crate) fn is_pause_lifecycle_event(event: &WorkflowEvent) -> (r: bool)
    ensures
        r == is_pause(*event),
{
    match event {
        WorkflowEvent::WorkflowExecutionPaused { .. } => true,
        WorkflowEvent::WorkflowExecutionResumed { .. } => true,
        _ => false,
    }
}

/// Recorded after a run closed: no command claims such an event.
pub open spec fn is_bookkeeping(e: WorkflowEvent) -> bool {
    ||| e is WorkflowRetryScheduled
    ||| e is ChildWorkflowCascadeApplied
}

/// Recorded after a run closed: no command claims such an event.
pub(crate) fn is_post_terminal_bookkeeping(event: &WorkflowEvent) -> (r: bool)
    ensures
        r == is_bookkeeping(*event),
{
    match event {
        WorkflowEvent::WorkflowRetryScheduled { .. } => true,
        WorkflowEvent::ChildWorkflowCascadeApplied { .. } => true,
        _ => false,
    }
}

/// An operator reopened a failed run.
pub open spec fn is_redrive(e: WorkflowEvent) -> bool {
    ||| e is WorkflowRedriven
}

/// An operator reopened a failed run.
pub(crate) fn is_redrive_lifecycle_event(event: &WorkflowEvent) -> (r: bool)
    ensures
        r == is_redrive(*event),
{
    match event {
        WorkflowEvent::WorkflowRedriven { .. } => true,
        _ => false,
    }
}

/// Belongs to an update, or notes a fork: transparent to the commands of the
/// workflow body.
pub open spec fn is_update(e: WorkflowEvent) -> bool {
    ||| e is UpdateAdmitted
    ||| e is UpdateCompleted
    ||| e is UpdateFailed
    ||| e is WorkflowResetFork
}

/// Belongs to an update, or notes a fork: transparent to the commands of the
/// workflow body.
pub(crate) fn is_update_event(event: &WorkflowEvent) -> (r: bool)
    ensures
        r == is_update(*event),
{
    match event {
        WorkflowEvent::UpdateAdmitted { .. } => true,
        WorkflowEvent::UpdateCompleted { .. } => true,
        WorkflowEvent::UpdateFailed { .. } => true,
        WorkflowEvent::WorkflowResetFork { .. } => true,
        _ => false,
    }
}

/// A received signal, or an event of an external primitive: kept aside until
/// its own command claims it.
pub open spec fn is_stashable(e: WorkflowEvent) -> bool {
    ||| e is SignalReceived
    ||| e is ExternalSignalRequested
    ||| e is ExternalSignalDelivered
    ||| e is ExternalSignalFailed
    ||| e is ExternalCancelRequested
    ||| e is ExternalCancelDelivered
    ||| e is ExternalCancelFailed
    ||| e is ExternalAwaitRequested
    ||| e is ExternalAwaitResolved
    ||| e is ExternalAwaitFailed
}

/// A received signal, or an event of an external primitive: kept aside until
/// its own command claims it.
pub(crate) fn is_stashable_event(event: &WorkflowEvent) -> (r: bool)
    ensures
        r == is_stashable(*event),
{
    match event {
        WorkflowEvent::SignalReceived { .. } => true,
        WorkflowEvent::ExternalSignalRequested { .. } => true,
        WorkflowEvent::ExternalSignalDelivered { .. } => true,
        WorkflowEvent::ExternalSignalFailed { .. } => true,
        WorkflowEvent::ExternalCancelRequested { .. } => true,
        WorkflowEvent::ExternalCancelDelivered { .. } => true,
        WorkflowEvent::ExternalCancelFailed { .. } => true,
        WorkflowEvent::ExternalAwaitRequested { .. } => true,
        WorkflowEvent::ExternalAwaitResolved { .. } => true,
        WorkflowEvent::ExternalAwaitFailed { .. } => true,
        _ => false,
    }
}

/// Recorded for a command that may run next to the one being matched.
pub open spec fn is_sibling_command(e: WorkflowEvent) -> bool {
    ||| e is ActivityScheduled
    ||| e is LocalActivityScheduled
    ||| e is ChildWorkflowStarted
    ||| e is ChildWorkflowSpawnedDetached
    ||| e is MarkerRecorded
    ||| e is SideEffectRecorded
    ||| e is TimerStarted
    ||| e is TimerCancelled
}

/// Recorded for a command that may run next to the one being matched.
pub(crate) fn is_sibling_command_event(event: &WorkflowEvent) -> (r: bool)
    ensures
        r == is_sibling_command(*event),
{
    match event {
        WorkflowEvent::ActivityScheduled { .. } => true,
        WorkflowEvent::LocalActivityScheduled { .. } => true,
        WorkflowEvent::ChildWorkflowStarted { .. } => true,
        WorkflowEvent::ChildWorkflowSpawnedDetached { .. } => true,
        WorkflowEvent::MarkerRecorded { .. } => true,
        WorkflowEvent::SideEffectRecorded { .. } => true,
        WorkflowEvent::TimerStarted { .. } => true,
        WorkflowEvent::TimerCancelled { .. } => true,
        _ => false,
    }
}

/// Recorded as progress or outcome of a command that may run next to the one
/// being matched.
pub open spec fn is_sibling_progress(e: WorkflowEvent) -> bool {
    ||| e is ActivityStarted
    ||| e is ActivityHeartbeat
    ||| e is ActivityCompleted
    ||| e is ActivityFailed
    ||| e is ActivityTimedOut
    ||| e is LocalActivityCompleted
    ||| e is LocalActivityFailed
    ||| e is ChildWorkflowCompleted
    ||| e is ChildWorkflowFailed
    ||| e is TimerFired
}

/// Recorded as progress or outcome of a command that may run next to the one
/// being matched.
pub(crate) fn is_sibling_progress_event(event: &WorkflowEvent) -> (r: bool)
    ensures
        r == is_sibling_progress(*event),
{
    match event {
        WorkflowEvent::ActivityStarted { .. } => true,
        WorkflowEvent::ActivityHeartbeat { .. } => true,
        WorkflowEvent::ActivityCompleted { .. } => true,
        WorkflowEvent::ActivityFailed { .. } => true,
        WorkflowEvent::ActivityTimedOut { .. } => true,
        WorkflowEvent::LocalActivityCompleted { .. } => true,
        WorkflowEvent::LocalActivityFailed { .. } => true,
        WorkflowEvent::ChildWorkflowCompleted { .. } => true,
        WorkflowEvent::ChildWorkflowFailed { .. } => true,
        WorkflowEvent::TimerFired { .. } => true,
        _ => false,
    }
}

/// Recorded by a cycle at its own command, with no outcome to follow.
pub open spec fn is_cycle_record(e: WorkflowEvent) -> bool {
    ||| e is MarkerRecorded
    ||| e is SideEffectRecorded
    ||| e is ChildWorkflowSpawnedDetached
    ||| e is TimerStarted
    ||| e is TimerCancelled
}

/// Recorded by a cycle at its own command, with no outcome to follow.
pub(crate) fn is_cycle_record_event(event: &WorkflowEvent) -> (r: bool)
    ensures
        r == is_cycle_record(*event),
{
    match event {
        WorkflowEvent::MarkerRecorded { .. } => true,
        WorkflowEvent::SideEffectRecorded { .. } => true,
        WorkflowEvent::ChildWorkflowSpawnedDetached { .. } => true,
        WorkflowEvent::TimerStarted { .. } => true,
        WorkflowEvent::TimerCancelled { .. } => true,
        _ => false,
    }
}

// ── Names in messages ───────────────────────────────────────────────────────
/// How a side effect is shown: its kind, and its name where it has one.
pub open spec fn side_effect_label(kind: Seq<char>, name: Option<Seq<char>>) -> Seq<char> {
    match name {
        Some(name) => tagged("SideEffectRecorded"@, kind + ":"@ + name),
        None => tagged("SideEffectRecorded"@, kind),
    }
}

/// How a recorded event is shown in a divergence.
pub open spec fn event_label(e: WorkflowEvent) -> Seq<char> {
    match e {
        WorkflowEvent::MarkerRecorded { name, .. } => tagged("MarkerRecorded"@, name@),
        WorkflowEvent::SideEffectRecorded { kind, name, .. } => side_effect_label(
            kind.name(),
            opt_text(name),
        ),
        _ => e.kind_name(),
    }
}

/// Assembles [`side_effect_label`].
pub(crate) fn side_effect_name(kind: &str, name: Option<&str>) -> (r: String)
    ensures
        r@ == side_effect_label(kind@, opt_str(name)),
{
    match name {
        Some(name) => {
            let kind_name = glue(glue(kind, ":").as_str(), name);
            tag("SideEffectRecorded", kind_name.as_str())
        },
        None => tag("SideEffectRecorded", kind),
    }
}

/// Assembles [`event_label`].
pub(crate) fn actual_event_name(event: &WorkflowEvent) -> (r: String)
    ensures
        r@ == event_label(*event),
{
    match event {
        WorkflowEvent::MarkerRecorded { name, .. } => tag("MarkerRecorded", name.as_str()),
        WorkflowEvent::SideEffectRecorded { kind, name, .. } => {
            match name {
                Some(name) => side_effect_name(kind.as_str(), Some(name.as_str())),
                None => side_effect_name(kind.as_str(), None),
            }
        },
        other => other.kind_str().to_string(),
    }
}

// ── Deadline timers of signal waits ─────────────────────────────────────────
/// The signal name in the id of a signal-or-deadline timer,
/// `__signal_timeout:{seq}:{name}`.
pub open spec fn race_signal_name(timer_id: Seq<char>) -> Option<Seq<char>> {
    let prefix = "__signal_timeout:"@;
    let rest = timer_id.skip(prefix.len() as int);
    if prefix.is_prefix_of(timer_id) && rest.contains(':') {
        Some(rest.skip(rest.index_of_first(':').unwrap() + 1))
    } else {
        None
    }
}

/// The signal name in the id of a signal-or-deadline timer.
pub(crate) fn signal_timeout_race_name<'a>(timer_id: &'a str) -> (r: Option<&'a str>)
    ensures
        opt_str(r) == race_signal_name(timer_id@),
{
    match strip_prefix(timer_id, "__signal_timeout:") {
        Some(rest) => {
            match split_once(rest, ':') {
                Some(parts) => {
                    proof {
                        lemma_split_at_first(rest@, parts.0@, parts.1@, ':');
                    }
                    Some(parts.1)
                },
                None => None,
            }
        },
        None => None,
    }
}

/// Where a text was split at its first `c`, the second part is what stands
/// behind the first `c`.
pub(crate) proof fn lemma_split_at_first(s: Seq<char>, before: Seq<char>, behind: Seq<char>, c: char)
    requires
        !before.contains(c),
        s == before.push(c) + behind,
    ensures
        s.contains(c),
        s.skip(s.index_of_first(c).unwrap() + 1) == behind,
{
    assert(s[before.len() as int] == c);
    s.index_of_first_ensures(c);
    let i = s.index_of_first(c).unwrap();
    if i < before.len() {
        assert(before[i] == c);
    }
    assert(i == before.len());
    assert(s.skip(i + 1) =~= behind);
}

} // verus!
