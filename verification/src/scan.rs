//! Forward scans: what each command looks for, and what it may cross.
//!
//! After a command was found at the cursor, its outcome may stand further ahead
//! in history, behind events of other commands that run next to it. A scan says
//! of each event it meets whether that event is what it looks for, whether it
//! may be crossed, or whether the scan ends there.
use crate::event::WorkflowEvent;
use crate::kinds::{
    is_sibling_command, is_sibling_command_event, is_sibling_progress, is_sibling_progress_event,
    is_stashable, is_stashable_event, is_update, is_update_event, race_signal_name,
    signal_timeout_race_name,
};
use crate::text::str_eq;
use crate::types::{
    ActivityExecId, ExecutionId, ExternalAwaitId, ExternalCancelId, ExternalSignalId,
};
use vstd::prelude::*;

verus! {

/// What a scan does at an event.
#[derive(Debug, Clone, Copy, PartialEq, Eq, Structural)]
pub enum ScanStep {
    /// Crosses it.
    Pass,
    /// Crosses it; the cursor returns to the first such event.
    Command,
    /// Crosses it and keeps it aside for its own command.
    Stash,
    /// Has found what it looks for.
    Hit,
    /// Ends without having found anything.
    Halt,
}

/// What a scan looks for.
#[derive(Clone, Copy)]
pub enum Scan<'a> {
    /// Nothing: only events to be kept aside, in front of the next command.
    Drain,
    /// The outcome of an activity.
    Activity(ActivityExecId),
    /// The outcome of a local activity.
    LocalActivity(ActivityExecId),
    /// The outcome of an activity completed by an outside system.
    ExternalActivity(ActivityExecId),
    /// The outcome of an external signal.
    ExternalSignal(ExternalSignalId),
    /// The outcome of an external cancel.
    ExternalCancel(ExternalCancelId),
    /// The outcome of an external await.
    ExternalAwait(ExternalAwaitId),
    /// The fire of a timer.
    Timer(&'a str),
    /// The cancel of a timer.
    TimerCancel(&'a str),
    /// The fire or the cancel of a timer.
    TimerOutcome(&'a str),
    /// A signal; for a branch of a race, whatever else is crossed.
    Signal { name: &'a str, race: bool },
    /// A signal, or the fire of its deadline timer.
    SignalOrTimer { name: &'a str, timer: &'a str },
    /// The outcome of a child, or the fire of its deadline timer.
    ChildOrTimer { child: ExecutionId, timer: &'a str },
    /// A marker among the events of concurrent commands.
    Marker(&'a str),
    /// A marker behind cancels of the run and signals.
    SagaMarker(&'a str),
}

/// What a [`Scan`] holds.
pub enum ScanView {
    Drain,
    Activity(ActivityExecId),
    LocalActivity(ActivityExecId),
    ExternalActivity(ActivityExecId),
    ExternalSignal(ExternalSignalId),
    ExternalCancel(ExternalCancelId),
    ExternalAwait(ExternalAwaitId),
    Timer(Seq<char>),
    TimerCancel(Seq<char>),
    TimerOutcome(Seq<char>),
    Signal { name: Seq<char>, race: bool },
    SignalOrTimer { name: Seq<char>, timer: Seq<char> },
    ChildOrTimer { child: ExecutionId, timer: Seq<char> },
    Marker(Seq<char>),
    SagaMarker(Seq<char>),
}

impl<'a> View for Scan<'a> {
    type V = ScanView;

    open spec fn view(&self) -> ScanView {
        match *self {
            Scan::Drain => ScanView::Drain,
            Scan::Activity(id) => ScanView::Activity(id),
            Scan::LocalActivity(id) => ScanView::LocalActivity(id),
            Scan::ExternalActivity(id) => ScanView::ExternalActivity(id),
            Scan::ExternalSignal(id) => ScanView::ExternalSignal(id),
            Scan::ExternalCancel(id) => ScanView::ExternalCancel(id),
            Scan::ExternalAwait(id) => ScanView::ExternalAwait(id),
            Scan::Timer(timer) => ScanView::Timer(timer@),
            Scan::TimerCancel(timer) => ScanView::TimerCancel(timer@),
            Scan::TimerOutcome(timer) => ScanView::TimerOutcome(timer@),
            Scan::Signal { name, race } => ScanView::Signal { name: name@, race },
            Scan::SignalOrTimer { name, timer } => ScanView::SignalOrTimer {
                name: name@,
                timer: timer@,
            },
            Scan::ChildOrTimer { child, timer } => ScanView::ChildOrTimer { child, timer: timer@ },
            Scan::Marker(name) => ScanView::Marker(name@),
            Scan::SagaMarker(name) => ScanView::SagaMarker(name@),
        }
    }
}

// ── What the scans look for ─────────────────────────────────────────────────
/// The outcome of the activity `id`.
pub open spec fn activity_outcome(e: WorkflowEvent, id: ActivityExecId) -> bool {
    match e {
        WorkflowEvent::ActivityCompleted { activity_id, .. } => activity_id == id,
        WorkflowEvent::ActivityFailed { activity_id, .. } => activity_id == id,
        WorkflowEvent::ActivityTimedOut { activity_id, .. } => activity_id == id,
        _ => false,
    }
}

/// Progress of the activity `id` on its way to an outcome.
pub open spec fn activity_progress(e: WorkflowEvent, id: ActivityExecId) -> bool {
    match e {
        WorkflowEvent::ActivityStarted { activity_id, .. } => activity_id == id,
        WorkflowEvent::ActivityHeartbeat { activity_id, .. } => activity_id == id,
        _ => false,
    }
}

/// The completion or the exhaustion of the local activity `id`.
pub open spec fn local_outcome(e: WorkflowEvent, id: ActivityExecId) -> bool {
    match e {
        WorkflowEvent::LocalActivityCompleted { activity_id, .. } => activity_id == id,
        WorkflowEvent::LocalActivityExhausted { activity_id, .. } => activity_id == id,
        _ => false,
    }
}

/// A failed attempt of the local activity `id`.
pub open spec fn local_failure(e: WorkflowEvent, id: ActivityExecId) -> bool {
    match e {
        WorkflowEvent::LocalActivityFailed { activity_id, .. } => activity_id == id,
        _ => false,
    }
}

/// The outcome of the child `id`.
pub open spec fn child_outcome(e: WorkflowEvent, id: ExecutionId) -> bool {
    match e {
        WorkflowEvent::ChildWorkflowCompleted { child_id, .. } => child_id == id,
        WorkflowEvent::ChildWorkflowFailed { child_id, .. } => child_id == id,
        _ => false,
    }
}

/// The arming of the timer.
pub open spec fn timer_started(e: WorkflowEvent, timer: Seq<char>) -> bool {
    match e {
        WorkflowEvent::TimerStarted { timer_id, .. } => timer_id@ == timer,
        _ => false,
    }
}

/// The fire of the timer.
pub open spec fn timer_fired(e: WorkflowEvent, timer: Seq<char>) -> bool {
    match e {
        WorkflowEvent::TimerFired { timer_id } => timer_id@ == timer,
        _ => false,
    }
}

/// The cancel of the timer.
pub open spec fn timer_cancelled(e: WorkflowEvent, timer: Seq<char>) -> bool {
    match e {
        WorkflowEvent::TimerCancelled { timer_id } => timer_id@ == timer,
        _ => false,
    }
}

/// A received signal of that name.
pub open spec fn signal_named(e: WorkflowEvent, name: Seq<char>) -> bool {
    match e {
        WorkflowEvent::SignalReceived { signal_name, .. } => signal_name@ == name,
        _ => false,
    }
}

/// A marker of that name.
pub open spec fn marker_named(e: WorkflowEvent, marker: Seq<char>) -> bool {
    match e {
        WorkflowEvent::MarkerRecorded { name, .. } => name@ == marker,
        _ => false,
    }
}

/// The fire of the timer.
pub(crate) fn is_timer_fired(event: &WorkflowEvent, timer: &str) -> (r: bool)
    ensures
        r == timer_fired(*event, timer@),
{
    match event {
        WorkflowEvent::TimerFired { timer_id } => str_eq(timer_id.as_str(), timer),
        _ => false,
    }
}

/// The arming of the timer.
pub(crate) fn is_timer_started(event: &WorkflowEvent, timer: &str) -> (r: bool)
    ensures
        r == timer_started(*event, timer@),
{
    match event {
        WorkflowEvent::TimerStarted { timer_id, .. } => str_eq(timer_id.as_str(), timer),
        _ => false,
    }
}

/// The cancel of the timer.
pub(crate) fn is_timer_cancelled(event: &WorkflowEvent, timer: &str) -> (r: bool)
    ensures
        r == timer_cancelled(*event, timer@),
{
    match event {
        WorkflowEvent::TimerCancelled { timer_id } => str_eq(timer_id.as_str(), timer),
        _ => false,
    }
}

/// A received signal of that name.
pub(crate) fn is_signal_named(event: &WorkflowEvent, name: &str) -> (r: bool)
    ensures
        r == signal_named(*event, name@),
{
    match event {
        WorkflowEvent::SignalReceived { signal_name, .. } => str_eq(signal_name.as_str(), name),
        _ => false,
    }
}

/// A marker of that name.
pub(crate) fn is_marker_named(event: &WorkflowEvent, marker: &str) -> (r: bool)
    ensures
        r == marker_named(*event, marker@),
{
    match event {
        WorkflowEvent::MarkerRecorded { name, .. } => str_eq(name.as_str(), marker),
        _ => false,
    }
}

/// The outcome of the child `id`.
pub(crate) fn is_child_outcome(event: &WorkflowEvent, id: ExecutionId) -> (r: bool)
    ensures
        r == child_outcome(*event, id),
{
    match event {
        WorkflowEvent::ChildWorkflowCompleted { child_id, .. } => *child_id == id,
        WorkflowEvent::ChildWorkflowFailed { child_id, .. } => *child_id == id,
        _ => false,
    }
}

/// Progress of the activity `id` on its way to an outcome.
pub(crate) fn is_activity_progress(event: &WorkflowEvent, id: ActivityExecId) -> (r: bool)
    ensures
        r == activity_progress(*event, id),
{
    match event {
        WorkflowEvent::ActivityStarted { activity_id, .. } => *activity_id == id,
        WorkflowEvent::ActivityHeartbeat { activity_id, .. } => *activity_id == id,
        _ => false,
    }
}

// ── What the scans cross ────────────────────────────────────────────────────
/// The common discipline among concurrent commands: commands of siblings are
/// returned to, their progress is crossed, signals and external primitives are
/// kept aside, updates are crossed, and anything else ends the scan.
pub open spec fn sibling_step(e: WorkflowEvent) -> ScanStep {
    if is_sibling_command(e) {
        ScanStep::Command
    } else if is_sibling_progress(e) || is_update(e) {
        ScanStep::Pass
    } else if is_stashable(e) {
        ScanStep::Stash
    } else {
        ScanStep::Halt
    }
}

/// The discipline of a scan for a cancellable timer: only bookkeeping and other
/// timers may stand in between.
pub open spec fn timer_step(e: WorkflowEvent, timer: Seq<char>) -> ScanStep {
    match e {
        WorkflowEvent::MarkerRecorded { .. } => ScanStep::Pass,
        WorkflowEvent::SideEffectRecorded { .. } => ScanStep::Pass,
        WorkflowEvent::ChildWorkflowSpawnedDetached { .. } => ScanStep::Pass,
        WorkflowEvent::TimerStarted { timer_id, .. } => pass_unless(timer_id@ == timer),
        WorkflowEvent::TimerCancelled { timer_id } => pass_unless(timer_id@ == timer),
        WorkflowEvent::TimerFired { timer_id } => pass_unless(timer_id@ == timer),
        _ => if is_stashable(e) {
            ScanStep::Stash
        } else if is_update(e) {
            ScanStep::Pass
        } else {
            ScanStep::Halt
        },
    }
}

/// Ends the scan at an event of the timer itself.
pub open spec fn pass_unless(own: bool) -> ScanStep {
    if own {
        ScanStep::Halt
    } else {
        ScanStep::Pass
    }
}

/// The discipline of a scan for the outcome of an external cancel or await.
pub open spec fn external_step(e: WorkflowEvent) -> ScanStep {
    match e {
        WorkflowEvent::WorkflowStarted { .. } => ScanStep::Pass,
        WorkflowEvent::UpdateAdmitted { .. } => ScanStep::Pass,
        WorkflowEvent::UpdateCompleted { .. } => ScanStep::Pass,
        WorkflowEvent::UpdateFailed { .. } => ScanStep::Pass,
        WorkflowEvent::WorkflowExecutionPaused { .. } => ScanStep::Pass,
        WorkflowEvent::WorkflowExecutionResumed { .. } => ScanStep::Pass,
        WorkflowEvent::ActivityStarted { .. } => ScanStep::Halt,
        WorkflowEvent::ActivityHeartbeat { .. } => ScanStep::Halt,
        _ => if is_stashable(e) {
            ScanStep::Stash
        } else if is_sibling_command(e) || is_sibling_progress(e) {
            ScanStep::Command
        } else {
            ScanStep::Halt
        },
    }
}

impl ScanView {
    /// What the scan does at `e`.
    pub open spec fn step(self, e: WorkflowEvent) -> ScanStep {
        match self {
            ScanView::Drain => if is_stashable(e) || is_update(e) {
                ScanStep::Stash
            } else {
                ScanStep::Halt
            },
            ScanView::Activity(id) => if activity_outcome(e, id) {
                ScanStep::Hit
            } else {
                match e {
                    WorkflowEvent::ActivityScheduled { activity_id, .. } => if activity_id == id {
                        ScanStep::Halt
                    } else {
                        ScanStep::Command
                    },
                    _ => sibling_step(e),
                }
            },
            ScanView::LocalActivity(id) => if local_outcome(e, id) {
                ScanStep::Hit
            } else if local_failure(e, id) || is_update(e) {
                ScanStep::Pass
            } else if is_stashable(e) {
                ScanStep::Stash
            } else {
                match e {
                    WorkflowEvent::ChildWorkflowSpawnedDetached { .. } => ScanStep::Command,
                    WorkflowEvent::MarkerRecorded { .. } => ScanStep::Command,
                    WorkflowEvent::SideEffectRecorded { .. } => ScanStep::Command,
                    WorkflowEvent::TimerStarted { .. } => ScanStep::Command,
                    WorkflowEvent::TimerCancelled { .. } => ScanStep::Command,
                    _ => ScanStep::Halt,
                }
            },
            ScanView::ExternalActivity(id) => match e {
                WorkflowEvent::ActivityCompletedExternally { activity_id, .. } => hit_if(
                    activity_id == id,
                ),
                WorkflowEvent::ActivityFailedExternally { activity_id, .. } => hit_if(
                    activity_id == id,
                ),
                WorkflowEvent::ActivityTimedOut { activity_id, .. } => hit_if(activity_id == id),
                WorkflowEvent::ActivityExternalDeadlineExtended { activity_id, .. } => pass_unless(
                    activity_id != id,
                ),
                WorkflowEvent::ActivityAwaitingExternal { activity_id, .. } => pass_unless(
                    activity_id != id,
                ),
                WorkflowEvent::ChildWorkflowSpawnedDetached { .. } => ScanStep::Command,
                _ => if is_stashable(e) {
                    ScanStep::Stash
                } else if is_update(e) {
                    ScanStep::Pass
                } else {
                    ScanStep::Halt
                },
            },
            ScanView::ExternalSignal(id) => match e {
                WorkflowEvent::ExternalSignalRequested { .. } => ScanStep::Halt,
                WorkflowEvent::ExternalSignalDelivered { signal_id } => hit_if(signal_id == id),
                WorkflowEvent::ExternalSignalFailed { signal_id, .. } => hit_if(signal_id == id),
                WorkflowEvent::ChildWorkflowSpawnedDetached { .. } => ScanStep::Command,
                _ => if is_stashable(e) {
                    ScanStep::Stash
                } else if is_update(e) {
                    ScanStep::Pass
                } else {
                    ScanStep::Halt
                },
            },
            ScanView::ExternalCancel(id) => match e {
                WorkflowEvent::ExternalCancelDelivered { cancel_id } => if cancel_id == id {
                    ScanStep::Hit
                } else {
                    ScanStep::Stash
                },
                WorkflowEvent::ExternalCancelFailed { cancel_id, .. } => if cancel_id == id {
                    ScanStep::Hit
                } else {
                    ScanStep::Stash
                },
                _ => external_step(e),
            },
            ScanView::ExternalAwait(id) => match e {
                WorkflowEvent::ExternalAwaitResolved { await_id, .. } => if await_id == id {
                    ScanStep::Hit
                } else {
                    ScanStep::Stash
                },
                WorkflowEvent::ExternalAwaitFailed { await_id, .. } => if await_id == id {
                    ScanStep::Hit
                } else {
                    ScanStep::Stash
                },
                _ => external_step(e),
            },
            ScanView::Timer(timer) => if timer_fired(e, timer) {
                ScanStep::Hit
            } else {
                sibling_step(e)
            },
            ScanView::TimerCancel(timer) => if timer_cancelled(e, timer) {
                ScanStep::Hit
            } else {
                timer_step(e, timer)
            },
            ScanView::TimerOutcome(timer) => if timer_fired(e, timer) || timer_cancelled(
                e,
                timer,
            ) {
                ScanStep::Hit
            } else {
                timer_step(e, timer)
            },
            ScanView::Signal { name, race } => match e {
                WorkflowEvent::SignalReceived { signal_name, .. } => if signal_name@ == name {
                    ScanStep::Hit
                } else {
                    ScanStep::Stash
                },
                WorkflowEvent::TimerStarted { timer_id, .. } => if race_signal_name(timer_id@)
                    == Some(name) {
                    ScanStep::Pass
                } else {
                    ScanStep::Command
                },
                _ => if sibling_step(e) is Halt && race {
                    ScanStep::Command
                } else {
                    sibling_step(e)
                },
            },
            ScanView::SignalOrTimer { name, timer } => if signal_named(e, name) || timer_fired(
                e,
                timer,
            ) {
                ScanStep::Hit
            } else {
                sibling_step(e)
            },
            ScanView::ChildOrTimer { child, timer } => if child_outcome(e, child) || timer_fired(
                e,
                timer,
            ) {
                ScanStep::Hit
            } else {
                sibling_step(e)
            },
            ScanView::Marker(name) => if marker_named(e, name) {
                ScanStep::Hit
            } else {
                match e {
                    WorkflowEvent::LocalActivityScheduled { .. } => ScanStep::Halt,
                    WorkflowEvent::LocalActivityCompleted { .. } => ScanStep::Halt,
                    WorkflowEvent::LocalActivityFailed { .. } => ScanStep::Halt,
                    _ => if is_sibling_command(e) || is_sibling_progress(e) {
                        ScanStep::Command
                    } else {
                        ScanStep::Halt
                    },
                }
            },
            ScanView::SagaMarker(name) => match e {
                WorkflowEvent::MarkerRecorded { name: marker, .. } => hit_if(marker@ == name),
                WorkflowEvent::WorkflowCancelled { .. } => ScanStep::Pass,
                WorkflowEvent::SignalReceived { .. } => ScanStep::Pass,
                _ => ScanStep::Halt,
            },
        }
    }
}

/// Ends the scan at an event of the looked-for kind that belongs to another
/// command.
pub open spec fn hit_if(own: bool) -> ScanStep {
    if own {
        ScanStep::Hit
    } else {
        ScanStep::Halt
    }
}

// ── Executable steps ────────────────────────────────────────────────────────
/// Computes [`sibling_step`].
fn sibling_scan_step(event: &WorkflowEvent) -> (r: ScanStep)
    ensures
        r == sibling_step(*event),
{
    if is_sibling_command_event(event) {
        ScanStep::Command
    } else if is_sibling_progress_event(event) || is_update_event(event) {
        ScanStep::Pass
    } else if is_stashable_event(event) {
        ScanStep::Stash
    } else {
        ScanStep::Halt
    }
}

/// Computes [`timer_step`].
fn timer_scan_cross_or_stop(event: &WorkflowEvent, timer: &str) -> (r: ScanStep)
    ensures
        r == timer_step(*event, timer@),
{
    match event {
        WorkflowEvent::MarkerRecorded { .. } => ScanStep::Pass,
        WorkflowEvent::SideEffectRecorded { .. } => ScanStep::Pass,
        WorkflowEvent::ChildWorkflowSpawnedDetached { .. } => ScanStep::Pass,
        WorkflowEvent::TimerStarted { timer_id, .. } => cross_unless(
            str_eq(timer_id.as_str(), timer),
        ),
        WorkflowEvent::TimerCancelled { timer_id } => cross_unless(
            str_eq(timer_id.as_str(), timer),
        ),
        WorkflowEvent::TimerFired { timer_id } => cross_unless(str_eq(timer_id.as_str(), timer)),
        other => outer_scan_step(other),
    }
}

/// Computes [`pass_unless`].
fn cross_unless(own: bool) -> (r: ScanStep)
    ensures
        r == pass_unless(own),
{
    if own {
        ScanStep::Halt
    } else {
        ScanStep::Pass
    }
}

/// Computes [`hit_if`].
fn found_if(own: bool) -> (r: ScanStep)
    ensures
        r == hit_if(own),
{
    if own {
        ScanStep::Hit
    } else {
        ScanStep::Halt
    }
}

/// A hit for the command's own event; the event of another command is kept
/// aside.
fn found_or_stash(own: bool) -> (r: ScanStep)
    ensures
        r == (if own {
            ScanStep::Hit
        } else {
            ScanStep::Stash
        }),
{
    if own {
        ScanStep::Hit
    } else {
        ScanStep::Stash
    }
}

/// Keeps signals and external primitives aside, crosses updates, and ends at
/// anything else.
fn outer_scan_step(event: &WorkflowEvent) -> (r: ScanStep)
    ensures
        r == (if is_stashable(*event) {
            ScanStep::Stash
        } else if is_update(*event) {
            ScanStep::Pass
        } else {
            ScanStep::Halt
        }),
{
    if is_stashable_event(event) {
        ScanStep::Stash
    } else if is_update_event(event) {
        ScanStep::Pass
    } else {
        ScanStep::Halt
    }
}

/// Computes [`external_step`].
fn external_scan_step(event: &WorkflowEvent) -> (r: ScanStep)
    ensures
        r == external_step(*event),
{
    match event {
        WorkflowEvent::WorkflowStarted { .. } => ScanStep::Pass,
        WorkflowEvent::UpdateAdmitted { .. } => ScanStep::Pass,
        WorkflowEvent::UpdateCompleted { .. } => ScanStep::Pass,
        WorkflowEvent::UpdateFailed { .. } => ScanStep::Pass,
        WorkflowEvent::WorkflowExecutionPaused { .. } => ScanStep::Pass,
        WorkflowEvent::WorkflowExecutionResumed { .. } => ScanStep::Pass,
        WorkflowEvent::ActivityStarted { .. } => ScanStep::Halt,
        WorkflowEvent::ActivityHeartbeat { .. } => ScanStep::Halt,
        other => if is_stashable_event(other) {
            ScanStep::Stash
        } else if is_sibling_command_event(other) || is_sibling_progress_event(other) {
            ScanStep::Command
        } else {
            ScanStep::Halt
        },
    }
}

impl<'a> Scan<'a> {
    /// Computes [`ScanView::step`].
    pub(crate) fn step(&self, event: &WorkflowEvent) -> (r: ScanStep)
        ensures
            r == self@.step(*event),
    {
        match *self {
            Scan::Drain => if is_stashable_event(event) || is_update_event(event) {
                ScanStep::Stash
            } else {
                ScanStep::Halt
            },
            Scan::Activity(id) => match event {
                WorkflowEvent::ActivityCompleted { activity_id, .. } if *activity_id == id =>
                    ScanStep::Hit,
                WorkflowEvent::ActivityFailed { activity_id, .. } if *activity_id == id =>
                    ScanStep::Hit,
                WorkflowEvent::ActivityTimedOut { activity_id, .. } if *activity_id == id =>
                    ScanStep::Hit,
                WorkflowEvent::ActivityScheduled { activity_id, .. } if *activity_id == id =>
                    ScanStep::Halt,
                other => sibling_scan_step(other),
            },
            Scan::LocalActivity(id) => match event {
                WorkflowEvent::LocalActivityCompleted { activity_id, .. } => found_if(
                    *activity_id == id,
                ),
                WorkflowEvent::LocalActivityExhausted { activity_id, .. } => found_if(
                    *activity_id == id,
                ),
                WorkflowEvent::LocalActivityFailed { activity_id, .. } => cross_unless(
                    *activity_id != id,
                ),
                WorkflowEvent::ChildWorkflowSpawnedDetached { .. } => ScanStep::Command,
                WorkflowEvent::MarkerRecorded { .. } => ScanStep::Command,
                WorkflowEvent::SideEffectRecorded { .. } => ScanStep::Command,
                WorkflowEvent::TimerStarted { .. } => ScanStep::Command,
                WorkflowEvent::TimerCancelled { .. } => ScanStep::Command,
                other => outer_scan_step(other),
            },
            Scan::ExternalActivity(id) => match event {
                WorkflowEvent::ActivityCompletedExternally { activity_id, .. } => found_if(
                    *activity_id == id,
                ),
                WorkflowEvent::ActivityFailedExternally { activity_id, .. } => found_if(
                    *activity_id == id,
                ),
                WorkflowEvent::ActivityTimedOut { activity_id, .. } => found_if(
                    *activity_id == id,
                ),
                WorkflowEvent::ActivityExternalDeadlineExtended { activity_id, .. } => cross_unless(
                    *activity_id != id,
                ),
                WorkflowEvent::ActivityAwaitingExternal { activity_id, .. } => cross_unless(
                    *activity_id != id,
                ),
                WorkflowEvent::ChildWorkflowSpawnedDetached { .. } => ScanStep::Command,
                other => outer_scan_step(other),
            },
            Scan::ExternalSignal(id) => match event {
                WorkflowEvent::ExternalSignalRequested { .. } => ScanStep::Halt,
                WorkflowEvent::ExternalSignalDelivered { signal_id } => found_if(*signal_id == id),
                WorkflowEvent::ExternalSignalFailed { signal_id, .. } => found_if(
                    *signal_id == id,
                ),
                WorkflowEvent::ChildWorkflowSpawnedDetached { .. } => ScanStep::Command,
                other => outer_scan_step(other),
            },
            Scan::ExternalCancel(id) => match event {
                WorkflowEvent::ExternalCancelDelivered { cancel_id } => found_or_stash(
                    *cancel_id == id,
                ),
                WorkflowEvent::ExternalCancelFailed { cancel_id, .. } => found_or_stash(
                    *cancel_id == id,
                ),
                other => external_scan_step(other),
            },
            Scan::ExternalAwait(id) => match event {
                WorkflowEvent::ExternalAwaitResolved { await_id, .. } => found_or_stash(
                    *await_id == id,
                ),
                WorkflowEvent::ExternalAwaitFailed { await_id, .. } => found_or_stash(
                    *await_id == id,
                ),
                other => external_scan_step(other),
            },
            Scan::Timer(timer) => if is_timer_fired(event, timer) {
                ScanStep::Hit
            } else {
                sibling_scan_step(event)
            },
            Scan::TimerCancel(timer) => if is_timer_cancelled(event, timer) {
                ScanStep::Hit
            } else {
                timer_scan_cross_or_stop(event, timer)
            },
            Scan::TimerOutcome(timer) => if is_timer_fired(event, timer) || is_timer_cancelled(
                event,
                timer,
            ) {
                ScanStep::Hit
            } else {
                timer_scan_cross_or_stop(event, timer)
            },
            Scan::Signal { name, race } => signal_scan_step(event, name, race),
            Scan::SignalOrTimer { name, timer } => if is_signal_named(event, name)
                || is_timer_fired(event, timer) {
                ScanStep::Hit
            } else {
                sibling_scan_step(event)
            },
            Scan::ChildOrTimer { child, timer } => if is_child_outcome(event, child)
                || is_timer_fired(event, timer) {
                ScanStep::Hit
            } else {
                sibling_scan_step(event)
            },
            Scan::Marker(name) => match event {
                WorkflowEvent::MarkerRecorded { name: marker, .. } => if str_eq(
                    marker.as_str(),
                    name,
                ) {
                    ScanStep::Hit
                } else {
                    ScanStep::Command
                },
                WorkflowEvent::LocalActivityScheduled { .. } => ScanStep::Halt,
                WorkflowEvent::LocalActivityCompleted { .. } => ScanStep::Halt,
                WorkflowEvent::LocalActivityFailed { .. } => ScanStep::Halt,
                other => if is_sibling_command_event(other) || is_sibling_progress_event(other) {
                    ScanStep::Command
                } else {
                    ScanStep::Halt
                },
            },
            Scan::SagaMarker(name) => match event {
                WorkflowEvent::MarkerRecorded { name: marker, .. } => found_if(
                    str_eq(marker.as_str(), name),
                ),
                WorkflowEvent::WorkflowCancelled { .. } => ScanStep::Pass,
                WorkflowEvent::SignalReceived { .. } => ScanStep::Pass,
                _ => ScanStep::Halt,
            },
        }
    }
}

/// The step of a signal wait.
fn signal_scan_step(event: &WorkflowEvent, name: &str, race: bool) -> (r: ScanStep)
    ensures
        r == (ScanView::Signal { name: name@, race }).step(*event),
{
    match event {
        WorkflowEvent::SignalReceived { signal_name, .. } => found_or_stash(
            str_eq(signal_name.as_str(), name),
        ),
        WorkflowEvent::TimerStarted { timer_id, .. } => {
            match signal_timeout_race_name(timer_id.as_str()) {
                Some(race) => if str_eq(race, name) {
                    ScanStep::Pass
                } else {
                    ScanStep::Command
                },
                None => ScanStep::Command,
            }
        },
        other => {
            match sibling_scan_step(other) {
                ScanStep::Halt => if race {
                    ScanStep::Command
                } else {
                    ScanStep::Halt
                },
                step => step,
            }
        },
    }
}

} // verus!
