//! What matching a workflow command against recorded history can yield.
use crate::json::{json_view, opt_json, JsonView};
use crate::types::{
    opt_text, ActivityExecId, ExecutionId, ExternalActivityToken, ExternalAwaitId, ExternalCancelId,
    ExternalSignalId, RetryPolicy, TimeoutType, Timestamp,
};
use serde_json::Value;
use vstd::prelude::*;

verus! {

/// Result of matching a workflow command against the event history.
#[derive(Debug, Clone, PartialEq, Eq)]
pub enum HistoryMatch {
    /// History contains a completed result for this command.
    Matched {
        /// The JSON result value returned by the matched event.
        output: Value,
    },
    /// History contains a failure for this command.
    Failed {
        /// Human-readable failure message.
        error: String,
        /// Attempt number for the failed action.
        attempt: u32,
        /// Stable class of the failure, `"Error"` where none was recorded.
        error_type: String,
        /// Structured details recorded with a typed failure.
        details: Option<Value>,
        /// Whether a typed failure marked itself permanent.
        non_retryable: bool,
    },
    /// History contains a timeout for this command.
    TimedOut {
        /// The type of timeout that occurred.
        timeout_type: TimeoutType,
    },
    /// The activity is recorded as scheduled, and no outcome of it is recorded.
    ActivityInProgress {
        /// The activity execution ID already recorded in history.
        activity_id: ActivityExecId,
    },
    /// Nothing is recorded for this command: it is new.
    NoMatch,
    /// The command does not match what was recorded at this position,
    /// indicating non-determinism in the workflow code.
    Diverged {
        /// What the workflow requested; where only the input of an activity or
        /// the count of a fan-out differs, what is recorded.
        expected: String,
        /// What is recorded; where only the input of an activity or the count of
        /// a fan-out differs, what the workflow requested.
        actual: String,
        /// The event index where the divergence occurred, where it fits.
        event_index: Option<i32>,
    },
    /// An external activity is recorded as scheduled, and no outcome of it is
    /// recorded.
    AwaitingExternalCompletion {
        /// The activity execution ID already recorded in history.
        activity_id: ActivityExecId,
        /// The token already recorded in history, to be used again.
        token: ExternalActivityToken,
    },
    /// A child workflow is recorded as started, and no outcome of it is
    /// recorded.
    ChildInProgress {
        /// The child execution ID already recorded in history, to be used again.
        child_id: ExecutionId,
    },
    /// A local activity is recorded as scheduled, and neither its completion nor
    /// its exhaustion is recorded.
    LocalActivityInProgress {
        /// The activity execution ID already recorded in history, to be used
        /// again.
        activity_id: ActivityExecId,
        /// How many failed attempts are already recorded.
        failed_attempts: u32,
        /// The error of the last recorded failed attempt.
        last_error: Option<String>,
    },
    /// An external signal is recorded as requested, and no outcome of it is
    /// recorded.
    ExternalSignalInProgress {
        /// The signal ID already recorded in history, to be used again.
        signal_id: ExternalSignalId,
        /// The recorded payload, to be sent again.
        payload: Value,
        /// The recorded idempotency key, to be sent again.
        idempotency_key: Option<String>,
    },
    /// History contains a failed delivery of an external signal.
    ExternalSignalFailed {
        /// The signal ID of the recorded request.
        signal_id: ExternalSignalId,
        /// The machine-readable reason code from history.
        reason_code: String,
    },
    /// History contains the spawn of a detached child.
    DetachedChildSpawned {
        /// The recorded child execution ID.
        child_id: ExecutionId,
    },
    /// An external cancel is recorded as requested, and no outcome of it is
    /// recorded.
    ExternalCancelInProgress {
        /// The cancel ID already recorded in history, to be used again.
        cancel_id: ExternalCancelId,
    },
    /// History contains a failed delivery of an external cancel.
    ExternalCancelFailed {
        /// The cancel ID of the recorded request.
        cancel_id: ExternalCancelId,
        /// The machine-readable reason code from history.
        reason_code: String,
    },
    /// An external await is recorded as requested, and no outcome of it is
    /// recorded.
    ExternalAwaitInProgress {
        /// The await ID already recorded in history, to be used again.
        await_id: ExternalAwaitId,
    },
    /// History shows that the awaited workflow closed without completing.
    ExternalAwaitFailed {
        /// The await ID of the recorded request.
        await_id: ExternalAwaitId,
        /// The machine-readable reason code from history.
        reason_code: String,
        /// Human-readable failure message of the awaited workflow.
        message: Option<String>,
        /// Stable class of the awaited workflow's failure.
        error_type: Option<String>,
        /// Structured details of the awaited workflow's failure.
        details: Option<Value>,
        /// Whether the awaited workflow's failure marked itself permanent.
        non_retryable: Option<bool>,
    },
}

/// What a [`HistoryMatch`] holds.
pub enum HistoryMatchView {
    Matched { output: JsonView },
    Failed {
        error: Seq<char>,
        attempt: u32,
        error_type: Seq<char>,
        details: Option<JsonView>,
        non_retryable: bool,
    },
    TimedOut { timeout_type: TimeoutType },
    ActivityInProgress { activity_id: ActivityExecId },
    NoMatch,
    Diverged { expected: Seq<char>, actual: Seq<char>, event_index: Option<i32> },
    AwaitingExternalCompletion { activity_id: ActivityExecId, token: ExternalActivityToken },
    ChildInProgress { child_id: ExecutionId },
    LocalActivityInProgress {
        activity_id: ActivityExecId,
        failed_attempts: u32,
        last_error: Option<Seq<char>>,
    },
    ExternalSignalInProgress {
        signal_id: ExternalSignalId,
        payload: JsonView,
        idempotency_key: Option<Seq<char>>,
    },
    ExternalSignalFailed { signal_id: ExternalSignalId, reason_code: Seq<char> },
    DetachedChildSpawned { child_id: ExecutionId },
    ExternalCancelInProgress { cancel_id: ExternalCancelId },
    ExternalCancelFailed { cancel_id: ExternalCancelId, reason_code: Seq<char> },
    ExternalAwaitInProgress { await_id: ExternalAwaitId },
    ExternalAwaitFailed {
        await_id: ExternalAwaitId,
        reason_code: Seq<char>,
        message: Option<Seq<char>>,
        error_type: Option<Seq<char>>,
        details: Option<JsonView>,
        non_retryable: Option<bool>,
    },
}

impl View for HistoryMatch {
    type V = HistoryMatchView;

    open spec fn view(&self) -> HistoryMatchView {
        match *self {
            HistoryMatch::Matched { output } => HistoryMatchView::Matched {
                output: json_view(output),
            },
            HistoryMatch::Failed { error, attempt, error_type, details, non_retryable } =>
                HistoryMatchView::Failed {
                    error: error@,
                    attempt,
                    error_type: error_type@,
                    details: opt_json(details),
                    non_retryable,
                },
            HistoryMatch::TimedOut { timeout_type } => HistoryMatchView::TimedOut { timeout_type },
            HistoryMatch::ActivityInProgress { activity_id } =>
                HistoryMatchView::ActivityInProgress { activity_id },
            HistoryMatch::NoMatch => HistoryMatchView::NoMatch,
            HistoryMatch::Diverged { expected, actual, event_index } =>
                HistoryMatchView::Diverged { expected: expected@, actual: actual@, event_index },
            HistoryMatch::AwaitingExternalCompletion { activity_id, token } =>
                HistoryMatchView::AwaitingExternalCompletion { activity_id, token },
            HistoryMatch::ChildInProgress { child_id } => HistoryMatchView::ChildInProgress {
                child_id,
            },
            HistoryMatch::LocalActivityInProgress { activity_id, failed_attempts, last_error } =>
                HistoryMatchView::LocalActivityInProgress {
                    activity_id,
                    failed_attempts,
                    last_error: opt_text(last_error),
                },
            HistoryMatch::ExternalSignalInProgress { signal_id, payload, idempotency_key } =>
                HistoryMatchView::ExternalSignalInProgress {
                    signal_id,
                    payload: json_view(payload),
                    idempotency_key: opt_text(idempotency_key),
                },
            HistoryMatch::ExternalSignalFailed { signal_id, reason_code } =>
                HistoryMatchView::ExternalSignalFailed { signal_id, reason_code: reason_code@ },
            HistoryMatch::DetachedChildSpawned { child_id } =>
                HistoryMatchView::DetachedChildSpawned { child_id },
            HistoryMatch::ExternalCancelInProgress { cancel_id } =>
                HistoryMatchView::ExternalCancelInProgress { cancel_id },
            HistoryMatch::ExternalCancelFailed { cancel_id, reason_code } =>
                HistoryMatchView::ExternalCancelFailed { cancel_id, reason_code: reason_code@ },
            HistoryMatch::ExternalAwaitInProgress { await_id } =>
                HistoryMatchView::ExternalAwaitInProgress { await_id },
            HistoryMatch::ExternalAwaitFailed {
                await_id,
                reason_code,
                message,
                error_type,
                details,
                non_retryable,
            } => HistoryMatchView::ExternalAwaitFailed {
                await_id,
                reason_code: reason_code@,
                message: opt_text(message),
                error_type: opt_text(error_type),
                details: opt_json(details),
                non_retryable,
            },
        }
    }
}

/// A divergence at the event `i`.
pub open spec fn diverged_at(expected: Seq<char>, actual: Seq<char>, i: int) -> HistoryMatchView {
    HistoryMatchView::Diverged { expected, actual, event_index: reported(i) }
}

/// A divergence at the event `index`.
pub fn diverged(expected: String, actual: String, index: usize) -> (r: HistoryMatch)
    ensures
        r@ == diverged_at(expected@, actual@, index as int),
{
    HistoryMatch::Diverged { expected, actual, event_index: report_index(index) }
}

/// An event position as it is reported in a divergence, where it fits.
pub open spec fn reported(i: int) -> Option<i32> {
    if i <= i32::MAX {
        Some(i as i32)
    } else {
        None
    }
}

/// An event position as it is reported in a divergence.
pub(crate) fn report_index(i: usize) -> (r: Option<i32>)
    ensures
        r == reported(i as int),
{
    if i <= 0x7fff_ffff {
        Some(i as i32)
    } else {
        None
    }
}

/// Result of matching a signal-or-deadline race against recorded history.
///
/// The resolution that was recorded first wins, on every replay.
#[derive(Debug, Clone, PartialEq, Eq)]
pub enum SignalOrTimerMatch {
    /// The signal was recorded before the deadline fired, or before the timer
    /// was started.
    SignalWon {
        /// The JSON payload of the winning signal.
        payload: Value,
    },
    /// The deadline fired before the signal arrived. No signal is consumed.
    TimerWon,
    /// The timer is recorded as started, and no resolution is recorded.
    InProgress,
    /// Nothing is recorded for this race: it is new.
    NoMatch,
    /// The recorded history does not match the requested race.
    Diverged {
        /// What the workflow requested.
        expected: String,
        /// What is recorded.
        actual: String,
        /// The event index where the divergence occurred, where it fits.
        event_index: Option<i32>,
    },
}

/// What a [`SignalOrTimerMatch`] holds.
pub enum SignalOrTimerView {
    SignalWon { payload: JsonView },
    TimerWon,
    InProgress,
    NoMatch,
    Diverged { expected: Seq<char>, actual: Seq<char>, event_index: Option<i32> },
}

impl View for SignalOrTimerMatch {
    type V = SignalOrTimerView;

    open spec fn view(&self) -> SignalOrTimerView {
        match *self {
            SignalOrTimerMatch::SignalWon { payload } => SignalOrTimerView::SignalWon {
                payload: json_view(payload),
            },
            SignalOrTimerMatch::TimerWon => SignalOrTimerView::TimerWon,
            SignalOrTimerMatch::InProgress => SignalOrTimerView::InProgress,
            SignalOrTimerMatch::NoMatch => SignalOrTimerView::NoMatch,
            SignalOrTimerMatch::Diverged { expected, actual, event_index } =>
                SignalOrTimerView::Diverged { expected: expected@, actual: actual@, event_index },
        }
    }
}

/// Result of matching a child-or-deadline race against recorded history.
///
/// The resolution that was recorded first wins, on every replay.
#[derive(Debug, Clone, PartialEq)]
pub enum ChildOrTimerMatch {
    /// The child completed before the deadline fired.
    ChildCompleted {
        /// The JSON output of the child.
        output: Value,
    },
    /// The child failed before the deadline fired.
    ChildFailed {
        /// Human-readable failure message.
        error: String,
        /// Stable class of the failure, `"Error"` where none was recorded.
        error_type: String,
        /// Structured details from a typed failure.
        details: Option<Value>,
        /// Whether a typed failure marked itself permanent.
        non_retryable: bool,
    },
    /// The deadline fired before the child closed.
    TimerFired {
        /// The execution ID of the losing child.
        child_id: ExecutionId,
        /// Whether the losing child's outcome is already recorded.
        child_already_terminal: bool,
    },
    /// Child and timer are recorded as started, and no resolution is recorded.
    InProgress {
        /// The child execution ID already recorded in history, to be used again.
        child_id: ExecutionId,
    },
    /// Nothing is recorded for this race: it is new.
    NoMatch,
    /// The recorded history does not match the requested race.
    Diverged {
        /// What the workflow requested.
        expected: String,
        /// What is recorded.
        actual: String,
        /// The event index where the divergence occurred, where it fits.
        event_index: Option<i32>,
    },
}

/// What a [`ChildOrTimerMatch`] holds.
pub enum ChildOrTimerView {
    ChildCompleted { output: JsonView },
    ChildFailed {
        error: Seq<char>,
        error_type: Seq<char>,
        details: Option<JsonView>,
        non_retryable: bool,
    },
    TimerFired { child_id: ExecutionId, child_already_terminal: bool },
    InProgress { child_id: ExecutionId },
    NoMatch,
    Diverged { expected: Seq<char>, actual: Seq<char>, event_index: Option<i32> },
}

impl View for ChildOrTimerMatch {
    type V = ChildOrTimerView;

    open spec fn view(&self) -> ChildOrTimerView {
        match *self {
            ChildOrTimerMatch::ChildCompleted { output } => ChildOrTimerView::ChildCompleted {
                output: json_view(output),
            },
            ChildOrTimerMatch::ChildFailed { error, error_type, details, non_retryable } =>
                ChildOrTimerView::ChildFailed {
                    error: error@,
                    error_type: error_type@,
                    details: opt_json(details),
                    non_retryable,
                },
            ChildOrTimerMatch::TimerFired { child_id, child_already_terminal } =>
                ChildOrTimerView::TimerFired { child_id, child_already_terminal },
            ChildOrTimerMatch::InProgress { child_id } => ChildOrTimerView::InProgress { child_id },
            ChildOrTimerMatch::NoMatch => ChildOrTimerView::NoMatch,
            ChildOrTimerMatch::Diverged { expected, actual, event_index } =>
                ChildOrTimerView::Diverged { expected: expected@, actual: actual@, event_index },
        }
    }
}

/// Result of observing a cancellable timer's outcome in recorded history.
///
/// Of a fire and a cancel, the one that was recorded first decides, on every
/// replay.
#[derive(Debug, Clone, Copy, PartialEq, Eq, Structural)]
pub enum TimerFireMatch {
    /// The timer's fire was recorded before any cancel of it.
    Fired,
    /// The timer's cancel was recorded before any fire of it.
    Cancelled,
    /// Neither is recorded within reach.
    NoMatch,
}

/// Result of matching a patch gate against recorded history.
#[derive(Debug, Clone, Copy, PartialEq, Eq, Structural)]
pub enum PatchMarkerMatch {
    /// A marker for the patch was consumed, or the patch is deprecated and a
    /// marker for it was present: the new branch applies.
    Recorded,
    /// Replaying, and no marker for the patch at this position: the old branch
    /// applies.
    Absent,
    /// Past recorded history: the caller records a fresh marker and takes the
    /// new branch.
    NewlyPatched,
}

/// Result of matching the acquisition of a durable lock against recorded
/// history.
#[derive(Debug, Clone, PartialEq, Eq)]
pub enum MutexGrantMatch {
    /// The grant of the lock was recorded at the cursor and consumed.
    Granted {
        /// The fencing token recorded with the grant.
        lock_seq: i64,
        /// The instant the lock was granted.
        acquired_at: Timestamp,
    },
    /// Nothing is recorded for this acquisition: it is new.
    NoMatch,
    /// A different event or key is at the cursor.
    Diverged {
        /// What the workflow requested.
        expected: String,
        /// What was recorded at the cursor.
        actual: String,
        /// The event index where the divergence occurred, where it fits.
        event_index: Option<i32>,
    },
}

/// What a [`MutexGrantMatch`] holds.
pub enum MutexGrantView {
    Granted { lock_seq: i64, acquired_at: Timestamp },
    NoMatch,
    Diverged { expected: Seq<char>, actual: Seq<char>, event_index: Option<i32> },
}

impl View for MutexGrantMatch {
    type V = MutexGrantView;

    open spec fn view(&self) -> MutexGrantView {
        match *self {
            MutexGrantMatch::Granted { lock_seq, acquired_at } => MutexGrantView::Granted {
                lock_seq,
                acquired_at,
            },
            MutexGrantMatch::NoMatch => MutexGrantView::NoMatch,
            MutexGrantMatch::Diverged { expected, actual, event_index } =>
                MutexGrantView::Diverged { expected: expected@, actual: actual@, event_index },
        }
    }
}

/// Result of the deadline probe's tolerant clock read.
#[derive(Debug, Clone, Copy, PartialEq, Eq, Structural)]
pub enum SideEffectNowMatch {
    /// The probe's own clock read was recorded at the cursor and consumed.
    Matched {
        /// The recorded instant, in Unix milliseconds.
        millis: i64,
    },
    /// Another event is at the cursor; nothing was consumed.
    NotRecorded,
    /// Past recorded history: the caller records a fresh clock read.
    Frontier,
}

/// Result of matching a saga's compensation marker against recorded history.
#[derive(Debug, Clone, Copy, PartialEq, Eq, Structural)]
pub enum SagaMarkerMatch {
    /// The marker was found and consumed: the unwind was already counted.
    Recorded,
    /// Replaying, and no such marker within reach: nothing was consumed.
    Absent,
    /// Past recorded history, or separated from its end only by cancels of the
    /// run: the caller records a fresh marker.
    LiveFrontier,
    /// Only signals that nobody awaited separated the cursor from the end of
    /// recorded history.
    DrainedSignalFrontier,
}

/// The settings that a local activity was scheduled under.
#[derive(Debug, Clone, Copy, PartialEq, Eq, Structural)]
pub struct LocalActivityResolution {
    /// Whether the settings below are authoritative, also where absent.
    pub resolved: bool,
    /// The retry policy.
    pub retry_policy: Option<RetryPolicy>,
    /// The start-to-close limit, in nanoseconds.
    pub start_to_close_nanos: Option<u64>,
}

impl LocalActivityResolution {
    /// No recorded settings.
    pub open spec fn unresolved() -> LocalActivityResolution {
        LocalActivityResolution { resolved: false, retry_policy: None, start_to_close_nanos: None }
    }
}

impl Default for LocalActivityResolution {
    /// No recorded settings.
    fn default() -> (r: LocalActivityResolution)
        ensures
            r == LocalActivityResolution::unresolved(),
    {
        LocalActivityResolution { resolved: false, retry_policy: None, start_to_close_nanos: None }
    }
}

} // verus!
