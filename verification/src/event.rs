//! The recorded history of a workflow run.
use crate::types::{
    ActivityExecId, ExecutionId, ExternalActivityToken, ExternalAwaitId, ExternalCancelId,
    ExternalSignalId, ExternalTarget, ParentClosePolicy, RetryPolicy, SideEffectKind, TimeoutType,
    TimerId, Timestamp, UpdateId, WorkerId,
};
use serde_json::Value;
use vstd::prelude::*;

verus! {

/// The error text under which a failing cycle records awaited work that it
/// leaves behind.
pub const ABANDONED_DISPATCH_REASON: &'static str = "dispatch abandoned by a failing workflow run";

/// One recorded event of a workflow run.
#[derive(Debug, Clone, PartialEq)]
pub enum WorkflowEvent {
    /// An activity was handed to a task queue.
    ActivityScheduled { activity_id: ActivityExecId, name: String, input: Value, queue: String },
    /// A worker picked the activity up.
    ActivityStarted { activity_id: ActivityExecId, worker_id: WorkerId },
    /// The activity reported progress.
    ActivityHeartbeat { activity_id: ActivityExecId, details: Value },
    /// The activity returned a result.
    ActivityCompleted { activity_id: ActivityExecId, output: Value },
    /// The activity failed for good.
    ActivityFailed {
        activity_id: ActivityExecId,
        error: String,
        attempt: u32,
        error_type: String,
        non_retryable: bool,
        details: Option<Value>,
    },
    /// One of the activity's clocks expired.
    ActivityTimedOut { activity_id: ActivityExecId, timeout_type: TimeoutType },
    /// An activity waits for an outside system to complete it.
    ActivityAwaitingExternal {
        activity_id: ActivityExecId,
        token: ExternalActivityToken,
        name: String,
        input: Value,
        queue: String,
        schedule_to_close_secs: u64,
    },
    /// The outside system completed the activity.
    ActivityCompletedExternally {
        activity_id: ActivityExecId,
        token: ExternalActivityToken,
        output: Value,
    },
    /// The outside system failed the activity.
    ActivityFailedExternally {
        activity_id: ActivityExecId,
        token: ExternalActivityToken,
        error: String,
    },
    /// The outside system was given more time.
    ActivityExternalDeadlineExtended {
        activity_id: ActivityExecId,
        token: ExternalActivityToken,
        schedule_to_close_secs: u64,
    },
    /// A local activity is about to run in the worker. With `resolved`, the retry
    /// policy and the start-to-close limit are the ones it was scheduled under,
    /// also where they are absent.
    LocalActivityScheduled {
        activity_id: ActivityExecId,
        name: String,
        input: Value,
        retry_policy: Option<RetryPolicy>,
        resolved: bool,
        start_to_close_nanos: Option<u64>,
    },
    /// The local activity returned a result.
    LocalActivityCompleted { activity_id: ActivityExecId, output: Value },
    /// One attempt of the local activity failed.
    LocalActivityFailed { activity_id: ActivityExecId, error: String, attempt: u32 },
    /// The local activity used up its attempts.
    LocalActivityExhausted { activity_id: ActivityExecId, error: String, attempt: u32 },
    /// A child workflow was started.
    ChildWorkflowStarted { child_id: ExecutionId, workflow_name: String, input: Value },
    /// The child workflow returned a result.
    ChildWorkflowCompleted { child_id: ExecutionId, output: Value },
    /// The child workflow failed.
    ChildWorkflowFailed {
        child_id: ExecutionId,
        error: String,
        error_type: Option<String>,
        details: Option<Value>,
        non_retryable: Option<bool>,
    },
    /// A child workflow was started that nobody waits for.
    ChildWorkflowSpawnedDetached {
        child_id: ExecutionId,
        workflow_name: String,
        input: Value,
        parent_close_policy: ParentClosePolicy,
    },
    /// The parent's close was applied to a detached child.
    ChildWorkflowCascadeApplied { child_id: ExecutionId, parent_close_policy: ParentClosePolicy },
    /// A signal is to be sent to another workflow.
    ExternalSignalRequested {
        signal_id: ExternalSignalId,
        target: ExternalTarget,
        signal_name: String,
        payload: Value,
        idempotency_key: Option<String>,
    },
    /// The signal reached the other workflow.
    ExternalSignalDelivered { signal_id: ExternalSignalId },
    /// The signal could not be delivered.
    ExternalSignalFailed { signal_id: ExternalSignalId, reason_code: String },
    /// Another workflow is to be asked to cancel.
    ExternalCancelRequested { cancel_id: ExternalCancelId, target: ExternalTarget },
    /// The cancel request reached the other workflow.
    ExternalCancelDelivered { cancel_id: ExternalCancelId },
    /// The cancel request could not be delivered.
    ExternalCancelFailed { cancel_id: ExternalCancelId, reason_code: String },
    /// The workflow waits for another one to close.
    ExternalAwaitRequested { await_id: ExternalAwaitId, target: ExecutionId },
    /// The awaited workflow completed.
    ExternalAwaitResolved { await_id: ExternalAwaitId, output: Value },
    /// The awaited workflow closed in another way.
    ExternalAwaitFailed {
        await_id: ExternalAwaitId,
        reason_code: String,
        message: Option<String>,
        error_type: Option<String>,
        details: Option<Value>,
        non_retryable: Option<bool>,
    },
    /// The workflow recorded a named decision.
    MarkerRecorded { name: String, details: Value },
    /// The value of a non-deterministic expression was captured.
    SideEffectRecorded { kind: SideEffectKind, name: Option<String>, value: Value },
    /// The workflow was sent a signal.
    SignalReceived { signal_name: String, payload: Value },
    /// A durable timer was armed.
    TimerStarted { timer_id: TimerId, duration_secs: u64 },
    /// The timer's deadline passed.
    TimerFired { timer_id: TimerId },
    /// The timer was cancelled.
    TimerCancelled { timer_id: TimerId },
    /// The workflow was granted a durable lock.
    MutexGranted { key: String, lock_seq: i64, acquired_at: Timestamp },
    /// An update was accepted for handling.
    UpdateAdmitted { update_id: UpdateId, name: String, input: Value },
    /// The update's handler returned a result.
    UpdateCompleted { update_id: UpdateId, output: Value },
    /// The update's handler failed.
    UpdateFailed { update_id: UpdateId, error: String },
    /// The run began.
    WorkflowStarted {
        input: Value,
        timestamp: Timestamp,
        last_completion_result: Option<Value>,
        last_error: Option<String>,
        scheduled_time: Option<Timestamp>,
    },
    /// The run returned a result.
    WorkflowCompleted { output: Value },
    /// The run failed.
    WorkflowFailed {
        error: String,
        error_type: Option<String>,
        details: Option<Value>,
        non_retryable: Option<bool>,
    },
    /// The run was cancelled.
    WorkflowCancelled { reason: String },
    /// The run handed over to a successor, of another type where one is given.
    WorkflowContinuedAsNew {
        new_exec_id: ExecutionId,
        input: Value,
        new_workflow_type: Option<String>,
    },
    /// An operator paused the run.
    WorkflowExecutionPaused { paused_at: Timestamp, reason: Option<String>, actor: String },
    /// An operator resumed the run.
    WorkflowExecutionResumed { resumed_at: Timestamp, actor: String },
    /// An operator reopened a failed run.
    WorkflowRedriven { redriven_at: Timestamp, dead_letter_id: u128, reason: Option<String> },
    /// The run was forked off another one's prefix.
    WorkflowResetFork {
        reset_from_exec_id: ExecutionId,
        reset_to_event_id: i64,
        reason: String,
        operator_id: String,
    },
    /// A failed run will be retried as a new one.
    WorkflowRetryScheduled { retry_exec_id: ExecutionId, attempt: u32, fire_at: Timestamp },
}

impl WorkflowEvent {
    /// The name of the event's kind.
    pub open spec fn kind_name(self) -> Seq<char> {
        match self {
            WorkflowEvent::ActivityScheduled { .. } => "ActivityScheduled"@,
            WorkflowEvent::ActivityStarted { .. } => "ActivityStarted"@,
            WorkflowEvent::ActivityHeartbeat { .. } => "ActivityHeartbeat"@,
            WorkflowEvent::ActivityCompleted { .. } => "ActivityCompleted"@,
            WorkflowEvent::ActivityFailed { .. } => "ActivityFailed"@,
            WorkflowEvent::ActivityTimedOut { .. } => "ActivityTimedOut"@,
            WorkflowEvent::ActivityAwaitingExternal { .. } => "ActivityAwaitingExternal"@,
            WorkflowEvent::ActivityCompletedExternally { .. } => "ActivityCompletedExternally"@,
            WorkflowEvent::ActivityFailedExternally { .. } => "ActivityFailedExternally"@,
            WorkflowEvent::ActivityExternalDeadlineExtended { .. } => "ActivityExternalDeadlineExtended"@,
            WorkflowEvent::LocalActivityScheduled { .. } => "LocalActivityScheduled"@,
            WorkflowEvent::LocalActivityCompleted { .. } => "LocalActivityCompleted"@,
            WorkflowEvent::LocalActivityFailed { .. } => "LocalActivityFailed"@,
            WorkflowEvent::LocalActivityExhausted { .. } => "LocalActivityExhausted"@,
            WorkflowEvent::ChildWorkflowStarted { .. } => "ChildWorkflowStarted"@,
            WorkflowEvent::ChildWorkflowCompleted { .. } => "ChildWorkflowCompleted"@,
            WorkflowEvent::ChildWorkflowFailed { .. } => "ChildWorkflowFailed"@,
            WorkflowEvent::ChildWorkflowSpawnedDetached { .. } => "ChildWorkflowSpawnedDetached"@,
            WorkflowEvent::ChildWorkflowCascadeApplied { .. } => "ChildWorkflowCascadeApplied"@,
            WorkflowEvent::ExternalSignalRequested { .. } => "ExternalSignalRequested"@,
            WorkflowEvent::ExternalSignalDelivered { .. } => "ExternalSignalDelivered"@,
            WorkflowEvent::ExternalSignalFailed { .. } => "ExternalSignalFailed"@,
            WorkflowEvent::ExternalCancelRequested { .. } => "ExternalCancelRequested"@,
            WorkflowEvent::ExternalCancelDelivered { .. } => "ExternalCancelDelivered"@,
            WorkflowEvent::ExternalCancelFailed { .. } => "ExternalCancelFailed"@,
            WorkflowEvent::ExternalAwaitRequested { .. } => "ExternalAwaitRequested"@,
            WorkflowEvent::ExternalAwaitResolved { .. } => "ExternalAwaitResolved"@,
            WorkflowEvent::ExternalAwaitFailed { .. } => "ExternalAwaitFailed"@,
            WorkflowEvent::MarkerRecorded { .. } => "MarkerRecorded"@,
            WorkflowEvent::SideEffectRecorded { .. } => "SideEffectRecorded"@,
            WorkflowEvent::SignalReceived { .. } => "SignalReceived"@,
            WorkflowEvent::TimerStarted { .. } => "TimerStarted"@,
            WorkflowEvent::TimerFired { .. } => "TimerFired"@,
            WorkflowEvent::TimerCancelled { .. } => "TimerCancelled"@,
            WorkflowEvent::MutexGranted { .. } => "MutexGranted"@,
            WorkflowEvent::UpdateAdmitted { .. } => "UpdateAdmitted"@,
            WorkflowEvent::UpdateCompleted { .. } => "UpdateCompleted"@,
            WorkflowEvent::UpdateFailed { .. } => "UpdateFailed"@,
            WorkflowEvent::WorkflowStarted { .. } => "WorkflowStarted"@,
            WorkflowEvent::WorkflowCompleted { .. } => "WorkflowCompleted"@,
            WorkflowEvent::WorkflowFailed { .. } => "WorkflowFailed"@,
            WorkflowEvent::WorkflowCancelled { .. } => "WorkflowCancelled"@,
            WorkflowEvent::WorkflowContinuedAsNew { .. } => "WorkflowContinuedAsNew"@,
            WorkflowEvent::WorkflowExecutionPaused { .. } => "WorkflowExecutionPaused"@,
            WorkflowEvent::WorkflowExecutionResumed { .. } => "WorkflowExecutionResumed"@,
            WorkflowEvent::WorkflowRedriven { .. } => "WorkflowRedriven"@,
            WorkflowEvent::WorkflowResetFork { .. } => "WorkflowResetFork"@,
            WorkflowEvent::WorkflowRetryScheduled { .. } => "WorkflowRetryScheduled"@,
        }
    }

    /// The name of the event's kind.
    pub fn kind_str(&self) -> (r: &'static str)
        ensures
            r@ == self.kind_name(),
    {
        match self {
            WorkflowEvent::ActivityScheduled { .. } => "ActivityScheduled",
            WorkflowEvent::ActivityStarted { .. } => "ActivityStarted",
            WorkflowEvent::ActivityHeartbeat { .. } => "ActivityHeartbeat",
            WorkflowEvent::ActivityCompleted { .. } => "ActivityCompleted",
            WorkflowEvent::ActivityFailed { .. } => "ActivityFailed",
            WorkflowEvent::ActivityTimedOut { .. } => "ActivityTimedOut",
            WorkflowEvent::ActivityAwaitingExternal { .. } => "ActivityAwaitingExternal",
            WorkflowEvent::ActivityCompletedExternally { .. } => "ActivityCompletedExternally",
            WorkflowEvent::ActivityFailedExternally { .. } => "ActivityFailedExternally",
            WorkflowEvent::ActivityExternalDeadlineExtended { .. } => "ActivityExternalDeadlineExtended",
            WorkflowEvent::LocalActivityScheduled { .. } => "LocalActivityScheduled",
            WorkflowEvent::LocalActivityCompleted { .. } => "LocalActivityCompleted",
            WorkflowEvent::LocalActivityFailed { .. } => "LocalActivityFailed",
            WorkflowEvent::LocalActivityExhausted { .. } => "LocalActivityExhausted",
            WorkflowEvent::ChildWorkflowStarted { .. } => "ChildWorkflowStarted",
            WorkflowEvent::ChildWorkflowCompleted { .. } => "ChildWorkflowCompleted",
            WorkflowEvent::ChildWorkflowFailed { .. } => "ChildWorkflowFailed",
            WorkflowEvent::ChildWorkflowSpawnedDetached { .. } => "ChildWorkflowSpawnedDetached",
            WorkflowEvent::ChildWorkflowCascadeApplied { .. } => "ChildWorkflowCascadeApplied",
            WorkflowEvent::ExternalSignalRequested { .. } => "ExternalSignalRequested",
            WorkflowEvent::ExternalSignalDelivered { .. } => "ExternalSignalDelivered",
            WorkflowEvent::ExternalSignalFailed { .. } => "ExternalSignalFailed",
            WorkflowEvent::ExternalCancelRequested { .. } => "ExternalCancelRequested",
            WorkflowEvent::ExternalCancelDelivered { .. } => "ExternalCancelDelivered",
            WorkflowEvent::ExternalCancelFailed { .. } => "ExternalCancelFailed",
            WorkflowEvent::ExternalAwaitRequested { .. } => "ExternalAwaitRequested",
            WorkflowEvent::ExternalAwaitResolved { .. } => "ExternalAwaitResolved",
            WorkflowEvent::ExternalAwaitFailed { .. } => "ExternalAwaitFailed",
            WorkflowEvent::MarkerRecorded { .. } => "MarkerRecorded",
            WorkflowEvent::SideEffectRecorded { .. } => "SideEffectRecorded",
            WorkflowEvent::SignalReceived { .. } => "SignalReceived",
            WorkflowEvent::TimerStarted { .. } => "TimerStarted",
            WorkflowEvent::TimerFired { .. } => "TimerFired",
            WorkflowEvent::TimerCancelled { .. } => "TimerCancelled",
            WorkflowEvent::MutexGranted { .. } => "MutexGranted",
            WorkflowEvent::UpdateAdmitted { .. } => "UpdateAdmitted",
            WorkflowEvent::UpdateCompleted { .. } => "UpdateCompleted",
            WorkflowEvent::UpdateFailed { .. } => "UpdateFailed",
            WorkflowEvent::WorkflowStarted { .. } => "WorkflowStarted",
            WorkflowEvent::WorkflowCompleted { .. } => "WorkflowCompleted",
            WorkflowEvent::WorkflowFailed { .. } => "WorkflowFailed",
            WorkflowEvent::WorkflowCancelled { .. } => "WorkflowCancelled",
            WorkflowEvent::WorkflowContinuedAsNew { .. } => "WorkflowContinuedAsNew",
            WorkflowEvent::WorkflowExecutionPaused { .. } => "WorkflowExecutionPaused",
            WorkflowEvent::WorkflowExecutionResumed { .. } => "WorkflowExecutionResumed",
            WorkflowEvent::WorkflowRedriven { .. } => "WorkflowRedriven",
            WorkflowEvent::WorkflowResetFork { .. } => "WorkflowResetFork",
            WorkflowEvent::WorkflowRetryScheduled { .. } => "WorkflowRetryScheduled",
        }
    }

    /// Whether the event closes the run.
    pub open spec fn closes_run(self) -> bool {
        match self {
            WorkflowEvent::WorkflowCompleted { .. } => true,
            WorkflowEvent::WorkflowFailed { .. } => true,
            WorkflowEvent::WorkflowCancelled { .. } => true,
            WorkflowEvent::WorkflowContinuedAsNew { .. } => true,
            _ => false,
        }
    }

    /// Whether the event closes the run.
    pub fn is_terminal_lifecycle(&self) -> (r: bool)
        ensures
            r == self.closes_run(),
    {
        match self {
            WorkflowEvent::WorkflowCompleted { .. } => true,
            WorkflowEvent::WorkflowFailed { .. } => true,
            WorkflowEvent::WorkflowCancelled { .. } => true,
            WorkflowEvent::WorkflowContinuedAsNew { .. } => true,
            _ => false,
        }
    }
}

} // verus!
