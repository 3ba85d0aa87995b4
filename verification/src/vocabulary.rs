//! The kinds of events, in the words in which the laws speak of them.
use crate::event::WorkflowEvent;
use crate::types::ActivityExecId;
use vstd::prelude::*;

verus! {

/// Recorded when the workflow body issues a command that other commands may run
/// next to.
pub open spec fn issues_command(e: WorkflowEvent) -> bool {
    match e {
        WorkflowEvent::ActivityScheduled { .. } => true,
        WorkflowEvent::LocalActivityScheduled { .. } => true,
        WorkflowEvent::ChildWorkflowStarted { .. } => true,
        WorkflowEvent::ChildWorkflowSpawnedDetached { .. } => true,
        WorkflowEvent::MarkerRecorded { .. } => true,
        WorkflowEvent::SideEffectRecorded { .. } => true,
        WorkflowEvent::TimerStarted { .. } => true,
        WorkflowEvent::TimerCancelled { .. } => true,
        _ => false,
    }
}

/// Recorded on the way of a command, or as its outcome: how activities, children
/// and timers get on.
pub open spec fn reports_progress(e: WorkflowEvent) -> bool {
    match e {
        WorkflowEvent::ActivityStarted { .. } => true,
        WorkflowEvent::ActivityHeartbeat { .. } => true,
        WorkflowEvent::ActivityCompleted { .. } => true,
        WorkflowEvent::ActivityFailed { .. } => true,
        WorkflowEvent::ActivityTimedOut { .. } => true,
        WorkflowEvent::LocalActivityCompleted { .. } => true,
        WorkflowEvent::LocalActivityFailed { .. } => true,
        WorkflowEvent::ChildWorkflowCompleted { .. } => true,
        WorkflowEvent::ChildWorkflowFailed { .. } => true,
        WorkflowEvent::TimerFired { .. } => true,
        _ => false,
    }
}

/// Recorded by an update, or by a fork of the run.
pub open spec fn belongs_to_update(e: WorkflowEvent) -> bool {
    match e {
        WorkflowEvent::UpdateAdmitted { .. } => true,
        WorkflowEvent::UpdateCompleted { .. } => true,
        WorkflowEvent::UpdateFailed { .. } => true,
        WorkflowEvent::WorkflowResetFork { .. } => true,
        _ => false,
    }
}

/// A signal that was received, or a step of a request to another workflow: it
/// waits for a command of its own.
pub open spec fn waits_for_claim(e: WorkflowEvent) -> bool {
    match e {
        WorkflowEvent::SignalReceived { .. } => true,
        WorkflowEvent::ExternalSignalRequested { .. } => true,
        WorkflowEvent::ExternalSignalDelivered { .. } => true,
        WorkflowEvent::ExternalSignalFailed { .. } => true,
        WorkflowEvent::ExternalCancelRequested { .. } => true,
        WorkflowEvent::ExternalCancelDelivered { .. } => true,
        WorkflowEvent::ExternalCancelFailed { .. } => true,
        WorkflowEvent::ExternalAwaitRequested { .. } => true,
        WorkflowEvent::ExternalAwaitResolved { .. } => true,
        WorkflowEvent::ExternalAwaitFailed { .. } => true,
        _ => false,
    }
}

/// What may stand between a command and its outcome when other commands run next
/// to it.
pub open spec fn runs_beside(e: WorkflowEvent) -> bool {
    issues_command(e) || reports_progress(e) || belongs_to_update(e) || waits_for_claim(e)
}

/// Whether a worker took the activity up, or heard of it again.
pub open spec fn activity_gets_on(e: WorkflowEvent, id: ActivityExecId) -> bool {
    match e {
        WorkflowEvent::ActivityStarted { activity_id, .. } => activity_id == id,
        WorkflowEvent::ActivityHeartbeat { activity_id, .. } => activity_id == id,
        _ => false,
    }
}

/// Whether the activity ended.
pub open spec fn activity_ends(e: WorkflowEvent, id: ActivityExecId) -> bool {
    match e {
        WorkflowEvent::ActivityCompleted { activity_id, .. } => activity_id == id,
        WorkflowEvent::ActivityFailed { activity_id, .. } => activity_id == id,
        WorkflowEvent::ActivityTimedOut { activity_id, .. } => activity_id == id,
        _ => false,
    }
}

/// Recorded next to the activity: neither its end nor its scheduling once more.
pub open spec fn beside_activity(e: WorkflowEvent, id: ActivityExecId) -> bool {
    &&& runs_beside(e)
    &&& !activity_ends(e, id)
    &&& !(e matches WorkflowEvent::ActivityScheduled { activity_id, .. } && activity_id == id)
}

/// Whether an attempt of the local activity failed.
pub open spec fn local_attempt_fails(e: WorkflowEvent, id: ActivityExecId) -> bool {
    match e {
        WorkflowEvent::LocalActivityFailed { activity_id, .. } => activity_id == id,
        _ => false,
    }
}

/// Whether the local activity ended: with a result, or with no attempt left.
pub open spec fn local_activity_ends(e: WorkflowEvent, id: ActivityExecId) -> bool {
    match e {
        WorkflowEvent::LocalActivityCompleted { activity_id, .. } => activity_id == id,
        WorkflowEvent::LocalActivityExhausted { activity_id, .. } => activity_id == id,
        _ => false,
    }
}

/// Recorded by a command that is done as soon as it is recorded.
pub open spec fn done_when_recorded(e: WorkflowEvent) -> bool {
    match e {
        WorkflowEvent::ChildWorkflowSpawnedDetached { .. } => true,
        WorkflowEvent::MarkerRecorded { .. } => true,
        WorkflowEvent::SideEffectRecorded { .. } => true,
        WorkflowEvent::TimerStarted { .. } => true,
        WorkflowEvent::TimerCancelled { .. } => true,
        _ => false,
    }
}

/// Recorded next to the local activity, or by one of its attempts.
pub open spec fn beside_local_activity(e: WorkflowEvent, id: ActivityExecId) -> bool {
    local_attempt_fails(e, id) || done_when_recorded(e) || belongs_to_update(e) || waits_for_claim(
        e,
    )
}

/// Whether the outside system completed or failed the activity, or its time ran
/// out.
pub open spec fn external_activity_ends(e: WorkflowEvent, id: ActivityExecId) -> bool {
    match e {
        WorkflowEvent::ActivityCompletedExternally { activity_id, .. } => activity_id == id,
        WorkflowEvent::ActivityFailedExternally { activity_id, .. } => activity_id == id,
        WorkflowEvent::ActivityTimedOut { activity_id, .. } => activity_id == id,
        _ => false,
    }
}

/// Recorded next to an activity that waits for an outside system, or of its wait.
pub open spec fn beside_external_activity(e: WorkflowEvent, id: ActivityExecId) -> bool {
    match e {
        WorkflowEvent::ActivityExternalDeadlineExtended { activity_id, .. } => activity_id == id,
        WorkflowEvent::ActivityAwaitingExternal { activity_id, .. } => activity_id == id,
        WorkflowEvent::ChildWorkflowSpawnedDetached { .. } => true,
        _ => belongs_to_update(e) || waits_for_claim(e),
    }
}

} // verus!
