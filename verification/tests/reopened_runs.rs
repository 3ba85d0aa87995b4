//! Failed runs, and runs that were reopened.
use harvest_replay::event::{ABANDONED_DISPATCH_REASON, WorkflowEvent};
use harvest_replay::matcher::HistoryMatcher;
use harvest_replay::outcome::HistoryMatch;
use harvest_replay::types::{ActivityExecId, ExecutionId, ParentClosePolicy, SideEffectKind, TimerId, Timestamp, WorkerId};
use serde_json::Value;

fn fresh() -> u128 {
    uuid::Uuid::new_v4().as_u128()
}

fn now() -> Timestamp {
    let t = chrono::Utc::now();
    Timestamp {
        secs: t.timestamp(),
        nanos: t.timestamp_subsec_nanos(),
    }
}

fn obj(members: Vec<(&str, Value)>) -> Value {
    let mut map = serde_json::Map::new();
    for (key, value) in members {
        map.insert(key.to_string(), value);
    }
    Value::Object(map)
}

fn workflow_failed(error: &str) -> WorkflowEvent {
    WorkflowEvent::WorkflowFailed {
        error: error.to_string(),
        error_type: None,
        details: None,
        non_retryable: None,
    }
}

#[test]
fn redrive_marks_superseded_failed_and_redrive_transparent() {
    let activity_id = ActivityExecId(fresh());
    let events = vec![
        WorkflowEvent::WorkflowStarted {
            input: Value::Null,
            timestamp: now(),
            last_completion_result: None,
            last_error: None,
            scheduled_time: None,
        },
        WorkflowEvent::ActivityScheduled {
            activity_id,
            name: "charge".into(),
            input: Value::Null,
            queue: "default".into(),
        },
        WorkflowEvent::ActivityFailed {
            activity_id,
            error: "downstream down".into(),
            attempt: 3,
            error_type: "Error".into(),
            details: None,
            non_retryable: false,
        },
        workflow_failed("downstream down"),
        WorkflowEvent::WorkflowRedriven {
            redriven_at: now(),
            dead_letter_id: fresh(),
            reason: Some("downstream fixed".into()),
        },
    ];
    let matcher = HistoryMatcher::new(events);
    assert!(
        matcher.is_consumed(3),
        "the WorkflowFailed superseded by a redrive must be transparent"
    );
    assert!(
        matcher.is_consumed(4),
        "the WorkflowRedriven event must be transparent"
    );
    assert!(
        !matcher.is_consumed(2),
        "only the immediately-preceding WorkflowFailed is superseded"
    );
}

#[test]
fn redrive_pair_passes_unconsumed_check() {
    let events = vec![
        WorkflowEvent::WorkflowStarted {
            input: Value::Null,
            timestamp: now(),
            last_completion_result: None,
            last_error: None,
            scheduled_time: None,
        },
        workflow_failed("boom"),
        WorkflowEvent::WorkflowRedriven {
            redriven_at: now(),
            dead_letter_id: fresh(),
            reason: None,
        },
    ];
    let mut matcher = HistoryMatcher::new(events);
    matcher.advance();
    assert!(
        !matcher.has_non_lifecycle_unconsumed(),
        "a redriven tail must be transparent to the unconsumed-history check"
    );
}

#[test]
fn bare_trailing_failed_is_transparent() {
    let events = vec![
        WorkflowEvent::WorkflowStarted {
            input: Value::Null,
            timestamp: now(),
            last_completion_result: None,
            last_error: None,
            scheduled_time: None,
        },
        workflow_failed("boom"),
    ];
    let matcher = HistoryMatcher::new(events);
    assert!(
        matcher.is_consumed(1),
        "a bare trailing WorkflowFailed must be transparent to in-progress matches"
    );
    assert!(matcher.has_terminal_failure_tail());
}

#[test]
fn in_progress_match_past_a_trailing_failed_is_no_match_not_diverged() {
    let events = vec![
        WorkflowEvent::WorkflowStarted {
            input: Value::Null,
            timestamp: now(),
            last_completion_result: None,
            last_error: None,
            scheduled_time: None,
        },
        workflow_failed("payload too large"),
    ];
    let mut matcher = HistoryMatcher::new(events);
    matcher.advance();
    assert_eq!(
        matcher.match_child_workflow("some_child", &Value::Null),
        HistoryMatch::NoMatch,
        "a match attempt at the failing frontier must not diverge"
    );
    assert!(
        matcher.at_terminal_failure_frontier(),
        "all pre-terminal events consumed → the cursor is at the failing frontier"
    );
}

#[test]
fn terminal_failure_tail_spans_post_terminal_bookkeeping() {
    let events = vec![
        WorkflowEvent::WorkflowStarted {
            input: Value::Null,
            timestamp: now(),
            last_completion_result: None,
            last_error: None,
            scheduled_time: None,
        },
        workflow_failed("boom"),
        WorkflowEvent::WorkflowRetryScheduled {
            retry_exec_id: ExecutionId(fresh()),
            attempt: 2,
            fire_at: now(),
        },
    ];
    let matcher = HistoryMatcher::new(events);
    assert!(
        matcher.is_consumed(1),
        "the WorkflowFailed must be transparent"
    );
    assert!(
        matcher.is_consumed(2),
        "post-terminal bookkeeping in the tail must be transparent too"
    );
}

#[test]
fn a_failed_event_followed_by_real_history_is_not_a_tail() {
    let activity_id = ActivityExecId(fresh());
    let events = vec![
        WorkflowEvent::WorkflowStarted {
            input: Value::Null,
            timestamp: now(),
            last_completion_result: None,
            last_error: None,
            scheduled_time: None,
        },
        workflow_failed("boom"),
        WorkflowEvent::ActivityScheduled {
            activity_id,
            name: "charge".into(),
            input: Value::Null,
            queue: "default".into(),
        },
    ];
    let matcher = HistoryMatcher::new(events);
    assert!(
        !matcher.is_consumed(1),
        "a WorkflowFailed with real history after it is not a terminal tail"
    );
    assert!(!matcher.has_terminal_failure_tail());
}

#[test]
fn completed_and_cancelled_tails_are_not_terminal_failure_tails() {
    for terminal in [
        WorkflowEvent::WorkflowCompleted {
            output: Value::Null,
        },
        WorkflowEvent::WorkflowCancelled {
            reason: "operator".into(),
        },
    ] {
        let events = vec![
            WorkflowEvent::WorkflowStarted {
                input: Value::Null,
                timestamp: now(),
                last_completion_result: None,
                last_error: None,
                scheduled_time: None,
            },
            terminal,
        ];
        let matcher = HistoryMatcher::new(events);
        assert!(
            !matcher.has_terminal_failure_tail(),
            "only WorkflowFailed opens a terminal-failure tail"
        );
        assert!(!matcher.is_consumed(1));
    }
}

#[test]
fn redrive_tail_is_not_a_terminal_failure_tail() {
    let events = vec![
        WorkflowEvent::WorkflowStarted {
            input: Value::Null,
            timestamp: now(),
            last_completion_result: None,
            last_error: None,
            scheduled_time: None,
        },
        workflow_failed("boom"),
        WorkflowEvent::WorkflowRedriven {
            redriven_at: now(),
            dead_letter_id: fresh(),
            reason: None,
        },
    ];
    let matcher = HistoryMatcher::new(events);
    assert!(
        !matcher.has_terminal_failure_tail(),
        "a redrive reopens the run; it is not a failing tail"
    );
    assert!(
        matcher.is_consumed(1) && matcher.is_consumed(2),
        "the redrive-anchored transparency is unchanged"
    );
}

#[test]
fn a_redrive_makes_abandoned_dispatch_records_transparent() {
    let child_id = ExecutionId(fresh());
    let activity_id = ActivityExecId(fresh());
    let events = vec![
        WorkflowEvent::WorkflowStarted {
            input: Value::Null,
            timestamp: now(),
            last_completion_result: None,
            last_error: None,
            scheduled_time: None,
        },
        WorkflowEvent::ChildWorkflowStarted {
            child_id,
            workflow_name: "worker_child".into(),
            input: Value::Null,
        },
        WorkflowEvent::ChildWorkflowFailed {
            child_id,
            error: ABANDONED_DISPATCH_REASON.to_string(),
            error_type: None,
            details: None,
            non_retryable: Some(true),
        },
        WorkflowEvent::ActivityScheduled {
            activity_id,
            name: "charge".into(),
            input: Value::Null,
            queue: "default".into(),
        },
        WorkflowEvent::ActivityFailed {
            activity_id,
            error: ABANDONED_DISPATCH_REASON.to_string(),
            attempt: 1,
            error_type: "Error".into(),
            details: None,
            non_retryable: true,
        },
        workflow_failed("budget exceeded"),
        WorkflowEvent::WorkflowRedriven {
            redriven_at: now(),
            dead_letter_id: fresh(),
            reason: None,
        },
    ];
    let mut matcher = HistoryMatcher::new(events);
    for idx in 1..=4 {
        assert!(
            matcher.is_consumed(idx),
            "event {idx} of the abandoned pair must be transparent after a redrive"
        );
    }
    matcher.advance();
    assert_eq!(
        matcher.match_child_workflow("worker_child", &Value::Null),
        HistoryMatch::NoMatch,
        "the reopened run must re-dispatch the child live"
    );
}

#[test]
fn a_marker_recorded_after_an_abandoned_dispatch_still_re_dispatches_live() {
    let child_id = ExecutionId(fresh());
    let events = vec![
        WorkflowEvent::WorkflowStarted {
            input: Value::Null,
            timestamp: now(),
            last_completion_result: None,
            last_error: None,
            scheduled_time: None,
        },
        WorkflowEvent::ChildWorkflowStarted {
            child_id,
            workflow_name: "worker_child".into(),
            input: Value::Null,
        },
        WorkflowEvent::ChildWorkflowFailed {
            child_id,
            error: ABANDONED_DISPATCH_REASON.to_string(),
            error_type: None,
            details: None,
            non_retryable: Some(true),
        },
        WorkflowEvent::MarkerRecorded {
            name: "m".into(),
            details: Value::Null,
        },
        workflow_failed("budget exceeded"),
        WorkflowEvent::WorkflowRedriven {
            redriven_at: now(),
            dead_letter_id: fresh(),
            reason: None,
        },
    ];
    let mut matcher = HistoryMatcher::new(events);
    assert!(
        matcher.is_consumed(3),
        "the marker the failing cycle wrote after the dispatch must be transparent too"
    );
    matcher.advance();
    assert_eq!(
        matcher.match_child_workflow("worker_child", &Value::Null),
        HistoryMatch::NoMatch,
        "a durable record trailing the abandoned dispatch must not block re-dispatch"
    );
}

#[test]
fn a_bare_marker_before_a_redriven_terminal_still_re_dispatches_live() {
    let events = vec![
        WorkflowEvent::WorkflowStarted {
            input: Value::Null,
            timestamp: now(),
            last_completion_result: None,
            last_error: None,
            scheduled_time: None,
        },
        WorkflowEvent::MarkerRecorded {
            name: "m".into(),
            details: Value::Null,
        },
        workflow_failed("budget exceeded"),
        WorkflowEvent::WorkflowRedriven {
            redriven_at: now(),
            dead_letter_id: fresh(),
            reason: None,
        },
    ];
    let mut matcher = HistoryMatcher::new(events);
    assert!(
        matcher.is_consumed(1),
        "a bare marker recorded by the failing cycle must be transparent on redrive"
    );
    matcher.advance();
    assert_eq!(
        matcher.match_child_workflow("worker_child", &Value::Null),
        HistoryMatch::NoMatch,
        "the reopened run must re-dispatch live instead of diverging on the marker"
    );
}

#[test]
fn a_marker_from_an_earlier_completed_cycle_stays_opaque_across_a_redrive() {
    let activity_id = ActivityExecId(fresh());
    let events = vec![
        WorkflowEvent::WorkflowStarted {
            input: Value::Null,
            timestamp: now(),
            last_completion_result: None,
            last_error: None,
            scheduled_time: None,
        },
        WorkflowEvent::MarkerRecorded {
            name: "version:early".into(),
            details: Value::Null,
        },
        WorkflowEvent::ActivityScheduled {
            activity_id,
            name: "charge".into(),
            input: Value::Null,
            queue: "default".into(),
        },
        WorkflowEvent::ActivityCompleted {
            activity_id,
            output: Value::Null,
        },
        WorkflowEvent::MarkerRecorded {
            name: "m".into(),
            details: Value::Null,
        },
        workflow_failed("budget exceeded"),
        WorkflowEvent::WorkflowRedriven {
            redriven_at: now(),
            dead_letter_id: fresh(),
            reason: None,
        },
    ];
    let matcher = HistoryMatcher::new(events);
    assert!(
        !matcher.is_consumed(1),
        "the earlier cycle's own marker must stay positionally matchable"
    );
    assert!(
        matcher.is_consumed(4),
        "the failing cycle's own marker, past the last completion, must be transparent"
    );
}

#[test]
fn a_redriven_run_still_reads_an_earlier_cycles_version_marker() {
    let activity_id = ActivityExecId(fresh());
    let events = vec![
        WorkflowEvent::WorkflowStarted {
            input: Value::Null,
            timestamp: now(),
            last_completion_result: None,
            last_error: None,
            scheduled_time: None,
        },
        WorkflowEvent::MarkerRecorded {
            name: "version:early".into(),
            details: Value::from(1),
        },
        WorkflowEvent::ActivityScheduled {
            activity_id,
            name: "charge".into(),
            input: Value::Null,
            queue: "default".into(),
        },
        WorkflowEvent::ActivityCompleted {
            activity_id,
            output: Value::Null,
        },
        WorkflowEvent::MarkerRecorded {
            name: "m".into(),
            details: Value::Null,
        },
        workflow_failed("budget exceeded"),
        WorkflowEvent::WorkflowRedriven {
            redriven_at: now(),
            dead_letter_id: fresh(),
            reason: None,
        },
    ];
    let mut matcher = HistoryMatcher::new(events);
    matcher.advance();
    assert_eq!(
        matcher.match_version("early", 1, 1),
        1,
        "the earlier cycle's own version marker must still be read positionally"
    );
}

#[test]
fn a_side_effect_recorded_after_an_abandoned_dispatch_still_re_dispatches_live() {
    let child_id = ExecutionId(fresh());
    let events = vec![
        WorkflowEvent::WorkflowStarted {
            input: Value::Null,
            timestamp: now(),
            last_completion_result: None,
            last_error: None,
            scheduled_time: None,
        },
        WorkflowEvent::ChildWorkflowStarted {
            child_id,
            workflow_name: "worker_child".into(),
            input: Value::Null,
        },
        WorkflowEvent::ChildWorkflowFailed {
            child_id,
            error: ABANDONED_DISPATCH_REASON.to_string(),
            error_type: None,
            details: None,
            non_retryable: Some(true),
        },
        WorkflowEvent::SideEffectRecorded {
            kind: SideEffectKind::Uuid,
            name: None,
            value: Value::from("11111111-1111-1111-1111-111111111111"),
        },
        workflow_failed("budget exceeded"),
        WorkflowEvent::WorkflowRedriven {
            redriven_at: now(),
            dead_letter_id: fresh(),
            reason: None,
        },
    ];
    let mut matcher = HistoryMatcher::new(events);
    assert!(
        matcher.is_consumed(3),
        "a side effect the failing cycle wrote after the dispatch must be transparent too"
    );
    matcher.advance();
    assert_eq!(
        matcher.match_child_workflow("worker_child", &Value::Null),
        HistoryMatch::NoMatch,
        "a trailing side effect must not block re-dispatch"
    );
}

#[test]
fn a_run_of_several_markers_after_an_abandoned_dispatch_is_fully_swallowed() {
    let child_id = ExecutionId(fresh());
    let events = vec![
        WorkflowEvent::WorkflowStarted {
            input: Value::Null,
            timestamp: now(),
            last_completion_result: None,
            last_error: None,
            scheduled_time: None,
        },
        WorkflowEvent::ChildWorkflowStarted {
            child_id,
            workflow_name: "worker_child".into(),
            input: Value::Null,
        },
        WorkflowEvent::ChildWorkflowFailed {
            child_id,
            error: ABANDONED_DISPATCH_REASON.to_string(),
            error_type: None,
            details: None,
            non_retryable: Some(true),
        },
        WorkflowEvent::MarkerRecorded {
            name: "m1".into(),
            details: Value::Null,
        },
        WorkflowEvent::MarkerRecorded {
            name: "m2".into(),
            details: Value::Null,
        },
        WorkflowEvent::MarkerRecorded {
            name: "m3".into(),
            details: Value::Null,
        },
        workflow_failed("budget exceeded"),
        WorkflowEvent::WorkflowRedriven {
            redriven_at: now(),
            dead_letter_id: fresh(),
            reason: None,
        },
    ];
    let mut matcher = HistoryMatcher::new(events);
    for idx in [3_usize, 4, 5] {
        assert!(
            matcher.is_consumed(idx),
            "marker {idx} in the trailing run must be transparent"
        );
    }
    matcher.advance();
    assert_eq!(
        matcher.match_child_workflow("worker_child", &Value::Null),
        HistoryMatch::NoMatch,
        "a run of trailing markers must not block re-dispatch"
    );
}

#[test]
fn a_marker_sandwiched_between_two_abandoned_dispatch_pairs_is_swallowed() {
    let first_child = ExecutionId(fresh());
    let second_child = ExecutionId(fresh());
    let events = vec![
        WorkflowEvent::WorkflowStarted {
            input: Value::Null,
            timestamp: now(),
            last_completion_result: None,
            last_error: None,
            scheduled_time: None,
        },
        WorkflowEvent::ChildWorkflowStarted {
            child_id: first_child,
            workflow_name: "worker_child".into(),
            input: Value::Null,
        },
        WorkflowEvent::ChildWorkflowFailed {
            child_id: first_child,
            error: ABANDONED_DISPATCH_REASON.to_string(),
            error_type: None,
            details: None,
            non_retryable: Some(true),
        },
        WorkflowEvent::MarkerRecorded {
            name: "m".into(),
            details: Value::Null,
        },
        WorkflowEvent::ChildWorkflowStarted {
            child_id: second_child,
            workflow_name: "worker_child".into(),
            input: Value::Null,
        },
        WorkflowEvent::ChildWorkflowFailed {
            child_id: second_child,
            error: ABANDONED_DISPATCH_REASON.to_string(),
            error_type: None,
            details: None,
            non_retryable: Some(true),
        },
        workflow_failed("budget exceeded"),
        WorkflowEvent::WorkflowRedriven {
            redriven_at: now(),
            dead_letter_id: fresh(),
            reason: None,
        },
    ];
    let mut matcher = HistoryMatcher::new(events);
    for idx in 1..=6 {
        assert!(
            matcher.is_consumed(idx),
            "event {idx} must be transparent: two abandoned pairs sandwiching a marker"
        );
    }
    matcher.advance();
    assert_eq!(
        matcher.match_child_workflow("worker_child", &Value::Null),
        HistoryMatch::NoMatch,
        "the sandwiched marker must not block re-dispatch of either child"
    );
}

#[test]
fn a_marker_after_an_abandoned_activity_dispatch_still_re_dispatches_live() {
    let activity_id = ActivityExecId(fresh());
    let events = vec![
        WorkflowEvent::WorkflowStarted {
            input: Value::Null,
            timestamp: now(),
            last_completion_result: None,
            last_error: None,
            scheduled_time: None,
        },
        WorkflowEvent::ActivityScheduled {
            activity_id,
            name: "charge".into(),
            input: Value::Null,
            queue: "default".into(),
        },
        WorkflowEvent::ActivityFailed {
            activity_id,
            error: ABANDONED_DISPATCH_REASON.to_string(),
            attempt: 1,
            error_type: "Error".into(),
            details: None,
            non_retryable: true,
        },
        WorkflowEvent::MarkerRecorded {
            name: "m".into(),
            details: Value::Null,
        },
        workflow_failed("budget exceeded"),
        WorkflowEvent::WorkflowRedriven {
            redriven_at: now(),
            dead_letter_id: fresh(),
            reason: None,
        },
    ];
    let mut matcher = HistoryMatcher::new(events);
    assert!(
        matcher.is_consumed(3),
        "the marker trailing an abandoned activity dispatch must be transparent too"
    );
    matcher.advance();
    assert_eq!(
        matcher.match_activity("charge"),
        HistoryMatch::NoMatch,
        "a trailing marker must not block re-dispatch of an abandoned activity"
    );
}

#[test]
fn a_marker_written_after_the_last_redrive_stays_opaque() {
    let superseded_child = ExecutionId(fresh());
    let latest_child = ExecutionId(fresh());
    let events = vec![
        WorkflowEvent::WorkflowStarted {
            input: Value::Null,
            timestamp: now(),
            last_completion_result: None,
            last_error: None,
            scheduled_time: None,
        },
        WorkflowEvent::ChildWorkflowStarted {
            child_id: superseded_child,
            workflow_name: "worker_child".into(),
            input: Value::Null,
        },
        WorkflowEvent::ChildWorkflowFailed {
            child_id: superseded_child,
            error: ABANDONED_DISPATCH_REASON.to_string(),
            error_type: None,
            details: None,
            non_retryable: Some(true),
        },
        WorkflowEvent::MarkerRecorded {
            name: "m".into(),
            details: Value::Null,
        },
        workflow_failed("budget exceeded"),
        WorkflowEvent::WorkflowRedriven {
            redriven_at: now(),
            dead_letter_id: fresh(),
            reason: None,
        },
        WorkflowEvent::ChildWorkflowStarted {
            child_id: latest_child,
            workflow_name: "worker_child".into(),
            input: Value::Null,
        },
        WorkflowEvent::ChildWorkflowFailed {
            child_id: latest_child,
            error: ABANDONED_DISPATCH_REASON.to_string(),
            error_type: None,
            details: None,
            non_retryable: Some(true),
        },
        WorkflowEvent::MarkerRecorded {
            name: "m2".into(),
            details: Value::Null,
        },
        workflow_failed("budget exceeded"),
    ];
    let matcher = HistoryMatcher::new(events);
    for idx in [1_usize, 2, 3] {
        assert!(
            matcher.is_consumed(idx),
            "event {idx} preceded the redrive, so it must be transparent"
        );
    }
    for idx in [6_usize, 7, 8] {
        assert!(
            !matcher.is_consumed(idx),
            "event {idx} was written by the cycle that failed AFTER the \
             redrive, so it must stay positionally matchable"
        );
    }
}

#[test]
fn timer_and_detached_spawn_records_after_an_abandoned_dispatch_are_swallowed() {
    let child_id = ExecutionId(fresh());
    let detached_child_id = ExecutionId(fresh());
    let events = vec![
        WorkflowEvent::WorkflowStarted {
            input: Value::Null,
            timestamp: now(),
            last_completion_result: None,
            last_error: None,
            scheduled_time: None,
        },
        WorkflowEvent::ChildWorkflowStarted {
            child_id,
            workflow_name: "worker_child".into(),
            input: Value::Null,
        },
        WorkflowEvent::ChildWorkflowFailed {
            child_id,
            error: ABANDONED_DISPATCH_REASON.to_string(),
            error_type: None,
            details: None,
            non_retryable: Some(true),
        },
        WorkflowEvent::TimerStarted {
            timer_id: TimerId::new("cooldown"),
            duration_secs: 30,
        },
        WorkflowEvent::TimerCancelled {
            timer_id: TimerId::new("cooldown"),
        },
        WorkflowEvent::ChildWorkflowSpawnedDetached {
            child_id: detached_child_id,
            workflow_name: "fire_and_forget".into(),
            input: Value::Null,
            parent_close_policy: ParentClosePolicy::Abandon,
        },
        workflow_failed("budget exceeded"),
        WorkflowEvent::WorkflowRedriven {
            redriven_at: now(),
            dead_letter_id: fresh(),
            reason: None,
        },
    ];
    let mut matcher = HistoryMatcher::new(events);
    for idx in 1..=6 {
        assert!(
            matcher.is_consumed(idx),
            "event {idx} must be transparent: a timer/detached-spawn tail"
        );
    }
    matcher.advance();
    assert_eq!(
        matcher.match_child_workflow("worker_child", &Value::Null),
        HistoryMatch::NoMatch,
        "a trailing timer/detached-spawn run must not block re-dispatch"
    );
}

#[test]
fn abandoned_records_written_after_the_last_redrive_stay_opaque() {
    let superseded_child = ExecutionId(fresh());
    let latest_child = ExecutionId(fresh());
    let events = vec![
        WorkflowEvent::WorkflowStarted {
            input: Value::Null,
            timestamp: now(),
            last_completion_result: None,
            last_error: None,
            scheduled_time: None,
        },
        WorkflowEvent::ChildWorkflowStarted {
            child_id: superseded_child,
            workflow_name: "worker_child".into(),
            input: Value::Null,
        },
        WorkflowEvent::ChildWorkflowFailed {
            child_id: superseded_child,
            error: ABANDONED_DISPATCH_REASON.to_string(),
            error_type: None,
            details: None,
            non_retryable: Some(true),
        },
        workflow_failed("budget exceeded"),
        WorkflowEvent::WorkflowRedriven {
            redriven_at: now(),
            dead_letter_id: fresh(),
            reason: None,
        },
        WorkflowEvent::ChildWorkflowStarted {
            child_id: latest_child,
            workflow_name: "worker_child".into(),
            input: Value::Null,
        },
        WorkflowEvent::ChildWorkflowFailed {
            child_id: latest_child,
            error: ABANDONED_DISPATCH_REASON.to_string(),
            error_type: None,
            details: None,
            non_retryable: Some(true),
        },
        workflow_failed("budget exceeded"),
    ];
    let mut matcher = HistoryMatcher::new(events);
    for idx in [1_usize, 2] {
        assert!(
            matcher.is_consumed(idx),
            "event {idx} preceded the redrive, so it must be transparent"
        );
    }
    for idx in [5_usize, 6] {
        assert!(
            !matcher.is_consumed(idx),
            "event {idx} was written by the cycle that failed AFTER the \
             redrive, so it must stay positionally matchable"
        );
    }
    matcher.advance();
    assert!(
        matches!(
            matcher.match_child_workflow("worker_child", &Value::Null),
            HistoryMatch::Failed { ref error, .. } if error == ABANDONED_DISPATCH_REASON
        ),
        "the re-dispatched child must resolve from its own synthetic terminal"
    );
}

#[test]
fn a_genuine_activity_failure_quoting_the_reason_is_not_an_abandoned_record() {
    let engine_written = ActivityExecId(fresh());
    let author_written = ActivityExecId(fresh());
    let events = vec![
        WorkflowEvent::WorkflowStarted {
            input: Value::Null,
            timestamp: now(),
            last_completion_result: None,
            last_error: None,
            scheduled_time: None,
        },
        WorkflowEvent::ActivityScheduled {
            activity_id: author_written,
            name: "charge".into(),
            input: Value::Null,
            queue: "default".into(),
        },
        WorkflowEvent::ActivityFailed {
            activity_id: author_written,
            error: ABANDONED_DISPATCH_REASON.to_string(),
            attempt: 2,
            error_type: "Error".into(),
            details: Some(obj(vec![("code", Value::from(42))])),
            non_retryable: false,
        },
        WorkflowEvent::ActivityScheduled {
            activity_id: engine_written,
            name: "refund".into(),
            input: Value::Null,
            queue: "default".into(),
        },
        WorkflowEvent::ActivityFailed {
            activity_id: engine_written,
            error: ABANDONED_DISPATCH_REASON.to_string(),
            attempt: 1,
            error_type: "Error".into(),
            details: None,
            non_retryable: true,
        },
        workflow_failed("budget exceeded"),
        WorkflowEvent::WorkflowRedriven {
            redriven_at: now(),
            dead_letter_id: fresh(),
            reason: None,
        },
    ];
    let matcher = HistoryMatcher::new(events);
    for idx in [1_usize, 2] {
        assert!(
            !matcher.is_consumed(idx),
            "event {idx} is a genuine activity failure and must stay matchable"
        );
    }
    for idx in [3_usize, 4] {
        assert!(
            matcher.is_consumed(idx),
            "event {idx} carries the engine's exact abandoned shape, so a redrive \
             must make it transparent"
        );
    }
}

#[test]
fn a_genuine_activity_failure_with_an_intervening_started_is_not_an_abandoned_record() {
    let activity_id = ActivityExecId(fresh());
    let events = vec![
        WorkflowEvent::WorkflowStarted {
            input: Value::Null,
            timestamp: now(),
            last_completion_result: None,
            last_error: None,
            scheduled_time: None,
        },
        WorkflowEvent::ActivityScheduled {
            activity_id,
            name: "charge".into(),
            input: Value::Null,
            queue: "default".into(),
        },
        WorkflowEvent::ActivityStarted {
            activity_id,
            worker_id: WorkerId::new("worker-1"),
        },
        WorkflowEvent::ActivityFailed {
            activity_id,
            error: ABANDONED_DISPATCH_REASON.to_string(),
            attempt: 1,
            error_type: "Error".into(),
            details: None,
            non_retryable: true,
        },
        workflow_failed("budget exceeded"),
        WorkflowEvent::WorkflowRedriven {
            redriven_at: now(),
            dead_letter_id: fresh(),
            reason: None,
        },
    ];
    let matcher = HistoryMatcher::new(events);
    for idx in [1_usize, 2, 3] {
        assert!(
            !matcher.is_consumed(idx),
            "event {idx} is a genuine activity failure and must stay matchable"
        );
    }
}

#[test]
fn a_later_genuine_activity_does_not_mask_an_earlier_synthetic_pair() {
    let synthetic_activity = ActivityExecId(fresh());
    let genuine_activity = ActivityExecId(fresh());
    let events = vec![
        WorkflowEvent::WorkflowStarted {
            input: Value::Null,
            timestamp: now(),
            last_completion_result: None,
            last_error: None,
            scheduled_time: None,
        },
        WorkflowEvent::ActivityScheduled {
            activity_id: synthetic_activity,
            name: "charge".into(),
            input: Value::Null,
            queue: "default".into(),
        },
        WorkflowEvent::ActivityFailed {
            activity_id: synthetic_activity,
            error: ABANDONED_DISPATCH_REASON.to_string(),
            attempt: 1,
            error_type: "Error".into(),
            details: None,
            non_retryable: true,
        },
        workflow_failed("budget exceeded"),
        WorkflowEvent::WorkflowRedriven {
            redriven_at: now(),
            dead_letter_id: fresh(),
            reason: None,
        },
        WorkflowEvent::ActivityScheduled {
            activity_id: genuine_activity,
            name: "refund".into(),
            input: Value::Null,
            queue: "default".into(),
        },
        WorkflowEvent::ActivityStarted {
            activity_id: genuine_activity,
            worker_id: WorkerId::new("worker-1"),
        },
        WorkflowEvent::ActivityFailed {
            activity_id: genuine_activity,
            error: ABANDONED_DISPATCH_REASON.to_string(),
            attempt: 1,
            error_type: "Error".into(),
            details: None,
            non_retryable: true,
        },
        workflow_failed("budget exceeded"),
        WorkflowEvent::WorkflowRedriven {
            redriven_at: now(),
            dead_letter_id: fresh(),
            reason: None,
        },
    ];
    let matcher = HistoryMatcher::new(events);
    for idx in [1_usize, 2] {
        assert!(
            matcher.is_consumed(idx),
            "event {idx} is the pre-redrive synthetic pair and must stay transparent"
        );
    }
    for idx in [5_usize, 6, 7] {
        assert!(
            !matcher.is_consumed(idx),
            "event {idx} is a genuine activity failure and must stay matchable"
        );
    }
}

#[test]
fn abandoned_dispatch_records_stay_opaque_without_a_redrive() {
    let child_id = ExecutionId(fresh());
    let events = vec![
        WorkflowEvent::WorkflowStarted {
            input: Value::Null,
            timestamp: now(),
            last_completion_result: None,
            last_error: None,
            scheduled_time: None,
        },
        WorkflowEvent::ChildWorkflowStarted {
            child_id,
            workflow_name: "worker_child".into(),
            input: Value::Null,
        },
        WorkflowEvent::ChildWorkflowFailed {
            child_id,
            error: ABANDONED_DISPATCH_REASON.to_string(),
            error_type: None,
            details: None,
            non_retryable: Some(true),
        },
        workflow_failed("budget exceeded"),
    ];
    let mut matcher = HistoryMatcher::new(events);
    assert!(!matcher.is_consumed(1) && !matcher.is_consumed(2));
    matcher.advance();
    assert!(
        matches!(
            matcher.match_child_workflow("worker_child", &Value::Null),
            HistoryMatch::Failed { .. }
        ),
        "the failing cycle's own replay resolves the branch from its record"
    );
}

#[test]
fn a_redrive_after_a_workflow_retry_still_supersedes_the_terminal() {
    let events = vec![
        WorkflowEvent::WorkflowStarted {
            input: Value::Null,
            timestamp: now(),
            last_completion_result: None,
            last_error: None,
            scheduled_time: None,
        },
        workflow_failed("boom"),
        WorkflowEvent::WorkflowRetryScheduled {
            retry_exec_id: ExecutionId(fresh()),
            attempt: 2,
            fire_at: now(),
        },
        WorkflowEvent::WorkflowRedriven {
            redriven_at: now(),
            dead_letter_id: fresh(),
            reason: None,
        },
    ];
    let matcher = HistoryMatcher::new(events);
    assert!(
        matcher.is_consumed(1),
        "the superseded terminal must be transparent even behind a retry record"
    );
}

#[test]
fn a_retry_then_redrive_with_no_dispatch_still_re_dispatches_live() {
    let events = vec![
        WorkflowEvent::WorkflowStarted {
            input: Value::Null,
            timestamp: now(),
            last_completion_result: None,
            last_error: None,
            scheduled_time: None,
        },
        workflow_failed("boom"),
        WorkflowEvent::WorkflowRetryScheduled {
            retry_exec_id: ExecutionId(fresh()),
            attempt: 2,
            fire_at: now(),
        },
        WorkflowEvent::WorkflowRedriven {
            redriven_at: now(),
            dead_letter_id: fresh(),
            reason: None,
        },
    ];
    let mut matcher = HistoryMatcher::new(events);
    assert!(
        matcher.is_consumed(2),
        "post-terminal bookkeeping must be transparent on its own"
    );
    matcher.advance();
    assert_eq!(
        matcher.match_activity("charge"),
        HistoryMatch::NoMatch,
        "a retry record between the terminal and the redrive must not block re-dispatch"
    );
}

#[test]
fn a_marker_behind_retry_bookkeeping_still_re_dispatches_live() {
    let child_id = ExecutionId(fresh());
    let events = vec![
        WorkflowEvent::WorkflowStarted {
            input: Value::Null,
            timestamp: now(),
            last_completion_result: None,
            last_error: None,
            scheduled_time: None,
        },
        WorkflowEvent::ChildWorkflowStarted {
            child_id,
            workflow_name: "worker_child".into(),
            input: Value::Null,
        },
        WorkflowEvent::ChildWorkflowFailed {
            child_id,
            error: ABANDONED_DISPATCH_REASON.to_string(),
            error_type: None,
            details: None,
            non_retryable: Some(true),
        },
        WorkflowEvent::MarkerRecorded {
            name: "m".into(),
            details: Value::Null,
        },
        workflow_failed("budget exceeded"),
        WorkflowEvent::WorkflowRetryScheduled {
            retry_exec_id: ExecutionId(fresh()),
            attempt: 2,
            fire_at: now(),
        },
        WorkflowEvent::WorkflowRedriven {
            redriven_at: now(),
            dead_letter_id: fresh(),
            reason: None,
        },
    ];
    let mut matcher = HistoryMatcher::new(events);
    for idx in 1..=5 {
        assert!(
            matcher.is_consumed(idx),
            "event {idx} must be transparent behind the retry bookkeeping too"
        );
    }
    matcher.advance();
    assert_eq!(
        matcher.match_child_workflow("worker_child", &Value::Null),
        HistoryMatch::NoMatch,
        "retry bookkeeping must not stop the walk before it reaches the marker"
    );
}

#[test]
fn failing_frontier_requires_every_pre_terminal_event_consumed() {
    let activity_id = ActivityExecId(fresh());
    let events = vec![
        WorkflowEvent::WorkflowStarted {
            input: Value::Null,
            timestamp: now(),
            last_completion_result: None,
            last_error: None,
            scheduled_time: None,
        },
        WorkflowEvent::ActivityScheduled {
            activity_id,
            name: "charge".into(),
            input: Value::Null,
            queue: "default".into(),
        },
        WorkflowEvent::ActivityCompleted {
            activity_id,
            output: Value::Null,
        },
        workflow_failed("boom"),
    ];
    let mut matcher = HistoryMatcher::new(events);
    matcher.advance();
    assert!(
        !matcher.at_terminal_failure_frontier(),
        "the recorded activity is still unconsumed — not at the frontier"
    );
    assert!(matches!(
        matcher.match_activity("charge"),
        HistoryMatch::Matched { .. }
    ));
    assert!(
        matcher.at_terminal_failure_frontier(),
        "with the activity consumed the cursor sits in the transparent tail"
    );
}

#[test]
fn command_dispatch_past_redriven_tail_is_live_not_diverged() {
    let events = vec![
        WorkflowEvent::WorkflowStarted {
            input: Value::Null,
            timestamp: now(),
            last_completion_result: None,
            last_error: None,
            scheduled_time: None,
        },
        workflow_failed("boom"),
        WorkflowEvent::WorkflowRedriven {
            redriven_at: now(),
            dead_letter_id: fresh(),
            reason: None,
        },
    ];
    let mut matcher = HistoryMatcher::new(events);
    matcher.advance();
    assert_eq!(
        matcher.match_activity("retry_me"),
        HistoryMatch::NoMatch,
        "a command re-issued past the redriven tail must execute live"
    );
}
