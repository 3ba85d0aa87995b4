//! Activities, local activities and the cursor.
use harvest_replay::event::WorkflowEvent;
use harvest_replay::matcher::HistoryMatcher;
use harvest_replay::outcome::HistoryMatch;
use harvest_replay::types::{ActivityExecId, ExecutionId, ExternalActivityToken, ParentClosePolicy, TimeoutType, TimerId, Timestamp, WorkerId};
use serde_json::Value;

fn fresh() -> u128 {
    uuid::Uuid::new_v4().as_u128()
}

fn now() -> Timestamp {
    let t = chrono::Utc::now();
    Timestamp {
        secs: t.timestamp(),
        nanos: t.timestamp_subsec_nanos(),
    }
}

fn obj(members: Vec<(&str, Value)>) -> Value {
    let mut map = serde_json::Map::new();
    for (key, value) in members {
        map.insert(key.to_string(), value);
    }
    Value::Object(map)
}

fn activity_completed_events(
    name: &str,
    output: Value,
) -> (ActivityExecId, Vec<WorkflowEvent>) {
    let id = ActivityExecId(fresh());
    let events = vec![
        WorkflowEvent::ActivityScheduled {
            activity_id: id,
            name: name.into(),
            input: Value::Null,
            queue: "default".into(),
        },
        WorkflowEvent::ActivityCompleted {
            activity_id: id,
            output,
        },
    ];
    (id, events)
}

fn activity_failed_events(
    name: &str,
    error: &str,
    attempt: u32,
) -> (ActivityExecId, Vec<WorkflowEvent>) {
    let id = ActivityExecId(fresh());
    let events = vec![
        WorkflowEvent::ActivityScheduled {
            activity_id: id,
            name: name.into(),
            input: Value::Null,
            queue: "default".into(),
        },
        WorkflowEvent::ActivityFailed {
            activity_id: id,
            error: error.into(),
            attempt,
            error_type: "Error".into(),
            non_retryable: false,
            details: None,
        },
    ];
    (id, events)
}

#[test]
fn matcher_replays_completed_activity() {
    let output = obj(vec![("email_id", Value::from("msg-001"))]);
    let (_id, events) = activity_completed_events("send_email", output.clone());

    let mut matcher = HistoryMatcher::new(events);
    assert!(matcher.is_replaying());
    assert_eq!(matcher.position(), 0);

    let result = matcher.match_activity("send_email");
    assert_eq!(result, HistoryMatch::Matched { output });
    assert_eq!(matcher.position(), 2);
    assert!(!matcher.is_replaying());
}

#[test]
fn matcher_replays_failed_activity() {
    let (_id, events) = activity_failed_events("send_email", "SMTP connection refused", 3);

    let mut matcher = HistoryMatcher::new(events);
    let result = matcher.match_activity("send_email");
    assert_eq!(
        result,
        HistoryMatch::Failed {
            error: "SMTP connection refused".into(),
            attempt: 3,
            error_type: "Error".into(),
            details: None,
            non_retryable: false,
        }
    );
}

#[test]
fn matcher_replays_timed_out_activity() {
    let activity_id = ActivityExecId(fresh());
    let events = vec![
        WorkflowEvent::ActivityScheduled {
            activity_id,
            name: "send_email".into(),
            input: Value::Null,
            queue: "default".into(),
        },
        WorkflowEvent::ActivityTimedOut {
            activity_id,
            timeout_type: TimeoutType::Heartbeat,
        },
    ];

    let mut matcher = HistoryMatcher::new(events);
    let result = matcher.match_activity("send_email");
    assert_eq!(
        result,
        HistoryMatch::TimedOut {
            timeout_type: TimeoutType::Heartbeat,
        }
    );
}

#[test]
fn matcher_returns_no_match_at_end_of_history() {
    let mut matcher = HistoryMatcher::new(vec![]);
    assert!(!matcher.is_replaying());
    assert_eq!(matcher.position(), 0);

    let result = matcher.match_activity("send_email");
    assert_eq!(result, HistoryMatch::NoMatch);
}

#[test]
fn matcher_detects_non_determinism_wrong_event_type() {
    let events = vec![WorkflowEvent::TimerStarted {
        timer_id: TimerId::new("t1"),
        duration_secs: 60,
    }];

    let mut matcher = HistoryMatcher::new(events);
    let result = matcher.match_activity("send_email");
    assert!(matches!(result, HistoryMatch::Diverged { .. }));

    if let HistoryMatch::Diverged {
        expected, actual, ..
    } = result
    {
        assert!(expected.contains("send_email"));
        assert!(actual.contains("TimerStarted"));
    }
}

#[test]
fn matcher_detects_non_determinism_wrong_activity_name() {
    let id = ActivityExecId(fresh());
    let events = vec![WorkflowEvent::ActivityScheduled {
        activity_id: id,
        name: "charge_payment".into(),
        input: Value::Null,
        queue: "default".into(),
    }];

    let mut matcher = HistoryMatcher::new(events);
    let result = matcher.match_activity("send_email");

    assert!(matches!(result, HistoryMatch::Diverged { .. }));
    if let HistoryMatch::Diverged {
        expected, actual, ..
    } = result
    {
        assert!(expected.contains("send_email"));
        assert!(actual.contains("charge_payment"));
    }
}

#[test]
fn matcher_skips_heartbeats_during_replay() {
    let id = ActivityExecId(fresh());
    let output = obj(vec![("rows", Value::from(1000))]);

    let events = vec![
        WorkflowEvent::ActivityScheduled {
            activity_id: id,
            name: "import_data".into(),
            input: Value::Null,
            queue: "default".into(),
        },
        WorkflowEvent::ActivityStarted {
            activity_id: id,
            worker_id: WorkerId::new("worker-1"),
        },
        WorkflowEvent::ActivityHeartbeat {
            activity_id: id,
            details: obj(vec![("progress", Value::from(25))]),
        },
        WorkflowEvent::ActivityHeartbeat {
            activity_id: id,
            details: obj(vec![("progress", Value::from(50))]),
        },
        WorkflowEvent::ActivityHeartbeat {
            activity_id: id,
            details: obj(vec![("progress", Value::from(75))]),
        },
        WorkflowEvent::ActivityCompleted {
            activity_id: id,
            output: output.clone(),
        },
    ];

    let mut matcher = HistoryMatcher::new(events);
    let result = matcher.match_activity("import_data");
    assert_eq!(result, HistoryMatch::Matched { output });
    assert_eq!(matcher.position(), 6);
    assert!(!matcher.is_replaying());
}

#[test]
fn matcher_activity_scan_skips_consumed_interleaved_child_terminal() {
    let child_id = ExecutionId(fresh());
    let activity_id = ActivityExecId(fresh());
    let events = vec![
        WorkflowEvent::ChildWorkflowStarted {
            child_id,
            workflow_name: "process_order".into(),
            input: obj(vec![("id", Value::from("A"))]),
        },
        WorkflowEvent::ActivityScheduled {
            activity_id,
            name: "send_email".into(),
            input: obj(vec![("id", Value::from("A"))]),
            queue: "default".into(),
        },
        WorkflowEvent::ChildWorkflowCompleted {
            child_id,
            output: obj(vec![("id", Value::from("A")), ("ok", Value::from(true))]),
        },
        WorkflowEvent::ActivityCompleted {
            activity_id,
            output: obj(vec![("sent", Value::from(true))]),
        },
    ];

    let mut matcher = HistoryMatcher::new(events);
    let child = matcher.match_child_workflow("process_order", &obj(vec![("id", Value::from("A"))]));
    assert!(matches!(child, HistoryMatch::Matched { .. }));
    assert_eq!(matcher.position(), 1);

    let activity = matcher.match_activity("send_email");
    assert_eq!(
        activity,
        HistoryMatch::Matched {
            output: obj(vec![("sent", Value::from(true))]),
        }
    );
    assert_eq!(matcher.position(), 4);
}

#[test]
fn matcher_activity_scan_skips_interleaved_child_start() {
    let child_id = ExecutionId(fresh());
    let activity_id = ActivityExecId(fresh());
    let events = vec![
        WorkflowEvent::ActivityScheduled {
            activity_id,
            name: "send_email".into(),
            input: obj(vec![("id", Value::from("A"))]),
            queue: "default".into(),
        },
        WorkflowEvent::ChildWorkflowStarted {
            child_id,
            workflow_name: "process_order".into(),
            input: obj(vec![("id", Value::from("A"))]),
        },
        WorkflowEvent::ActivityCompleted {
            activity_id,
            output: obj(vec![("sent", Value::from(true))]),
        },
    ];

    let mut matcher = HistoryMatcher::new(events);
    let activity = matcher.match_activity("send_email");
    assert_eq!(
        activity,
        HistoryMatch::Matched {
            output: obj(vec![("sent", Value::from(true))]),
        }
    );
    assert_eq!(matcher.position(), 1);
}

#[test]
fn advance_skips_current_event() {
    let events = vec![
        WorkflowEvent::WorkflowStarted {
            input: Value::Null,
            timestamp: now(),
            last_completion_result: None,
            last_error: None,
            scheduled_time: None,
        },
        WorkflowEvent::WorkflowCompleted {
            output: obj(vec![("done", Value::from(true))]),
        },
    ];

    let mut matcher = HistoryMatcher::new(events);
    assert_eq!(matcher.position(), 0);

    matcher.advance();
    assert_eq!(matcher.position(), 1);

    matcher.advance();
    assert_eq!(matcher.position(), 2);
    assert!(!matcher.is_replaying());

    matcher.advance();
    assert_eq!(matcher.position(), 2);
}

#[test]
fn matcher_replays_multiple_activities_in_sequence() {
    let id1 = ActivityExecId(fresh());
    let id2 = ActivityExecId(fresh());
    let output1 = obj(vec![("email_id", Value::from("msg-001"))]);
    let output2 = obj(vec![("charge_id", Value::from("ch-999"))]);

    let events = vec![
        WorkflowEvent::ActivityScheduled {
            activity_id: id1,
            name: "send_email".into(),
            input: Value::Null,
            queue: "default".into(),
        },
        WorkflowEvent::ActivityCompleted {
            activity_id: id1,
            output: output1.clone(),
        },
        WorkflowEvent::ActivityScheduled {
            activity_id: id2,
            name: "charge_payment".into(),
            input: Value::Null,
            queue: "billing".into(),
        },
        WorkflowEvent::ActivityCompleted {
            activity_id: id2,
            output: output2.clone(),
        },
    ];

    let mut matcher = HistoryMatcher::new(events);

    let r1 = matcher.match_activity("send_email");
    assert_eq!(r1, HistoryMatch::Matched { output: output1 });

    let r2 = matcher.match_activity("charge_payment");
    assert_eq!(r2, HistoryMatch::Matched { output: output2 });

    assert!(!matcher.is_replaying());
}

#[test]
fn matcher_rewinds_to_later_sibling_when_earlier_activity_is_in_progress() {
    let earlier_id = ActivityExecId(fresh());
    let later_id = ActivityExecId(fresh());
    let later_output = obj(vec![("done", Value::from("later"))]);

    let events = vec![
        WorkflowEvent::ActivityScheduled {
            activity_id: earlier_id,
            name: "slow_task".into(),
            input: Value::Null,
            queue: "default".into(),
        },
        WorkflowEvent::ActivityStarted {
            activity_id: earlier_id,
            worker_id: WorkerId::new("worker-a"),
        },
        WorkflowEvent::ActivityScheduled {
            activity_id: later_id,
            name: "fast_task".into(),
            input: Value::Null,
            queue: "default".into(),
        },
        WorkflowEvent::ActivityCompleted {
            activity_id: later_id,
            output: later_output.clone(),
        },
    ];
    let mut matcher = HistoryMatcher::new(events);

    assert_eq!(
        matcher.match_activity("slow_task"),
        HistoryMatch::ActivityInProgress {
            activity_id: earlier_id
        }
    );
    assert_eq!(
        matcher.position(),
        2,
        "in-progress replay must rewind to the first interleaved sibling command"
    );

    assert_eq!(
        matcher.match_activity("fast_task"),
        HistoryMatch::Matched {
            output: later_output
        }
    );
    assert!(!matcher.is_replaying());
}

#[test]
fn matcher_treats_reset_fork_marker_as_informational() {
    let activity_id = ActivityExecId(fresh());
    let output = obj(vec![("ok", Value::from(true))]);
    let events = vec![
        WorkflowEvent::WorkflowResetFork {
            reset_from_exec_id: ExecutionId(fresh()),
            reset_to_event_id: 0,
            reason: "bad deploy".into(),
            operator_id: "oncall".into(),
        },
        WorkflowEvent::ActivityScheduled {
            activity_id,
            name: "resume_work".into(),
            input: Value::Null,
            queue: "default".into(),
        },
        WorkflowEvent::ActivityCompleted {
            activity_id,
            output: output.clone(),
        },
    ];
    let mut matcher = HistoryMatcher::new(events);

    let result = matcher.match_activity("resume_work");
    assert_eq!(result, HistoryMatch::Matched { output });
    assert!(!matcher.is_replaying());
}

#[test]
fn matcher_activity_skips_signal_ingested_before_activity_scheduled() {
    let activity_id = ActivityExecId(fresh());
    let output = obj(vec![("email_id", Value::from("msg-001"))]);
    let events = vec![
        WorkflowEvent::SignalReceived {
            signal_name: "approved".into(),
            payload: obj(vec![("ok", Value::from(true))]),
        },
        WorkflowEvent::ActivityScheduled {
            activity_id,
            name: "send_email".into(),
            input: Value::Null,
            queue: "default".into(),
        },
        WorkflowEvent::ActivityCompleted {
            activity_id,
            output: output.clone(),
        },
    ];
    let mut matcher = HistoryMatcher::new(events);

    let activity = matcher.match_activity("send_email");
    assert_eq!(
        activity,
        HistoryMatch::Matched { output },
        "match_activity should skip the early signal and replay the activity"
    );

    let signal = matcher.match_signal("approved");
    assert_eq!(
        signal,
        HistoryMatch::Matched {
            output: obj(vec![("ok", Value::from(true))])
        },
        "signal buffered during match_activity should be returned by match_signal"
    );
}

#[test]
fn matcher_pause_resume_are_not_unconsumed_history() {
    let events = vec![
        WorkflowEvent::WorkflowStarted {
            input: Value::Null,
            timestamp: now(),
            last_completion_result: None,
            last_error: None,
            scheduled_time: None,
        },
        WorkflowEvent::WorkflowExecutionPaused {
            paused_at: now(),
            reason: None,
            actor: "oncall".into(),
        },
        WorkflowEvent::WorkflowExecutionResumed {
            resumed_at: now(),
            actor: "oncall".into(),
        },
    ];
    let mut matcher = HistoryMatcher::new(events);
    matcher.advance();
    assert!(
        !matcher.has_non_lifecycle_unconsumed(),
        "pause/resume events must be transparent to unconsumed-history checks"
    );
}

#[test]
fn matcher_activity_skips_pause_resume_between_scheduled_and_completed() {
    let activity_id = ActivityExecId(fresh());
    let events = vec![
        WorkflowEvent::ActivityScheduled {
            activity_id,
            name: "charge".into(),
            input: Value::Null,
            queue: "default".into(),
        },
        WorkflowEvent::WorkflowExecutionPaused {
            paused_at: now(),
            reason: None,
            actor: "oncall".into(),
        },
        WorkflowEvent::WorkflowExecutionResumed {
            resumed_at: now(),
            actor: "oncall".into(),
        },
        WorkflowEvent::ActivityCompleted {
            activity_id,
            output: obj(vec![("charged", Value::from(true))]),
        },
    ];
    let mut matcher = HistoryMatcher::new(events);
    let result = matcher.match_activity("charge");
    assert_eq!(
        result,
        HistoryMatch::Matched {
            output: obj(vec![("charged", Value::from(true))])
        },
        "match_activity must skip pause/resume and find the recorded completion"
    );
}

#[test]
fn matcher_replays_completed_local_activity() {
    let id = ActivityExecId(fresh());
    let output = obj(vec![("formatted", Value::from("hello"))]);
    let events = vec![
        WorkflowEvent::LocalActivityScheduled {
            activity_id: id,
            name: "format_data".into(),
            input: Value::Null,
            retry_policy: None,
            resolved: false,
            start_to_close_nanos: None,
        },
        WorkflowEvent::LocalActivityCompleted {
            activity_id: id,
            output: output.clone(),
        },
    ];
    let mut matcher = HistoryMatcher::new(events);
    let result = matcher.match_local_activity("format_data");
    assert_eq!(result, HistoryMatch::Matched { output });
    assert_eq!(matcher.position(), 2);
    assert!(!matcher.is_replaying());
}

#[test]
fn matcher_local_activity_with_recorded_failures_returns_in_progress() {
    let id = ActivityExecId(fresh());
    let events = vec![
        WorkflowEvent::LocalActivityScheduled {
            activity_id: id,
            name: "format_data".into(),
            input: Value::Null,
            retry_policy: None,
            resolved: false,
            start_to_close_nanos: None,
        },
        WorkflowEvent::LocalActivityFailed {
            activity_id: id,
            error: "transient".into(),
            attempt: 1,
        },
        WorkflowEvent::LocalActivityFailed {
            activity_id: id,
            error: "still failing".into(),
            attempt: 2,
        },
    ];
    let mut matcher = HistoryMatcher::new(events);
    let result = matcher.match_local_activity("format_data");
    assert!(
        matches!(
            &result,
            HistoryMatch::LocalActivityInProgress {
                activity_id: rid,
                failed_attempts: 2,
                last_error: Some(e),
            } if *rid == id && e == "still failing"
        ),
        "expected LocalActivityInProgress with 2 failed attempts, got {result:?}"
    );
}

#[test]
fn matcher_local_activity_exhausted_event_returns_failed() {
    let id = ActivityExecId(fresh());
    let events = vec![
        WorkflowEvent::LocalActivityScheduled {
            activity_id: id,
            name: "format_data".into(),
            input: Value::Null,
            retry_policy: None,
            resolved: false,
            start_to_close_nanos: None,
        },
        WorkflowEvent::LocalActivityFailed {
            activity_id: id,
            error: "transient".into(),
            attempt: 1,
        },
        WorkflowEvent::LocalActivityExhausted {
            activity_id: id,
            error: "transient".into(),
            attempt: 1,
        },
    ];
    let mut matcher = HistoryMatcher::new(events);
    let result = matcher.match_local_activity("format_data");
    assert_eq!(
        result,
        HistoryMatch::Failed {
            error: "transient".into(),
            attempt: 1,
            error_type: "Error".into(),
            details: None,
            non_retryable: false,
        }
    );
}

#[test]
fn matcher_local_activity_skips_intermediate_failures_and_returns_completion() {
    let id = ActivityExecId(fresh());
    let output = obj(vec![("ok", Value::from(true))]);
    let events = vec![
        WorkflowEvent::LocalActivityScheduled {
            activity_id: id,
            name: "format_data".into(),
            input: Value::Null,
            retry_policy: None,
            resolved: false,
            start_to_close_nanos: None,
        },
        WorkflowEvent::LocalActivityFailed {
            activity_id: id,
            error: "transient".into(),
            attempt: 1,
        },
        WorkflowEvent::LocalActivityFailed {
            activity_id: id,
            error: "still transient".into(),
            attempt: 2,
        },
        WorkflowEvent::LocalActivityCompleted {
            activity_id: id,
            output: output.clone(),
        },
    ];
    let mut matcher = HistoryMatcher::new(events);
    let result = matcher.match_local_activity("format_data");
    assert_eq!(result, HistoryMatch::Matched { output });
    assert_eq!(matcher.position(), 4);
}

#[test]
fn matcher_local_activity_no_match_at_end_of_history() {
    let mut matcher = HistoryMatcher::new(vec![]);
    let result = matcher.match_local_activity("format_data");
    assert_eq!(result, HistoryMatch::NoMatch);
}

#[test]
fn matcher_local_activity_detects_divergence_wrong_event_type() {
    let timer_id = TimerId::new("t1");
    let events = vec![WorkflowEvent::TimerStarted {
        timer_id,
        duration_secs: 10,
    }];
    let mut matcher = HistoryMatcher::new(events);
    let result = matcher.match_local_activity("format_data");
    assert!(matches!(result, HistoryMatch::Diverged { .. }));
    if let HistoryMatch::Diverged {
        expected, actual, ..
    } = result
    {
        assert!(expected.contains("format_data"));
        assert!(actual.contains("TimerStarted"));
    }
}

#[test]
fn matcher_local_activity_detects_divergence_wrong_name() {
    let id = ActivityExecId(fresh());
    let events = vec![WorkflowEvent::LocalActivityScheduled {
        activity_id: id,
        name: "other_activity".into(),
        input: Value::Null,
        retry_policy: None,
        resolved: false,
        start_to_close_nanos: None,
    }];
    let mut matcher = HistoryMatcher::new(events);
    let result = matcher.match_local_activity("format_data");
    assert!(matches!(result, HistoryMatch::Diverged { .. }));
    if let HistoryMatch::Diverged {
        expected, actual, ..
    } = result
    {
        assert!(expected.contains("format_data"));
        assert!(actual.contains("other_activity"));
    }
}

#[test]
fn matcher_local_activity_stashes_signals_during_retry_scan() {
    let id = ActivityExecId(fresh());
    let output = obj(vec![("ok", Value::from(true))]);
    let events = vec![
        WorkflowEvent::LocalActivityScheduled {
            activity_id: id,
            name: "format_data".into(),
            input: Value::Null,
            retry_policy: None,
            resolved: false,
            start_to_close_nanos: None,
        },
        WorkflowEvent::LocalActivityFailed {
            activity_id: id,
            error: "transient".into(),
            attempt: 1,
        },
        WorkflowEvent::SignalReceived {
            signal_name: "abort".into(),
            payload: obj(vec![("reason", Value::from("user"))]),
        },
        WorkflowEvent::LocalActivityCompleted {
            activity_id: id,
            output: output.clone(),
        },
    ];
    let mut matcher = HistoryMatcher::new(events);
    let result = matcher.match_local_activity("format_data");
    assert_eq!(result, HistoryMatch::Matched { output });

    let signal = matcher.match_signal("abort");
    assert_eq!(
        signal,
        HistoryMatch::Matched {
            output: obj(vec![("reason", Value::from("user"))])
        }
    );
}

#[test]
fn matcher_replays_sequential_local_and_regular_activities() {
    let local_id = ActivityExecId(fresh());
    let regular_id = ActivityExecId(fresh());
    let local_out = Value::from("formatted");
    let regular_out = obj(vec![("sent", Value::from(true))]);
    let events = vec![
        WorkflowEvent::LocalActivityScheduled {
            activity_id: local_id,
            name: "format_data".into(),
            input: Value::Null,
            retry_policy: None,
            resolved: false,
            start_to_close_nanos: None,
        },
        WorkflowEvent::LocalActivityCompleted {
            activity_id: local_id,
            output: local_out.clone(),
        },
        WorkflowEvent::ActivityScheduled {
            activity_id: regular_id,
            name: "send_email".into(),
            input: Value::Null,
            queue: "default".into(),
        },
        WorkflowEvent::ActivityCompleted {
            activity_id: regular_id,
            output: regular_out.clone(),
        },
    ];
    let mut matcher = HistoryMatcher::new(events);

    let r1 = matcher.match_local_activity("format_data");
    assert_eq!(r1, HistoryMatch::Matched { output: local_out });

    let r2 = matcher.match_activity("send_email");
    assert_eq!(
        r2,
        HistoryMatch::Matched {
            output: regular_out
        }
    );
    assert!(!matcher.is_replaying());
}

#[test]
fn matcher_activity_skips_signal_interleaved_between_scheduled_and_completed() {
    let activity_id = ActivityExecId(fresh());
    let output = obj(vec![("rows", Value::from(100))]);
    let events = vec![
        WorkflowEvent::ActivityScheduled {
            activity_id,
            name: "import_data".into(),
            input: Value::Null,
            queue: "default".into(),
        },
        WorkflowEvent::SignalReceived {
            signal_name: "cancel".into(),
            payload: obj(vec![("reason", Value::from("manual"))]),
        },
        WorkflowEvent::ActivityCompleted {
            activity_id,
            output: output.clone(),
        },
    ];
    let mut matcher = HistoryMatcher::new(events);

    let activity = matcher.match_activity("import_data");
    assert_eq!(
        activity,
        HistoryMatch::Matched { output },
        "match_activity should skip signals interleaved during activity execution"
    );

    let signal = matcher.match_signal("cancel");
    assert_eq!(
        signal,
        HistoryMatch::Matched {
            output: obj(vec![("reason", Value::from("manual"))])
        },
        "signal buffered during activity scan should be returned by match_signal"
    );
}

#[test]
fn matcher_activity_preserves_detached_spawn_interleaved_before_completion() {
    let activity_id = ActivityExecId(fresh());
    let child_id = ExecutionId(fresh());
    let output = obj(vec![("rows", Value::from(100))]);
    let events = vec![
        WorkflowEvent::ActivityScheduled {
            activity_id,
            name: "import_data".into(),
            input: Value::Null,
            queue: "default".into(),
        },
        WorkflowEvent::ChildWorkflowSpawnedDetached {
            child_id,
            workflow_name: "monitor".into(),
            input: Value::Null,
            parent_close_policy: ParentClosePolicy::Abandon,
        },
        WorkflowEvent::ActivityCompleted {
            activity_id,
            output: output.clone(),
        },
    ];
    let mut matcher = HistoryMatcher::new(events);

    assert_eq!(
        matcher.match_activity("import_data"),
        HistoryMatch::Matched { output }
    );
    assert_eq!(
        matcher
            .match_detached_child_spawn("monitor", &Value::Null, ParentClosePolicy::Abandon,),
        HistoryMatch::DetachedChildSpawned { child_id }
    );
    assert!(!matcher.is_replaying());
}

#[test]
fn matcher_local_activity_preserves_detached_spawn_interleaved_before_completion() {
    let activity_id = ActivityExecId(fresh());
    let child_id = ExecutionId(fresh());
    let output = obj(vec![("formatted", Value::from(true))]);
    let events = vec![
        WorkflowEvent::LocalActivityScheduled {
            activity_id,
            name: "format_data".into(),
            input: Value::Null,
            retry_policy: None,
            resolved: false,
            start_to_close_nanos: None,
        },
        WorkflowEvent::ChildWorkflowSpawnedDetached {
            child_id,
            workflow_name: "monitor".into(),
            input: Value::Null,
            parent_close_policy: ParentClosePolicy::Abandon,
        },
        WorkflowEvent::LocalActivityCompleted {
            activity_id,
            output: output.clone(),
        },
    ];
    let mut matcher = HistoryMatcher::new(events);

    assert_eq!(
        matcher.match_local_activity("format_data"),
        HistoryMatch::Matched { output }
    );
    assert_eq!(
        matcher
            .match_detached_child_spawn("monitor", &Value::Null, ParentClosePolicy::Abandon,),
        HistoryMatch::DetachedChildSpawned { child_id }
    );
}

#[test]
fn matcher_external_activity_preserves_detached_spawn_before_external_completion() {
    let activity_id = ActivityExecId(fresh());
    let token = ExternalActivityToken(fresh());
    let child_id = ExecutionId(fresh());
    let output = obj(vec![("accepted", Value::from(true))]);
    let events = vec![
        WorkflowEvent::ActivityAwaitingExternal {
            activity_id,
            token,
            name: "ship_order".into(),
            input: Value::Null,
            queue: "fulfillment".into(),
            schedule_to_close_secs: 60,
        },
        WorkflowEvent::ChildWorkflowSpawnedDetached {
            child_id,
            workflow_name: "monitor".into(),
            input: Value::Null,
            parent_close_policy: ParentClosePolicy::Abandon,
        },
        WorkflowEvent::ActivityCompletedExternally {
            activity_id,
            token,
            output: output.clone(),
        },
    ];
    let mut matcher = HistoryMatcher::new(events);

    assert_eq!(
        matcher.match_external_activity("ship_order"),
        HistoryMatch::Matched { output }
    );
    assert_eq!(
        matcher
            .match_detached_child_spawn("monitor", &Value::Null, ParentClosePolicy::Abandon,),
        HistoryMatch::DetachedChildSpawned { child_id }
    );
}
