//! Child workflows and successor runs.
use harvest_replay::event::WorkflowEvent;
use harvest_replay::matcher::HistoryMatcher;
use harvest_replay::outcome::HistoryMatch;
use harvest_replay::types::{ActivityExecId, ExecutionId, TimerId};
use serde_json::Value;

fn fresh() -> u128 {
    uuid::Uuid::new_v4().as_u128()
}

fn obj(members: Vec<(&str, Value)>) -> Value {
    let mut map = serde_json::Map::new();
    for (key, value) in members {
        map.insert(key.to_string(), value);
    }
    Value::Object(map)
}

fn child_workflow_failed(child_id: ExecutionId, error: &str) -> WorkflowEvent {
    WorkflowEvent::ChildWorkflowFailed {
        child_id,
        error: error.to_string(),
        error_type: None,
        details: None,
        non_retryable: None,
    }
}

#[test]
fn matcher_replays_continue_as_new() {
    let payload = obj(vec![("phase", Value::from("next"))]);
    let events = vec![WorkflowEvent::WorkflowContinuedAsNew {
        new_exec_id: ExecutionId(fresh()),
        input: payload.clone(),
        new_workflow_type: None,
    }];

    let mut matcher = HistoryMatcher::new(events);
    let result = matcher.match_continue_as_new(&payload, None);
    assert_eq!(result, HistoryMatch::Matched { output: payload });
    assert_eq!(matcher.position(), 1);
    assert!(!matcher.is_replaying());
}

#[test]
fn matcher_continue_as_new_input_mismatch_diverges() {
    let events = vec![WorkflowEvent::WorkflowContinuedAsNew {
        new_exec_id: ExecutionId(fresh()),
        input: obj(vec![("phase", Value::from("next"))]),
        new_workflow_type: None,
    }];

    let mut matcher = HistoryMatcher::new(events);
    let result = matcher.match_continue_as_new(&obj(vec![("phase", Value::from("later"))]), None);
    assert!(matches!(result, HistoryMatch::Diverged { .. }));
    assert_eq!(matcher.position(), 0);
}

#[test]
fn matcher_continue_as_new_wrong_event_diverges() {
    let events = vec![WorkflowEvent::TimerStarted {
        timer_id: TimerId::new("t1"),
        duration_secs: 60,
    }];

    let mut matcher = HistoryMatcher::new(events);
    let result = matcher.match_continue_as_new(&obj(vec![("phase", Value::from("next"))]), None);
    assert!(matches!(result, HistoryMatch::Diverged { .. }));
    assert_eq!(matcher.position(), 0);
}

#[test]
fn matcher_replays_cross_type_continue_as_new() {
    let payload = obj(vec![("tier", Value::from("paid"))]);
    let events = vec![WorkflowEvent::WorkflowContinuedAsNew {
        new_exec_id: ExecutionId(fresh()),
        input: payload.clone(),
        new_workflow_type: Some("paid_subscription".to_string()),
    }];

    let mut matcher = HistoryMatcher::new(events);
    let result = matcher.match_continue_as_new(&payload, Some("paid_subscription"));
    assert_eq!(result, HistoryMatch::Matched { output: payload });
    assert_eq!(matcher.position(), 1);
}

#[test]
fn matcher_continue_as_new_type_mismatch_diverges() {
    let payload = obj(vec![("tier", Value::from("paid"))]);
    let events = vec![WorkflowEvent::WorkflowContinuedAsNew {
        new_exec_id: ExecutionId(fresh()),
        input: payload.clone(),
        new_workflow_type: Some("paid_subscription".to_string()),
    }];

    let mut matcher = HistoryMatcher::new(events);
    let result = matcher.match_continue_as_new(&payload, Some("churned"));
    match result {
        HistoryMatch::Diverged {
            expected, actual, ..
        } => {
            assert!(expected.contains("churned"), "got {expected}");
            assert!(actual.contains("paid_subscription"), "got {actual}");
        }
        other => panic!("expected divergence, got {other:?}"),
    }
    assert_eq!(matcher.position(), 0, "a divergence must not advance");
}

#[test]
fn matcher_same_type_history_diverges_against_a_cross_type_call() {
    let payload = obj(vec![("cycle", Value::from(2))]);
    let events = vec![WorkflowEvent::WorkflowContinuedAsNew {
        new_exec_id: ExecutionId(fresh()),
        input: payload.clone(),
        new_workflow_type: None,
    }];

    let mut matcher = HistoryMatcher::new(events);
    let result = matcher.match_continue_as_new(&payload, Some("paid_subscription"));
    assert!(matches!(result, HistoryMatch::Diverged { .. }));
    assert_eq!(matcher.position(), 0);
}

#[test]
fn matcher_cross_type_history_diverges_against_a_same_type_call() {
    let payload = obj(vec![("cycle", Value::from(2))]);
    let events = vec![WorkflowEvent::WorkflowContinuedAsNew {
        new_exec_id: ExecutionId(fresh()),
        input: payload.clone(),
        new_workflow_type: Some("paid_subscription".to_string()),
    }];

    let mut matcher = HistoryMatcher::new(events);
    let result = matcher.match_continue_as_new(&payload, None);
    assert!(matches!(result, HistoryMatch::Diverged { .. }));
    assert_eq!(matcher.position(), 0);
}

#[test]
fn matcher_continue_as_new_reports_type_divergence_before_input() {
    let events = vec![WorkflowEvent::WorkflowContinuedAsNew {
        new_exec_id: ExecutionId(fresh()),
        input: obj(vec![("a", Value::from(1))]),
        new_workflow_type: Some("paid_subscription".to_string()),
    }];

    let mut matcher = HistoryMatcher::new(events);
    match matcher.match_continue_as_new(&obj(vec![("b", Value::from(2))]), Some("churned")) {
        HistoryMatch::Diverged { expected, .. } => {
            assert!(expected.contains("Type"), "got {expected}");
        }
        other => panic!("expected divergence, got {other:?}"),
    }
}

#[test]
fn matcher_replays_child_workflow_completion() {
    let child_id = ExecutionId(fresh());
    let output = obj(vec![("result", Value::from("ok"))]);
    let events = vec![
        WorkflowEvent::ChildWorkflowStarted {
            child_id,
            workflow_name: "process_order".into(),
            input: obj(vec![("id", Value::from(42))]),
        },
        WorkflowEvent::ChildWorkflowCompleted {
            child_id,
            output: output.clone(),
        },
    ];

    let mut matcher = HistoryMatcher::new(events);
    let result = matcher.match_child_workflow("process_order", &obj(vec![("id", Value::from(42))]));
    assert_eq!(result, HistoryMatch::Matched { output });
    assert_eq!(matcher.position(), 2);
}

#[test]
fn matcher_replays_child_workflow_failure() {
    let child_id = ExecutionId(fresh());
    let events = vec![
        WorkflowEvent::ChildWorkflowStarted {
            child_id,
            workflow_name: "process_order".into(),
            input: Value::Null,
        },
        child_workflow_failed(child_id, "child failed"),
    ];

    let mut matcher = HistoryMatcher::new(events);
    let result = matcher.match_child_workflow("process_order", &Value::Null);
    assert_eq!(
        result,
        HistoryMatch::Failed {
            error: "child failed".into(),
            attempt: 1,
            error_type: "Error".into(),
            details: None,
            non_retryable: false,
        }
    );
}

#[test]
fn matcher_replays_typed_child_workflow_failure() {
    let child_id = ExecutionId(fresh());
    let events = vec![
        WorkflowEvent::ChildWorkflowStarted {
            child_id,
            workflow_name: "charge_card".into(),
            input: Value::Null,
        },
        WorkflowEvent::ChildWorkflowFailed {
            child_id,
            error: "card declined".into(),
            error_type: Some("ValidationRejected".into()),
            details: Some(obj(vec![("code", Value::from(402))])),
            non_retryable: Some(true),
        },
    ];

    let mut matcher = HistoryMatcher::new(events);
    let result = matcher.match_child_workflow("charge_card", &Value::Null);
    assert_eq!(
        result,
        HistoryMatch::Failed {
            error: "card declined".into(),
            attempt: 1,
            error_type: "ValidationRejected".into(),
            details: Some(obj(vec![("code", Value::from(402))])),
            non_retryable: true,
        }
    );
}

#[test]
fn matcher_child_workflow_without_terminal_returns_child_in_progress() {
    let child_id = ExecutionId(fresh());
    let events = vec![WorkflowEvent::ChildWorkflowStarted {
        child_id,
        workflow_name: "process_order".into(),
        input: Value::Null,
    }];

    let mut matcher = HistoryMatcher::new(events);
    let result = matcher.match_child_workflow("process_order", &Value::Null);
    assert!(
        matches!(result, HistoryMatch::ChildInProgress { child_id: id } if id == child_id),
        "should be ChildInProgress with the known child_id, got {result:?}"
    );
    assert_eq!(
        matcher.position(),
        1,
        "cursor must advance past started event"
    );
}

#[test]
fn matcher_child_workflow_scans_past_interleaved_events() {
    let child_a = ExecutionId(fresh());
    let child_b = ExecutionId(fresh());
    let events = vec![
        WorkflowEvent::ChildWorkflowStarted {
            child_id: child_a,
            workflow_name: "process_order".into(),
            input: obj(vec![("id", Value::from(1))]),
        },
        WorkflowEvent::ChildWorkflowStarted {
            child_id: child_b,
            workflow_name: "process_order".into(),
            input: obj(vec![("id", Value::from(2))]),
        },
        WorkflowEvent::ChildWorkflowCompleted {
            child_id: child_a,
            output: obj(vec![("ok", Value::from(true))]),
        },
    ];

    let mut matcher = HistoryMatcher::new(events);
    let result = matcher.match_child_workflow("process_order", &obj(vec![("id", Value::from(1))]));
    assert_eq!(
        result,
        HistoryMatch::Matched {
            output: obj(vec![("ok", Value::from(true))]),
        }
    );
    assert_eq!(matcher.position(), 1);
}

#[test]
fn matcher_child_workflow_input_mismatch_diverges() {
    let child_id = ExecutionId(fresh());
    let events = vec![
        WorkflowEvent::ChildWorkflowStarted {
            child_id,
            workflow_name: "process_order".into(),
            input: obj(vec![("sku", Value::from("book"))]),
        },
        WorkflowEvent::ChildWorkflowCompleted {
            child_id,
            output: obj(vec![("ok", Value::from(true))]),
        },
    ];

    let mut matcher = HistoryMatcher::new(events);
    let result =
        matcher.match_child_workflow("process_order", &obj(vec![("sku", Value::from("magazine"))]));
    assert!(matches!(result, HistoryMatch::Diverged { .. }));
    assert_eq!(matcher.position(), 0);
}

#[test]
fn matcher_child_workflow_keeps_interleaved_starts_replayable() {
    let child_a = ExecutionId(fresh());
    let child_b = ExecutionId(fresh());
    let events = vec![
        WorkflowEvent::ChildWorkflowStarted {
            child_id: child_a,
            workflow_name: "process_order".into(),
            input: obj(vec![("id", Value::from("A"))]),
        },
        WorkflowEvent::ChildWorkflowStarted {
            child_id: child_b,
            workflow_name: "process_order".into(),
            input: obj(vec![("id", Value::from("B"))]),
        },
        WorkflowEvent::ChildWorkflowCompleted {
            child_id: child_a,
            output: obj(vec![("id", Value::from("A")), ("ok", Value::from(true))]),
        },
        WorkflowEvent::ChildWorkflowCompleted {
            child_id: child_b,
            output: obj(vec![("id", Value::from("B")), ("ok", Value::from(true))]),
        },
    ];

    let mut matcher = HistoryMatcher::new(events);
    let a = matcher.match_child_workflow("process_order", &obj(vec![("id", Value::from("A"))]));
    assert_eq!(
        a,
        HistoryMatch::Matched {
            output: obj(vec![("id", Value::from("A")), ("ok", Value::from(true))]),
        }
    );
    assert_eq!(matcher.position(), 1);

    let b = matcher.match_child_workflow("process_order", &obj(vec![("id", Value::from("B"))]));
    assert_eq!(
        b,
        HistoryMatch::Matched {
            output: obj(vec![("id", Value::from("B")), ("ok", Value::from(true))]),
        }
    );
    assert_eq!(matcher.position(), 4);
}

#[test]
fn matcher_child_workflow_keeps_interleaved_activity_replayable() {
    let child_a = ExecutionId(fresh());
    let activity_id = ActivityExecId(fresh());
    let events = vec![
        WorkflowEvent::ChildWorkflowStarted {
            child_id: child_a,
            workflow_name: "process_order".into(),
            input: obj(vec![("id", Value::from("A"))]),
        },
        WorkflowEvent::ActivityScheduled {
            activity_id,
            name: "send_email".into(),
            input: obj(vec![("id", Value::from("A"))]),
            queue: "default".into(),
        },
        WorkflowEvent::ActivityCompleted {
            activity_id,
            output: obj(vec![("sent", Value::from(true))]),
        },
        WorkflowEvent::ChildWorkflowCompleted {
            child_id: child_a,
            output: obj(vec![("id", Value::from("A")), ("ok", Value::from(true))]),
        },
    ];

    let mut matcher = HistoryMatcher::new(events);
    let child = matcher.match_child_workflow("process_order", &obj(vec![("id", Value::from("A"))]));
    assert!(matches!(child, HistoryMatch::Matched { .. }));
    assert_eq!(matcher.position(), 1);

    let activity = matcher.match_activity("send_email");
    assert_eq!(
        activity,
        HistoryMatch::Matched {
            output: obj(vec![("sent", Value::from(true))]),
        }
    );
    assert_eq!(matcher.position(), 4);
}

#[test]
fn matcher_activity_replay_preserves_interleaved_child_start_for_later_child_match() {
    let child_id = ExecutionId(fresh());
    let activity_id = ActivityExecId(fresh());
    let events = vec![
        WorkflowEvent::ActivityScheduled {
            activity_id,
            name: "send_email".into(),
            input: obj(vec![("id", Value::from("A"))]),
            queue: "default".into(),
        },
        WorkflowEvent::ChildWorkflowStarted {
            child_id,
            workflow_name: "process_order".into(),
            input: obj(vec![("id", Value::from("A"))]),
        },
        WorkflowEvent::ActivityCompleted {
            activity_id,
            output: obj(vec![("sent", Value::from(true))]),
        },
        WorkflowEvent::ChildWorkflowCompleted {
            child_id,
            output: obj(vec![("id", Value::from("A")), ("ok", Value::from(true))]),
        },
    ];

    let mut matcher = HistoryMatcher::new(events);
    let activity = matcher.match_activity("send_email");
    assert!(matches!(activity, HistoryMatch::Matched { .. }));
    assert_eq!(matcher.position(), 1);

    let child = matcher.match_child_workflow("process_order", &obj(vec![("id", Value::from("A"))]));
    assert!(matches!(child, HistoryMatch::Matched { .. }));
    assert_eq!(matcher.position(), 4);
}

#[test]
fn matcher_timer_replay_preserves_interleaved_child_start_for_later_child_match() {
    let child_id = ExecutionId(fresh());
    let timer_id = TimerId::new("cooldown");
    let events = vec![
        WorkflowEvent::TimerStarted {
            timer_id: timer_id.clone(),
            duration_secs: 30,
        },
        WorkflowEvent::ChildWorkflowStarted {
            child_id,
            workflow_name: "process_order".into(),
            input: obj(vec![("id", Value::from("A"))]),
        },
        WorkflowEvent::TimerFired { timer_id },
        WorkflowEvent::ChildWorkflowCompleted {
            child_id,
            output: obj(vec![("id", Value::from("A")), ("ok", Value::from(true))]),
        },
    ];

    let mut matcher = HistoryMatcher::new(events);
    let timer = matcher.match_timer("cooldown");
    assert!(matches!(timer, HistoryMatch::Matched { .. }));
    assert_eq!(matcher.position(), 1);

    let child = matcher.match_child_workflow("process_order", &obj(vec![("id", Value::from("A"))]));
    assert!(matches!(child, HistoryMatch::Matched { .. }));
    assert_eq!(matcher.position(), 4);
}
