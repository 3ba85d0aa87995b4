//! Races of a child against a deadline.
use harvest_replay::event::WorkflowEvent;
use harvest_replay::matcher::HistoryMatcher;
use harvest_replay::outcome::{ChildOrTimerMatch, HistoryMatch};
use harvest_replay::types::{ActivityExecId, ExecutionId, TimerId};
use serde_json::Value;

fn fresh() -> u128 {
    uuid::Uuid::new_v4().as_u128()
}

fn obj(members: Vec<(&str, Value)>) -> Value {
    let mut map = serde_json::Map::new();
    for (key, value) in members {
        map.insert(key.to_string(), value);
    }
    Value::Object(map)
}

fn child_timer_id() -> TimerId {
    TimerId::new("__child_timeout:1:process_order")
}

fn child_started_event(child_id: ExecutionId) -> WorkflowEvent {
    WorkflowEvent::ChildWorkflowStarted {
        child_id,
        workflow_name: "process_order".into(),
        input: obj(vec![("id", Value::from(42))]),
    }
}

#[test]
fn child_or_timer_child_completes_before_timer_fired_wins() {
    let timer_id = child_timer_id();
    let child_id = ExecutionId(fresh());
    let events = vec![
        child_started_event(child_id),
        WorkflowEvent::TimerStarted {
            timer_id: timer_id.clone(),
            duration_secs: 300,
        },
        WorkflowEvent::ChildWorkflowCompleted {
            child_id,
            output: obj(vec![("processed", Value::from(true))]),
        },
    ];
    let mut matcher = HistoryMatcher::new(events);

    let result = matcher.match_child_or_timer(
        "process_order",
        &obj(vec![("id", Value::from(42))]),
        timer_id.as_str(),
        Some(300),
    );
    assert_eq!(
        result,
        ChildOrTimerMatch::ChildCompleted {
            output: obj(vec![("processed", Value::from(true))])
        }
    );
}

#[test]
fn child_or_timer_child_win_consumes_stray_timer_fired() {
    let timer_id = child_timer_id();
    let child_id = ExecutionId(fresh());
    let events = vec![
        child_started_event(child_id),
        WorkflowEvent::TimerStarted {
            timer_id: timer_id.clone(),
            duration_secs: 300,
        },
        WorkflowEvent::ChildWorkflowCompleted {
            child_id,
            output: obj(vec![("processed", Value::from(true))]),
        },
        WorkflowEvent::TimerFired {
            timer_id: timer_id.clone(),
        },
    ];
    let mut matcher = HistoryMatcher::new(events);

    let result = matcher.match_child_or_timer(
        "process_order",
        &obj(vec![("id", Value::from(42))]),
        timer_id.as_str(),
        Some(300),
    );
    assert_eq!(
        result,
        ChildOrTimerMatch::ChildCompleted {
            output: obj(vec![("processed", Value::from(true))])
        }
    );
    assert!(
        !matcher.has_non_lifecycle_unconsumed(),
        "stray deadline TimerFired must be consumed after the child wins"
    );
}

#[test]
fn child_or_timer_child_terminal_only_wins() {
    let timer_id = child_timer_id();
    let child_id = ExecutionId(fresh());
    let events = vec![
        child_started_event(child_id),
        WorkflowEvent::TimerStarted {
            timer_id: timer_id.clone(),
            duration_secs: 300,
        },
        WorkflowEvent::ChildWorkflowCompleted {
            child_id,
            output: Value::from("done"),
        },
    ];
    let mut matcher = HistoryMatcher::new(events);
    let result = matcher.match_child_or_timer(
        "process_order",
        &obj(vec![("id", Value::from(42))]),
        timer_id.as_str(),
        Some(300),
    );
    assert_eq!(
        result,
        ChildOrTimerMatch::ChildCompleted {
            output: Value::from("done")
        }
    );
}

#[test]
fn child_or_timer_timer_wins_when_fired_before_child_terminal() {
    let timer_id = child_timer_id();
    let child_id = ExecutionId(fresh());
    let events = vec![
        child_started_event(child_id),
        WorkflowEvent::TimerStarted {
            timer_id: timer_id.clone(),
            duration_secs: 300,
        },
        WorkflowEvent::TimerFired {
            timer_id: timer_id.clone(),
        },
    ];
    let mut matcher = HistoryMatcher::new(events);

    let result = matcher.match_child_or_timer(
        "process_order",
        &obj(vec![("id", Value::from(42))]),
        timer_id.as_str(),
        Some(300),
    );
    assert_eq!(
        result,
        ChildOrTimerMatch::TimerFired {
            child_id,
            child_already_terminal: false,
        },
        "timer wins and the still-running child is not yet terminal, so the \
         caller must push CancelRaceLosers on this cycle"
    );
}

#[test]
fn child_or_timer_timer_win_consumes_loser_child_terminal() {
    let timer_id = child_timer_id();
    let child_id = ExecutionId(fresh());
    let events = vec![
        child_started_event(child_id),
        WorkflowEvent::TimerStarted {
            timer_id: timer_id.clone(),
            duration_secs: 300,
        },
        WorkflowEvent::TimerFired {
            timer_id: timer_id.clone(),
        },
        WorkflowEvent::ChildWorkflowFailed {
            child_id,
            error: "lost race to a sibling branch".into(),
            error_type: None,
            details: None,
            non_retryable: None,
        },
    ];
    let mut matcher = HistoryMatcher::new(events);

    let result = matcher.match_child_or_timer(
        "process_order",
        &obj(vec![("id", Value::from(42))]),
        timer_id.as_str(),
        Some(300),
    );
    assert_eq!(
        result,
        ChildOrTimerMatch::TimerFired {
            child_id,
            child_already_terminal: true,
        }
    );
    assert!(
        !matcher.has_non_lifecycle_unconsumed(),
        "the losing child terminal must be genuinely consumed on timer-win"
    );
}

#[test]
fn child_or_timer_late_child_terminal_after_timer_win_is_preserved_not_corrupted() {
    let timer_id = child_timer_id();
    let child_id = ExecutionId(fresh());
    let events = vec![
        child_started_event(child_id),
        WorkflowEvent::TimerStarted {
            timer_id: timer_id.clone(),
            duration_secs: 300,
        },
        WorkflowEvent::TimerFired {
            timer_id: timer_id.clone(),
        },
        WorkflowEvent::ChildWorkflowCompleted {
            child_id,
            output: Value::from("raced-but-lost"),
        },
    ];
    let mut matcher = HistoryMatcher::new(events);

    let result = matcher.match_child_or_timer(
        "process_order",
        &obj(vec![("id", Value::from(42))]),
        timer_id.as_str(),
        Some(300),
    );
    assert_eq!(
        result,
        ChildOrTimerMatch::TimerFired {
            child_id,
            child_already_terminal: true,
        }
    );
    assert!(
        !matcher.has_non_lifecycle_unconsumed(),
        "a late losing child terminal after timer-win must be consumed, not left dangling"
    );
}

#[test]
fn child_or_timer_child_fails_before_deadline_returns_typed_fields() {
    let timer_id = child_timer_id();
    let child_id = ExecutionId(fresh());
    let events = vec![
        child_started_event(child_id),
        WorkflowEvent::TimerStarted {
            timer_id: timer_id.clone(),
            duration_secs: 300,
        },
        WorkflowEvent::ChildWorkflowFailed {
            child_id,
            error: "downstream 503".into(),
            error_type: Some("UpstreamUnavailable".into()),
            details: Some(obj(vec![("retry_after", Value::from(30))])),
            non_retryable: Some(true),
        },
    ];
    let mut matcher = HistoryMatcher::new(events);

    let result = matcher.match_child_or_timer(
        "process_order",
        &obj(vec![("id", Value::from(42))]),
        timer_id.as_str(),
        Some(300),
    );
    assert_eq!(
        result,
        ChildOrTimerMatch::ChildFailed {
            error: "downstream 503".into(),
            error_type: "UpstreamUnavailable".into(),
            details: Some(obj(vec![("retry_after", Value::from(30))])),
            non_retryable: true,
        }
    );
}

#[test]
fn child_or_timer_legacy_child_failure_maps_error_type_sentinel() {
    let timer_id = child_timer_id();
    let child_id = ExecutionId(fresh());
    let events = vec![
        child_started_event(child_id),
        WorkflowEvent::TimerStarted {
            timer_id: timer_id.clone(),
            duration_secs: 300,
        },
        WorkflowEvent::ChildWorkflowFailed {
            child_id,
            error: "boom".into(),
            error_type: None,
            details: None,
            non_retryable: None,
        },
    ];
    let mut matcher = HistoryMatcher::new(events);

    let result = matcher.match_child_or_timer(
        "process_order",
        &obj(vec![("id", Value::from(42))]),
        timer_id.as_str(),
        Some(300),
    );
    assert_eq!(
        result,
        ChildOrTimerMatch::ChildFailed {
            error: "boom".into(),
            error_type: "Error".into(),
            details: None,
            non_retryable: false,
        }
    );
}

#[test]
fn child_or_timer_no_match_on_empty_history() {
    let mut matcher = HistoryMatcher::new(vec![]);
    let result = matcher.match_child_or_timer(
        "process_order",
        &obj(vec![("id", Value::from(42))]),
        "__child_timeout:1:process_order",
        Some(300),
    );
    assert_eq!(result, ChildOrTimerMatch::NoMatch);
}

#[test]
fn child_or_timer_in_progress_when_both_started_but_neither_resolved() {
    let timer_id = child_timer_id();
    let child_id = ExecutionId(fresh());
    let events = vec![
        child_started_event(child_id),
        WorkflowEvent::TimerStarted {
            timer_id: timer_id.clone(),
            duration_secs: 300,
        },
    ];
    let mut matcher = HistoryMatcher::new(events);

    let result = matcher.match_child_or_timer(
        "process_order",
        &obj(vec![("id", Value::from(42))]),
        timer_id.as_str(),
        Some(300),
    );
    assert_eq!(
        result,
        ChildOrTimerMatch::InProgress { child_id },
        "InProgress must return the recorded child_id for the re-park"
    );
}

#[test]
fn child_or_timer_diverges_on_wrong_child_start() {
    let events = vec![WorkflowEvent::ActivityScheduled {
        activity_id: ActivityExecId(fresh()),
        name: "send_email".into(),
        input: Value::Null,
        queue: "default".into(),
    }];
    let mut matcher = HistoryMatcher::new(events);
    let result = matcher.match_child_or_timer(
        "process_order",
        &obj(vec![("id", Value::from(42))]),
        "__child_timeout:1:process_order",
        Some(300),
    );
    assert!(matches!(result, ChildOrTimerMatch::Diverged { .. }));
}

#[test]
fn child_or_timer_diverges_on_wrong_timer_id() {
    let child_id = ExecutionId(fresh());
    let events = vec![
        child_started_event(child_id),
        WorkflowEvent::TimerStarted {
            timer_id: TimerId::new("__child_timeout:99:process_order"),
            duration_secs: 300,
        },
    ];
    let mut matcher = HistoryMatcher::new(events);
    let result = matcher.match_child_or_timer(
        "process_order",
        &obj(vec![("id", Value::from(42))]),
        "__child_timeout:1:process_order",
        Some(300),
    );
    assert!(matches!(result, ChildOrTimerMatch::Diverged { .. }));
}

#[test]
fn child_or_timer_diverges_on_duration_change() {
    let timer_id = child_timer_id();
    let child_id = ExecutionId(fresh());
    let events = vec![
        child_started_event(child_id),
        WorkflowEvent::TimerStarted {
            timer_id: timer_id.clone(),
            duration_secs: 300,
        },
        WorkflowEvent::TimerFired {
            timer_id: timer_id.clone(),
        },
    ];
    let mut matcher = HistoryMatcher::new(events);
    let result = matcher.match_child_or_timer(
        "process_order",
        &obj(vec![("id", Value::from(42))]),
        timer_id.as_str(),
        Some(600),
    );
    assert!(matches!(result, ChildOrTimerMatch::Diverged { .. }));
}

#[test]
fn child_or_timer_diverges_on_wrong_child_input() {
    let timer_id = child_timer_id();
    let child_id = ExecutionId(fresh());
    let events = vec![
        child_started_event(child_id),
        WorkflowEvent::TimerStarted {
            timer_id: timer_id.clone(),
            duration_secs: 300,
        },
    ];
    let mut matcher = HistoryMatcher::new(events);
    let result = matcher.match_child_or_timer(
        "process_order",
        &obj(vec![("id", Value::from(999))]),
        timer_id.as_str(),
        Some(300),
    );
    assert!(matches!(result, ChildOrTimerMatch::Diverged { .. }));
}

#[test]
fn child_or_timer_child_win_across_interleaved_sibling_activity() {
    let timer_id = child_timer_id();
    let child_id = ExecutionId(fresh());
    let activity_id = ActivityExecId(fresh());
    let events = vec![
        child_started_event(child_id),
        WorkflowEvent::TimerStarted {
            timer_id: timer_id.clone(),
            duration_secs: 300,
        },
        WorkflowEvent::ActivityScheduled {
            activity_id,
            name: "audit_log".into(),
            input: Value::Null,
            queue: "default".into(),
        },
        WorkflowEvent::ChildWorkflowCompleted {
            child_id,
            output: obj(vec![("processed", Value::from(true))]),
        },
        WorkflowEvent::ActivityCompleted {
            activity_id,
            output: Value::from("logged"),
        },
    ];
    let mut matcher = HistoryMatcher::new(events);

    let result = matcher.match_child_or_timer(
        "process_order",
        &obj(vec![("id", Value::from(42))]),
        timer_id.as_str(),
        Some(300),
    );
    assert_eq!(
        result,
        ChildOrTimerMatch::ChildCompleted {
            output: obj(vec![("processed", Value::from(true))])
        }
    );
    let activity = matcher.match_activity("audit_log");
    assert_eq!(
        activity,
        HistoryMatch::Matched {
            output: Value::from("logged")
        }
    );
}

#[test]
fn child_or_timer_child_win_across_interleaved_signal_is_transparent() {
    let timer_id = child_timer_id();
    let child_id = ExecutionId(fresh());
    let events = vec![
        child_started_event(child_id),
        WorkflowEvent::TimerStarted {
            timer_id: timer_id.clone(),
            duration_secs: 300,
        },
        WorkflowEvent::SignalReceived {
            signal_name: "approval".into(),
            payload: obj(vec![("ok", Value::from(true))]),
        },
        WorkflowEvent::ChildWorkflowCompleted {
            child_id,
            output: obj(vec![("processed", Value::from(true))]),
        },
    ];
    let mut matcher = HistoryMatcher::new(events);

    let result = matcher.match_child_or_timer(
        "process_order",
        &obj(vec![("id", Value::from(42))]),
        timer_id.as_str(),
        Some(300),
    );
    assert_eq!(
        result,
        ChildOrTimerMatch::ChildCompleted {
            output: obj(vec![("processed", Value::from(true))])
        },
        "an interleaved signal must not flip the child-win outcome"
    );
    assert_eq!(
        matcher.match_signal("approval"),
        HistoryMatch::Matched {
            output: obj(vec![("ok", Value::from(true))]),
        },
        "the interleaved signal must remain observable after the race resolves"
    );
    assert!(
        !matcher.has_non_lifecycle_unconsumed(),
        "no dangling unconsumed events after the race + signal are matched"
    );
}

#[test]
fn child_or_timer_replays_same_branch_when_both_events_exist() {
    let timer_id = child_timer_id();
    let child_id = ExecutionId(fresh());
    let events = vec![
        child_started_event(child_id),
        WorkflowEvent::TimerStarted {
            timer_id: timer_id.clone(),
            duration_secs: 300,
        },
        WorkflowEvent::ChildWorkflowCompleted {
            child_id,
            output: obj(vec![("processed", Value::from(true))]),
        },
        WorkflowEvent::TimerFired {
            timer_id: timer_id.clone(),
        },
    ];

    for _ in 0..3 {
        let mut matcher = HistoryMatcher::new(events.clone());
        let result = matcher.match_child_or_timer(
            "process_order",
            &obj(vec![("id", Value::from(42))]),
            timer_id.as_str(),
            Some(300),
        );
        assert_eq!(
            result,
            ChildOrTimerMatch::ChildCompleted {
                output: obj(vec![("processed", Value::from(true))])
            }
        );
    }
}
