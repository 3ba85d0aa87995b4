//! Durable timers.
use harvest_replay::event::WorkflowEvent;
use harvest_replay::matcher::HistoryMatcher;
use harvest_replay::outcome::{HistoryMatch, TimerFireMatch};
use harvest_replay::types::{ActivityExecId, ExecutionId, ParentClosePolicy, TimerId, Timestamp};
use serde_json::Value;

fn fresh() -> u128 {
    uuid::Uuid::new_v4().as_u128()
}

fn now() -> Timestamp {
    let t = chrono::Utc::now();
    Timestamp {
        secs: t.timestamp(),
        nanos: t.timestamp_subsec_nanos(),
    }
}

fn obj(members: Vec<(&str, Value)>) -> Value {
    let mut map = serde_json::Map::new();
    for (key, value) in members {
        map.insert(key.to_string(), value);
    }
    Value::Object(map)
}

fn ts(id: &str, dur: u64) -> WorkflowEvent {
    WorkflowEvent::TimerStarted {
        timer_id: TimerId::new(id),
        duration_secs: dur,
    }
}

fn tf(id: &str) -> WorkflowEvent {
    WorkflowEvent::TimerFired {
        timer_id: TimerId::new(id),
    }
}

fn tc(id: &str) -> WorkflowEvent {
    WorkflowEvent::TimerCancelled {
        timer_id: TimerId::new(id),
    }
}

#[test]
fn matcher_replays_timer() {
    let events = vec![
        WorkflowEvent::TimerStarted {
            timer_id: TimerId::new("cooldown"),
            duration_secs: 300,
        },
        WorkflowEvent::TimerFired {
            timer_id: TimerId::new("cooldown"),
        },
    ];

    let mut matcher = HistoryMatcher::new(events);
    let result = matcher.match_timer("cooldown");
    assert_eq!(
        result,
        HistoryMatch::Matched {
            output: Value::Null
        }
    );
    assert_eq!(matcher.position(), 2);
}

#[test]
fn matcher_timer_no_match_at_end() {
    let mut matcher = HistoryMatcher::new(vec![]);
    let result = matcher.match_timer("t1");
    assert_eq!(result, HistoryMatch::NoMatch);
}

#[test]
fn matcher_timer_arm_consumes_started() {
    let mut m = HistoryMatcher::new(vec![ts("idle", 300)]);
    assert_eq!(
        m.match_timer_arm("idle", 300),
        HistoryMatch::Matched {
            output: Value::Null
        }
    );
    assert_eq!(m.position(), 1);
}

#[test]
fn matcher_timer_arm_no_match_past_end() {
    let mut m = HistoryMatcher::new(vec![]);
    assert_eq!(m.match_timer_arm("idle", 300), HistoryMatch::NoMatch);
}

#[test]
fn matcher_timer_arm_diverges_on_duration() {
    let mut m = HistoryMatcher::new(vec![ts("idle", 300)]);
    assert!(matches!(
        m.match_timer_arm("idle", 600),
        HistoryMatch::Diverged { .. }
    ));
}

#[test]
fn matcher_timer_cancel_finds_and_consumes() {
    let mut m = HistoryMatcher::new(vec![ts("idle", 300), tc("idle")]);
    assert!(matches!(
        m.match_timer_arm("idle", 300),
        HistoryMatch::Matched { .. }
    ));
    assert!(matches!(
        m.match_timer_cancel("idle"),
        HistoryMatch::Matched { .. }
    ));
}

#[test]
fn matcher_timer_cancel_no_match_when_absent() {
    let mut m = HistoryMatcher::new(vec![ts("idle", 300)]);
    assert!(matches!(
        m.match_timer_arm("idle", 300),
        HistoryMatch::Matched { .. }
    ));
    assert_eq!(m.match_timer_cancel("idle"), HistoryMatch::NoMatch);
}

#[test]
fn matcher_timer_or_cancel_fired() {
    let mut m = HistoryMatcher::new(vec![ts("idle", 300), tf("idle")]);
    assert!(matches!(
        m.match_timer_arm("idle", 300),
        HistoryMatch::Matched { .. }
    ));
    assert_eq!(m.match_timer_or_cancel("idle"), TimerFireMatch::Fired);
}

#[test]
fn matcher_timer_or_cancel_cancelled() {
    let mut m = HistoryMatcher::new(vec![ts("idle", 300), tc("idle")]);
    assert!(matches!(
        m.match_timer_arm("idle", 300),
        HistoryMatch::Matched { .. }
    ));
    assert_eq!(m.match_timer_or_cancel("idle"), TimerFireMatch::Cancelled);
}

#[test]
fn matcher_timer_or_cancel_fire_wins_over_later_cancel() {
    let mut m = HistoryMatcher::new(vec![ts("idle", 300), tf("idle"), tc("idle")]);
    assert!(matches!(
        m.match_timer_arm("idle", 300),
        HistoryMatch::Matched { .. }
    ));
    assert_eq!(m.match_timer_or_cancel("idle"), TimerFireMatch::Fired);
}

#[test]
fn matcher_timer_or_cancel_cancel_wins_over_later_fire() {
    let mut m = HistoryMatcher::new(vec![ts("idle", 300), tc("idle"), tf("idle")]);
    assert!(matches!(
        m.match_timer_arm("idle", 300),
        HistoryMatch::Matched { .. }
    ));
    assert_eq!(m.match_timer_or_cancel("idle"), TimerFireMatch::Cancelled);
}

#[test]
fn matcher_timer_or_cancel_no_match_when_unresolved() {
    let mut m = HistoryMatcher::new(vec![ts("idle", 300)]);
    assert!(matches!(
        m.match_timer_arm("idle", 300),
        HistoryMatch::Matched { .. }
    ));
    assert_eq!(m.match_timer_or_cancel("idle"), TimerFireMatch::NoMatch);
}

#[test]
fn matcher_timer_or_cancel_crosses_foreign_sibling_fire() {
    let mut m = HistoryMatcher::new(vec![
        ts("slow", 300),
        ts("fast", 60),
        tf("fast"),
        tf("slow"),
    ]);
    assert!(matches!(
        m.match_timer_arm("slow", 300),
        HistoryMatch::Matched { .. }
    ));
    assert!(matches!(
        m.match_timer_arm("fast", 60),
        HistoryMatch::Matched { .. }
    ));
    assert_eq!(m.match_timer_or_cancel("slow"), TimerFireMatch::Fired);
    assert!(
        !m.timer_scan_stopped_at_command(),
        "crossing a foreign sibling fire must NOT set the blocked-scan flag"
    );
    assert_eq!(m.match_timer_or_cancel("fast"), TimerFireMatch::Fired);
}

#[test]
fn matcher_timer_cancel_crosses_foreign_sibling_fire() {
    let mut m = HistoryMatcher::new(vec![
        ts("keep", 300),
        ts("drop", 60),
        tf("keep"),
        tc("drop"),
    ]);
    assert!(matches!(
        m.match_timer_arm("keep", 300),
        HistoryMatch::Matched { .. }
    ));
    assert!(matches!(
        m.match_timer_arm("drop", 60),
        HistoryMatch::Matched { .. }
    ));
    assert!(matches!(
        m.match_timer_cancel("drop"),
        HistoryMatch::Matched { .. }
    ));
    assert!(!m.timer_scan_stopped_at_command());
    assert_eq!(m.match_timer_or_cancel("keep"), TimerFireMatch::Fired);
}

#[test]
fn matcher_timer_or_cancel_still_stops_at_foreign_command() {
    let aid = ActivityExecId(fresh());
    let mut m = HistoryMatcher::new(vec![
        ts("idle", 300),
        WorkflowEvent::ActivityScheduled {
            activity_id: aid,
            name: "work".into(),
            input: Value::Null,
            queue: "default".into(),
        },
        tf("idle"),
    ]);
    assert!(matches!(
        m.match_timer_arm("idle", 300),
        HistoryMatch::Matched { .. }
    ));
    assert_eq!(m.match_timer_or_cancel("idle"), TimerFireMatch::NoMatch);
    assert!(
        m.timer_scan_stopped_at_command(),
        "a genuine command must still stop the scan"
    );
}

#[test]
fn matcher_activity_scan_skips_interleaved_timer_cancel() {
    let aid = ActivityExecId(fresh());
    let events = vec![
        WorkflowEvent::ActivityScheduled {
            activity_id: aid,
            name: "work".into(),
            input: Value::Null,
            queue: "default".into(),
        },
        tc("idle"),
        WorkflowEvent::ActivityCompleted {
            activity_id: aid,
            output: Value::from("done"),
        },
    ];
    let mut m = HistoryMatcher::new(events);
    assert_eq!(
        m.match_activity("work"),
        HistoryMatch::Matched {
            output: Value::from("done")
        }
    );
    assert!(matches!(
        m.match_timer_cancel("idle"),
        HistoryMatch::Matched { .. }
    ));
}

#[test]
fn matcher_activity_scan_skips_interleaved_timer_started() {
    let aid = ActivityExecId(fresh());
    let events = vec![
        WorkflowEvent::ActivityScheduled {
            activity_id: aid,
            name: "work".into(),
            input: Value::Null,
            queue: "default".into(),
        },
        tc("idle"),
        ts("idle", 300),
        WorkflowEvent::ActivityCompleted {
            activity_id: aid,
            output: Value::from("done"),
        },
    ];
    let mut m = HistoryMatcher::new(events);
    assert_eq!(
        m.match_activity("work"),
        HistoryMatch::Matched {
            output: Value::from("done")
        },
        "activity scan must step over an interleaved reset's TimerStarted"
    );
}

#[test]
fn matcher_timer_detects_divergence() {
    let id = ActivityExecId(fresh());
    let events = vec![WorkflowEvent::ActivityScheduled {
        activity_id: id,
        name: "foo".into(),
        input: Value::Null,
        queue: "default".into(),
    }];

    let mut matcher = HistoryMatcher::new(events);
    let result = matcher.match_timer("t1");
    assert!(matches!(result, HistoryMatch::Diverged { .. }));
}

#[test]
fn matcher_timer_scan_skips_consumed_interleaved_child_terminal() {
    let child_id = ExecutionId(fresh());
    let timer_id = TimerId::new("cooldown");
    let events = vec![
        WorkflowEvent::ChildWorkflowStarted {
            child_id,
            workflow_name: "process_order".into(),
            input: obj(vec![("id", Value::from("A"))]),
        },
        WorkflowEvent::TimerStarted {
            timer_id: timer_id.clone(),
            duration_secs: 30,
        },
        WorkflowEvent::ChildWorkflowCompleted {
            child_id,
            output: obj(vec![("ok", Value::from(true))]),
        },
        WorkflowEvent::TimerFired { timer_id },
    ];

    let mut matcher = HistoryMatcher::new(events);
    let child = matcher.match_child_workflow("process_order", &obj(vec![("id", Value::from("A"))]));
    assert!(matches!(child, HistoryMatch::Matched { .. }));
    assert_eq!(matcher.position(), 1);

    let timer = matcher.match_timer("cooldown");
    assert_eq!(
        timer,
        HistoryMatch::Matched {
            output: Value::Null
        }
    );
    assert_eq!(matcher.position(), 4);
}

#[test]
fn matcher_timer_started_peek_skips_detached_spawn() {
    let child_id = ExecutionId(fresh());
    let events = vec![
        WorkflowEvent::ChildWorkflowSpawnedDetached {
            child_id,
            workflow_name: "condition_sidecar".into(),
            input: Value::Null,
            parent_close_policy: ParentClosePolicy::Abandon,
        },
        WorkflowEvent::TimerStarted {
            timer_id: TimerId::new("condition-timeout"),
            duration_secs: 30,
        },
    ];
    let matcher = HistoryMatcher::new(events);

    assert!(
        matcher.is_timer_started_next("condition-timeout"),
        "timer peek should skip an unconsumed detached-spawn event"
    );
}

#[test]
fn matcher_history_contains_timer_started_scans_whole_history() {
    let events = vec![
        WorkflowEvent::SignalReceived {
            signal_name: "approval".into(),
            payload: obj(vec![("ok", Value::from(true))]),
        },
        WorkflowEvent::TimerStarted {
            timer_id: TimerId::new("__signal_timeout:1:approval"),
            duration_secs: 300,
        },
        WorkflowEvent::TimerFired {
            timer_id: TimerId::new("__signal_timeout:1:approval"),
        },
    ];
    let matcher = HistoryMatcher::new(events);
    assert!(
        matcher.history_contains_timer_started("__signal_timeout:1:approval"),
        "the armed deadline timer must be found anywhere in history"
    );
    assert!(
        !matcher.history_contains_timer_started("__signal_timeout:1:other"),
        "a different timer id must not match"
    );
}

#[test]
fn matcher_history_contains_timer_started_false_when_never_armed() {
    let events = vec![WorkflowEvent::SignalReceived {
        signal_name: "approval".into(),
        payload: obj(vec![("approved", Value::from(false))]),
    }];
    let matcher = HistoryMatcher::new(events);
    assert!(
        !matcher.history_contains_timer_started("__signal_timeout:1:approval"),
        "no teardown target exists when the deadline timer was never armed"
    );
}

#[test]
fn matcher_timer_skips_signal_ingested_before_timer_started() {
    let timer_id = TimerId::new("cooldown");
    let events = vec![
        WorkflowEvent::SignalReceived {
            signal_name: "approved".into(),
            payload: obj(vec![("ok", Value::from(true))]),
        },
        WorkflowEvent::TimerStarted {
            timer_id: timer_id.clone(),
            duration_secs: 30,
        },
        WorkflowEvent::TimerFired { timer_id },
    ];
    let mut matcher = HistoryMatcher::new(events);

    let timer = matcher.match_timer("cooldown");
    assert_eq!(
        timer,
        HistoryMatch::Matched {
            output: Value::Null
        },
        "match_timer should skip the early signal and replay the timer"
    );

    let signal = matcher.match_signal("approved");
    assert_eq!(
        signal,
        HistoryMatch::Matched {
            output: obj(vec![("ok", Value::from(true))])
        },
        "signal buffered during match_timer should be returned by match_signal"
    );
}

#[test]
fn matcher_timer_skips_signal_interleaved_between_started_and_fired() {
    let timer_id = TimerId::new("cooldown");
    let events = vec![
        WorkflowEvent::TimerStarted {
            timer_id: timer_id.clone(),
            duration_secs: 30,
        },
        WorkflowEvent::SignalReceived {
            signal_name: "approved".into(),
            payload: obj(vec![("ok", Value::from(true))]),
        },
        WorkflowEvent::TimerFired { timer_id },
    ];
    let mut matcher = HistoryMatcher::new(events);

    let timer = matcher.match_timer("cooldown");
    assert_eq!(
        timer,
        HistoryMatch::Matched {
            output: Value::Null
        },
        "match_timer should skip signals between TimerStarted and TimerFired"
    );

    let signal = matcher.match_signal("approved");
    assert_eq!(
        signal,
        HistoryMatch::Matched {
            output: obj(vec![("ok", Value::from(true))])
        },
        "signal buffered during timer scan should be returned by match_signal"
    );
}

#[test]
fn matcher_timer_reaches_fire_past_interleaved_reset() {
    let events = vec![ts("sleep", 30), tc("idle"), ts("idle", 300), tf("sleep")];
    let mut m = HistoryMatcher::new(events);
    assert_eq!(
        m.match_timer("sleep"),
        HistoryMatch::Matched {
            output: Value::Null
        },
        "the primary timer must reach its fire past an interleaved reset"
    );
    assert!(
        matches!(m.match_timer_cancel("idle"), HistoryMatch::Matched { .. }),
        "reset's TimerCancelled must still be claimable"
    );
    assert!(
        matches!(m.match_timer_arm("idle", 300), HistoryMatch::Matched { .. }),
        "reset's re-arm TimerStarted must still be claimable"
    );
}

#[test]
fn matcher_timer_skips_pause_resume_between_started_and_fired() {
    let timer_id = TimerId::new("cooldown");
    let events = vec![
        WorkflowEvent::TimerStarted {
            timer_id: timer_id.clone(),
            duration_secs: 30,
        },
        WorkflowEvent::WorkflowExecutionPaused {
            paused_at: now(),
            reason: Some("incident".into()),
            actor: "oncall".into(),
        },
        WorkflowEvent::WorkflowExecutionResumed {
            resumed_at: now(),
            actor: "oncall".into(),
        },
        WorkflowEvent::TimerFired { timer_id },
    ];
    let mut matcher = HistoryMatcher::new(events);

    let timer = matcher.match_timer("cooldown");
    assert_eq!(
        timer,
        HistoryMatch::Matched {
            output: Value::Null
        },
        "match_timer must skip pause/resume events and still find TimerFired"
    );
}

#[test]
fn matcher_timer_preserves_detached_spawn_interleaved_before_fire() {
    let timer_id = TimerId::new("cooldown");
    let child_id = ExecutionId(fresh());
    let events = vec![
        WorkflowEvent::TimerStarted {
            timer_id: timer_id.clone(),
            duration_secs: 30,
        },
        WorkflowEvent::ChildWorkflowSpawnedDetached {
            child_id,
            workflow_name: "monitor".into(),
            input: Value::Null,
            parent_close_policy: ParentClosePolicy::Abandon,
        },
        WorkflowEvent::TimerFired { timer_id },
    ];
    let mut matcher = HistoryMatcher::new(events);

    assert_eq!(
        matcher.match_timer("cooldown"),
        HistoryMatch::Matched {
            output: Value::Null
        }
    );
    assert_eq!(
        matcher
            .match_detached_child_spawn("monitor", &Value::Null, ParentClosePolicy::Abandon,),
        HistoryMatch::DetachedChildSpawned { child_id }
    );
}
