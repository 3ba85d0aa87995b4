//! Markers, side effects, version gates and patches.
use harvest_replay::event::WorkflowEvent;
use harvest_replay::marker::DEADLINE_PROBE_SIDE_EFFECT_NAME;
use harvest_replay::matcher::HistoryMatcher;
use harvest_replay::outcome::{HistoryMatch, PatchMarkerMatch, SagaMarkerMatch, SideEffectNowMatch};
use harvest_replay::types::{ActivityExecId, SideEffectKind, TimerId, Timestamp};
use serde_json::Value;

fn fresh() -> u128 {
    uuid::Uuid::new_v4().as_u128()
}

fn now() -> Timestamp {
    let t = chrono::Utc::now();
    Timestamp {
        secs: t.timestamp(),
        nanos: t.timestamp_subsec_nanos(),
    }
}

fn obj(members: Vec<(&str, Value)>) -> Value {
    let mut map = serde_json::Map::new();
    for (key, value) in members {
        map.insert(key.to_string(), value);
    }
    Value::Object(map)
}

#[test]
fn matcher_replays_version_marker() {
    let events = vec![WorkflowEvent::MarkerRecorded {
        name: "version:billing_v2".into(),
        details: Value::from(2),
    }];

    let mut matcher = HistoryMatcher::new(events);
    let version = matcher.match_version("billing_v2", 1, 3);
    assert_eq!(version, 2);
    assert_eq!(matcher.position(), 1);
}

#[test]
fn matcher_version_returns_min_for_old_workflow() {
    let events = vec![WorkflowEvent::WorkflowStarted {
        input: Value::Null,
        timestamp: now(),
        last_completion_result: None,
        last_error: None,
        scheduled_time: None,
    }];

    let mut matcher = HistoryMatcher::new(events);
    let version = matcher.match_version("billing_v2", 1, 3);
    assert_eq!(version, 1);
    assert_eq!(matcher.position(), 0);
}

#[test]
fn matcher_version_returns_max_past_history() {
    let mut matcher = HistoryMatcher::new(vec![]);
    let version = matcher.match_version("billing_v2", 1, 3);
    assert_eq!(version, 3);
}

#[test]
fn matcher_patch_marker_recorded_at_cursor() {
    let events = vec![WorkflowEvent::MarkerRecorded {
        name: "patch:billing_v2".into(),
        details: Value::from(1),
    }];

    let mut matcher = HistoryMatcher::new(events);
    let result = matcher.match_patch_marker("billing_v2");
    assert_eq!(result, PatchMarkerMatch::Recorded);
    assert_eq!(matcher.position(), 1);
}

#[test]
fn matcher_patch_marker_absent_returns_absent_without_advancing() {
    let events = vec![
        WorkflowEvent::TimerStarted {
            timer_id: TimerId::new("t1"),
            duration_secs: 60,
        },
        WorkflowEvent::TimerFired {
            timer_id: TimerId::new("t1"),
        },
    ];

    let mut matcher = HistoryMatcher::new(events);
    let result = matcher.match_patch_marker("billing_v2");
    assert_eq!(result, PatchMarkerMatch::Absent);
    assert_eq!(matcher.position(), 0);
    let timer = matcher.match_timer("t1");
    assert!(matches!(timer, HistoryMatch::Matched { .. }));
}

#[test]
fn matcher_patch_marker_past_history_is_newly_patched() {
    let mut matcher = HistoryMatcher::new(vec![]);
    let result = matcher.match_patch_marker("billing_v2");
    assert_eq!(result, PatchMarkerMatch::NewlyPatched);
}

#[test]
fn matcher_patch_marker_interop_consumes_version_marker() {
    let events = vec![WorkflowEvent::MarkerRecorded {
        name: "version:billing_v2".into(),
        details: Value::from(2),
    }];

    let mut matcher = HistoryMatcher::new(events);
    let result = matcher.match_patch_marker("billing_v2");
    assert_eq!(result, PatchMarkerMatch::Recorded);
    assert_eq!(matcher.position(), 1);
}

#[test]
fn matcher_deprecate_patch_marks_all_matching_markers_consumed() {
    let events = vec![
        WorkflowEvent::MarkerRecorded {
            name: "patch:x".into(),
            details: Value::from(1),
        },
        WorkflowEvent::TimerStarted {
            timer_id: TimerId::new("t1"),
            duration_secs: 60,
        },
        WorkflowEvent::TimerFired {
            timer_id: TimerId::new("t1"),
        },
        WorkflowEvent::MarkerRecorded {
            name: "patch:x".into(),
            details: Value::from(1),
        },
    ];

    let mut matcher = HistoryMatcher::new(events);
    assert!(matcher.deprecate_patch("x"));
    let timer = matcher.match_timer("t1");
    assert!(matches!(timer, HistoryMatch::Matched { .. }));
    assert!(!matcher.is_replaying());
    assert!(matcher.deprecate_patch("x"));
}

#[test]
fn matcher_deprecated_patch_memo_drives_match_patch_marker() {
    let events = vec![WorkflowEvent::MarkerRecorded {
        name: "patch:x".into(),
        details: Value::from(1),
    }];
    let mut matcher = HistoryMatcher::new(events);
    assert!(matcher.deprecate_patch("x"));
    let pos_before = matcher.position();
    assert_eq!(matcher.match_patch_marker("x"), PatchMarkerMatch::Recorded);
    assert_eq!(matcher.position(), pos_before);

    let mut matcher = HistoryMatcher::new(vec![]);
    assert!(!matcher.deprecate_patch("x"));
    assert_eq!(matcher.match_patch_marker("x"), PatchMarkerMatch::Absent);
}

#[test]
fn matcher_patch_marker_trailing_signal_history_is_absent() {
    let events = vec![WorkflowEvent::SignalReceived {
        signal_name: "kick".into(),
        payload: obj(vec![("n", Value::from(1))]),
    }];

    let mut matcher = HistoryMatcher::new(events);
    assert_eq!(
        matcher.match_patch_marker("billing_v2"),
        PatchMarkerMatch::Absent,
        "a trailing-signal history must be treated as a recorded, \
         unpatched position — never as the live frontier"
    );
}

#[test]
fn matcher_patch_marker_later_marker_does_not_match_at_cursor() {
    let events = vec![
        WorkflowEvent::TimerStarted {
            timer_id: TimerId::new("t1"),
            duration_secs: 60,
        },
        WorkflowEvent::TimerFired {
            timer_id: TimerId::new("t1"),
        },
        WorkflowEvent::MarkerRecorded {
            name: "patch:x".into(),
            details: Value::from(1),
        },
    ];

    let mut matcher = HistoryMatcher::new(events);
    assert_eq!(matcher.match_patch_marker("x"), PatchMarkerMatch::Absent);
    assert_eq!(matcher.position(), 0);
    let timer = matcher.match_timer("t1");
    assert!(matches!(timer, HistoryMatch::Matched { .. }));
    assert_eq!(matcher.match_patch_marker("x"), PatchMarkerMatch::Recorded);
    assert_eq!(matcher.position(), 3);
}

#[test]
fn matcher_deprecate_patch_sees_marker_recorded_this_cycle() {
    let mut matcher = HistoryMatcher::new(vec![]);
    assert_eq!(
        matcher.match_patch_marker("x"),
        PatchMarkerMatch::NewlyPatched
    );
    assert!(
        matcher.deprecate_patch("x"),
        "deprecate_patch must see a marker recorded earlier in the SAME cycle"
    );
    assert_eq!(
        matcher.match_patch_marker("x"),
        PatchMarkerMatch::Recorded,
        "the residual patched() call must agree with every replay cycle"
    );
}

#[test]
fn matcher_deprecate_patch_sees_version_marker_recorded_this_cycle() {
    let mut matcher = HistoryMatcher::new(vec![]);
    assert_eq!(matcher.match_version("x", 1, 2), 2);
    assert!(
        matcher.deprecate_patch("x"),
        "deprecate_patch must see a version marker recorded this cycle"
    );
    assert_eq!(matcher.match_patch_marker("x"), PatchMarkerMatch::Recorded);
}

#[test]
fn matcher_saga_marker_live_frontier_on_empty_history() {
    let mut matcher = HistoryMatcher::new(vec![]);
    assert_eq!(
        matcher.match_saga_marker("saga_compensated:1"),
        SagaMarkerMatch::LiveFrontier
    );
}

#[test]
fn matcher_saga_marker_recorded_consumes_marker() {
    let events = vec![WorkflowEvent::MarkerRecorded {
        name: "saga_compensated:1".into(),
        details: Value::from(3),
    }];

    let mut matcher = HistoryMatcher::new(events);
    assert_eq!(
        matcher.match_saga_marker("saga_compensated:1"),
        SagaMarkerMatch::Recorded
    );
    assert_eq!(matcher.position(), 1);
}

#[test]
fn matcher_saga_marker_absent_on_foreign_event_leaves_cursor() {
    let activity_id = ActivityExecId(fresh());
    let events = vec![
        WorkflowEvent::ActivityScheduled {
            activity_id,
            name: "release_reservation".into(),
            input: Value::Null,
            queue: "default".into(),
        },
        WorkflowEvent::ActivityCompleted {
            activity_id,
            output: Value::Null,
        },
    ];

    let mut matcher = HistoryMatcher::new(events);
    assert_eq!(
        matcher.match_saga_marker("saga_compensated:1"),
        SagaMarkerMatch::Absent
    );
    assert_eq!(matcher.position(), 0);
    let activity = matcher.match_activity("release_reservation");
    assert!(matches!(activity, HistoryMatch::Matched { .. }));
}

#[test]
fn matcher_saga_marker_drained_signal_frontier_after_trailing_signals() {
    let events = vec![WorkflowEvent::SignalReceived {
        signal_name: "kick".into(),
        payload: obj(vec![("n", Value::from(1))]),
    }];

    let mut matcher = HistoryMatcher::new(events);
    assert_eq!(
        matcher.match_saga_marker("saga_compensated:1"),
        SagaMarkerMatch::DrainedSignalFrontier,
        "a trailing-signal history is a drained-signal frontier, \
         never a plain live frontier and never a plain Absent"
    );
}

#[test]
fn matcher_saga_marker_recorded_past_drained_trailing_signal() {
    let events = vec![
        WorkflowEvent::SignalReceived {
            signal_name: "dup_cancel".into(),
            payload: obj(vec![("n", Value::from(1))]),
        },
        WorkflowEvent::MarkerRecorded {
            name: "saga_compensation_failed:1".into(),
            details: Value::from(1),
        },
    ];

    let mut matcher = HistoryMatcher::new(events);
    assert_eq!(
        matcher.match_saga_marker("saga_compensation_failed:1"),
        SagaMarkerMatch::Recorded
    );
}

#[test]
fn matcher_saga_marker_live_frontier_past_trailing_cancellation_event() {
    let events = vec![WorkflowEvent::WorkflowCancelled {
        reason: "operator shutdown".into(),
    }];

    let mut matcher = HistoryMatcher::new(events);
    assert_eq!(
        matcher.match_saga_marker("saga_compensated:1"),
        SagaMarkerMatch::LiveFrontier,
        "a trailing WorkflowCancelled must not suppress the cancel-and-compensate count"
    );
    assert_eq!(matcher.position(), 0);
}

#[test]
fn matcher_saga_marker_recorded_out_of_order_past_cancellation_event() {
    let events = vec![
        WorkflowEvent::WorkflowCancelled {
            reason: "operator shutdown".into(),
        },
        WorkflowEvent::MarkerRecorded {
            name: "saga_compensated:1".into(),
            details: Value::from(2),
        },
    ];

    let mut matcher = HistoryMatcher::new(events);
    assert_eq!(
        matcher.match_saga_marker("saga_compensated:1"),
        SagaMarkerMatch::Recorded
    );
    assert_eq!(
        matcher.position(),
        0,
        "out-of-order consumption must leave the cursor at the cancellation event"
    );
    assert_eq!(
        matcher.match_saga_marker("saga_compensated:2"),
        SagaMarkerMatch::LiveFrontier
    );
}

#[test]
fn matcher_saga_marker_absent_at_terminal_event_after_cancellation() {
    let events = vec![
        WorkflowEvent::WorkflowCancelled {
            reason: "operator shutdown".into(),
        },
        WorkflowEvent::WorkflowCompleted {
            output: Value::Null,
        },
    ];

    let mut matcher = HistoryMatcher::new(events);
    assert_eq!(
        matcher.match_saga_marker("saga_compensated:1"),
        SagaMarkerMatch::Absent
    );
    assert_eq!(matcher.position(), 0);
}

#[test]
fn matcher_saga_marker_distinguishes_seq_by_name() {
    let events = vec![WorkflowEvent::MarkerRecorded {
        name: "saga_compensated:1".into(),
        details: Value::from(2),
    }];

    let mut matcher = HistoryMatcher::new(events);
    assert_eq!(
        matcher.match_saga_marker("saga_compensated:2"),
        SagaMarkerMatch::Absent
    );
    assert_eq!(matcher.position(), 0);
    assert_eq!(
        matcher.match_saga_marker("saga_compensated:1"),
        SagaMarkerMatch::Recorded
    );
    assert_eq!(matcher.position(), 1);
}

#[test]
fn match_u64_marker_no_match_on_empty_history() {
    let mut matcher = HistoryMatcher::new(vec![]);
    assert_eq!(matcher.match_u64_marker("race:1", 2), HistoryMatch::NoMatch);
}

#[test]
fn match_u64_marker_matches_recorded_value() {
    let events = vec![WorkflowEvent::MarkerRecorded {
        name: "race:1".into(),
        details: Value::from(2),
    }];
    let mut matcher = HistoryMatcher::new(events);
    assert_eq!(
        matcher.match_u64_marker("race:1", 2),
        HistoryMatch::Matched {
            output: Value::from(2)
        }
    );
}

#[test]
fn match_u64_marker_diverges_on_value_mismatch() {
    let events = vec![WorkflowEvent::MarkerRecorded {
        name: "race:1".into(),
        details: Value::from(2),
    }];
    let mut matcher = HistoryMatcher::new(events);
    let result = matcher.match_u64_marker("race:1", 3);
    assert!(matches!(result, HistoryMatch::Diverged { .. }));
}

#[test]
fn match_u64_marker_diverges_on_name_mismatch() {
    let events = vec![WorkflowEvent::MarkerRecorded {
        name: "race:1".into(),
        details: Value::from(2),
    }];
    let mut matcher = HistoryMatcher::new(events);
    let result = matcher.match_u64_marker("race:2", 2);
    assert!(matches!(result, HistoryMatch::Diverged { .. }));
}

#[test]
fn match_u64_marker_diverges_on_unexpected_event() {
    let events = vec![WorkflowEvent::TimerFired {
        timer_id: TimerId::new("t1"),
    }];
    let mut matcher = HistoryMatcher::new(events);
    let result = matcher.match_u64_marker("race:1", 2);
    assert!(matches!(result, HistoryMatch::Diverged { .. }));
}

#[test]
fn match_u64_marker_advances_cursor_past_marker() {
    let events = vec![
        WorkflowEvent::MarkerRecorded {
            name: "race:1".into(),
            details: Value::from(2),
        },
        WorkflowEvent::TimerFired {
            timer_id: TimerId::new("t1"),
        },
    ];
    let mut matcher = HistoryMatcher::new(events);
    assert_eq!(
        matcher.match_u64_marker("race:1", 2),
        HistoryMatch::Matched {
            output: Value::from(2)
        }
    );
    assert_eq!(matcher.position(), 1);
}

#[test]
fn match_session_marker_no_match_on_empty_history() {
    let mut matcher = HistoryMatcher::new(vec![]);
    assert_eq!(matcher.match_session_marker(1), HistoryMatch::NoMatch);
}

#[test]
fn match_session_marker_matches_recorded_uuid() {
    let session_uuid = uuid::Uuid::new_v4();
    let events = vec![WorkflowEvent::MarkerRecorded {
        name: "session:1".into(),
        details: Value::from(session_uuid.to_string()),
    }];
    let mut matcher = HistoryMatcher::new(events);
    assert_eq!(
        matcher.match_session_marker(1),
        HistoryMatch::Matched {
            output: Value::from(session_uuid.to_string())
        }
    );
}

#[test]
fn match_session_marker_diverges_on_name_mismatch() {
    let events = vec![WorkflowEvent::MarkerRecorded {
        name: "session:2".into(),
        details: Value::from(uuid::Uuid::new_v4().to_string()),
    }];
    let mut matcher = HistoryMatcher::new(events);
    let result = matcher.match_session_marker(1);
    assert!(matches!(result, HistoryMatch::Diverged { .. }));
}

#[test]
fn match_session_marker_diverges_on_unexpected_event() {
    let events = vec![WorkflowEvent::TimerFired {
        timer_id: TimerId::new("t1"),
    }];
    let mut matcher = HistoryMatcher::new(events);
    let result = matcher.match_session_marker(1);
    assert!(matches!(result, HistoryMatch::Diverged { .. }));
}

#[test]
fn match_session_marker_diverges_on_non_uuid_payload() {
    let events = vec![WorkflowEvent::MarkerRecorded {
        name: "session:1".into(),
        details: Value::from("not-a-uuid"),
    }];
    let mut matcher = HistoryMatcher::new(events);
    let result = matcher.match_session_marker(1);
    assert!(matches!(result, HistoryMatch::Diverged { .. }));
}

#[test]
fn match_session_marker_advances_cursor_past_marker() {
    let session_uuid = uuid::Uuid::new_v4();
    let events = vec![
        WorkflowEvent::MarkerRecorded {
            name: "session:1".into(),
            details: Value::from(session_uuid.to_string()),
        },
        WorkflowEvent::TimerFired {
            timer_id: TimerId::new("t1"),
        },
    ];
    let mut matcher = HistoryMatcher::new(events);
    assert_eq!(
        matcher.match_session_marker(1),
        HistoryMatch::Matched {
            output: Value::from(session_uuid.to_string())
        }
    );
    assert_eq!(matcher.position(), 1);
}

#[test]
fn match_session_marker_distinguishes_by_seq() {
    let uuid1 = uuid::Uuid::new_v4();
    let uuid2 = uuid::Uuid::new_v4();
    let events = vec![
        WorkflowEvent::MarkerRecorded {
            name: "session:1".into(),
            details: Value::from(uuid1.to_string()),
        },
        WorkflowEvent::MarkerRecorded {
            name: "session:2".into(),
            details: Value::from(uuid2.to_string()),
        },
    ];
    let mut matcher = HistoryMatcher::new(events);
    assert_eq!(
        matcher.match_session_marker(1),
        HistoryMatch::Matched {
            output: Value::from(uuid1.to_string())
        }
    );
    assert_eq!(
        matcher.match_session_marker(2),
        HistoryMatch::Matched {
            output: Value::from(uuid2.to_string())
        }
    );
}

#[test]
fn match_side_effect_now_tolerant_matches_recorded_probe_now() {
    let mut matcher = HistoryMatcher::new(vec![WorkflowEvent::SideEffectRecorded {
        kind: SideEffectKind::Now,
        name: Some(DEADLINE_PROBE_SIDE_EFFECT_NAME.to_string()),
        value: Value::from(1_700_000_000_123_i64),
    }]);
    assert_eq!(
        matcher.match_side_effect_now_tolerant(),
        SideEffectNowMatch::Matched {
            millis: 1_700_000_000_123
        }
    );
    assert!(!matcher.is_replaying());
}

#[test]
fn match_side_effect_now_tolerant_does_not_consume_a_user_now() {
    let mut matcher = HistoryMatcher::new(vec![WorkflowEvent::SideEffectRecorded {
        kind: SideEffectKind::Now,
        name: None,
        value: Value::from(1_700_000_000_123_i64),
    }]);
    let before = matcher.position();
    assert_eq!(
        matcher.match_side_effect_now_tolerant(),
        SideEffectNowMatch::NotRecorded
    );
    assert_eq!(matcher.position(), before);
    assert!(matcher.is_replaying());
}

#[test]
fn match_side_effect_now_tolerant_does_not_consume_a_differently_named_now() {
    let mut matcher = HistoryMatcher::new(vec![WorkflowEvent::SideEffectRecorded {
        kind: SideEffectKind::Now,
        name: Some("some_other_name".to_string()),
        value: Value::from(1_700_000_000_123_i64),
    }]);
    let before = matcher.position();
    assert_eq!(
        matcher.match_side_effect_now_tolerant(),
        SideEffectNowMatch::NotRecorded
    );
    assert_eq!(matcher.position(), before);
}

#[test]
fn match_side_effect_now_tolerant_not_recorded_for_non_now_event_leaves_cursor() {
    let mut matcher = HistoryMatcher::new(vec![WorkflowEvent::TimerStarted {
        timer_id: TimerId::new("t"),
        duration_secs: 60,
    }]);
    let before = matcher.position();
    assert_eq!(
        matcher.match_side_effect_now_tolerant(),
        SideEffectNowMatch::NotRecorded
    );
    assert_eq!(matcher.position(), before);
    assert!(matcher.is_replaying());
}

#[test]
fn match_side_effect_now_tolerant_not_recorded_for_other_side_effect_kind() {
    let mut matcher = HistoryMatcher::new(vec![WorkflowEvent::SideEffectRecorded {
        kind: SideEffectKind::Uuid,
        name: None,
        value: Value::from("some-uuid"),
    }]);
    let before = matcher.position();
    assert_eq!(
        matcher.match_side_effect_now_tolerant(),
        SideEffectNowMatch::NotRecorded
    );
    assert_eq!(matcher.position(), before);
}

#[test]
fn match_side_effect_now_tolerant_frontier_past_end() {
    let mut matcher = HistoryMatcher::new(vec![]);
    assert_eq!(
        matcher.match_side_effect_now_tolerant(),
        SideEffectNowMatch::Frontier
    );
}
