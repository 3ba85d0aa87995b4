//! What each command gives back, and how divergences are worded.
use harvest_replay::activity::label;
use harvest_replay::event::{WorkflowEvent, ABANDONED_DISPATCH_REASON};
use harvest_replay::marker::{
    patch_marker_name, saga_compensated_marker_name, saga_compensation_failed_marker_name,
    version_marker_name,
};
use harvest_replay::matcher::HistoryMatcher;
use harvest_replay::outcome::{diverged, HistoryMatch, MutexGrantMatch, SideEffectNowMatch};
use harvest_replay::text::{glue, tag};
use harvest_replay::types::{
    ActivityExecId, ExecutionId, ExternalActivityToken, ExternalAwaitId, ExternalCancelId,
    ExternalSignalId, ExternalTarget, ParentClosePolicy, RetryPolicy, SideEffectKind, TimeoutType,
    TimerId, Timestamp, UpdateId, WorkerId,
};
use serde_json::Value;

fn obj(members: Vec<(&str, Value)>) -> Value {
    let mut map = serde_json::Map::new();
    for (key, value) in members {
        map.insert(key.to_string(), value);
    }
    Value::Object(map)
}

fn scheduled(id: u128, name: &str, input: Value) -> WorkflowEvent {
    WorkflowEvent::ActivityScheduled {
        activity_id: ActivityExecId(id),
        name: name.into(),
        input,
        queue: "default".into(),
    }
}

fn local(id: u128, name: &str, input: Value) -> WorkflowEvent {
    WorkflowEvent::LocalActivityScheduled {
        activity_id: ActivityExecId(id),
        name: name.into(),
        input,
        retry_policy: None,
        resolved: false,
        start_to_close_nanos: None,
    }
}

fn local_failed(id: u128, error: &str, attempt: u32) -> WorkflowEvent {
    WorkflowEvent::LocalActivityFailed {
        activity_id: ActivityExecId(id),
        error: error.into(),
        attempt,
    }
}

fn marker(name: &str, details: Value) -> WorkflowEvent {
    WorkflowEvent::MarkerRecorded {
        name: name.into(),
        details,
    }
}

fn armed(id: &str, secs: u64) -> WorkflowEvent {
    WorkflowEvent::TimerStarted {
        timer_id: TimerId::new(id),
        duration_secs: secs,
    }
}

fn requested(id: u128, target: u128, name: &str) -> WorkflowEvent {
    WorkflowEvent::ExternalSignalRequested {
        signal_id: ExternalSignalId(id),
        target: ExternalTarget::ExecutionId(ExecutionId(target)),
        signal_name: name.into(),
        payload: Value::from(7),
        idempotency_key: Some("key".into()),
    }
}

fn to(target: u128) -> ExternalTarget {
    ExternalTarget::ExecutionId(ExecutionId(target))
}

fn divergence(expected: &str, actual: &str, index: i32) -> HistoryMatch {
    HistoryMatch::Diverged {
        expected: expected.into(),
        actual: actual.into(),
        event_index: Some(index),
    }
}

fn matched(output: Value) -> HistoryMatch {
    HistoryMatch::Matched { output }
}

#[test]
fn texts_are_assembled_from_their_parts() {
    assert_eq!(tag("Kind", "argument"), "Kind(argument)");
    assert_eq!(glue("left", "right"), "leftright");
    assert_eq!(label("charge", "{\"a\":1}"), "charge, input={\"a\":1}");
    assert_eq!(
        diverged("a".into(), "b".into(), 3),
        divergence("a", "b", 3)
    );
    assert_eq!(
        diverged("a".into(), "b".into(), 2_147_483_647),
        divergence("a", "b", i32::MAX)
    );
    assert_eq!(
        diverged("a".into(), "b".into(), 2_147_483_648),
        HistoryMatch::Diverged {
            expected: "a".into(),
            actual: "b".into(),
            event_index: None,
        }
    );
}

#[test]
fn marker_names_carry_id_or_number() {
    assert_eq!(patch_marker_name("fee"), "patch:fee");
    assert_eq!(version_marker_name("fee"), "version:fee");
    assert_eq!(saga_compensated_marker_name(0), "saga_compensated:0");
    assert_eq!(
        saga_compensation_failed_marker_name(4_294_967_295),
        "saga_compensation_failed:4294967295"
    );
}

#[test]
fn strict_activity_shows_both_inputs() {
    let recorded = obj(vec![("b", Value::from(2)), ("a", Value::from("x"))]);
    let mut m = HistoryMatcher::new(vec![scheduled(1, "charge", recorded.clone())]);
    assert_eq!(
        m.match_activity_strict("charge", &Value::from(-3)),
        divergence(
            "ActivityScheduled(charge, input={\"a\":\"x\",\"b\":2})",
            "ActivityScheduled(charge, input=-3)",
            0
        )
    );
    assert_eq!(m.position(), 0);
    assert_eq!(
        m.match_activity_strict("charge", &recorded),
        HistoryMatch::ActivityInProgress {
            activity_id: ActivityExecId(1)
        }
    );
}

#[test]
fn strict_activity_tells_integers_from_floats() {
    let mut m = HistoryMatcher::new(vec![scheduled(1, "charge", Value::from(1))]);
    assert_eq!(
        m.match_activity_strict("charge", &Value::from(1.0)),
        divergence(
            "ActivityScheduled(charge, input=1)",
            "ActivityScheduled(charge, input=1.0)",
            0
        )
    );
    let mut m = HistoryMatcher::new(vec![scheduled(1, "charge", Value::from(0.0))]);
    assert_eq!(
        m.match_activity_strict("charge", &Value::from(-0.0)),
        HistoryMatch::ActivityInProgress {
            activity_id: ActivityExecId(1)
        }
    );
}

#[test]
fn strict_activity_names_another_event() {
    let mut m = HistoryMatcher::new(vec![armed("t", 5)]);
    assert_eq!(
        m.match_activity_strict("charge", &Value::Null),
        divergence("ActivityScheduled(charge)", "TimerStarted", 0)
    );
}

#[test]
fn activity_timeout_is_given_back() {
    let mut m = HistoryMatcher::new(vec![
        scheduled(1, "charge", Value::Null),
        WorkflowEvent::ActivityTimedOut {
            activity_id: ActivityExecId(1),
            timeout_type: TimeoutType::Heartbeat,
        },
    ]);
    assert_eq!(
        m.match_activity("charge"),
        HistoryMatch::TimedOut {
            timeout_type: TimeoutType::Heartbeat
        }
    );
    assert_eq!(m.match_activity("charge"), HistoryMatch::NoMatch);
}

#[test]
fn strict_local_activity_is_new_until_an_attempt_failed() {
    let mut m = HistoryMatcher::new(vec![local(1, "hash", Value::from(1))]);
    assert_eq!(
        m.match_local_activity_strict("hash", &Value::from(1)),
        HistoryMatch::NoMatch
    );
    let mut m = HistoryMatcher::new(vec![
        local(1, "hash", Value::from(1)),
        local_failed(1, "first", 1),
        local_failed(1, "second", 2),
    ]);
    assert_eq!(
        m.match_local_activity_strict("hash", &Value::from(1)),
        HistoryMatch::LocalActivityInProgress {
            activity_id: ActivityExecId(1),
            failed_attempts: 2,
            last_error: Some("second".into()),
        }
    );
    assert_eq!(m.position(), 3);
}

#[test]
fn strict_local_activity_diverges_on_name_input_and_event() {
    let history = vec![local(1, "hash", Value::from(1))];
    let mut m = HistoryMatcher::new(history.clone());
    assert_eq!(
        m.match_local_activity_strict("sign", &Value::from(1)),
        divergence(
            "LocalActivityScheduled(sign)",
            "LocalActivityScheduled(hash)",
            0
        )
    );
    assert_eq!(
        m.match_local_activity_strict("hash", &Value::from(2)),
        divergence(
            "LocalActivityScheduled(hash, input=1)",
            "LocalActivityScheduled(hash, input=2)",
            0
        )
    );
    let mut m = HistoryMatcher::new(vec![marker("note", Value::Null)]);
    assert_eq!(
        m.match_local_activity_strict("hash", &Value::from(1)),
        divergence("LocalActivityScheduled(hash)", "MarkerRecorded(note)", 0)
    );
}

#[test]
fn exhausted_local_activity_fails_untyped() {
    let mut m = HistoryMatcher::new(vec![
        local(1, "hash", Value::Null),
        local_failed(1, "first", 1),
        WorkflowEvent::LocalActivityExhausted {
            activity_id: ActivityExecId(1),
            error: "gave up".into(),
            attempt: 2,
        },
    ]);
    assert_eq!(
        m.match_local_activity("hash"),
        HistoryMatch::Failed {
            error: "gave up".into(),
            attempt: 2,
            error_type: "Error".into(),
            details: None,
            non_retryable: false,
        }
    );
}

#[test]
fn recorded_resolution_of_a_local_activity_is_found_by_id() {
    let policy = RetryPolicy {
        max_attempts: 3,
        initial_interval_millis: 10,
        max_interval_millis: 100,
    };
    let m = HistoryMatcher::new(vec![
        local(1, "hash", Value::Null),
        WorkflowEvent::LocalActivityScheduled {
            activity_id: ActivityExecId(2),
            name: "hash".into(),
            input: Value::Null,
            retry_policy: Some(policy),
            resolved: true,
            start_to_close_nanos: Some(9),
        },
    ]);
    let found = m.recorded_local_activity_resolution(ActivityExecId(2));
    assert!(found.resolved);
    assert_eq!(found.retry_policy, Some(policy));
    assert_eq!(found.start_to_close_nanos, Some(9));
    let legacy = m.recorded_local_activity_resolution(ActivityExecId(1));
    assert!(!legacy.resolved);
    let absent = m.recorded_local_activity_resolution(ActivityExecId(3));
    assert!(!absent.resolved);
    assert_eq!(absent.retry_policy, None);
    assert_eq!(absent.start_to_close_nanos, None);
}

#[test]
fn scheduled_activities_ahead_are_counted_up_to_a_cap() {
    let m = HistoryMatcher::new(vec![
        scheduled(1, "a", Value::Null),
        marker("note", Value::Null),
        scheduled(2, "b", Value::Null),
        scheduled(3, "c", Value::Null),
    ]);
    assert_eq!(m.count_pending_scheduled_activities(0), 0);
    assert_eq!(m.count_pending_scheduled_activities(2), 2);
    assert_eq!(m.count_pending_scheduled_activities(9), 3);
    assert_eq!(m.position(), 0);
}

#[test]
fn external_activity_outcomes_are_given_back() {
    let awaiting = WorkflowEvent::ActivityAwaitingExternal {
        activity_id: ActivityExecId(1),
        token: ExternalActivityToken(9),
        name: "approve".into(),
        input: Value::Null,
        queue: "default".into(),
        schedule_to_close_secs: 60,
    };
    let mut m = HistoryMatcher::new(vec![
        awaiting.clone(),
        WorkflowEvent::ActivityExternalDeadlineExtended {
            activity_id: ActivityExecId(1),
            token: ExternalActivityToken(9),
            schedule_to_close_secs: 120,
        },
        WorkflowEvent::ActivityFailedExternally {
            activity_id: ActivityExecId(1),
            token: ExternalActivityToken(9),
            error: "denied".into(),
        },
    ]);
    assert_eq!(
        m.match_external_activity("approve"),
        HistoryMatch::Failed {
            error: "denied".into(),
            attempt: 1,
            error_type: "Error".into(),
            details: None,
            non_retryable: false,
        }
    );
    let mut m = HistoryMatcher::new(vec![awaiting]);
    assert_eq!(
        m.match_external_activity("reject"),
        divergence(
            "ActivityAwaitingExternal(reject)",
            "ActivityAwaitingExternal(approve)",
            0
        )
    );
    assert_eq!(
        m.match_external_activity("approve"),
        HistoryMatch::AwaitingExternalCompletion {
            activity_id: ActivityExecId(1),
            token: ExternalActivityToken(9),
        }
    );
}

#[test]
fn mutex_grant_is_given_back_or_diverges() {
    let at = Timestamp { secs: 5, nanos: 6 };
    let grant = WorkflowEvent::MutexGranted {
        key: "ledger".into(),
        lock_seq: -4,
        acquired_at: at,
    };
    let mut m = HistoryMatcher::new(vec![grant]);
    assert_eq!(
        m.match_mutex_granted("cache"),
        MutexGrantMatch::Diverged {
            expected: "MutexGranted(cache)".into(),
            actual: "MutexGranted(ledger)".into(),
            event_index: Some(0),
        }
    );
    assert_eq!(
        m.match_mutex_granted("ledger"),
        MutexGrantMatch::Granted {
            lock_seq: -4,
            acquired_at: at,
        }
    );
    assert_eq!(m.match_mutex_granted("ledger"), MutexGrantMatch::NoMatch);
    let mut m = HistoryMatcher::new(vec![armed("t", 1)]);
    assert_eq!(
        m.match_mutex_granted("ledger"),
        MutexGrantMatch::Diverged {
            expected: "MutexGranted(ledger)".into(),
            actual: "TimerStarted".into(),
            event_index: Some(0),
        }
    );
}

#[test]
fn timer_divergences_show_durations() {
    let mut m = HistoryMatcher::new(vec![armed("t", 90)]);
    assert_eq!(
        m.match_timer_strict("t", Some(1234567890)),
        divergence(
            "TimerStarted(t, duration=1234567890s)",
            "TimerStarted(t, duration=90s)",
            0
        )
    );
    assert_eq!(
        m.match_timer_strict("u", None),
        divergence("TimerStarted(u)", "TimerStarted(t)", 0)
    );
    assert_eq!(
        m.match_timer_arm("t", 0),
        divergence(
            "TimerStarted(t, duration=0s)",
            "TimerStarted(t, duration=90s)",
            0
        )
    );
    assert_eq!(m.match_timer_arm("t", 90), matched(Value::Null));
}

#[test]
fn side_effect_divergences_show_kind_and_name() {
    let mut m = HistoryMatcher::new(vec![WorkflowEvent::SideEffectRecorded {
        kind: SideEffectKind::Uuid,
        name: None,
        value: Value::from("u"),
    }]);
    assert_eq!(
        m.match_side_effect("dice"),
        divergence(
            "SideEffectRecorded(custom:dice)",
            "SideEffectRecorded(uuid)",
            0
        )
    );
    assert_eq!(
        m.match_side_effect_event(SideEffectKind::Random, None),
        divergence(
            "SideEffectRecorded(random)",
            "SideEffectRecorded(uuid)",
            0
        )
    );
    assert_eq!(
        m.match_side_effect_event(SideEffectKind::Uuid, None),
        matched(Value::from("u"))
    );
}

#[test]
fn a_negative_probe_reading_is_given_back() {
    let probe = |value: Value| {
        HistoryMatcher::new(vec![WorkflowEvent::SideEffectRecorded {
            kind: SideEffectKind::Now,
            name: Some("__harvest_deadline_probe".into()),
            value,
        }])
    };
    assert_eq!(
        probe(Value::from(-5)).match_side_effect_now_tolerant(),
        SideEffectNowMatch::Matched { millis: -5 }
    );
    assert_eq!(
        probe(Value::from(u64::MAX)).match_side_effect_now_tolerant(),
        SideEffectNowMatch::NotRecorded
    );
    assert_eq!(
        probe(Value::from("5")).match_side_effect_now_tolerant(),
        SideEffectNowMatch::NotRecorded
    );
}

#[test]
fn fan_out_count_is_verified() {
    let mut m = HistoryMatcher::new(vec![marker("fan_out:12", Value::from(3))]);
    assert_eq!(
        m.match_fan_out_marker(12, 40),
        divergence("fan_out:12(count=3)", "fan_out:12(count=40)", 0)
    );
    assert_eq!(
        m.match_fan_out_marker(1, 3),
        divergence(
            "MarkerRecorded(fan_out:1)",
            "MarkerRecorded(fan_out:12)",
            0
        )
    );
    assert_eq!(m.match_fan_out_marker(12, 3), matched(Value::from(3)));
    let mut m = HistoryMatcher::new(vec![marker("fan_out:0", Value::from("many"))]);
    assert_eq!(
        m.match_fan_out_marker(0, 1),
        divergence("fan_out:0(count=0)", "fan_out:0(count=1)", 0)
    );
    assert_eq!(m.match_fan_out_marker(0, 0), matched(Value::from(0)));
}

#[test]
fn u64_marker_divergence_shows_what_was_recorded() {
    let mut m = HistoryMatcher::new(vec![marker("race:1", Value::from(2))]);
    assert_eq!(
        m.match_u64_marker("race:1", 3),
        divergence(
            "MarkerRecorded(race:1, 3)",
            "MarkerRecorded(race:1, Some(2))",
            0
        )
    );
    let mut m = HistoryMatcher::new(vec![marker("race:1", Value::Bool(true))]);
    assert_eq!(
        m.match_u64_marker("race:1", 3),
        divergence("MarkerRecorded(race:1, 3)", "MarkerRecorded(race:1, None)", 0)
    );
}

#[test]
fn u64_marker_is_found_behind_a_sibling() {
    let mut m = HistoryMatcher::new(vec![
        scheduled(1, "a", Value::Null),
        marker("race_winner:1", Value::from(1)),
    ]);
    assert!(m.has_unconsumed_marker("race_winner:1"));
    assert_eq!(m.peek_u64_marker("race_winner:1"), Some(1));
    assert!(!m.has_unconsumed_marker("race_winner:1"));
    assert_eq!(m.peek_u64_marker("race_winner:1"), None);
    assert_eq!(m.position(), 0);
    assert_eq!(
        m.match_activity("a"),
        HistoryMatch::ActivityInProgress {
            activity_id: ActivityExecId(1)
        }
    );
}

#[test]
fn session_ids_are_read_in_every_form() {
    let id = "0123456789abcdef0123456789abcdef";
    let hyphenated = "01234567-89ab-cdef-0123-456789abcdef";
    for text in [
        hyphenated.to_string(),
        id.to_string(),
        hyphenated.to_uppercase(),
        format!("{{{hyphenated}}}"),
        format!("urn:uuid:{hyphenated}"),
    ] {
        let mut m = HistoryMatcher::new(vec![marker("session:3", Value::from(text))]);
        assert_eq!(m.match_session_marker(3), matched(Value::from(hyphenated)));
        assert_eq!(m.position(), 1);
    }
    let mut m = HistoryMatcher::new(vec![marker("session:0", Value::from("not an id"))]);
    assert_eq!(
        m.match_session_marker(0),
        divergence(
            "MarkerRecorded(session:0, <uuid>)",
            "MarkerRecorded(session:0, String(\"not an id\"))",
            0
        )
    );
    let mut m = HistoryMatcher::new(vec![marker("session:0", Value::from(5))]);
    assert_eq!(
        m.match_session_marker(0),
        divergence(
            "MarkerRecorded(session:0, <uuid>)",
            "MarkerRecorded(session:0, Number(5))",
            0
        )
    );
}

#[test]
fn session_marker_settles_with_or_without_an_id() {
    let mut m = HistoryMatcher::new(vec![marker("session:0", Value::Null)]);
    assert_eq!(
        m.settle_session_marker("session:0", None, "Null"),
        divergence(
            "MarkerRecorded(session:0, <uuid>)",
            "MarkerRecorded(session:0, Null)",
            0
        )
    );
    assert_eq!(
        m.settle_session_marker("session:0", Some(0xff), "anything"),
        matched(Value::from("00000000-0000-0000-0000-0000000000ff"))
    );
}

#[test]
fn named_marker_verifies_task_and_upstreams() {
    let details = obj(vec![
        ("task", Value::from("load")),
        (
            "upstreams",
            Value::Array(vec![Value::from(0), Value::from("x"), Value::from(12)]),
        ),
    ]);
    let history = vec![marker("dag_skip:1", details)];
    let mut m = HistoryMatcher::new(history.clone());
    assert_eq!(
        m.match_named_marker("dag_skip:1", "save", &[0, 12]),
        divergence(
            "MarkerRecorded(dag_skip:1, task=save)",
            "MarkerRecorded(dag_skip:1, task=load)",
            0
        )
    );
    assert_eq!(
        m.match_named_marker("dag_skip:1", "load", &[]),
        divergence(
            "MarkerRecorded(dag_skip:1, task=load, upstreams=[])",
            "MarkerRecorded(dag_skip:1, task=load, upstreams=[0, 12])",
            0
        )
    );
    assert_eq!(
        m.match_named_marker("dag_skip:2", "load", &[0, 12]),
        divergence(
            "MarkerRecorded(dag_skip:2)",
            "MarkerRecorded(dag_skip:1)",
            0
        )
    );
    assert_eq!(
        m.match_named_marker("dag_skip:1", "load", &[0, 12]),
        matched(Value::Null)
    );
    let mut m = HistoryMatcher::new(vec![marker("dag_skip:1", Value::Null)]);
    assert_eq!(
        m.match_named_marker("dag_skip:1", "", &[5]),
        matched(Value::Null)
    );
}

#[test]
fn recorded_version_is_read_leniently() {
    let version = |details: Value| {
        HistoryMatcher::new(vec![marker("version:fee", details)]).match_version("fee", 1, 9)
    };
    assert_eq!(version(Value::from(4)), 4);
    assert_eq!(version(Value::from(5_000_000_000u64)), 1);
    assert_eq!(version(Value::from("4")), 1);
}

#[test]
fn external_signal_outcomes_are_given_back() {
    let mut m = HistoryMatcher::new(vec![
        requested(1, 5, "go"),
        WorkflowEvent::ExternalSignalFailed {
            signal_id: ExternalSignalId(1),
            reason_code: "gone".into(),
        },
    ]);
    assert_eq!(
        m.match_external_signal(&to(5), "go"),
        HistoryMatch::ExternalSignalFailed {
            signal_id: ExternalSignalId(1),
            reason_code: "gone".into(),
        }
    );
    let mut m = HistoryMatcher::new(vec![requested(1, 5, "go")]);
    assert_eq!(
        m.match_external_signal(&to(5), "stop"),
        divergence(
            "ExternalSignalRequested(target=00000000-0000-0000-0000-000000000005, signal=stop)",
            "ExternalSignalRequested(target=00000000-0000-0000-0000-000000000005, signal=go)",
            0
        )
    );
    assert_eq!(
        m.match_external_signal(&to(5), "go"),
        HistoryMatch::ExternalSignalInProgress {
            signal_id: ExternalSignalId(1),
            payload: Value::from(7),
            idempotency_key: Some("key".into()),
        }
    );
    assert_eq!(
        m.match_external_signal(&to(5), "go"),
        HistoryMatch::NoMatch
    );
}

#[test]
fn external_cancel_and_await_outcomes_are_given_back() {
    let mut m = HistoryMatcher::new(vec![
        WorkflowEvent::ExternalCancelRequested {
            cancel_id: ExternalCancelId(1),
            target: to(5),
        },
        WorkflowEvent::ExternalAwaitRequested {
            await_id: ExternalAwaitId(2),
            target: ExecutionId(6),
        },
        WorkflowEvent::ExternalCancelFailed {
            cancel_id: ExternalCancelId(1),
            reason_code: "gone".into(),
        },
        WorkflowEvent::ExternalAwaitFailed {
            await_id: ExternalAwaitId(2),
            reason_code: "failed".into(),
            message: Some("boom".into()),
            error_type: Some("Boom".into()),
            details: Some(Value::from(3)),
            non_retryable: Some(true),
        },
    ]);
    assert_eq!(
        m.match_external_await(ExecutionId(6)),
        HistoryMatch::ExternalAwaitFailed {
            await_id: ExternalAwaitId(2),
            reason_code: "failed".into(),
            message: Some("boom".into()),
            error_type: Some("Boom".into()),
            details: Some(Value::from(3)),
            non_retryable: Some(true),
        }
    );
    assert_eq!(
        m.match_external_cancel(&to(5)),
        HistoryMatch::ExternalCancelFailed {
            cancel_id: ExternalCancelId(1),
            reason_code: "gone".into(),
        }
    );
    assert_eq!(m.match_external_cancel(&to(5)), HistoryMatch::NoMatch);
    let mut m = HistoryMatcher::new(vec![scheduled(1, "a", Value::Null)]);
    assert_eq!(
        m.match_external_await(ExecutionId(6)),
        divergence(
            "ExternalAwaitRequested(target=00000000-0000-0000-0000-000000000006)",
            "ActivityScheduled",
            0
        )
    );
}

#[test]
fn a_request_for_another_workflow_is_shown_where_it_is_recorded() {
    let cancel = WorkflowEvent::ExternalCancelRequested {
        cancel_id: ExternalCancelId(1),
        target: to(5),
    };
    let awaited = WorkflowEvent::ExternalAwaitRequested {
        await_id: ExternalAwaitId(2),
        target: ExecutionId(6),
    };
    let history = vec![requested(1, 5, "go"), cancel, awaited];
    let mut m = HistoryMatcher::new(history.clone());
    assert_eq!(
        m.match_external_cancel(&to(7)),
        divergence(
            "ExternalCancelRequested(target=00000000-0000-0000-0000-000000000007)",
            "ExternalCancelRequested(target=00000000-0000-0000-0000-000000000005)",
            1
        )
    );
    let mut m = HistoryMatcher::new(history);
    assert_eq!(
        m.match_external_await(ExecutionId(7)),
        divergence(
            "ExternalAwaitRequested(target=00000000-0000-0000-0000-000000000007)",
            "ExternalAwaitRequested(target=00000000-0000-0000-0000-000000000006)",
            2
        )
    );
    assert_eq!(m.match_external_await(ExecutionId(7)), HistoryMatch::NoMatch);
}

#[test]
fn a_signal_wait_diverges_at_the_event_it_cannot_cross() {
    let mut m = HistoryMatcher::new(vec![
        WorkflowEvent::SignalReceived {
            signal_name: "other".into(),
            payload: Value::from(1),
        },
        WorkflowEvent::WorkflowCompleted {
            output: Value::Null,
        },
    ]);
    assert_eq!(
        m.match_signal("go"),
        divergence("SignalReceived(go)", "WorkflowCompleted", 1)
    );
}

#[test]
fn detached_child_divergences_show_what_differs() {
    let mut m = HistoryMatcher::new(vec![WorkflowEvent::ChildWorkflowSpawnedDetached {
        child_id: ExecutionId(4),
        workflow_name: "audit".into(),
        input: Value::from(1),
        parent_close_policy: ParentClosePolicy::Abandon,
    }]);
    assert_eq!(
        m.match_detached_child_spawn("mail", &Value::from(1), ParentClosePolicy::Abandon),
        divergence(
            "ChildWorkflowSpawnedDetached(mail)",
            "ChildWorkflowSpawnedDetached(audit)",
            0
        )
    );
    assert_eq!(
        m.match_detached_child_spawn("audit", &Value::from("x"), ParentClosePolicy::Abandon),
        divergence(
            "DetachedChildWorkflowInput(\"x\")",
            "DetachedChildWorkflowInput(1)",
            0
        )
    );
    assert_eq!(
        m.match_detached_child_spawn("audit", &Value::from(1), ParentClosePolicy::Terminate),
        divergence(
            "DetachedChildWorkflowPolicy(terminate)",
            "DetachedChildWorkflowPolicy(abandon)",
            0
        )
    );
    assert_eq!(
        m.match_detached_child_spawn("audit", &Value::from(1), ParentClosePolicy::Abandon),
        HistoryMatch::DetachedChildSpawned {
            child_id: ExecutionId(4)
        }
    );
}

#[test]
fn hand_over_divergences_show_type_and_input() {
    let mut m = HistoryMatcher::new(vec![WorkflowEvent::WorkflowContinuedAsNew {
        new_exec_id: ExecutionId(1),
        input: Value::from(1),
        new_workflow_type: None,
    }]);
    assert!(m.recorded_continue_as_new_type_matches(None));
    assert!(!m.recorded_continue_as_new_type_matches(Some("phase2")));
    assert_eq!(
        m.match_continue_as_new(&Value::from(1), Some("phase2")),
        divergence(
            "WorkflowContinuedAsNewType(phase2)",
            "WorkflowContinuedAsNewType(<same type>)",
            0
        )
    );
    assert_eq!(
        m.match_continue_as_new(&Value::from(2), None),
        divergence(
            "WorkflowContinuedAsNewInput(2)",
            "WorkflowContinuedAsNewInput(1)",
            0
        )
    );
    assert_eq!(
        m.match_continue_as_new(&Value::from(1), None),
        matched(Value::from(1))
    );
    let empty = HistoryMatcher::new(vec![]);
    assert!(empty.recorded_continue_as_new_type_matches(Some("phase2")));
    let mut m = HistoryMatcher::new(vec![scheduled(1, "a", Value::Null)]);
    assert_eq!(
        m.match_continue_as_new(&Value::Null, None),
        divergence("WorkflowContinuedAsNew(null)", "ActivityScheduled", 0)
    );
}

#[test]
fn updates_are_answered_counted_and_handed_out() {
    let admitted = |id: u128| WorkflowEvent::UpdateAdmitted {
        update_id: UpdateId(id),
        name: "rename".into(),
        input: Value::from(8),
    };
    let m = HistoryMatcher::new(vec![
        admitted(1),
        admitted(2),
        admitted(3),
        WorkflowEvent::UpdateCompleted {
            update_id: UpdateId(1),
            output: Value::from(4),
        },
        WorkflowEvent::UpdateFailed {
            update_id: UpdateId(2),
            error: "no".into(),
        },
    ]);
    assert_eq!(m.match_update(UpdateId(1)), matched(Value::from(4)));
    assert_eq!(
        m.match_update(UpdateId(2)),
        HistoryMatch::Failed {
            error: "no".into(),
            attempt: 1,
            error_type: "Error".into(),
            details: None,
            non_retryable: false,
        }
    );
    assert_eq!(m.match_update(UpdateId(3)), HistoryMatch::NoMatch);
    assert_eq!(m.match_update(UpdateId(4)), HistoryMatch::NoMatch);
    assert_eq!(
        m.drain_admitted_updates(),
        vec![(UpdateId(3), "rename".to_string(), Value::from(8))]
    );
    assert_eq!(m.unfinished_update_handler_count_at_index(3), 3);
    assert_eq!(m.unfinished_update_handler_count_at_index(4), 2);
    assert_eq!(m.unfinished_update_handler_count_at_end(), 1);
    assert_eq!(m.unfinished_update_handlers_at_end(), vec![UpdateId(3)]);
    assert_eq!(m.unfinished_update_handler_count(), 0);
    assert_eq!(m.unfinished_update_handlers(), vec![]);
    assert!(m.all_handlers_finished());
    assert!(!m.all_handlers_finished_at_index(4));
    assert!(!m.all_handlers_finished_at_end());
}

#[test]
fn losers_of_a_race_leave_nothing_in_the_way() {
    let mut m = HistoryMatcher::new(vec![
        WorkflowEvent::ActivityStarted {
            activity_id: ActivityExecId(1),
            worker_id: WorkerId::new("w"),
        },
        WorkflowEvent::ActivityStarted {
            activity_id: ActivityExecId(2),
            worker_id: WorkerId::new("w"),
        },
        WorkflowEvent::ActivityHeartbeat {
            activity_id: ActivityExecId(1),
            details: Value::Null,
        },
    ]);
    m.consume_race_loser_frontier(&[], &[]);
    assert!(!m.is_consumed(0));
    m.consume_race_loser_frontier(&[ActivityExecId(1)], &[]);
    assert!(m.is_consumed(0));
    assert!(!m.is_consumed(1));
    assert!(m.is_consumed(2));
    assert_eq!(m.position(), 1);
}

#[test]
fn a_child_race_is_seen_ahead_of_time() {
    let m = HistoryMatcher::new(vec![
        WorkflowEvent::SignalReceived {
            signal_name: "go".into(),
            payload: Value::Null,
        },
        WorkflowEvent::ChildWorkflowStarted {
            child_id: ExecutionId(1),
            workflow_name: "ship".into(),
            input: Value::Null,
        },
        armed("__child_timeout:1:ship", 5),
    ]);
    assert!(m.peek_child_start_at_cursor("__child_timeout:1:ship"));
    assert!(!m.peek_child_start_at_cursor("__child_timeout:2:ship"));
    assert_eq!(m.position(), 0);
}

#[test]
fn signal_counts_come_in_the_order_of_their_names() {
    let received = |name: &str| WorkflowEvent::SignalReceived {
        signal_name: name.into(),
        payload: Value::Null,
    };
    let m = HistoryMatcher::new(vec![
        received("b"),
        received("\u{e9}"),
        received("a"),
        received("b"),
        received("ab"),
        received("Z"),
    ]);
    assert_eq!(
        m.unconsumed_signals_by_name(),
        vec![
            ("Z".to_string(), 1),
            ("a".to_string(), 1),
            ("ab".to_string(), 1),
            ("b".to_string(), 2),
            ("\u{e9}".to_string(), 1),
        ]
    );
}

#[test]
fn the_reserved_error_text_alone_abandons_nothing() {
    let failed = |attempt: u32| WorkflowEvent::ActivityFailed {
        activity_id: ActivityExecId(1),
        error: ABANDONED_DISPATCH_REASON.into(),
        attempt,
        error_type: "Error".into(),
        non_retryable: true,
        details: None,
    };
    let reopened = |attempt: u32| {
        HistoryMatcher::new(vec![
            scheduled(1, "a", Value::Null),
            failed(attempt),
            WorkflowEvent::WorkflowRedriven {
                redriven_at: Timestamp { secs: 0, nanos: 0 },
                dead_letter_id: 1,
                reason: None,
            },
        ])
    };
    assert_eq!(reopened(1).match_activity("a"), HistoryMatch::NoMatch);
    assert!(matches!(
        reopened(2).match_activity("a"),
        HistoryMatch::Failed { attempt: 2, .. }
    ));
}

#[test]
fn sizes_are_those_of_the_history() {
    let m = HistoryMatcher::new(vec![armed("t", 1), armed("u", 2)]);
    assert_eq!(m.event_count(), 2);
    assert_eq!(m.len(), 2);
    assert!(!m.is_empty());
    assert!(m.has_buffered_history());
    assert!(m.history_contains_timer_started("u"));
    assert!(!m.history_contains_timer_started("v"));
    let empty = HistoryMatcher::new(vec![]);
    assert_eq!(empty.event_count(), 0);
    assert!(empty.is_empty());
    assert!(!empty.has_buffered_history());
}
