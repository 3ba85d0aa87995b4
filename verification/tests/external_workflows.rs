//! Signals to, cancels of and awaits of other workflows.
use harvest_replay::event::WorkflowEvent;
use harvest_replay::matcher::HistoryMatcher;
use harvest_replay::outcome::{ChildOrTimerMatch, HistoryMatch, SignalOrTimerMatch};
use harvest_replay::stash::{StashedAwaitTerminal, StashedCancelTerminal};
use harvest_replay::types::{ActivityExecId, ExecutionId, ExternalActivityToken, ExternalAwaitId, ExternalCancelId, ExternalSignalId, ExternalTarget, ParentClosePolicy, TimerId};
use serde_json::Value;

fn fresh() -> u128 {
    uuid::Uuid::new_v4().as_u128()
}

fn obj(members: Vec<(&str, Value)>) -> Value {
    let mut map = serde_json::Map::new();
    for (key, value) in members {
        map.insert(key.to_string(), value);
    }
    Value::Object(map)
}

fn child_timer_id() -> TimerId {
    TimerId::new("__child_timeout:1:process_order")
}

fn child_started_event(child_id: ExecutionId) -> WorkflowEvent {
    WorkflowEvent::ChildWorkflowStarted {
        child_id,
        workflow_name: "process_order".into(),
        input: obj(vec![("id", Value::from(42))]),
    }
}

fn external_cancel_triplet() -> (
    ExternalCancelId,
    ExternalTarget,
    WorkflowEvent,
    WorkflowEvent,
) {
    let cancel_id = ExternalCancelId(fresh());
    let target = ExternalTarget::ExecutionId(ExecutionId(fresh()));
    let requested = WorkflowEvent::ExternalCancelRequested {
        cancel_id,
        target: target.clone(),
    };
    let delivered = WorkflowEvent::ExternalCancelDelivered { cancel_id };
    (cancel_id, target, requested, delivered)
}

fn external_await_triplet() -> (ExternalAwaitId, ExecutionId, WorkflowEvent, WorkflowEvent) {
    let await_id = ExternalAwaitId(fresh());
    let target = ExecutionId(fresh());
    let requested = WorkflowEvent::ExternalAwaitRequested { await_id, target };
    let resolved = WorkflowEvent::ExternalAwaitResolved {
        await_id,
        output: obj(vec![("done", Value::from(true))]),
    };
    (await_id, target, requested, resolved)
}

#[test]
fn matcher_external_signal_preserves_detached_spawn_before_delivery() {
    let signal_id = ExternalSignalId(fresh());
    let target = ExecutionId(fresh());
    let child_id = ExecutionId(fresh());
    let events = vec![
        WorkflowEvent::ExternalSignalRequested {
            signal_id,
            target: ExternalTarget::ExecutionId(target),
            signal_name: "poke".into(),
            payload: obj(vec![("n", Value::from(1))]),
            idempotency_key: None,
        },
        WorkflowEvent::ChildWorkflowSpawnedDetached {
            child_id,
            workflow_name: "monitor".into(),
            input: Value::Null,
            parent_close_policy: ParentClosePolicy::Abandon,
        },
        WorkflowEvent::ExternalSignalDelivered { signal_id },
    ];
    let mut matcher = HistoryMatcher::new(events);

    assert_eq!(
        matcher
            .match_external_signal(&ExternalTarget::ExecutionId(target), "poke"),
        HistoryMatch::Matched {
            output: Value::Null
        }
    );
    assert_eq!(
        matcher
            .match_detached_child_spawn("monitor", &Value::Null, ParentClosePolicy::Abandon,),
        HistoryMatch::DetachedChildSpawned { child_id }
    );
}

#[test]
fn match_external_await_no_history_is_no_match() {
    let target = ExecutionId(fresh());
    let mut matcher = HistoryMatcher::new(vec![]);
    assert_eq!(matcher.match_external_await(target), HistoryMatch::NoMatch);
}

#[test]
fn match_external_await_resolved_returns_matched_with_output() {
    let target = ExecutionId(fresh());
    let await_id = ExternalAwaitId(fresh());
    let output = obj(vec![("tracking", Value::from("abc123"))]);
    let mut matcher = HistoryMatcher::new(vec![
        WorkflowEvent::ExternalAwaitRequested { await_id, target },
        WorkflowEvent::ExternalAwaitResolved {
            await_id,
            output: output.clone(),
        },
    ]);
    assert_eq!(
        matcher.match_external_await(target),
        HistoryMatch::Matched { output }
    );
}

#[test]
fn match_external_await_failed_returns_typed_fields() {
    let target = ExecutionId(fresh());
    let await_id = ExternalAwaitId(fresh());
    let mut matcher = HistoryMatcher::new(vec![
        WorkflowEvent::ExternalAwaitRequested { await_id, target },
        WorkflowEvent::ExternalAwaitFailed {
            await_id,
            reason_code: "target_failed".into(),
            message: Some("payment declined".into()),
            error_type: Some("PaymentDeclined".into()),
            details: Some(obj(vec![("code", Value::from(402))])),
            non_retryable: Some(true),
        },
    ]);
    match matcher.match_external_await(target) {
        HistoryMatch::ExternalAwaitFailed {
            await_id: aid,
            reason_code,
            message,
            error_type,
            details,
            non_retryable,
        } => {
            assert_eq!(aid, await_id);
            assert_eq!(reason_code, "target_failed");
            assert_eq!(message.as_deref(), Some("payment declined"));
            assert_eq!(error_type.as_deref(), Some("PaymentDeclined"));
            assert_eq!(details.unwrap()["code"], 402);
            assert_eq!(non_retryable, Some(true));
        }
        other => panic!("expected ExternalAwaitFailed, got {other:?}"),
    }
}

#[test]
fn match_external_await_requested_no_terminal_is_in_progress() {
    let target = ExecutionId(fresh());
    let await_id = ExternalAwaitId(fresh());
    let mut matcher = HistoryMatcher::new(vec![WorkflowEvent::ExternalAwaitRequested {
        await_id,
        target,
    }]);
    assert_eq!(
        matcher.match_external_await(target),
        HistoryMatch::ExternalAwaitInProgress { await_id }
    );
}

#[test]
fn match_external_await_wrong_target_diverges() {
    let recorded_target = ExecutionId(fresh());
    let requested_target = ExecutionId(fresh());
    let await_id = ExternalAwaitId(fresh());
    let mut matcher = HistoryMatcher::new(vec![WorkflowEvent::ExternalAwaitRequested {
        await_id,
        target: recorded_target,
    }]);
    assert!(matches!(
        matcher.match_external_await(requested_target),
        HistoryMatch::Diverged { .. }
    ));
}

#[test]
fn match_external_await_concurrent_with_activity_replays_both() {
    let target = ExecutionId(fresh());
    let await_id = ExternalAwaitId(fresh());
    let act_id = ActivityExecId(fresh());
    let events = vec![
        WorkflowEvent::ExternalAwaitRequested { await_id, target },
        WorkflowEvent::ActivityScheduled {
            activity_id: act_id,
            name: "compute".into(),
            input: Value::Null,
            queue: "default".into(),
        },
        WorkflowEvent::ExternalAwaitResolved {
            await_id,
            output: obj(vec![("ok", Value::from(true))]),
        },
        WorkflowEvent::ActivityCompleted {
            activity_id: act_id,
            output: Value::from(7),
        },
    ];
    let mut matcher = HistoryMatcher::new(events.clone());
    assert_eq!(
        matcher.match_activity("compute"),
        HistoryMatch::Matched {
            output: Value::from(7)
        }
    );
    assert_eq!(
        matcher.match_external_await(target),
        HistoryMatch::Matched {
            output: obj(vec![("ok", Value::from(true))])
        }
    );

    let mut matcher2 = HistoryMatcher::new(events);
    assert!(matches!(
        matcher2.match_external_await(target),
        HistoryMatch::ExternalAwaitInProgress { .. }
    ));
}

#[test]
fn scan_activity_terminal_stashes_interleaved_external_cancel_triplet() {
    let activity_id = ActivityExecId(fresh());
    let (_, target, requested, delivered) = external_cancel_triplet();
    let events = vec![
        WorkflowEvent::ActivityScheduled {
            activity_id,
            name: "compute".into(),
            input: Value::Null,
            queue: "default".into(),
        },
        requested,
        delivered,
        WorkflowEvent::ActivityCompleted {
            activity_id,
            output: Value::from(7),
        },
    ];
    let mut matcher = HistoryMatcher::new(events);
    assert_eq!(
        matcher.match_activity("compute"),
        HistoryMatch::Matched {
            output: Value::from(7)
        }
    );
    assert_eq!(
        matcher.match_external_cancel(&target),
        HistoryMatch::Matched {
            output: Value::Null
        }
    );
}

#[test]
fn scan_local_activity_terminal_stashes_interleaved_external_cancel_triplet() {
    let activity_id = ActivityExecId(fresh());
    let (_, target, requested, delivered) = external_cancel_triplet();
    let output = obj(vec![("ok", Value::from(true))]);
    let events = vec![
        WorkflowEvent::LocalActivityScheduled {
            activity_id,
            name: "format_data".into(),
            input: Value::Null,
            retry_policy: None,
            resolved: false,
            start_to_close_nanos: None,
        },
        requested,
        delivered,
        WorkflowEvent::LocalActivityCompleted {
            activity_id,
            output: output.clone(),
        },
    ];
    let mut matcher = HistoryMatcher::new(events);
    assert_eq!(
        matcher.match_local_activity("format_data"),
        HistoryMatch::Matched { output }
    );
    assert_eq!(
        matcher.match_external_cancel(&target),
        HistoryMatch::Matched {
            output: Value::Null
        }
    );
}

#[test]
fn scan_local_activity_terminal_stashes_interleaved_external_await_triplet() {
    let activity_id = ActivityExecId(fresh());
    let (_, target, requested, resolved) = external_await_triplet();
    let output = obj(vec![("ok", Value::from(true))]);
    let events = vec![
        WorkflowEvent::LocalActivityScheduled {
            activity_id,
            name: "format_data".into(),
            input: Value::Null,
            retry_policy: None,
            resolved: false,
            start_to_close_nanos: None,
        },
        requested,
        resolved,
        WorkflowEvent::LocalActivityCompleted {
            activity_id,
            output: output.clone(),
        },
    ];
    let mut matcher = HistoryMatcher::new(events);
    assert_eq!(
        matcher.match_local_activity("format_data"),
        HistoryMatch::Matched { output }
    );
    assert_eq!(
        matcher.match_external_await(target),
        HistoryMatch::Matched {
            output: obj(vec![("done", Value::from(true))])
        }
    );
}

#[test]
fn drain_early_signals_stashes_interleaved_external_cancel_triplet() {
    let (cancel_id, _, requested, delivered) = external_cancel_triplet();
    let events = vec![requested, delivered];
    let mut matcher = HistoryMatcher::new(events);
    matcher.drain_early_signals();
    assert_eq!(matcher.position(), 2);
    assert_eq!(matcher.stashed_external_cancels().len(), 1);
    assert_eq!(matcher.stashed_external_cancels()[0].cancel_id, cancel_id);
    assert!(matches!(
        matcher.stashed_external_cancels()[0].terminal,
        Some(StashedCancelTerminal::Delivered)
    ));
}

#[test]
fn drain_early_signals_stashes_interleaved_external_await_triplet() {
    let (await_id, _, requested, resolved) = external_await_triplet();
    let events = vec![requested, resolved];
    let mut matcher = HistoryMatcher::new(events);
    matcher.drain_early_signals();
    assert_eq!(matcher.position(), 2);
    assert_eq!(matcher.stashed_external_awaits().len(), 1);
    assert_eq!(matcher.stashed_external_awaits()[0].await_id, await_id);
    assert!(matches!(
        matcher.stashed_external_awaits()[0].terminal,
        Some(StashedAwaitTerminal::Resolved(_))
    ));
}

#[test]
fn match_external_activity_stashes_interleaved_external_cancel_triplet() {
    let activity_id = ActivityExecId(fresh());
    let token = ExternalActivityToken(fresh());
    let (_, target, requested, delivered) = external_cancel_triplet();
    let output = obj(vec![("accepted", Value::from(true))]);
    let events = vec![
        WorkflowEvent::ActivityAwaitingExternal {
            activity_id,
            token,
            name: "ship_order".into(),
            input: Value::Null,
            queue: "fulfillment".into(),
            schedule_to_close_secs: 60,
        },
        requested,
        delivered,
        WorkflowEvent::ActivityCompletedExternally {
            activity_id,
            token,
            output: output.clone(),
        },
    ];
    let mut matcher = HistoryMatcher::new(events);
    assert_eq!(
        matcher.match_external_activity("ship_order"),
        HistoryMatch::Matched { output }
    );
    assert_eq!(
        matcher.match_external_cancel(&target),
        HistoryMatch::Matched {
            output: Value::Null
        }
    );
}

#[test]
fn match_external_activity_stashes_interleaved_external_await_triplet() {
    let activity_id = ActivityExecId(fresh());
    let token = ExternalActivityToken(fresh());
    let (_, target, requested, resolved) = external_await_triplet();
    let output = obj(vec![("accepted", Value::from(true))]);
    let events = vec![
        WorkflowEvent::ActivityAwaitingExternal {
            activity_id,
            token,
            name: "ship_order".into(),
            input: Value::Null,
            queue: "fulfillment".into(),
            schedule_to_close_secs: 60,
        },
        requested,
        resolved,
        WorkflowEvent::ActivityCompletedExternally {
            activity_id,
            token,
            output: output.clone(),
        },
    ];
    let mut matcher = HistoryMatcher::new(events);
    assert_eq!(
        matcher.match_external_activity("ship_order"),
        HistoryMatch::Matched { output }
    );
    assert_eq!(
        matcher.match_external_await(target),
        HistoryMatch::Matched {
            output: obj(vec![("done", Value::from(true))])
        }
    );
}

#[test]
fn match_external_signal_stashes_interleaved_external_cancel_triplet() {
    let signal_id = ExternalSignalId(fresh());
    let signal_target = ExecutionId(fresh());
    let (_, cancel_target, requested, delivered) = external_cancel_triplet();
    let events = vec![
        WorkflowEvent::ExternalSignalRequested {
            signal_id,
            target: ExternalTarget::ExecutionId(signal_target),
            signal_name: "poke".into(),
            payload: obj(vec![("n", Value::from(1))]),
            idempotency_key: None,
        },
        requested,
        delivered,
        WorkflowEvent::ExternalSignalDelivered { signal_id },
    ];
    let mut matcher = HistoryMatcher::new(events);
    assert_eq!(
        matcher.match_external_signal(
            &ExternalTarget::ExecutionId(signal_target),
            "poke"
        ),
        HistoryMatch::Matched {
            output: Value::Null
        }
    );
    assert_eq!(
        matcher.match_external_cancel(&cancel_target),
        HistoryMatch::Matched {
            output: Value::Null
        }
    );
}

#[test]
fn match_external_signal_stashes_interleaved_external_await_triplet() {
    let signal_id = ExternalSignalId(fresh());
    let signal_target = ExecutionId(fresh());
    let (_, await_target, requested, resolved) = external_await_triplet();
    let events = vec![
        WorkflowEvent::ExternalSignalRequested {
            signal_id,
            target: ExternalTarget::ExecutionId(signal_target),
            signal_name: "poke".into(),
            payload: obj(vec![("n", Value::from(1))]),
            idempotency_key: None,
        },
        requested,
        resolved,
        WorkflowEvent::ExternalSignalDelivered { signal_id },
    ];
    let mut matcher = HistoryMatcher::new(events);
    assert_eq!(
        matcher.match_external_signal(
            &ExternalTarget::ExecutionId(signal_target),
            "poke"
        ),
        HistoryMatch::Matched {
            output: Value::Null
        }
    );
    assert_eq!(
        matcher.match_external_await(await_target),
        HistoryMatch::Matched {
            output: obj(vec![("done", Value::from(true))])
        }
    );
}

#[test]
fn match_timer_strict_stashes_interleaved_external_cancel_triplet() {
    let timer_id = TimerId::new("cooldown");
    let (_, target, requested, delivered) = external_cancel_triplet();
    let events = vec![
        WorkflowEvent::TimerStarted {
            timer_id: timer_id.clone(),
            duration_secs: 30,
        },
        requested,
        delivered,
        WorkflowEvent::TimerFired { timer_id },
    ];
    let mut matcher = HistoryMatcher::new(events);
    assert_eq!(
        matcher.match_timer("cooldown"),
        HistoryMatch::Matched {
            output: Value::Null
        }
    );
    assert_eq!(
        matcher.match_external_cancel(&target),
        HistoryMatch::Matched {
            output: Value::Null
        }
    );
}

#[test]
fn match_timer_strict_stashes_interleaved_external_await_triplet() {
    let timer_id = TimerId::new("cooldown");
    let (_, target, requested, resolved) = external_await_triplet();
    let events = vec![
        WorkflowEvent::TimerStarted {
            timer_id: timer_id.clone(),
            duration_secs: 30,
        },
        requested,
        resolved,
        WorkflowEvent::TimerFired { timer_id },
    ];
    let mut matcher = HistoryMatcher::new(events);
    assert_eq!(
        matcher.match_timer("cooldown"),
        HistoryMatch::Matched {
            output: Value::Null
        }
    );
    assert_eq!(
        matcher.match_external_await(target),
        HistoryMatch::Matched {
            output: obj(vec![("done", Value::from(true))])
        }
    );
}

#[test]
fn timer_scan_cross_or_stop_stashes_interleaved_external_cancel_triplet() {
    let timer_id = TimerId::new("idle");
    let (_, target, requested, delivered) = external_cancel_triplet();
    let events = vec![
        requested,
        delivered,
        WorkflowEvent::TimerCancelled { timer_id },
    ];
    let mut matcher = HistoryMatcher::new(events);
    assert_eq!(
        matcher.match_timer_cancel("idle"),
        HistoryMatch::Matched {
            output: Value::Null
        }
    );
    assert_eq!(
        matcher.match_external_cancel(&target),
        HistoryMatch::Matched {
            output: Value::Null
        }
    );
}

#[test]
fn timer_scan_cross_or_stop_stashes_interleaved_external_await_triplet() {
    let timer_id = TimerId::new("idle");
    let (_, target, requested, resolved) = external_await_triplet();
    let events = vec![
        requested,
        resolved,
        WorkflowEvent::TimerCancelled { timer_id },
    ];
    let mut matcher = HistoryMatcher::new(events);
    assert_eq!(
        matcher.match_timer_cancel("idle"),
        HistoryMatch::Matched {
            output: Value::Null
        }
    );
    assert_eq!(
        matcher.match_external_await(target),
        HistoryMatch::Matched {
            output: obj(vec![("done", Value::from(true))])
        }
    );
}

#[test]
fn match_signal_inner_stashes_interleaved_external_cancel_triplet() {
    let timer_id = TimerId::new("distractor");
    let (_, target, requested, delivered) = external_cancel_triplet();
    let events = vec![
        WorkflowEvent::TimerCancelled { timer_id },
        requested,
        delivered,
        WorkflowEvent::SignalReceived {
            signal_name: "approved".into(),
            payload: obj(vec![("ok", Value::from(true))]),
        },
    ];
    let mut matcher = HistoryMatcher::new(events);
    assert_eq!(
        matcher.match_signal("approved"),
        HistoryMatch::Matched {
            output: obj(vec![("ok", Value::from(true))])
        }
    );
    assert_eq!(
        matcher.match_external_cancel(&target),
        HistoryMatch::Matched {
            output: Value::Null
        }
    );
}

#[test]
fn match_signal_inner_stashes_interleaved_external_await_triplet() {
    let timer_id = TimerId::new("distractor");
    let (_, target, requested, resolved) = external_await_triplet();
    let events = vec![
        WorkflowEvent::TimerCancelled { timer_id },
        requested,
        resolved,
        WorkflowEvent::SignalReceived {
            signal_name: "approved".into(),
            payload: obj(vec![("ok", Value::from(true))]),
        },
    ];
    let mut matcher = HistoryMatcher::new(events);
    assert_eq!(
        matcher.match_signal("approved"),
        HistoryMatch::Matched {
            output: obj(vec![("ok", Value::from(true))])
        }
    );
    assert_eq!(
        matcher.match_external_await(target),
        HistoryMatch::Matched {
            output: obj(vec![("done", Value::from(true))])
        }
    );
}

#[test]
fn signal_or_timer_stashes_interleaved_external_cancel_triplet() {
    let timer_id = TimerId::new("__signal_timeout:1:approval");
    let (_, target, requested, delivered) = external_cancel_triplet();
    let events = vec![
        WorkflowEvent::TimerStarted {
            timer_id: timer_id.clone(),
            duration_secs: 300,
        },
        requested,
        delivered,
        WorkflowEvent::SignalReceived {
            signal_name: "approval".into(),
            payload: obj(vec![("approved", Value::from(true))]),
        },
    ];
    let mut matcher = HistoryMatcher::new(events);
    assert_eq!(
        matcher.match_signal_or_timer("approval", timer_id.as_str(), Some(300)),
        SignalOrTimerMatch::SignalWon {
            payload: obj(vec![("approved", Value::from(true))])
        }
    );
    assert_eq!(
        matcher.match_external_cancel(&target),
        HistoryMatch::Matched {
            output: Value::Null
        }
    );
}

#[test]
fn signal_or_timer_stashes_interleaved_external_await_triplet() {
    let timer_id = TimerId::new("__signal_timeout:1:approval");
    let (_, target, requested, resolved) = external_await_triplet();
    let events = vec![
        WorkflowEvent::TimerStarted {
            timer_id: timer_id.clone(),
            duration_secs: 300,
        },
        requested,
        resolved,
        WorkflowEvent::SignalReceived {
            signal_name: "approval".into(),
            payload: obj(vec![("approved", Value::from(true))]),
        },
    ];
    let mut matcher = HistoryMatcher::new(events);
    assert_eq!(
        matcher.match_signal_or_timer("approval", timer_id.as_str(), Some(300)),
        SignalOrTimerMatch::SignalWon {
            payload: obj(vec![("approved", Value::from(true))])
        }
    );
    assert_eq!(
        matcher.match_external_await(target),
        HistoryMatch::Matched {
            output: obj(vec![("done", Value::from(true))])
        }
    );
}

#[test]
fn child_or_timer_stashes_interleaved_external_cancel_triplet() {
    let timer_id = child_timer_id();
    let child_id = ExecutionId(fresh());
    let (_, target, requested, delivered) = external_cancel_triplet();
    let events = vec![
        child_started_event(child_id),
        WorkflowEvent::TimerStarted {
            timer_id: timer_id.clone(),
            duration_secs: 300,
        },
        requested,
        delivered,
        WorkflowEvent::ChildWorkflowCompleted {
            child_id,
            output: obj(vec![("processed", Value::from(true))]),
        },
    ];
    let mut matcher = HistoryMatcher::new(events);
    let result = matcher.match_child_or_timer(
        "process_order",
        &obj(vec![("id", Value::from(42))]),
        timer_id.as_str(),
        Some(300),
    );
    assert_eq!(
        result,
        ChildOrTimerMatch::ChildCompleted {
            output: obj(vec![("processed", Value::from(true))])
        }
    );
    assert_eq!(
        matcher.match_external_cancel(&target),
        HistoryMatch::Matched {
            output: Value::Null
        }
    );
}

#[test]
fn child_or_timer_stashes_interleaved_external_await_triplet() {
    let timer_id = child_timer_id();
    let child_id = ExecutionId(fresh());
    let (_, target, requested, resolved) = external_await_triplet();
    let events = vec![
        child_started_event(child_id),
        WorkflowEvent::TimerStarted {
            timer_id: timer_id.clone(),
            duration_secs: 300,
        },
        requested,
        resolved,
        WorkflowEvent::ChildWorkflowCompleted {
            child_id,
            output: obj(vec![("processed", Value::from(true))]),
        },
    ];
    let mut matcher = HistoryMatcher::new(events);
    let result = matcher.match_child_or_timer(
        "process_order",
        &obj(vec![("id", Value::from(42))]),
        timer_id.as_str(),
        Some(300),
    );
    assert_eq!(
        result,
        ChildOrTimerMatch::ChildCompleted {
            output: obj(vec![("processed", Value::from(true))])
        }
    );
    assert_eq!(
        matcher.match_external_await(target),
        HistoryMatch::Matched {
            output: obj(vec![("done", Value::from(true))])
        }
    );
}
