//! Waits for signals, and claims of signals.
use harvest_replay::event::WorkflowEvent;
use harvest_replay::matcher::HistoryMatcher;
use harvest_replay::outcome::{HistoryMatch, SignalOrTimerMatch};
use harvest_replay::types::{ActivityExecId, ExecutionId, ParentClosePolicy, TimerId};
use serde_json::Value;

fn fresh() -> u128 {
    uuid::Uuid::new_v4().as_u128()
}

fn obj(members: Vec<(&str, Value)>) -> Value {
    let mut map = serde_json::Map::new();
    for (key, value) in members {
        map.insert(key.to_string(), value);
    }
    Value::Object(map)
}

fn ts(id: &str, dur: u64) -> WorkflowEvent {
    WorkflowEvent::TimerStarted {
        timer_id: TimerId::new(id),
        duration_secs: dur,
    }
}

fn tc(id: &str) -> WorkflowEvent {
    WorkflowEvent::TimerCancelled {
        timer_id: TimerId::new(id),
    }
}

fn payloads_only(claimed: Vec<(usize, Value)>) -> Vec<Value> {
    claimed.into_iter().map(|(_, payload)| payload).collect()
}

#[test]
fn matcher_signal_scan_skips_interleaved_timer_cancel() {
    let events = vec![
        tc("idle"),
        WorkflowEvent::SignalReceived {
            signal_name: "approved".into(),
            payload: obj(vec![("ok", Value::from(true))]),
        },
    ];
    let mut m = HistoryMatcher::new(events);
    assert_eq!(
        m.match_signal("approved"),
        HistoryMatch::Matched {
            output: obj(vec![("ok", Value::from(true))])
        },
        "signal scan must step over an interleaved TimerCancelled"
    );
    assert!(matches!(
        m.match_timer_cancel("idle"),
        HistoryMatch::Matched { .. }
    ));
}

#[test]
fn matcher_replays_signal_payload() {
    let events = vec![WorkflowEvent::SignalReceived {
        signal_name: "approved".into(),
        payload: obj(vec![("ok", Value::from(true))]),
    }];
    let mut matcher = HistoryMatcher::new(events);
    let result = matcher.match_signal("approved");
    assert_eq!(
        result,
        HistoryMatch::Matched {
            output: obj(vec![("ok", Value::from(true))]),
        }
    );
}

#[test]
fn matcher_skips_unrelated_signals_while_waiting() {
    let events = vec![
        WorkflowEvent::SignalReceived {
            signal_name: "cancel".into(),
            payload: obj(vec![("reason", Value::from("manual"))]),
        },
        WorkflowEvent::SignalReceived {
            signal_name: "approved".into(),
            payload: obj(vec![("ok", Value::from(true))]),
        },
    ];
    let mut matcher = HistoryMatcher::new(events);
    let result = matcher.match_signal("approved");
    assert_eq!(
        result,
        HistoryMatch::Matched {
            output: obj(vec![("ok", Value::from(true))]),
        }
    );
    assert_eq!(
        matcher.position(),
        2,
        "cursor should advance beyond matched signal to avoid stale divergences"
    );
}

#[test]
fn matcher_preserves_unrelated_signal_for_later_wait() {
    let events = vec![
        WorkflowEvent::SignalReceived {
            signal_name: "cancel".into(),
            payload: obj(vec![("reason", Value::from("manual"))]),
        },
        WorkflowEvent::SignalReceived {
            signal_name: "approved".into(),
            payload: obj(vec![("ok", Value::from(true))]),
        },
    ];
    let mut matcher = HistoryMatcher::new(events);

    let approved = matcher.match_signal("approved");
    assert_eq!(
        approved,
        HistoryMatch::Matched {
            output: obj(vec![("ok", Value::from(true))]),
        }
    );

    let cancel = matcher.match_signal("cancel");
    assert_eq!(
        cancel,
        HistoryMatch::Matched {
            output: obj(vec![("reason", Value::from("manual"))]),
        }
    );
}

#[test]
fn claim_pending_signal_returns_matching_payloads_in_order() {
    let events = vec![
        WorkflowEvent::SignalReceived {
            signal_name: "cancel".into(),
            payload: obj(vec![("seq", Value::from(1))]),
        },
        WorkflowEvent::SignalReceived {
            signal_name: "cancel".into(),
            payload: obj(vec![("seq", Value::from(2))]),
        },
    ];
    let mut matcher = HistoryMatcher::new(events);
    let claimed = payloads_only(matcher.claim_pending_signal("cancel"));
    assert_eq!(
        claimed,
        vec![obj(vec![("seq", Value::from(1))]), obj(vec![("seq", Value::from(2))])]
    );
}

#[test]
fn claim_pending_signal_ignores_other_names() {
    let events = vec![
        WorkflowEvent::SignalReceived {
            signal_name: "approved".into(),
            payload: obj(vec![("ok", Value::from(true))]),
        },
        WorkflowEvent::SignalReceived {
            signal_name: "cancel".into(),
            payload: obj(vec![("reason", Value::from("manual"))]),
        },
    ];
    let mut matcher = HistoryMatcher::new(events);
    let claimed = payloads_only(matcher.claim_pending_signal("cancel"));
    assert_eq!(claimed, vec![obj(vec![("reason", Value::from("manual"))])]);
}

#[test]
fn claim_pending_signal_is_idempotent_within_one_matcher() {
    let events = vec![WorkflowEvent::SignalReceived {
        signal_name: "cancel".into(),
        payload: obj(vec![("reason", Value::from("manual"))]),
    }];
    let mut matcher = HistoryMatcher::new(events);
    let first = payloads_only(matcher.claim_pending_signal("cancel"));
    assert_eq!(first, vec![obj(vec![("reason", Value::from("manual"))])]);

    let second = matcher.claim_pending_signal("cancel");
    assert!(second.is_empty());
}

#[test]
fn claim_pending_signal_claims_events_already_stashed_by_another_scan() {
    let activity_id = ActivityExecId(fresh());
    let events = vec![
        WorkflowEvent::SignalReceived {
            signal_name: "cancel".into(),
            payload: obj(vec![("reason", Value::from("manual"))]),
        },
        WorkflowEvent::ActivityScheduled {
            activity_id,
            name: "send_email".into(),
            input: Value::Null,
            queue: "default".into(),
        },
        WorkflowEvent::ActivityCompleted {
            activity_id,
            output: Value::from("sent"),
        },
    ];
    let mut matcher = HistoryMatcher::new(events);
    let activity_result = matcher.match_activity("send_email");
    assert!(matches!(activity_result, HistoryMatch::Matched { .. }));

    let claimed = payloads_only(matcher.claim_pending_signal("cancel"));
    assert_eq!(claimed, vec![obj(vec![("reason", Value::from("manual"))])]);
}

#[test]
fn claim_pending_signal_does_not_advance_past_an_unconsumed_activity() {
    let activity_id = ActivityExecId(fresh());
    let events = vec![
        WorkflowEvent::ActivityScheduled {
            activity_id,
            name: "send_email".into(),
            input: Value::Null,
            queue: "default".into(),
        },
        WorkflowEvent::ActivityCompleted {
            activity_id,
            output: Value::from("sent"),
        },
        WorkflowEvent::SignalReceived {
            signal_name: "cancel".into(),
            payload: obj(vec![("reason", Value::from("manual"))]),
        },
    ];
    let mut matcher = HistoryMatcher::new(events);

    let claimed = matcher.claim_pending_signal("cancel");
    assert!(
        claimed.is_empty(),
        "must not claim a signal recorded after an unconsumed activity: {claimed:?}"
    );

    let activity_result = matcher.match_activity("send_email");
    assert!(matches!(activity_result, HistoryMatch::Matched { .. }));

    let claimed = payloads_only(matcher.claim_pending_signal("cancel"));
    assert_eq!(claimed, vec![obj(vec![("reason", Value::from("manual"))])]);
}

#[test]
fn claim_pending_signal_does_not_steal_from_pull_based_wait() {
    let events = vec![WorkflowEvent::SignalReceived {
        signal_name: "cancel".into(),
        payload: obj(vec![("reason", Value::from("manual"))]),
    }];
    let mut matcher = HistoryMatcher::new(events);
    let claimed = payloads_only(matcher.claim_pending_signal("cancel"));
    assert_eq!(claimed, vec![obj(vec![("reason", Value::from("manual"))])]);

    let pulled = matcher.match_signal("cancel");
    assert_eq!(
        pulled,
        HistoryMatch::NoMatch,
        "the signal was already claimed by the push handler"
    );
}

#[test]
fn match_signal_does_not_steal_from_a_prior_claim() {
    let events = vec![
        WorkflowEvent::SignalReceived {
            signal_name: "cancel".into(),
            payload: obj(vec![("seq", Value::from(1))]),
        },
        WorkflowEvent::SignalReceived {
            signal_name: "cancel".into(),
            payload: obj(vec![("seq", Value::from(2))]),
        },
    ];
    let mut matcher = HistoryMatcher::new(events);
    let pulled = matcher.match_signal("cancel");
    assert_eq!(
        pulled,
        HistoryMatch::Matched {
            output: obj(vec![("seq", Value::from(1))])
        }
    );

    let claimed = payloads_only(matcher.claim_pending_signal("cancel"));
    assert_eq!(
        claimed,
        vec![obj(vec![("seq", Value::from(2))])],
        "only the not-yet-pulled event should be delivered to the handler"
    );
}

#[test]
fn claim_pending_signal_returns_empty_when_none_recorded() {
    let events = vec![WorkflowEvent::SignalReceived {
        signal_name: "approved".into(),
        payload: obj(vec![("ok", Value::from(true))]),
    }];
    let mut matcher = HistoryMatcher::new(events);
    let claimed = matcher.claim_pending_signal("cancel");
    assert!(claimed.is_empty());
}

#[test]
fn claim_pending_signal_does_not_steal_from_an_open_signal_timeout_race() {
    let timer_id = "__signal_timeout:1:approval";
    let events = vec![
        WorkflowEvent::TimerStarted {
            timer_id: TimerId::new(timer_id),
            duration_secs: 300,
        },
        WorkflowEvent::SignalReceived {
            signal_name: "approval".into(),
            payload: obj(vec![("approved", Value::from(true))]),
        },
        WorkflowEvent::TimerFired {
            timer_id: TimerId::new(timer_id),
        },
    ];

    let mut matcher = HistoryMatcher::new(events);
    let claimed = matcher.claim_pending_signal("approval");
    assert!(
        claimed.is_empty(),
        "the signal is reserved for the open race and must not be claimed: {claimed:?}"
    );

    let result = matcher.match_signal_or_timer("approval", timer_id, Some(300));
    assert_eq!(
        result,
        SignalOrTimerMatch::SignalWon {
            payload: obj(vec![("approved", Value::from(true))])
        },
        "the race must still see its own signal after a push-handler claim attempt"
    );
}

#[test]
fn claim_pending_signal_reserves_only_the_racing_occurrence_not_other_signals() {
    let timer_id = "__signal_timeout:1:approval";
    let events = vec![
        WorkflowEvent::TimerStarted {
            timer_id: TimerId::new(timer_id),
            duration_secs: 300,
        },
        WorkflowEvent::TimerFired {
            timer_id: TimerId::new(timer_id),
        },
        WorkflowEvent::SignalReceived {
            signal_name: "approval".into(),
            payload: obj(vec![("approved", Value::from(true)), ("late", Value::from(true))]),
        },
    ];
    let mut matcher = HistoryMatcher::new(events);
    let result = matcher.match_signal_or_timer("approval", timer_id, Some(300));
    assert_eq!(result, SignalOrTimerMatch::TimerWon);

    let claimed = payloads_only(matcher.claim_pending_signal("approval"));
    assert_eq!(
        claimed,
        vec![obj(vec![("approved", Value::from(true)), ("late", Value::from(true))])],
        "a signal recorded after the race already resolved is not reserved"
    );
}

#[test]
fn claim_pending_signal_claims_signals_unrelated_to_any_race() {
    let events = vec![WorkflowEvent::SignalReceived {
        signal_name: "cancel".into(),
        payload: obj(vec![("reason", Value::from("manual"))]),
    }];
    let mut matcher = HistoryMatcher::new(events);
    let claimed = payloads_only(matcher.claim_pending_signal("cancel"));
    assert_eq!(claimed, vec![obj(vec![("reason", Value::from("manual"))])]);
}

#[test]
fn claim_pending_signal_only_reserves_the_first_racing_signal_not_a_later_one() {
    let timer_id = "__signal_timeout:1:approval";
    let events = vec![
        WorkflowEvent::TimerStarted {
            timer_id: TimerId::new(timer_id),
            duration_secs: 300,
        },
        WorkflowEvent::SignalReceived {
            signal_name: "approval".into(),
            payload: obj(vec![("seq", Value::from(1))]),
        },
        WorkflowEvent::SignalReceived {
            signal_name: "approval".into(),
            payload: obj(vec![("seq", Value::from(2))]),
        },
        WorkflowEvent::TimerFired {
            timer_id: TimerId::new(timer_id),
        },
    ];

    let mut matcher = HistoryMatcher::new(events);
    let result = matcher.match_signal_or_timer("approval", timer_id, Some(300));
    assert_eq!(
        result,
        SignalOrTimerMatch::SignalWon {
            payload: obj(vec![("seq", Value::from(1))])
        },
        "the race must resolve on its own (first) signal"
    );

    let claimed = payloads_only(matcher.claim_pending_signal("approval"));
    assert_eq!(
        claimed,
        vec![obj(vec![("seq", Value::from(2))])],
        "only the first occurrence was reserved for the race; the second is ordinary"
    );
}

#[test]
fn claim_pending_signal_reserves_one_occurrence_per_concurrent_race() {
    let timer_a = "__signal_timeout:1:approval";
    let timer_b = "__signal_timeout:2:approval";
    let events = vec![
        WorkflowEvent::TimerStarted {
            timer_id: TimerId::new(timer_a),
            duration_secs: 300,
        },
        WorkflowEvent::TimerStarted {
            timer_id: TimerId::new(timer_b),
            duration_secs: 300,
        },
        WorkflowEvent::SignalReceived {
            signal_name: "approval".into(),
            payload: obj(vec![("seq", Value::from(1))]),
        },
        WorkflowEvent::SignalReceived {
            signal_name: "approval".into(),
            payload: obj(vec![("seq", Value::from(2))]),
        },
    ];

    let mut matcher = HistoryMatcher::new(events);
    let claimed = matcher.claim_pending_signal("approval");
    assert!(
        claimed.is_empty(),
        "both signals are reserved -- one per concurrent race, neither available to a push handler: {claimed:?}"
    );
}

#[test]
fn try_claim_pending_signal_returns_oldest_only_leaving_rest() {
    let events = vec![
        WorkflowEvent::SignalReceived {
            signal_name: "event".into(),
            payload: obj(vec![("seq", Value::from(1))]),
        },
        WorkflowEvent::SignalReceived {
            signal_name: "event".into(),
            payload: obj(vec![("seq", Value::from(2))]),
        },
    ];
    let mut matcher = HistoryMatcher::new(events);

    let first = matcher.try_claim_pending_signal("event");
    assert_eq!(first, Some(obj(vec![("seq", Value::from(1))])));

    let rest = payloads_only(matcher.claim_pending_signal("event"));
    assert_eq!(rest, vec![obj(vec![("seq", Value::from(2))])]);

    assert_eq!(matcher.try_claim_pending_signal("event"), None);
}

#[test]
fn try_claim_pending_signal_returns_none_when_none() {
    let events = vec![WorkflowEvent::SignalReceived {
        signal_name: "other".into(),
        payload: obj(vec![("ok", Value::from(true))]),
    }];
    let mut matcher = HistoryMatcher::new(events);
    assert_eq!(matcher.try_claim_pending_signal("event"), None);
}

#[test]
fn try_claim_pending_signal_skips_an_open_signal_timeout_race() {
    let timer_id = "__signal_timeout:1:approval";
    let events = vec![
        WorkflowEvent::TimerStarted {
            timer_id: TimerId::new(timer_id),
            duration_secs: 300,
        },
        WorkflowEvent::SignalReceived {
            signal_name: "approval".into(),
            payload: obj(vec![("approved", Value::from(true))]),
        },
        WorkflowEvent::TimerFired {
            timer_id: TimerId::new(timer_id),
        },
    ];
    let mut matcher = HistoryMatcher::new(events);
    assert_eq!(
        matcher.try_claim_pending_signal("approval"),
        None,
        "the signal is reserved for the open race and must not be try-claimed"
    );

    let result = matcher.match_signal_or_timer("approval", timer_id, Some(300));
    assert_eq!(
        result,
        SignalOrTimerMatch::SignalWon {
            payload: obj(vec![("approved", Value::from(true))])
        }
    );
}

#[test]
fn try_claim_pending_signal_does_not_advance_past_an_unconsumed_activity() {
    let activity_id = ActivityExecId(fresh());
    let events = vec![
        WorkflowEvent::ActivityScheduled {
            activity_id,
            name: "send_email".into(),
            input: Value::Null,
            queue: "default".into(),
        },
        WorkflowEvent::ActivityCompleted {
            activity_id,
            output: Value::from("sent"),
        },
        WorkflowEvent::SignalReceived {
            signal_name: "event".into(),
            payload: obj(vec![("seq", Value::from(1))]),
        },
    ];
    let mut matcher = HistoryMatcher::new(events);

    assert_eq!(
        matcher.try_claim_pending_signal("event"),
        None,
        "must not claim a signal recorded after an unconsumed activity"
    );

    let activity_result = matcher.match_activity("send_email");
    assert!(matches!(activity_result, HistoryMatch::Matched { .. }));

    assert_eq!(
        matcher.try_claim_pending_signal("event"),
        Some(obj(vec![("seq", Value::from(1))]))
    );
}

#[test]
fn try_claim_then_claim_all_no_double_delivery() {
    let events = vec![
        WorkflowEvent::SignalReceived {
            signal_name: "event".into(),
            payload: obj(vec![("seq", Value::from(1))]),
        },
        WorkflowEvent::SignalReceived {
            signal_name: "event".into(),
            payload: obj(vec![("seq", Value::from(2))]),
        },
        WorkflowEvent::SignalReceived {
            signal_name: "event".into(),
            payload: obj(vec![("seq", Value::from(3))]),
        },
    ];
    let mut matcher = HistoryMatcher::new(events);

    let first = matcher.try_claim_pending_signal("event");
    assert_eq!(first, Some(obj(vec![("seq", Value::from(1))])));

    let rest = payloads_only(matcher.claim_pending_signal("event"));
    assert_eq!(
        rest,
        vec![obj(vec![("seq", Value::from(2))]), obj(vec![("seq", Value::from(3))])],
        "the try-claimed occurrence must not reappear in the drain-all"
    );
}

#[test]
fn try_claim_pending_signal_drains_a_signal_that_lost_a_resolved_timer_race() {
    let timer_id = "__signal_timeout:0:approval";
    let events = vec![
        WorkflowEvent::TimerStarted {
            timer_id: TimerId::new(timer_id),
            duration_secs: 300,
        },
        WorkflowEvent::TimerFired {
            timer_id: TimerId::new(timer_id),
        },
        WorkflowEvent::SignalReceived {
            signal_name: "approval".into(),
            payload: obj(vec![("approved", Value::from(true)), ("late", Value::from(true))]),
        },
    ];
    let mut matcher = HistoryMatcher::new(events);

    assert!(
        (0..matcher.len()).all(|i| !matcher.is_race_reserved(i)),
        "a signal recorded after its race timer fired must not be reserved"
    );

    let result = matcher.match_signal_or_timer("approval", timer_id, Some(300));
    assert_eq!(result, SignalOrTimerMatch::TimerWon);

    assert_eq!(
        matcher.try_claim_pending_signal("approval"),
        Some(obj(vec![("approved", Value::from(true)), ("late", Value::from(true))])),
        "a signal that lost a resolved TimerWon race is fair game for a drain"
    );
}

#[test]
fn matcher_allows_non_signal_command_after_out_of_order_signal_match() {
    let timer_id = TimerId::new("cooldown");
    let events = vec![
        WorkflowEvent::SignalReceived {
            signal_name: "cancel".into(),
            payload: obj(vec![("reason", Value::from("manual"))]),
        },
        WorkflowEvent::SignalReceived {
            signal_name: "approved".into(),
            payload: obj(vec![("ok", Value::from(true))]),
        },
        WorkflowEvent::TimerStarted {
            timer_id: timer_id.clone(),
            duration_secs: 5,
        },
        WorkflowEvent::TimerFired { timer_id },
    ];
    let mut matcher = HistoryMatcher::new(events);

    let approved = matcher.match_signal("approved");
    assert!(matches!(approved, HistoryMatch::Matched { .. }));

    let timer = matcher.match_timer("cooldown");
    assert_eq!(
        timer,
        HistoryMatch::Matched {
            output: Value::Null
        }
    );
}

#[test]
fn matcher_signal_scan_skips_interleaved_reset() {
    let events = vec![
        tc("idle"),
        ts("idle", 300),
        WorkflowEvent::SignalReceived {
            signal_name: "approved".into(),
            payload: obj(vec![("ok", Value::from(true))]),
        },
    ];
    let mut m = HistoryMatcher::new(events);
    assert_eq!(
        m.match_signal("approved"),
        HistoryMatch::Matched {
            output: obj(vec![("ok", Value::from(true))])
        },
        "signal scan must step over an interleaved reset's [TimerCancelled, TimerStarted]"
    );
    assert!(matches!(
        m.match_timer_cancel("idle"),
        HistoryMatch::Matched { .. }
    ));
    assert!(matches!(
        m.match_timer_arm("idle", 300),
        HistoryMatch::Matched { .. }
    ));
}

#[test]
fn matcher_signal_scan_leaves_a_stray_timer_unconsumed_for_the_cycle_guard() {
    let events = vec![ts("timer-1", 10)];
    let mut m = HistoryMatcher::new(events);
    assert_eq!(
        m.match_signal("my-signal"),
        HistoryMatch::NoMatch,
        "the scan must park rather than guess; the stray timer is caught at \
         the end of the cycle"
    );
    assert!(
        !m.is_consumed(0),
        "the stray timer must be left UNCONSUMED — that is the whole signal \
         `history_has_unconsumed_events()` keys on to nd-block the run"
    );
}

#[test]
fn matcher_signal_scan_parks_on_lone_open_deadline_timer() {
    let events = vec![ts("__signal_timeout:0:go", 300)];
    let mut m = HistoryMatcher::new(events);
    assert_eq!(
        m.match_signal("go"),
        HistoryMatch::NoMatch,
        "a lone open signal-or-deadline race deadline timer must park (NoMatch), not diverge"
    );
}

#[test]
fn matcher_signal_scan_sequential_reset_then_signal_matches() {
    let events = vec![
        tc("idle"),
        ts("idle", 300),
        WorkflowEvent::SignalReceived {
            signal_name: "approved".into(),
            payload: obj(vec![("ok", Value::from(true))]),
        },
    ];
    let mut m = HistoryMatcher::new(events);
    assert!(matches!(
        m.match_timer_cancel("idle"),
        HistoryMatch::Matched { .. }
    ));
    assert!(matches!(
        m.match_timer_arm("idle", 300),
        HistoryMatch::Matched { .. }
    ));
    assert_eq!(
        m.match_signal("approved"),
        HistoryMatch::Matched {
            output: obj(vec![("ok", Value::from(true))])
        },
        "sequential reset then wait_for_signal with a later signal must match"
    );
}

#[test]
fn matcher_signal_scan_sequential_reset_no_signal_suspends() {
    let events = vec![tc("idle"), ts("idle", 300)];
    let mut m = HistoryMatcher::new(events);
    assert!(matches!(
        m.match_timer_cancel("idle"),
        HistoryMatch::Matched { .. }
    ));
    assert!(matches!(
        m.match_timer_arm("idle", 300),
        HistoryMatch::Matched { .. }
    ));
    assert_eq!(
        m.match_signal("approved"),
        HistoryMatch::NoMatch,
        "a consumed reset's timers with no signal yet must suspend, not diverge"
    );
}

#[test]
fn matcher_signal_wait_preserves_detached_spawn_before_later_signal() {
    let child_id = ExecutionId(fresh());
    let events = vec![
        WorkflowEvent::ChildWorkflowSpawnedDetached {
            child_id,
            workflow_name: "monitor".into(),
            input: Value::Null,
            parent_close_policy: ParentClosePolicy::Abandon,
        },
        WorkflowEvent::SignalReceived {
            signal_name: "approved".into(),
            payload: obj(vec![("ok", Value::from(true))]),
        },
    ];
    let mut matcher = HistoryMatcher::new(events);

    assert_eq!(
        matcher.match_signal("approved"),
        HistoryMatch::Matched {
            output: obj(vec![("ok", Value::from(true))])
        }
    );
    assert_eq!(
        matcher
            .match_detached_child_spawn("monitor", &Value::Null, ParentClosePolicy::Abandon,),
        HistoryMatch::DetachedChildSpawned { child_id }
    );
}
