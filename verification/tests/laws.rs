//! What holds of the matcher as a whole, on given histories.
use harvest_replay::event::WorkflowEvent;
use harvest_replay::matcher::HistoryMatcher;
use harvest_replay::outcome::{
    ChildOrTimerMatch, HistoryMatch, MutexGrantMatch, PatchMarkerMatch, SagaMarkerMatch,
    SideEffectNowMatch, SignalOrTimerMatch, TimerFireMatch,
};
use harvest_replay::types::{
    ActivityExecId, ExecutionId, ExternalSignalId, ExternalTarget, ParentClosePolicy,
    SideEffectKind, TimerId, Timestamp, UpdateId, WorkerId,
};
use serde_json::Value;

fn scheduled(id: u128, name: &str) -> WorkflowEvent {
    WorkflowEvent::ActivityScheduled {
        activity_id: ActivityExecId(id),
        name: name.into(),
        input: Value::from(1),
        queue: "default".into(),
    }
}

fn completed(id: u128, output: i32) -> WorkflowEvent {
    WorkflowEvent::ActivityCompleted {
        activity_id: ActivityExecId(id),
        output: Value::from(output),
    }
}

fn received(name: &str, payload: i32) -> WorkflowEvent {
    WorkflowEvent::SignalReceived {
        signal_name: name.into(),
        payload: Value::from(payload),
    }
}

fn armed(id: &str) -> WorkflowEvent {
    WorkflowEvent::TimerStarted {
        timer_id: TimerId::new(id),
        duration_secs: 30,
    }
}

fn fired(id: &str) -> WorkflowEvent {
    WorkflowEvent::TimerFired {
        timer_id: TimerId::new(id),
    }
}

fn cancelled(id: &str) -> WorkflowEvent {
    WorkflowEvent::TimerCancelled {
        timer_id: TimerId::new(id),
    }
}

fn marker(name: &str, details: Value) -> WorkflowEvent {
    WorkflowEvent::MarkerRecorded {
        name: name.into(),
        details,
    }
}

fn paused() -> WorkflowEvent {
    WorkflowEvent::WorkflowExecutionPaused {
        paused_at: Timestamp { secs: 1, nanos: 0 },
        reason: None,
        actor: "op".into(),
    }
}

fn failed() -> WorkflowEvent {
    WorkflowEvent::WorkflowFailed {
        error: "boom".into(),
        error_type: None,
        details: None,
        non_retryable: None,
    }
}

fn redriven() -> WorkflowEvent {
    WorkflowEvent::WorkflowRedriven {
        redriven_at: Timestamp { secs: 2, nanos: 0 },
        dead_letter_id: 1,
        reason: None,
    }
}

fn matched(output: i32) -> HistoryMatch {
    HistoryMatch::Matched {
        output: Value::from(output),
    }
}

#[test]
fn every_command_is_new_past_the_end() {
    let mut m = HistoryMatcher::new(vec![paused()]);
    let none = HistoryMatch::NoMatch;
    assert_eq!(m.match_activity("a"), none);
    assert_eq!(m.match_activity_strict("a", &Value::Null), none);
    assert_eq!(m.match_external_activity("a"), none);
    assert_eq!(m.match_local_activity("a"), none);
    assert_eq!(m.match_local_activity_strict("a", &Value::Null), none);
    assert_eq!(m.match_timer("t"), none);
    assert_eq!(m.match_timer_arm("t", 1), none);
    assert_eq!(m.match_timer_cancel("t"), none);
    assert_eq!(m.match_timer_or_cancel("t"), TimerFireMatch::NoMatch);
    assert!(!m.timer_scan_stopped_at_command());
    assert_eq!(m.match_mutex_granted("k"), MutexGrantMatch::NoMatch);
    assert_eq!(m.match_signal("s"), none);
    assert_eq!(m.match_race_signal("s", "race_winner:1"), none);
    assert_eq!(
        m.match_signal_or_timer("s", "t", None),
        SignalOrTimerMatch::NoMatch
    );
    assert_eq!(m.match_child_workflow("c", &Value::Null), none);
    assert_eq!(
        m.match_child_or_timer("c", &Value::Null, "t", None),
        ChildOrTimerMatch::NoMatch
    );
    assert_eq!(
        m.match_detached_child_spawn("c", &Value::Null, ParentClosePolicy::Abandon),
        none
    );
    assert_eq!(m.match_continue_as_new(&Value::Null, None), none);
    assert_eq!(
        m.match_side_effect_event(SideEffectKind::Now, None),
        none
    );
    assert_eq!(
        m.match_side_effect_now_tolerant(),
        SideEffectNowMatch::Frontier
    );
    assert_eq!(m.match_fan_out_marker(0, 1), none);
    assert_eq!(m.match_u64_marker("x", 1), none);
    assert_eq!(m.match_session_marker(0), none);
    assert_eq!(m.match_named_marker("x", "y", &[]), none);
    assert_eq!(m.peek_u64_marker("x"), None);
    assert_eq!(m.match_saga_marker("x"), SagaMarkerMatch::LiveFrontier);
    assert_eq!(m.match_version("v", 1, 4), 4);
    assert_eq!(m.match_patch_marker("p"), PatchMarkerMatch::NewlyPatched);
    assert_eq!(m.position(), 1);
}

#[test]
fn activities_replay_one_after_the_other() {
    let mut m = HistoryMatcher::new(vec![
        scheduled(1, "a"),
        completed(1, 10),
        scheduled(2, "b"),
        completed(2, 20),
    ]);
    assert_eq!(m.match_activity("a"), matched(10));
    assert_eq!(m.position(), 2);
    assert_eq!(m.match_activity_strict("b", &Value::from(1)), matched(20));
    assert_eq!(m.match_activity("c"), HistoryMatch::NoMatch);
    assert!(!m.has_non_lifecycle_unconsumed());
}

#[test]
fn an_outcome_is_found_behind_siblings_and_takes_only_its_own() {
    let mut m = HistoryMatcher::new(vec![
        scheduled(1, "a"),
        scheduled(2, "b"),
        WorkflowEvent::ActivityStarted {
            activity_id: ActivityExecId(1),
            worker_id: WorkerId::new("w"),
        },
        completed(2, 20),
        completed(1, 10),
    ]);
    assert_eq!(m.match_activity("a"), matched(10));
    assert!(m.is_consumed(2));
    assert!(!m.is_consumed(3));
    assert_eq!(m.match_activity("b"), matched(20));
    assert!(!m.is_replaying());
}

#[test]
fn a_pause_is_never_a_divergence() {
    let mut m = HistoryMatcher::new(vec![
        paused(),
        scheduled(1, "a"),
        paused(),
        completed(1, 10),
        paused(),
    ]);
    assert_eq!(m.match_activity("a"), matched(10));
    assert_eq!(m.match_activity("b"), HistoryMatch::NoMatch);
}

#[test]
fn preparing_twice_changes_nothing_more() {
    let mut m = HistoryMatcher::new(vec![received("s", 1), scheduled(1, "a"), received("s", 2)]);
    assert!(m.prepare_match());
    assert_eq!(m.position(), 1);
    assert!(m.is_consumed(0));
    assert!(!m.is_consumed(2));
    assert!(m.prepare_match());
    assert_eq!(m.position(), 1);
    assert!(!m.is_consumed(2));
}

#[test]
fn past_a_failure_everything_is_new() {
    let mut m = HistoryMatcher::new(vec![scheduled(1, "a"), completed(1, 10), failed(), paused()]);
    assert_eq!(
        HistoryMatcher::terminal_failure_tail_start(&[scheduled(1, "a"), failed(), paused()]),
        Some(1)
    );
    assert!(m.has_terminal_failure_tail());
    assert!(!m.at_terminal_failure_frontier());
    assert_eq!(m.match_activity("a"), matched(10));
    assert!(m.at_terminal_failure_frontier());
    assert_eq!(m.match_timer("t"), HistoryMatch::NoMatch);
}

#[test]
fn a_superseded_failure_is_transparent() {
    let mut m = HistoryMatcher::new(vec![
        scheduled(1, "a"),
        completed(1, 10),
        failed(),
        paused(),
        redriven(),
        scheduled(2, "b"),
        completed(2, 20),
    ]);
    assert!(!m.has_terminal_failure_tail());
    assert_eq!(m.match_activity("a"), matched(10));
    assert_eq!(m.match_activity("b"), matched(20));
}

#[test]
fn a_signal_is_delivered_once() {
    let mut m = HistoryMatcher::new(vec![received("s", 1), received("s", 2), received("t", 3)]);
    assert!(m.has_unconsumed_signal("s"));
    assert_eq!(m.match_signal("s"), matched(1));
    assert_eq!(m.try_claim_pending_signal("s"), Some(Value::from(2)));
    assert_eq!(m.claim_pending_signal("s"), vec![]);
    assert!(!m.has_unconsumed_signal("s"));
    assert_eq!(m.match_signal("s"), HistoryMatch::NoMatch);
    assert_eq!(m.match_signal("t"), matched(3));
}

#[test]
fn claiming_takes_all_of_a_name_in_order_and_then_nothing() {
    let mut m = HistoryMatcher::new(vec![
        received("s", 1),
        received("t", 2),
        received("s", 3),
        scheduled(1, "a"),
        received("s", 4),
    ]);
    assert_eq!(
        m.claim_pending_signal("s"),
        vec![(0, Value::from(1)), (2, Value::from(3))]
    );
    assert_eq!(m.claim_pending_signal("s"), vec![]);
    assert_eq!(m.try_claim_pending_signal("s"), None);
}

#[test]
fn a_reserved_signal_is_not_claimed() {
    let race = "__signal_timeout:1:s";
    let m = HistoryMatcher::new(vec![armed(race), received("s", 1), received("s", 2)]);
    assert!(m.is_race_reserved(1));
    assert!(!m.is_race_reserved(2));
    let m = HistoryMatcher::new(vec![armed(race), fired(race), received("s", 1)]);
    assert!(!m.is_race_reserved(2));
}

#[test]
fn the_first_recorded_side_of_a_signal_race_wins() {
    let race = "__signal_timeout:1:s";
    let mut m = HistoryMatcher::new(vec![armed(race), received("s", 1), fired(race)]);
    assert_eq!(
        m.match_signal_or_timer("s", race, Some(30)),
        SignalOrTimerMatch::SignalWon {
            payload: Value::from(1)
        }
    );
    assert!(m.is_consumed(2));
    let mut m = HistoryMatcher::new(vec![armed(race), fired(race), received("s", 1)]);
    assert_eq!(
        m.match_signal_or_timer("s", race, Some(30)),
        SignalOrTimerMatch::TimerWon
    );
    assert!(!m.has_non_lifecycle_unconsumed());
    assert_eq!(m.match_signal("s"), matched(1));
}

#[test]
fn a_race_branch_looks_no_further_than_its_settlement() {
    let history = vec![
        scheduled(1, "a"),
        marker("race_winner:1", Value::from(0)),
        received("s", 1),
    ];
    let mut m = HistoryMatcher::new(history.clone());
    assert_eq!(
        m.match_race_signal("s", "race_winner:1"),
        HistoryMatch::NoMatch
    );
    let mut m = HistoryMatcher::new(history);
    assert_eq!(m.match_race_signal("s", "race_winner:2"), matched(1));
}

#[test]
fn a_signal_behind_the_settlement_is_kept_from_the_race_branch() {
    let mut m = HistoryMatcher::new(vec![
        scheduled(1, "work"),
        marker("race_winner:1", Value::from(0)),
        received("go", 1),
        completed(1, 2),
    ]);
    assert_eq!(m.match_activity("work"), matched(2));
    assert_eq!(
        m.match_race_signal("go", "race_winner:1"),
        HistoryMatch::NoMatch
    );
    assert!(m.has_unconsumed_signal("go"));
    assert_eq!(m.peek_u64_marker("race_winner:1"), Some(0));
    assert_eq!(
        m.match_race_signal("go", "race_winner:1"),
        HistoryMatch::NoMatch
    );
    assert_eq!(m.match_signal("go"), matched(1));
    assert!(!m.has_unconsumed_signal("go"));
}

#[test]
fn a_signal_before_the_settlement_reaches_the_race_branch() {
    let mut m = HistoryMatcher::new(vec![
        scheduled(1, "work"),
        received("go", 1),
        marker("race_winner:1", Value::from(0)),
        completed(1, 2),
    ]);
    assert_eq!(m.match_activity("work"), matched(2));
    assert_eq!(m.match_race_signal("go", "race_winner:1"), matched(1));
}

#[test]
fn a_superseded_settlement_does_not_bound_a_race() {
    let mut m = HistoryMatcher::new(vec![
        marker("race_winner:1", Value::from(0)),
        failed(),
        redriven(),
        received("go", 1),
    ]);
    assert_eq!(m.match_race_signal("go", "race_winner:1"), matched(1));
}

#[test]
fn a_saga_marker_is_not_looked_for_behind_timers() {
    let name = "saga_compensated:1";
    for timer in [armed("t1"), cancelled("t1")] {
        let mut m = HistoryMatcher::new(vec![timer.clone()]);
        assert_eq!(m.match_saga_marker(name), SagaMarkerMatch::Absent);
        assert_eq!(m.position(), 0);
        let mut m = HistoryMatcher::new(vec![timer, marker(name, Value::Null)]);
        assert_eq!(m.match_saga_marker(name), SagaMarkerMatch::Absent);
        assert!(m.has_unconsumed_marker(name));
    }
}

#[test]
fn the_first_recorded_side_of_a_child_race_wins() {
    let start = WorkflowEvent::ChildWorkflowStarted {
        child_id: ExecutionId(1),
        workflow_name: "c".into(),
        input: Value::Null,
    };
    let done = WorkflowEvent::ChildWorkflowCompleted {
        child_id: ExecutionId(1),
        output: Value::from(5),
    };
    let mut m = HistoryMatcher::new(vec![start.clone(), armed("t"), done.clone(), fired("t")]);
    assert_eq!(
        m.match_child_or_timer("c", &Value::Null, "t", None),
        ChildOrTimerMatch::ChildCompleted {
            output: Value::from(5)
        }
    );
    assert!(m.is_consumed(3));
    let mut m = HistoryMatcher::new(vec![start, armed("t"), fired("t"), done]);
    assert_eq!(
        m.match_child_or_timer("c", &Value::Null, "t", None),
        ChildOrTimerMatch::TimerFired {
            child_id: ExecutionId(1),
            child_already_terminal: true,
        }
    );
    assert!(m.is_consumed(3));
}

#[test]
fn the_first_recorded_outcome_of_a_timer_wins_unless_a_command_stands_before_it() {
    let mut m = HistoryMatcher::new(vec![cancelled("t"), fired("t")]);
    assert_eq!(m.match_timer_or_cancel("t"), TimerFireMatch::Cancelled);
    let mut m = HistoryMatcher::new(vec![fired("t"), cancelled("t")]);
    assert_eq!(m.match_timer_or_cancel("t"), TimerFireMatch::Fired);
    let mut m = HistoryMatcher::new(vec![scheduled(1, "a"), fired("t")]);
    assert_eq!(m.match_timer_or_cancel("t"), TimerFireMatch::NoMatch);
    assert!(m.timer_scan_stopped_at_command());
    let mut m = HistoryMatcher::new(vec![armed("t"), cancelled("t")]);
    assert_eq!(m.match_timer_cancel("t"), HistoryMatch::NoMatch);
    assert!(m.timer_scan_stopped_at_command());
}

#[test]
fn external_signals_have_no_order_of_their_own() {
    let requested = |id: u128, name: &str| WorkflowEvent::ExternalSignalRequested {
        signal_id: ExternalSignalId(id),
        target: ExternalTarget::ExecutionId(ExecutionId(9)),
        signal_name: name.into(),
        payload: Value::Null,
        idempotency_key: None,
    };
    let history = vec![
        requested(1, "x"),
        requested(2, "y"),
        scheduled(3, "a"),
        WorkflowEvent::ExternalSignalDelivered {
            signal_id: ExternalSignalId(2),
        },
        WorkflowEvent::ExternalSignalFailed {
            signal_id: ExternalSignalId(1),
            reason_code: "gone".into(),
        },
    ];
    let target = ExternalTarget::ExecutionId(ExecutionId(9));
    let x = HistoryMatch::ExternalSignalFailed {
        signal_id: ExternalSignalId(1),
        reason_code: "gone".into(),
    };
    let y = HistoryMatch::Matched {
        output: Value::Null,
    };
    let mut m = HistoryMatcher::new(history.clone());
    assert_eq!(m.match_external_signal(&target, "x"), x);
    assert_eq!(m.match_external_signal(&target, "y"), y);
    let mut m = HistoryMatcher::new(history);
    assert_eq!(m.match_external_signal(&target, "y"), y);
    assert_eq!(m.match_external_signal(&target, "x"), x);
    assert_eq!(m.position(), 2);
}

#[test]
fn deprecating_a_patch_decides_it_for_good() {
    let mut m = HistoryMatcher::new(vec![scheduled(1, "a"), marker("patch:p", Value::Null)]);
    assert!(m.deprecate_patch("p"));
    assert!(m.is_consumed(1));
    assert!(m.deprecate_patch("p"));
    assert_eq!(m.match_patch_marker("p"), PatchMarkerMatch::Recorded);
    assert!(!m.deprecate_patch("q"));
    assert_eq!(m.match_patch_marker("q"), PatchMarkerMatch::Absent);
    let mut m = HistoryMatcher::new(vec![]);
    assert_eq!(m.match_patch_marker("p"), PatchMarkerMatch::NewlyPatched);
    assert!(m.deprecate_patch("p"));
    assert_eq!(m.match_patch_marker("p"), PatchMarkerMatch::Recorded);
}

#[test]
fn a_recorded_version_answers_both_gates() {
    let history = vec![marker("version:v", Value::from(2))];
    assert_eq!(
        HistoryMatcher::new(history.clone()).match_version("v", 1, 5),
        2
    );
    assert_eq!(
        HistoryMatcher::new(history).match_patch_marker("v"),
        PatchMarkerMatch::Recorded
    );
}

#[test]
fn a_saga_marker_takes_only_itself() {
    let mut m = HistoryMatcher::new(vec![
        WorkflowEvent::WorkflowCancelled { reason: "x".into() },
        received("s", 1),
        marker("saga_compensated:1", Value::Null),
    ]);
    assert_eq!(
        m.match_saga_marker("saga_compensated:1"),
        SagaMarkerMatch::Recorded
    );
    assert!(!m.is_consumed(0));
    assert!(!m.is_consumed(1));
    assert!(m.is_consumed(2));
    assert_eq!(
        m.match_saga_marker("saga_compensated:1"),
        SagaMarkerMatch::DrainedSignalFrontier
    );
    let mut m = HistoryMatcher::new(vec![scheduled(1, "a")]);
    assert_eq!(
        m.match_saga_marker("saga_compensated:1"),
        SagaMarkerMatch::Absent
    );
    assert_eq!(m.position(), 0);
}

#[test]
fn unanswered_updates_are_the_ones_handed_out() {
    let history = vec![
        WorkflowEvent::UpdateAdmitted {
            update_id: UpdateId(1),
            name: "u".into(),
            input: Value::Null,
        },
        scheduled(1, "a"),
        completed(1, 10),
    ];
    let mut m = HistoryMatcher::new(history);
    let before = m.drain_admitted_updates();
    assert_eq!(before.len(), 1);
    assert_eq!(m.match_update(UpdateId(1)), HistoryMatch::NoMatch);
    assert_eq!(m.match_activity("a"), matched(10));
    assert_eq!(m.drain_admitted_updates(), before);
    assert_eq!(m.unfinished_update_handlers(), vec![UpdateId(1)]);
}

#[test]
fn leftover_signals_are_leftover_history() {
    let mut m = HistoryMatcher::new(vec![received("s", 1), received("s", 2)]);
    assert_eq!(m.match_signal("s"), matched(1));
    assert_eq!(m.unconsumed_signals_by_name(), vec![("s".to_string(), 1)]);
    assert!(m.has_non_lifecycle_unconsumed());
    assert!(m.has_buffered_history());
    assert_eq!(m.match_signal("s"), matched(2));
    assert_eq!(m.unconsumed_signals_by_name(), vec![]);
    assert!(!m.has_non_lifecycle_unconsumed());
    assert!(!m.has_buffered_history());
}

#[test]
fn a_signal_outlives_the_commands_around_it() {
    let mut m = HistoryMatcher::new(vec![
        received("s", 1),
        scheduled(1, "a"),
        received("s", 2),
        completed(1, 10),
        armed("t"),
        received("s", 3),
        fired("t"),
        received("other", 4),
        received("s", 5),
    ]);
    assert_eq!(m.match_activity("a"), matched(10));
    assert_eq!(
        m.match_timer("t"),
        HistoryMatch::Matched {
            output: Value::Null
        }
    );
    for payload in [1, 2, 3, 5] {
        assert_eq!(m.match_signal("s"), matched(payload));
    }
    assert_eq!(m.match_signal("other"), matched(4));
    assert!(!m.has_buffered_history());
}
