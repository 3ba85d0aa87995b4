//! What a history hides from every command, and which signals it reserves, told by
//! what is recorded.
use crate::event::WorkflowEvent;
use crate::kinds::{is_cycle_record, is_redrive, race_signal_name};
use crate::origin::{
    abandoned, abandons_dispatch, cycle_tail, dispatches, failure_tail, is_silent, last_redrive,
    oldest_race, open_races, race_for, race_reserved, redriven, reopened, transparent_from_start,
    without,
};
use crate::origin_laws::{
    law_silent_events_are_transparent, lemma_reopened_grows, lemma_reopened_kinds,
};
use crate::replay::Replay;
use crate::scan::activity_progress;
use crate::search::{last_index, lemma_first_index, lemma_last_index, lemma_last_index_is};
use crate::vocabulary::{activity_gets_on, done_when_recorded};
use crate::wait_laws::{is_deadline_of, law_deadline_timer_names_its_signal};
use vstd::prelude::*;

verus! {

/// An operator paused or resumed the run, or the engine noted a retry of the run
/// or what became of its children.
pub open spec fn is_quiet(e: WorkflowEvent) -> bool {
    match e {
        WorkflowEvent::WorkflowExecutionPaused { .. } => true,
        WorkflowEvent::WorkflowExecutionResumed { .. } => true,
        WorkflowEvent::WorkflowRetryScheduled { .. } => true,
        WorkflowEvent::ChildWorkflowCascadeApplied { .. } => true,
        _ => false,
    }
}

/// Where the run was last reopened, and -1 where it never was.
pub open spec fn last_reopened(events: Seq<WorkflowEvent>, r: int) -> bool {
    &&& -1 <= r < events.len()
    &&& r >= 0 ==> events[r] is WorkflowRedriven
    &&& forall|k: int| r < k < events.len() ==> !(#[trigger] events[k] is WorkflowRedriven)
}

/// The last reopening is where it is looked for.
proof fn lemma_last_reopened(events: Seq<WorkflowEvent>, r: int)
    requires
        last_reopened(events, r),
    ensures
        last_redrive(events) == r,
{
    let p = |i: int| is_redrive(events[i]);
    assert forall|i: int| r < i < events.len() implies !#[trigger] p(i) by {
        assert(!(events[i] is WorkflowRedriven));
    }
    lemma_last_index_is(p, events.len() as int, r);
}

// ── The end of a failed run ─────────────────────────────────────────────────
/// A history ends in a failure exactly where the run's failure is recorded with
/// nothing but quiet events behind it, and something in front of it.
pub proof fn law_failed_run_ends_where_it_failed(events: Seq<WorkflowEvent>, i: int)
    ensures
        failure_tail(events) == Some(i) <==> {
            &&& 0 < i < events.len()
            &&& events[i] is WorkflowFailed
            &&& forall|k: int| i < k < events.len() ==> is_quiet(#[trigger] events[k])
        },
{
    let loud = |k: int| !is_silent(events[k]);
    lemma_last_index(loud, events.len() as int);
    assert(forall|k: int| #[trigger] loud(k) == !is_quiet(events[k]));
    if 0 < i < events.len() && events[i] is WorkflowFailed && forall|k: int|
        i < k < events.len() ==> is_quiet(#[trigger] events[k]) {
        assert forall|k: int| i < k < events.len() implies !#[trigger] loud(k) by {
            assert(is_quiet(events[k]));
        }
        lemma_last_index_is(loud, events.len() as int, i);
    }
    if failure_tail(events) == Some(i) {
        assert forall|k: int| i < k < events.len() implies is_quiet(#[trigger] events[k]) by {
            assert(!loud(k));
        }
    }
}

/// Reopenings mark no failure behind themselves.
proof fn lemma_marked_in_front(events: Seq<WorkflowEvent>, r: int, n: int, i: int)
    requires
        last_reopened(events, r),
        n <= events.len(),
        reopened(events, n).contains(i),
        r < i,
    ensures
        0 <= i < events.len(),
        is_quiet(events[i]),
    decreases n,
{
    if n > 0 {
        let before = reopened(events, n - 1);
        lemma_last_index(|k: int| !before.contains(k), n - 1);
        if before.contains(i) {
            lemma_marked_in_front(events, r, n - 1, i);
        } else {
            assert(is_redrive(events[n - 1]));
            assert(n - 1 <= r);
        }
    }
}

/// Behind the last reopening of a run, or anywhere in a run that was never
/// reopened, an event is hidden exactly where it is quiet or is the failure in
/// which the history ends: whatever else was recorded there is still to be
/// claimed.
pub proof fn law_nothing_is_hidden_behind_the_last_reopening(
    events: Seq<WorkflowEvent>,
    r: int,
    i: int,
)
    requires
        last_reopened(events, r),
        r < i,
    ensures
        transparent_from_start(events).contains(i) <==> 0 <= i < events.len() && (is_quiet(
            events[i],
        ) || (i > 0 && events[i] is WorkflowFailed && forall|k: int|
            i < k < events.len() ==> is_quiet(#[trigger] events[k]))),
{
    let n = events.len() as int;
    lemma_last_reopened(events, r);
    law_failed_run_ends_where_it_failed(events, i);
    if 0 <= i < n && is_quiet(events[i]) {
        law_silent_events_are_transparent(events, i);
    }
    if transparent_from_start(events).contains(i) {
        if reopened(events, n).contains(i) {
            lemma_marked_in_front(events, r, n, i);
        } else {
            assert(!redriven(events).contains(i));
            let start = failure_tail(events).unwrap();
            law_failed_run_ends_where_it_failed(events, start);
            if i > start {
                assert(is_quiet(events[i]));
            }
        }
    }
}

// ── Reopened runs ───────────────────────────────────────────────────────────
/// Every reopening of a run is hidden.
pub proof fn law_reopenings_are_hidden(events: Seq<WorkflowEvent>, i: int)
    requires
        0 <= i < events.len(),
        events[i] is WorkflowRedriven || is_quiet(events[i]),
    ensures
        transparent_from_start(events).contains(i),
{
    law_silent_events_are_transparent(events, i);
}

/// Which failure the only reopening of a run supersedes.
proof fn lemma_single_reopening(events: Seq<WorkflowEvent>, r: int, n: int, i: int)
    requires
        last_reopened(events, r),
        0 <= r,
        forall|k: int| 0 <= k < r ==> !(#[trigger] events[k] is WorkflowRedriven),
        n <= events.len(),
        0 <= i < r,
        !is_quiet(events[i]),
    ensures
        reopened(events, n).contains(i) <==> n > r && events[i] is WorkflowFailed && forall|k: int|
            i < k < r ==> is_quiet(#[trigger] events[k]),
    decreases n,
{
    if n > 0 {
        let before = reopened(events, n - 1);
        lemma_single_reopening(events, r, n - 1, i);
        if n - 1 == r {
            let open = |k: int| !before.contains(k);
            lemma_last_index(open, r);
            assert(is_redrive(events[r]));
            assert forall|k: int| 0 <= k < r implies #[trigger] open(k) == !is_quiet(events[k]) by {
                if is_quiet(events[k]) {
                    lemma_reopened_grows(events, 0, r);
                    assert(reopened(events, 0).contains(k));
                } else {
                    lemma_single_reopening(events, r, r, k);
                }
            }
            if forall|k: int| i < k < r ==> is_quiet(#[trigger] events[k]) {
                assert forall|k: int| i < k < r implies !#[trigger] open(k) by {
                    assert(is_quiet(events[k]));
                }
                assert(open(i));
                lemma_last_index_is(open, r, i);
            } else {
                let k = choose|k: int| i < k < r && !is_quiet(#[trigger] events[k]);
                assert(open(k));
            }
        } else {
            assert(!(events[n - 1] is WorkflowRedriven)) by {
                if n - 1 < r {
                    assert(0 <= n - 1);
                }
            }
        }
    }
}

/// Where a run was reopened once, the failure that is hidden for it is the one
/// right in front, with nothing but quiet events in between, and no other.
pub proof fn law_one_reopening_supersedes_the_failure_in_front(
    events: Seq<WorkflowEvent>,
    r: int,
    i: int,
)
    requires
        last_reopened(events, r),
        0 <= i < r,
        forall|k: int| 0 <= k < r ==> !(#[trigger] events[k] is WorkflowRedriven),
        events[i] is WorkflowFailed,
    ensures
        transparent_from_start(events).contains(i) <==> forall|k: int|
            i < k < r ==> is_quiet(#[trigger] events[k]),
{
    let n = events.len() as int;
    lemma_last_reopened(events, r);
    lemma_single_reopening(events, r, n, i);
    lemma_tail_is_behind(events, r);
    if redriven(events).contains(i) && !reopened(events, n).contains(i) {
        let skipped = reopened(events, n).union(abandoned(events, r));
        let other = |k: int| !skipped.contains(k) && !is_cycle_record(events[k]);
        lemma_last_index(other, r);
        assert(!abandoned(events, r).contains(i));
        assert(other(i));
    }
}

/// The tail of a failed run begins behind its last reopening.
proof fn lemma_tail_is_behind(events: Seq<WorkflowEvent>, r: int)
    requires
        last_reopened(events, r),
    ensures
        failure_tail(events) matches Some(start) ==> start > r,
{
    if failure_tail(events) is Some {
        let start = failure_tail(events).unwrap();
        law_failed_run_ends_where_it_failed(events, start);
        if r > start {
            assert(is_quiet(events[r]));
        }
    }
}

/// Whether a failing cycle recorded this as the failure of an activity or a child
/// that it left behind: with the reserved reason, as permanent and untyped; an
/// activity also with no worker ever having taken it up.
pub open spec fn left_behind(events: Seq<WorkflowEvent>, i: int) -> bool {
    match events[i] {
        WorkflowEvent::ActivityFailed {
            activity_id,
            error,
            attempt,
            error_type,
            non_retryable,
            details,
        } => {
            &&& error@ == "dispatch abandoned by a failing workflow run"@
            &&& attempt == 1
            &&& error_type@ == "Error"@
            &&& non_retryable
            &&& details is None
            &&& forall|j: int| 0 <= j < i ==> !activity_gets_on(#[trigger] events[j], activity_id)
        },
        WorkflowEvent::ChildWorkflowFailed {
            error,
            error_type,
            details,
            non_retryable,
            ..
        } => {
            &&& error@ == "dispatch abandoned by a failing workflow run"@
            &&& error_type is None
            &&& details is None
            &&& non_retryable == Some(true)
        },
        _ => false,
    }
}

/// Whether the event started the work that failed.
pub open spec fn began(start: WorkflowEvent, failure: WorkflowEvent) -> bool {
    ||| start matches WorkflowEvent::ActivityScheduled { activity_id: a, .. } && failure
        matches WorkflowEvent::ActivityFailed { activity_id: b, .. } && a == b
    ||| start matches WorkflowEvent::ChildWorkflowStarted { child_id: a, .. } && failure
        matches WorkflowEvent::ChildWorkflowFailed { child_id: b, .. } && a == b
}

/// In front of the last reopening of a run, what its commands recorded is hidden
/// exactly where it is work that a failing cycle left behind, its failure or what
/// began it; or where it was done as soon as it was recorded, and nothing stands
/// between it and the reopening but what is hidden or was done in the same way.
pub proof fn law_superseded_work_is_hidden(events: Seq<WorkflowEvent>, r: int, i: int)
    requires
        last_reopened(events, r),
        0 <= i < r,
        !is_quiet(events[i]),
        !(events[i] is WorkflowRedriven),
        !(events[i] is WorkflowFailed),
    ensures
        transparent_from_start(events).contains(i) <==> {
            ||| left_behind(events, i)
            ||| exists|j: int|
                0 <= j < r && #[trigger] left_behind(events, j) && began(events[i], events[j])
            ||| done_when_recorded(events[i]) && forall|k: int|
                i < k < r ==> transparent_from_start(events).contains(k) || done_when_recorded(
                    #[trigger] events[k],
                )
        },
{
    let n = events.len() as int;
    let hidden = transparent_from_start(events);
    let silent = reopened(events, n);
    let skipped = silent.union(abandoned(events, r));
    let other = |k: int| !skipped.contains(k) && !is_cycle_record(events[k]);
    lemma_last_reopened(events, r);
    lemma_tail_is_behind(events, r);
    lemma_last_index(other, r);
    if silent.contains(i) {
        lemma_reopened_kinds(events, n, i);
    }
    let stop = last_index(other, r);
    assert forall|k: int| 0 <= k < r implies #[trigger] left_behind(events, k)
        == abandons_dispatch(events, k) by {
        lemma_left_behind(events, k);
    }
    assert(abandoned(events, r).contains(i) <==> left_behind(events, i) || exists|j: int|
        0 <= j < r && #[trigger] left_behind(events, j) && began(events[i], events[j])) by {
        assert(left_behind(events, i) == abandons_dispatch(events, i));
        if exists|j: int|
            0 <= j < r && #[trigger] left_behind(events, j) && began(events[i], events[j]) {
            let j = choose|j: int|
                0 <= j < r && #[trigger] left_behind(events, j) && began(events[i], events[j]);
            assert(abandons_dispatch(events, j) && dispatches(events[i], events[j]));
        }
        if abandoned(events, r).contains(i) && !abandons_dispatch(events, i) {
            let j = choose|j: int|
                0 <= j < r && #[trigger] abandons_dispatch(events, j) && dispatches(
                    events[i],
                    events[j],
                );
            assert(left_behind(events, j) && began(events[i], events[j]));
        }
    }
    assert forall|k: int| 0 <= k < r implies #[trigger] hidden.contains(k) == (skipped.contains(k)
        || cycle_tail(events, skipped, r).contains(k)) by {}
    if hidden.contains(i) && !skipped.contains(i) {
        assert(!other(i));
        assert forall|k: int| i < k < r implies hidden.contains(k) || done_when_recorded(
            #[trigger] events[k],
        ) by {
            assert(!other(k));
        }
    }
    if done_when_recorded(events[i]) && (forall|k: int|
        i < k < r ==> hidden.contains(k) || done_when_recorded(#[trigger] events[k])) {
        assert forall|k: int| i <= k < r implies !#[trigger] other(k) by {
            if k > i {
                assert(hidden.contains(k) || done_when_recorded(events[k]));
                if hidden.contains(k) && !skipped.contains(k) {
                    assert(stop < k);
                }
            }
        }
        assert(stop < i);
    }
}

/// The reserved shape is the one that is looked for.
proof fn lemma_left_behind(events: Seq<WorkflowEvent>, i: int)
    ensures
        left_behind(events, i) == abandons_dispatch(events, i),
{
    match events[i] {
        WorkflowEvent::ActivityFailed { activity_id, .. } => {
            assert(forall|j: int|
                0 <= j < i ==> activity_gets_on(#[trigger] events[j], activity_id)
                    == activity_progress(events[j], activity_id));
        },
        _ => {},
    }
}

// ── The first state ─────────────────────────────────────────────────────────
/// Before the first command nothing is taken but what the history hides, nothing
/// waits, nothing is decided, and the cursor stands at the first event.
pub proof fn law_fresh_matcher_has_taken_nothing(events: Seq<WorkflowEvent>)
    ensures
        ({
            let s = Replay::start(events);
            &&& s.events == events
            &&& s.cursor == 0
            &&& forall|i: int| #[trigger]
                s.consumed(i) == transparent_from_start(events).contains(i)
            &&& s.pending_signals.len() == 0
            &&& s.external_signals.len() == 0
            &&& s.external_cancels.len() == 0
            &&& s.external_awaits.len() == 0
            &&& forall|i: int| !#[trigger] s.late.contains(i)
            &&& forall|id: Seq<char>| !#[trigger] s.deprecated.contains_key(id)
            &&& forall|id: Seq<char>| !#[trigger] s.latched.contains(id)
            &&& !s.scan_stopped
            &&& s.failure_tail == failure_tail(events)
            &&& s.reserved == race_reserved(events)
        }),
{
}

// ── Reserved signals ────────────────────────────────────────────────────────
/// Whether a deadline of a wait for the signal was armed.
pub open spec fn arms_deadline(e: WorkflowEvent, name: Seq<char>) -> bool {
    e matches WorkflowEvent::TimerStarted { timer_id, .. } && is_deadline_of(timer_id.0@, name)
}

/// Whether a signal of that name was received.
pub open spec fn brings(e: WorkflowEvent, name: Seq<char>) -> bool {
    e matches WorkflowEvent::SignalReceived { signal_name, .. } && signal_name@ == name
}

/// A race that is not the timer's stays when the timer's leave.
proof fn lemma_without_keeps(races: Seq<Seq<char>>, timer: Seq<char>, other: Seq<char>)
    requires
        races.contains(other),
        other != timer,
    ensures
        without(races, timer).contains(other),
    decreases races.len(),
{
    let front = races.drop_last();
    if races.last() == other {
        let rest = without(front, timer);
        assert(rest.push(other)[rest.len() as int] == other);
    } else {
        let k = choose|k: int| 0 <= k < races.len() && races[k] == other;
        assert(front[k] == other);
        lemma_without_keeps(front, timer, other);
        let rest = without(front, timer);
        let o = choose|o: int| 0 <= o < rest.len() && rest[o] == other;
        assert(rest.push(races.last())[o] == other);
    }
}

/// A race that was opened stays open until its timer fires or a signal of its name
/// arrives.
proof fn lemma_race_stays_open(
    events: Seq<WorkflowEvent>,
    timer: Seq<char>,
    name: Seq<char>,
    a: int,
    n: int,
)
    requires
        0 <= a < n <= events.len(),
        events[a] matches WorkflowEvent::TimerStarted { timer_id, .. } && timer_id.0@ == timer,
        is_deadline_of(timer, name),
        forall|k: int|
            a < k < n ==> !brings(#[trigger] events[k], name) && !(events[k]
                matches WorkflowEvent::TimerFired { timer_id } && timer_id.0@ == timer),
    ensures
        open_races(events, n).contains(timer),
    decreases n,
{
    let before = open_races(events, n - 1);
    let after = open_races(events, n);
    law_deadline_timer_names_its_signal(timer, name);
    if n - 1 == a {
        assert(after[before.len() as int] == timer);
    } else {
        lemma_race_stays_open(events, timer, name, a, n - 1);
        let k = choose|k: int| 0 <= k < before.len() && before[k] == timer;
        assert(!brings(events[n - 1], name));
        match events[n - 1] {
            WorkflowEvent::SignalReceived { signal_name, .. } => {
                let gone = oldest_race(before, signal_name@);
                lemma_first_index(race_for(before, signal_name@), 0, before.len() as int);
                if gone < before.len() {
                    assert(race_for(before, signal_name@)(gone));
                    assert(gone != k);
                    if k < gone {
                        assert(after[k] == timer);
                    } else {
                        assert(after[k - 1] == timer);
                    }
                }
            },
            WorkflowEvent::TimerStarted { timer_id, .. } => {
                assert(after[k] == timer);
            },
            WorkflowEvent::TimerFired { timer_id } => {
                lemma_without_keeps(before, timer_id@, timer);
            },
            _ => {},
        }
    }
}

/// A signal that arrives while the deadline of a wait for it runs is reserved for
/// that wait: the deadline was armed before, has not fired, and no other signal of
/// that name has arrived since.
pub proof fn law_signal_within_the_deadline_is_reserved(
    events: Seq<WorkflowEvent>,
    timer: Seq<char>,
    name: Seq<char>,
    a: int,
    i: int,
)
    requires
        0 <= a < i < events.len(),
        brings(events[i], name),
        events[a] matches WorkflowEvent::TimerStarted { timer_id, .. } && timer_id.0@ == timer,
        is_deadline_of(timer, name),
        forall|k: int|
            a < k < i ==> !brings(#[trigger] events[k], name) && !(events[k]
                matches WorkflowEvent::TimerFired { timer_id } && timer_id.0@ == timer),
    ensures
        race_reserved(events).contains(i),
{
    let races = open_races(events, i);
    lemma_race_stays_open(events, timer, name, a, i);
    law_deadline_timer_names_its_signal(timer, name);
    let k = choose|k: int| 0 <= k < races.len() && races[k] == timer;
    lemma_first_index(race_for(races, name), 0, races.len() as int);
    assert(race_for(races, name)(k));
}

/// Whether none of the races is for the signal.
spec fn none_for(races: Seq<Seq<char>>, name: Seq<char>) -> bool {
    forall|k: int| 0 <= k < races.len() ==> race_signal_name(#[trigger] races[k]) != Some(name)
}

/// Whether at most one of the races is for the signal.
spec fn one_for(races: Seq<Seq<char>>, name: Seq<char>) -> bool {
    forall|j: int, k: int|
        0 <= j < k < races.len() && race_signal_name(#[trigger] races[j]) == Some(name)
            ==> race_signal_name(#[trigger] races[k]) != Some(name)
}

/// Taking races away opens none.
proof fn lemma_without_opens_none(races: Seq<Seq<char>>, timer: Seq<char>, name: Seq<char>)
    ensures
        none_for(races, name) ==> none_for(without(races, timer), name),
        one_for(races, name) ==> one_for(without(races, timer), name),
    decreases races.len(),
{
    if races.len() > 0 {
        let front = races.drop_last();
        assert(forall|k: int| 0 <= k < front.len() ==> #[trigger] front[k] == races[k]);
        lemma_without_opens_none(front, timer, name);
        if race_signal_name(races.last()) == Some(name) && one_for(races, name) {
            assert forall|k: int| 0 <= k < front.len() implies race_signal_name(
                #[trigger] front[k],
            ) != Some(name) by {
                assert(races[k] == front[k]);
                assert(races[races.len() - 1] == races.last());
            }
            assert(none_for(front, name));
        }
        assert(races[races.len() - 1] == races.last());
    }
}

/// What one more event does to the races for the signal.
proof fn lemma_races_for(events: Seq<WorkflowEvent>, name: Seq<char>, n: int)
    requires
        0 <= n < events.len(),
    ensures
        ({
            let before = open_races(events, n);
            let after = open_races(events, n + 1);
            &&& none_for(before, name) && !arms_deadline(events[n], name) ==> none_for(after, name)
            &&& none_for(before, name) ==> one_for(after, name)
            &&& one_for(before, name) && !arms_deadline(events[n], name) ==> one_for(after, name)
            &&& one_for(before, name) && brings(events[n], name) ==> none_for(after, name)
        }),
{
    let before = open_races(events, n);
    let after = open_races(events, n + 1);
    match events[n] {
        WorkflowEvent::SignalReceived { signal_name, .. } => {
            let gone = oldest_race(before, signal_name@);
            lemma_first_index(race_for(before, signal_name@), 0, before.len() as int);
            if gone < before.len() {
                assert(race_for(before, signal_name@)(gone));
                assert(forall|k: int| 0 <= k < gone ==> #[trigger] after[k] == before[k]);
                assert(forall|k: int|
                    gone <= k < after.len() ==> #[trigger] after[k] == before[k + 1]);
                if one_for(before, name) && signal_name@ == name {
                    assert forall|k: int| 0 <= k < after.len() implies race_signal_name(
                        #[trigger] after[k],
                    ) != Some(name) by {
                        if k < gone {
                            assert(!race_for(before, signal_name@)(k));
                        } else {
                            assert(before[gone] == before[gone]);
                            assert(race_signal_name(before[k + 1]) != Some(name));
                        }
                    }
                }
            } else {
                assert forall|k: int|
                    0 <= k < before.len() && signal_name@ == name implies race_signal_name(
                    #[trigger] before[k],
                ) != Some(name) by {
                    assert(!race_for(before, signal_name@)(k));
                }
            }
        },
        WorkflowEvent::TimerStarted { timer_id, .. } => {
            law_deadline_timer_names_its_signal(timer_id.0@, name);
        },
        WorkflowEvent::TimerFired { timer_id } => {
            lemma_without_opens_none(before, timer_id@, name);
        },
        _ => {},
    }
}

/// The races for a signal while no further deadline for it is armed.
proof fn lemma_races_over(events: Seq<WorkflowEvent>, name: Seq<char>, from: int, to: int)
    requires
        0 <= from <= to <= events.len(),
        forall|k: int| from <= k < to ==> !arms_deadline(#[trigger] events[k], name),
    ensures
        none_for(open_races(events, from), name) ==> none_for(open_races(events, to), name),
        one_for(open_races(events, from), name) ==> one_for(open_races(events, to), name),
    decreases to - from,
{
    if from < to {
        lemma_races_over(events, name, from, to - 1);
        assert(!arms_deadline(events[to - 1], name));
        lemma_races_for(events, name, to - 1);
    }
}

/// A deadline reserves one signal, and only from when it is armed until it fires.
/// With one deadline for the name in front, a signal is not reserved that arrives
/// before the deadline is armed, or behind another signal of that name.
pub proof fn law_deadline_reserves_one_signal(
    events: Seq<WorkflowEvent>,
    name: Seq<char>,
    a: int,
    b: int,
    i: int,
)
    requires
        0 <= a <= i < events.len(),
        brings(events[i], name),
        forall|k: int| 0 <= k < i && k != a ==> !arms_deadline(#[trigger] events[k], name),
        a == i || (a < b < i && brings(events[b], name)),
    ensures
        !race_reserved(events).contains(i),
{
    let races = open_races(events, i);
    assert(none_for(open_races(events, 0), name));
    lemma_races_over(events, name, 0, a);
    if a < i {
        lemma_races_for(events, name, a);
        lemma_races_over(events, name, a + 1, b);
        lemma_races_for(events, name, b);
        lemma_races_over(events, name, b + 1, i);
    }
    lemma_first_index(race_for(races, name), 0, races.len() as int);
    let k = oldest_race(races, name);
    if k < races.len() {
        assert(race_for(races, name)(k));
    }
}

} // verus!
