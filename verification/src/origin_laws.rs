//! What holds of the positions that are transparent, or reserved, from the start.
use crate::event::WorkflowEvent;
use crate::kinds::{is_cycle_record, is_redrive, race_signal_name};
use crate::origin::{
    abandoned, abandons_dispatch, cycle_tail, dispatches, failure_tail, is_silent, last_redrive,
    oldest_race, open_races, race_for, race_reserved, redriven, reopened, transparent_from_start,
    without,
};
use crate::scan::{timer_fired, timer_started};
use crate::search::{lemma_first_index, lemma_last_index, lemma_last_index_is};
use vstd::prelude::*;

verus! {

// ── Transparent events ──────────────────────────────────────────────────────
/// What is marked stays marked while further reopenings are looked at.
pub(crate) proof fn lemma_reopened_grows(events: Seq<WorkflowEvent>, n: int, m: int)
    requires
        n <= m,
    ensures
        reopened(events, n).subset_of(reopened(events, m)),
    decreases m - n,
{
    if n < m && m > 0 {
        lemma_reopened_grows(events, n, m - 1);
    }
}

/// Silent events are marked from the beginning.
proof fn lemma_silent_is_marked(events: Seq<WorkflowEvent>, n: int, i: int)
    requires
        0 <= n,
        0 <= i < events.len(),
        is_silent(events[i]),
    ensures
        reopened(events, n).contains(i),
{
    lemma_reopened_grows(events, 0, n);
}

/// Operator pauses, bookkeeping after a run closed, and reopenings of a run are
/// transparent to every command, wherever they stand.
pub proof fn law_silent_events_are_transparent(events: Seq<WorkflowEvent>, i: int)
    requires
        0 <= i < events.len(),
        is_silent(events[i]) || is_redrive(events[i]),
    ensures
        transparent_from_start(events).contains(i),
{
    let n = events.len() as int;
    if is_silent(events[i]) {
        lemma_silent_is_marked(events, n, i);
    } else {
        assert(reopened(events, i + 1).contains(i));
        lemma_reopened_grows(events, i + 1, n);
    }
}

/// The failure that a reopening of the run supersedes is transparent: a reopened
/// run is not held against it.
pub proof fn law_superseded_failure_is_transparent(
    events: Seq<WorkflowEvent>,
    failure: int,
    redrive: int,
)
    requires
        0 <= failure < redrive < events.len(),
        events[failure] is WorkflowFailed,
        is_redrive(events[redrive]),
        forall|k: int| failure < k < redrive ==> is_silent(#[trigger] events[k]),
    ensures
        transparent_from_start(events).contains(failure),
{
    let before = reopened(events, redrive);
    let open = |i: int| !before.contains(i);
    if !before.contains(failure) {
        assert forall|k: int| failure < k < redrive implies !#[trigger] open(k) by {
            lemma_silent_is_marked(events, redrive, k);
        }
        lemma_last_index_is(open, redrive, failure);
        assert(reopened(events, redrive + 1).contains(failure));
        lemma_reopened_grows(events, redrive + 1, events.len() as int);
    } else {
        lemma_reopened_grows(events, redrive, events.len() as int);
    }
}

/// Work that a failing cycle left behind before the run was last reopened is
/// transparent, its failure and what started it: the reopened run issues it
/// anew.
pub proof fn law_abandoned_work_is_transparent(events: Seq<WorkflowEvent>, failure: int, start: int)
    requires
        0 <= failure < last_redrive(events),
        abandons_dispatch(events, failure),
        0 <= start < last_redrive(events),
        dispatches(events[start], events[failure]),
    ensures
        transparent_from_start(events).contains(failure),
        transparent_from_start(events).contains(start),
{
    assert(abandoned(events, last_redrive(events)).contains(failure));
    assert(abandoned(events, last_redrive(events)).contains(start));
}

/// Everything that looking at reopenings marks is silent, a reopening or a
/// failure of the run.
pub(crate) proof fn lemma_reopened_kinds(events: Seq<WorkflowEvent>, n: int, i: int)
    requires
        n <= events.len(),
        reopened(events, n).contains(i),
    ensures
        0 <= i < events.len(),
        is_silent(events[i]) || is_redrive(events[i]) || events[i] is WorkflowFailed,
    decreases n,
{
    if n > 0 {
        let before = reopened(events, n - 1);
        lemma_last_index(|i: int| !before.contains(i), n - 1);
        if before.contains(i) {
            lemma_reopened_kinds(events, n - 1, i);
        }
    }
}

/// Nothing else is transparent. Behind the last reopening of the run only silent
/// events and a failure of the run are, so that work which a later failing cycle
/// left behind is still found; before it also abandoned work and the records of
/// the superseded cycle.
pub proof fn law_nothing_else_is_transparent(events: Seq<WorkflowEvent>, i: int)
    requires
        transparent_from_start(events).contains(i),
    ensures
        0 <= i < events.len(),
        ({
            ||| is_silent(events[i])
            ||| is_redrive(events[i])
            ||| events[i] is WorkflowFailed
            ||| i < last_redrive(events) && (abandoned(events, last_redrive(events)).contains(i)
                || is_cycle_record(events[i]))
        }),
{
    let n = events.len() as int;
    let silent = reopened(events, n);
    let limit = last_redrive(events);
    lemma_last_index(|i: int| is_redrive(events[i]), n);
    lemma_last_index(|i: int| !is_silent(events[i]), n);
    if silent.contains(i) {
        lemma_reopened_kinds(events, n, i);
    } else if limit >= 0 && redriven(events).contains(i) {
        let skipped = silent.union(abandoned(events, limit));
        let other = |i: int| !skipped.contains(i) && !is_cycle_record(events[i]);
        lemma_last_index(other, limit);
        if !skipped.contains(i) {
            assert(cycle_tail(events, skipped, limit).contains(i));
            assert(!other(i));
        }
    } else {
        assert(failure_tail(events) is Some);
        if !is_silent(events[i]) {
            let loud = |i: int| !is_silent(events[i]);
            assert(loud(i));
        }
    }
}

// ── Reserved signals ────────────────────────────────────────────────────────
/// Whether the timer was armed before `n` and has not fired since.
pub open spec fn armed_at(events: Seq<WorkflowEvent>, timer: Seq<char>, n: int) -> bool {
    exists|j: int|
        0 <= j < n && timer_started(#[trigger] events[j], timer) && forall|f: int|
            j < f < n ==> !timer_fired(#[trigger] events[f], timer)
}

/// Taking one race away keeps those that are not of its timer.
proof fn lemma_without(races: Seq<Seq<char>>, timer: Seq<char>, k: int)
    requires
        0 <= k < without(races, timer).len(),
    ensures
        races.contains(without(races, timer)[k]),
        without(races, timer)[k] != timer,
    decreases races.len(),
{
    if races.len() > 0 {
        let front = races.drop_last();
        let rest = without(front, timer);
        if k < rest.len() {
            lemma_without(front, timer, k);
            let o = choose|o: int| 0 <= o < front.len() && front[o] == rest[k];
            assert(races[o] == rest[k]);
        } else {
            assert(races[races.len() - 1] == without(races, timer)[k]);
        }
    }
}

/// A timer that was armed stays armed over an event that is not its fire.
proof fn lemma_stays_armed(events: Seq<WorkflowEvent>, timer: Seq<char>, n: int)
    requires
        0 <= n,
        armed_at(events, timer, n),
        !timer_fired(events[n], timer),
    ensures
        armed_at(events, timer, n + 1),
{
    let j = choose|j: int|
        0 <= j < n && timer_started(#[trigger] events[j], timer) && forall|f: int|
            j < f < n ==> !timer_fired(#[trigger] events[f], timer);
    assert(timer_started(events[j], timer));
}

/// The timer of each open race was armed and has not fired.
proof fn lemma_open_races_are_armed(events: Seq<WorkflowEvent>, n: int, k: int)
    requires
        0 <= n <= events.len(),
        0 <= k < open_races(events, n).len(),
    ensures
        armed_at(events, open_races(events, n)[k], n),
    decreases n,
{
    if n > 0 {
        let before = open_races(events, n - 1);
        let timer = open_races(events, n)[k];
        match events[n - 1] {
            WorkflowEvent::SignalReceived { signal_name, .. } => {
                let gone = oldest_race(before, signal_name@);
                lemma_first_index(race_for(before, signal_name@), 0, before.len() as int);
                let o = if gone < before.len() && k >= gone {
                    k + 1
                } else {
                    k
                };
                assert(before[o] == timer);
                lemma_open_races_are_armed(events, n - 1, o);
                lemma_stays_armed(events, timer, n - 1);
            },
            WorkflowEvent::TimerStarted { timer_id, .. } => {
                if k < before.len() {
                    lemma_open_races_are_armed(events, n - 1, k);
                    lemma_stays_armed(events, timer, n - 1);
                } else {
                    assert(timer_started(events[n - 1], timer));
                }
            },
            WorkflowEvent::TimerFired { timer_id } => {
                lemma_without(before, timer_id@, k);
                let o = choose|o: int| 0 <= o < before.len() && before[o] == timer;
                lemma_open_races_are_armed(events, n - 1, o);
                lemma_stays_armed(events, timer, n - 1);
            },
            _ => {
                lemma_open_races_are_armed(events, n - 1, k);
                lemma_stays_armed(events, timer, n - 1);
            },
        }
    }
}

/// A signal is reserved only while a race for its name is open: a deadline timer
/// of that name was armed before it and has not fired. A signal that arrives
/// after the deadline is anybody's.
pub proof fn law_reserved_signal_has_an_open_race(events: Seq<WorkflowEvent>, i: int)
    requires
        race_reserved(events).contains(i),
    ensures
        0 <= i < events.len(),
        match events[i] {
            WorkflowEvent::SignalReceived { signal_name, .. } => exists|timer: Seq<char>|
                #![trigger armed_at(events, timer, i)]
                race_signal_name(timer) == Some(signal_name@) && armed_at(events, timer, i),
            _ => false,
        },
{
    match events[i] {
        WorkflowEvent::SignalReceived { signal_name, .. } => {
            let races = open_races(events, i);
            let k = oldest_race(races, signal_name@);
            lemma_first_index(race_for(races, signal_name@), 0, races.len() as int);
            assert(race_for(races, signal_name@)(k));
            lemma_open_races_are_armed(events, i, k);
            assert(armed_at(events, races[k], i));
        },
        _ => {},
    }
}

} // verus!
