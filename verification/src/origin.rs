//! What a history says before the first command is matched against it.
use crate::event::{WorkflowEvent, ABANDONED_DISPATCH_REASON};
use crate::index_set::IndexSet;
use crate::kinds::{
    is_bookkeeping, is_cycle_record, is_cycle_record_event, is_pause, is_pause_lifecycle_event,
    is_post_terminal_bookkeeping, is_redrive, is_redrive_lifecycle_event, race_signal_name,
    signal_timeout_race_name,
};
use crate::matcher::{opt_index, HistoryMatcher};
use crate::replay::Replay;
use crate::scan::{activity_progress, is_activity_progress};
use crate::search::{
    first_index, last_index, lemma_first_index_is, lemma_last_index, lemma_last_index_is,
};
use crate::text::str_eq;
use std::collections::VecDeque;
use vstd::hash_map::StringHashMap;
use vstd::hash_set::StringHashSet;
use vstd::prelude::*;

verus! {

// ── The failure tail ────────────────────────────────────────────────────────
/// An operator's pause or resume, or bookkeeping after the run closed.
pub open spec fn is_silent(e: WorkflowEvent) -> bool {
    is_pause(e) || is_bookkeeping(e)
}

/// Where the tail of a failed run begins: at the last event that is not silent,
/// when that is the run's failure and something precedes it.
pub open spec fn failure_tail(events: Seq<WorkflowEvent>) -> Option<int> {
    let last = last_index(|i: int| !is_silent(events[i]), events.len() as int);
    if last > 0 && events[last] is WorkflowFailed {
        Some(last)
    } else {
        None
    }
}

// ── Reopened runs ───────────────────────────────────────────────────────────
/// The transparent positions after the first `n` events were looked at: silent
/// events, each reopening of the run, and the failure that each reopening
/// supersedes, which is the nearest event before it that is not transparent
/// already.
pub open spec fn reopened(events: Seq<WorkflowEvent>, n: int) -> Set<int>
    decreases n,
{
    if n <= 0 {
        Set::new(|i: int| 0 <= i < events.len() && is_silent(events[i]))
    } else {
        let before = reopened(events, n - 1);
        if is_redrive(events[n - 1]) {
            let nearest = last_index(|i: int| !before.contains(i), n - 1);
            if nearest >= 0 && events[nearest] is WorkflowFailed {
                before.insert(n - 1).insert(nearest)
            } else {
                before.insert(n - 1)
            }
        } else {
            before
        }
    }
}

/// Where the run was last reopened; -1 when it never was.
pub open spec fn last_redrive(events: Seq<WorkflowEvent>) -> int {
    last_index(|i: int| is_redrive(events[i]), events.len() as int)
}

/// Whether the event at `i` is the failure that a failing cycle recorded for
/// work it left behind: the reserved error text in the exact shape in which it
/// is written, for an activity also with no sign before it that it ever ran.
pub open spec fn abandons_dispatch(events: Seq<WorkflowEvent>, i: int) -> bool {
    match events[i] {
        WorkflowEvent::ActivityFailed {
            activity_id,
            error,
            attempt,
            error_type,
            non_retryable,
            details,
        } => {
            &&& error@ == ABANDONED_DISPATCH_REASON@
            &&& attempt == 1
            &&& error_type@ == "Error"@
            &&& non_retryable
            &&& details is None
            &&& forall|j: int| 0 <= j < i ==> !activity_progress(#[trigger] events[j], activity_id)
        },
        WorkflowEvent::ChildWorkflowFailed {
            error,
            error_type,
            details,
            non_retryable,
            ..
        } => {
            &&& error@ == ABANDONED_DISPATCH_REASON@
            &&& error_type is None
            &&& details is None
            &&& non_retryable == Some(true)
        },
        _ => false,
    }
}

/// Whether `dispatch` started the work whose failure is `failure`.
pub open spec fn dispatches(dispatch: WorkflowEvent, failure: WorkflowEvent) -> bool {
    match (dispatch, failure) {
        (
            WorkflowEvent::ActivityScheduled { activity_id: a, .. },
            WorkflowEvent::ActivityFailed { activity_id: b, .. },
        ) => a == b,
        (
            WorkflowEvent::ChildWorkflowStarted { child_id: a, .. },
            WorkflowEvent::ChildWorkflowFailed { child_id: b, .. },
        ) => a == b,
        _ => false,
    }
}

/// The positions below `limit` of abandoned work: its failures, and what
/// started it.
pub open spec fn abandoned(events: Seq<WorkflowEvent>, limit: int) -> Set<int> {
    Set::new(
        |i: int|
            0 <= i < limit && (abandons_dispatch(events, i) || exists|j: int|
                0 <= j < limit && #[trigger] abandons_dispatch(events, j) && dispatches(
                    events[i],
                    events[j],
                )),
    )
}

/// The positions below `limit` of the other records of the cycle that ended
/// there: walking back over transparent events, markers and the like, up to the
/// first event that is neither.
pub open spec fn cycle_tail(
    events: Seq<WorkflowEvent>,
    transparent: Set<int>,
    limit: int,
) -> Set<int> {
    let stop = last_index(
        |i: int| !transparent.contains(i) && !is_cycle_record(events[i]),
        limit,
    );
    Set::new(|i: int| stop < i < limit && !transparent.contains(i))
}

/// The transparent positions as the reopenings of the run leave them.
pub open spec fn redriven(events: Seq<WorkflowEvent>) -> Set<int> {
    let silent = reopened(events, events.len() as int);
    let limit = last_redrive(events);
    if limit >= 0 {
        let skipped = silent.union(abandoned(events, limit));
        skipped.union(cycle_tail(events, skipped, limit))
    } else {
        silent
    }
}

/// The positions that are transparent to every command from the start.
pub open spec fn transparent_from_start(events: Seq<WorkflowEvent>) -> Set<int> {
    match failure_tail(events) {
        Some(start) => redriven(events).union(
            Set::new(|i: int| start <= i < events.len()),
        ),
        None => redriven(events),
    }
}

// ── Signals reserved for races ──────────────────────────────────────────────
/// The deadline timers of signal waits that are open after the first `n`
/// events, oldest first: a timer opens when it is armed and closes when it
/// fires; a received signal closes the oldest one open for its name.
pub open spec fn open_races(events: Seq<WorkflowEvent>, n: int) -> Seq<Seq<char>>
    decreases n,
{
    if n <= 0 {
        Seq::empty()
    } else {
        let before = open_races(events, n - 1);
        match events[n - 1] {
            WorkflowEvent::SignalReceived { signal_name, .. } => {
                let k = oldest_race(before, signal_name@);
                if k < before.len() {
                    before.remove(k)
                } else {
                    before
                }
            },
            WorkflowEvent::TimerStarted { timer_id, .. } => if race_signal_name(
                timer_id@,
            ) is Some {
                before.push(timer_id@)
            } else {
                before
            },
            WorkflowEvent::TimerFired { timer_id } => without(before, timer_id@),
            _ => before,
        }
    }
}

/// The races other than that of the timer.
pub open spec fn without(races: Seq<Seq<char>>, timer: Seq<char>) -> Seq<Seq<char>>
    decreases races.len(),
{
    if races.len() == 0 {
        races
    } else if races.last() == timer {
        without(races.drop_last(), timer)
    } else {
        without(races.drop_last(), timer).push(races.last())
    }
}

/// Whether a race is for the signal.
pub open spec fn race_for(races: Seq<Seq<char>>, name: Seq<char>) -> spec_fn(int) -> bool {
    |k: int| race_signal_name(races[k]) == Some(name)
}

/// Where the oldest open race for the signal stands; the length when there is
/// none.
pub open spec fn oldest_race(races: Seq<Seq<char>>, name: Seq<char>) -> int {
    first_index(race_for(races, name), 0, races.len() as int)
}

/// The positions of signals that arrive while a race for their name is open.
pub open spec fn race_reserved(events: Seq<WorkflowEvent>) -> Set<int> {
    Set::new(
        |i: int|
            0 <= i < events.len() && match events[i] {
                WorkflowEvent::SignalReceived { signal_name, .. } => oldest_race(
                    open_races(events, i),
                    signal_name@,
                ) < open_races(events, i).len(),
                _ => false,
            },
    )
}

// ── A fresh matcher ─────────────────────────────────────────────────────────
/// Reopening marks only positions of the history.
proof fn lemma_reopened_within(events: Seq<WorkflowEvent>, n: int)
    requires
        n <= events.len(),
    ensures
        forall|i: int| #[trigger] reopened(events, n).contains(i) ==> 0 <= i < events.len(),
    decreases n,
{
    if n > 0 {
        lemma_reopened_within(events, n - 1);
        let before = reopened(events, n - 1);
        lemma_last_index(|i: int| !before.contains(i), n - 1);
    }
}

/// Only positions of the history are transparent from the start.
pub proof fn lemma_transparent_within(events: Seq<WorkflowEvent>)
    ensures
        forall|i: int| #[trigger]
            transparent_from_start(events).contains(i) ==> 0 <= i < events.len(),
{
    lemma_reopened_within(events, events.len() as int);
    let limit = last_redrive(events);
    lemma_last_index(|i: int| is_redrive(events[i]), events.len() as int);
    if limit >= 0 {
        let skipped = reopened(events, events.len() as int).union(abandoned(events, limit));
        lemma_last_index(
            |i: int| !skipped.contains(i) && !is_cycle_record(events[i]),
            limit,
        );
    }
    lemma_last_index(|i: int| !is_silent(events[i]), events.len() as int);
}

/// The state before the first command satisfies the invariant.
pub proof fn lemma_start(events: Seq<WorkflowEvent>)
    ensures
        Replay::start(events).wf(),
{
    lemma_transparent_within(events);
}

/// Whether the event is silent.
fn is_silent_event(event: &WorkflowEvent) -> (r: bool)
    ensures
        r == is_silent(*event),
{
    is_pause_lifecycle_event(event) || is_post_terminal_bookkeeping(event)
}

/// Marks the silent events of a history.
fn mark_silent(events: &Vec<WorkflowEvent>) -> (r: IndexSet)
    ensures
        r@ == reopened(events@, 0),
{
    let mut marked = IndexSet::new();
    let mut i: usize = 0;
    while i < events.len()
        invariant
            i <= events@.len(),
            forall|j: int| #[trigger]
                marked@.contains(j) == (0 <= j < i && is_silent(events@[j])),
        decreases events@.len() - i,
    {
        if is_silent_event(&events[i]) {
            marked.insert(i);
        }
        i += 1;
    }
    assert(marked@ =~= reopened(events@, 0));
    marked
}

/// Marks each reopening of the run and the failure that it supersedes, and
/// returns where the run was last reopened.
fn mark_reopened(events: &Vec<WorkflowEvent>, marked: &mut IndexSet) -> (r: Option<usize>)
    requires
        old(marked)@ == reopened(events@, 0),
    ensures
        final(marked)@ == reopened(events@, events@.len() as int),
        match r {
            Some(i) => i == last_redrive(events@) && i < events@.len(),
            None => last_redrive(events@) == -1,
        },
{
    let ghost p = |i: int| is_redrive(events@[i]);
    let mut last: Option<usize> = None;
    let mut i: usize = 0;
    while i < events.len()
        invariant
            i <= events@.len(),
            marked@ == reopened(events@, i as int),
            p == (|i: int| is_redrive(events@[i])),
            match last {
                Some(l) => l < i && p(l as int) && forall|j: int| l < j < i ==> !#[trigger] p(j),
                None => forall|j: int| 0 <= j < i ==> !#[trigger] p(j),
            },
        decreases events@.len() - i,
    {
        if is_redrive_lifecycle_event(&events[i]) {
            let ghost before = marked@;
            let ghost q = |i: int| !before.contains(i);
            let mut j: usize = i;
            while j > 0 && marked.contains(j - 1)
                invariant
                    j <= i,
                    before == marked@,
                    q == (|i: int| !before.contains(i)),
                    forall|k: int| j <= k < i ==> !#[trigger] q(k),
                decreases j,
            {
                assert(!q(j - 1));
                j -= 1;
            }
            proof {
                assert(j > 0 ==> q(j - 1));
                lemma_last_index_is(q, i as int, j - 1);
            }
            marked.insert(i);
            if j > 0 {
                if let WorkflowEvent::WorkflowFailed { .. } = &events[j - 1] {
                    marked.insert(j - 1);
                }
            }
            last = Some(i);
            assert(p(i as int));
        } else {
            assert(!p(i as int));
        }
        i += 1;
    }
    proof {
        match last {
            Some(l) => lemma_last_index_is(p, events@.len() as int, l as int),
            None => lemma_last_index_is(p, events@.len() as int, -1),
        }
    }
    last
}

/// Computes [`abandons_dispatch`].
fn is_abandoned_dispatch(events: &Vec<WorkflowEvent>, i: usize) -> (r: bool)
    requires
        i < events@.len(),
    ensures
        r == abandons_dispatch(events@, i as int),
{
    match &events[i] {
        WorkflowEvent::ActivityFailed {
            activity_id,
            error,
            attempt,
            error_type,
            non_retryable,
            details,
        } => {
            if !str_eq(error.as_str(), ABANDONED_DISPATCH_REASON) || *attempt != 1 || !str_eq(
                error_type.as_str(),
                "Error",
            ) || !*non_retryable || details.is_some() {
                return false;
            }
            let mut j: usize = 0;
            while j < i
                invariant
                    j <= i < events@.len(),
                    forall|k: int|
                        0 <= k < j ==> !activity_progress(#[trigger] events@[k], *activity_id),
                    events@[i as int] == (WorkflowEvent::ActivityFailed {
                        activity_id: *activity_id,
                        error: *error,
                        attempt: *attempt,
                        error_type: *error_type,
                        non_retryable: *non_retryable,
                        details: *details,
                    }),
                decreases i - j,
            {
                if is_activity_progress(&events[j], *activity_id) {
                    assert(activity_progress(events@[j as int], *activity_id));
                    return false;
                }
                j += 1;
            }
            true
        },
        WorkflowEvent::ChildWorkflowFailed { error, error_type, details, non_retryable, .. } => {
            let permanent = match non_retryable {
                Some(b) => *b,
                None => false,
            };
            str_eq(error.as_str(), ABANDONED_DISPATCH_REASON) && error_type.is_none()
                && details.is_none() && permanent
        },
        _ => false,
    }
}

/// Computes [`dispatches`].
fn is_dispatch_of(dispatch: &WorkflowEvent, failure: &WorkflowEvent) -> (r: bool)
    ensures
        r == dispatches(*dispatch, *failure),
{
    match (dispatch, failure) {
        (
            WorkflowEvent::ActivityScheduled { activity_id: a, .. },
            WorkflowEvent::ActivityFailed { activity_id: b, .. },
        ) => *a == *b,
        (
            WorkflowEvent::ChildWorkflowStarted { child_id: a, .. },
            WorkflowEvent::ChildWorkflowFailed { child_id: b, .. },
        ) => *a == *b,
        _ => false,
    }
}

/// The positions below `limit` of the failures of abandoned work.
fn abandoned_dispatch_indices(events: &Vec<WorkflowEvent>, limit: usize) -> (r: Vec<usize>)
    requires
        limit <= events@.len(),
    ensures
        forall|k: int|
            0 <= k < r@.len() ==> #[trigger] r@[k] < limit && abandons_dispatch(
                events@,
                r@[k] as int,
            ),
        forall|j: int|
            0 <= j < limit && #[trigger] abandons_dispatch(events@, j) ==> exists|k: int|
                0 <= k < r@.len() && #[trigger] r@[k] == j,
{
    let mut failures: Vec<usize> = Vec::new();
    let mut i: usize = 0;
    while i < limit
        invariant
            i <= limit <= events@.len(),
            forall|k: int|
                0 <= k < failures@.len() ==> #[trigger] failures@[k] < limit && abandons_dispatch(
                    events@,
                    failures@[k] as int,
                ),
            forall|j: int|
                0 <= j < i && #[trigger] abandons_dispatch(events@, j) ==> exists|k: int|
                    0 <= k < failures@.len() && #[trigger] failures@[k] == j,
        decreases limit - i,
    {
        if is_abandoned_dispatch(events, i) {
            let ghost before = failures@;
            failures.push(i);
            assert forall|j: int|
                0 <= j < i + 1 && #[trigger] abandons_dispatch(events@, j) implies exists|k: int|
                0 <= k < failures@.len() && #[trigger] failures@[k] == j by {
                if j < i {
                    let k = choose|k: int| 0 <= k < before.len() && #[trigger] before[k] == j;
                    assert(failures@[k] == j);
                } else {
                    assert(failures@[before.len() as int] == j);
                }
            }
        }
        i += 1;
    }
    failures
}

/// Marks abandoned work below `limit`: its failures, and what started it.
fn mark_abandoned(events: &Vec<WorkflowEvent>, limit: usize, marked: &mut IndexSet)
    requires
        limit <= events@.len(),
    ensures
        final(marked)@ == old(marked)@.union(abandoned(events@, limit as int)),
{
    let failures = abandoned_dispatch_indices(events, limit);
    let ghost start = marked@;
    let ghost wanted = abandoned(events@, limit as int);
    let mut i: usize = 0;
    while i < limit
        invariant
            i <= limit <= events@.len(),
            wanted == abandoned(events@, limit as int),
            forall|k: int|
                0 <= k < failures@.len() ==> #[trigger] failures@[k] < limit && abandons_dispatch(
                    events@,
                    failures@[k] as int,
                ),
            forall|j: int|
                0 <= j < limit && #[trigger] abandons_dispatch(events@, j) ==> exists|k: int|
                    0 <= k < failures@.len() && #[trigger] failures@[k] == j,
            forall|j: int| #[trigger]
                marked@.contains(j) == (start.contains(j) || (j < i && wanted.contains(j))),
        decreases limit - i,
    {
        let mut k: usize = 0;
        let mut found = false;
        while k < failures.len() && !found
            invariant
                k <= failures@.len(),
                i < limit <= events@.len(),
                wanted == abandoned(events@, limit as int),
                forall|k: int|
                    0 <= k < failures@.len() ==> #[trigger] failures@[k] < limit
                        && abandons_dispatch(events@, failures@[k] as int),
                found ==> wanted.contains(i as int),
                !found ==> forall|j: int|
                    0 <= j < k ==> #[trigger] failures@[j] != i && !dispatches(
                        events@[i as int],
                        events@[failures@[j] as int],
                    ),
            decreases failures@.len() - k,
        {
            let f = failures[k];
            assert(abandons_dispatch(events@, f as int));
            if f == i || is_dispatch_of(&events[i], &events[f]) {
                found = true;
            }
            k += 1;
        }
        if found {
            marked.insert(i);
        } else {
            proof {
                if wanted.contains(i as int) {
                    let j = if abandons_dispatch(events@, i as int) {
                        i as int
                    } else {
                        choose|j: int|
                            0 <= j < limit && #[trigger] abandons_dispatch(events@, j)
                                && dispatches(events@[i as int], events@[j])
                    };
                    assert(abandons_dispatch(events@, j));
                    let f = choose|f: int| 0 <= f < failures@.len() && #[trigger] failures@[f] == j;
                    assert(failures@[f] != i);
                }
            }
        }
        i += 1;
    }
    assert(marked@ =~= start.union(wanted));
}

/// Marks the other records of the cycle that ended at `limit`.
fn mark_superseded_cycle_tail(events: &Vec<WorkflowEvent>, limit: usize, marked: &mut IndexSet)
    requires
        limit <= events@.len(),
    ensures
        final(marked)@ == old(marked)@.union(cycle_tail(events@, old(marked)@, limit as int)),
{
    let ghost start = marked@;
    let ghost p = |i: int| !start.contains(i) && !is_cycle_record(events@[i]);
    let mut j: usize = limit;
    while j > 0 && (marked.contains(j - 1) || is_cycle_record_event(&events[j - 1]))
        invariant
            j <= limit <= events@.len(),
            p == (|i: int| !start.contains(i) && !is_cycle_record(events@[i])),
            forall|k: int| j <= k < limit ==> !#[trigger] p(k),
            forall|k: int| #[trigger]
                marked@.contains(k) == (start.contains(k) || j <= k < limit),
        decreases j,
    {
        assert(!p(j - 1));
        marked.insert((j - 1));
        j -= 1;
    }
    proof {
        assert(j > 0 ==> p(j - 1));
        lemma_last_index_is(p, limit as int, j - 1);
        assert(marked@ =~= start.union(cycle_tail(events@, start, limit as int)));
    }
}

/// What a list of open races holds.
spec fn races_view(races: Seq<&str>) -> Seq<Seq<char>> {
    races.map_values(|r: &str| r@)
}

/// Closes the race of the timer.
fn close_race<'a>(races: &Vec<&'a str>, timer: &str) -> (r: Vec<&'a str>)
    ensures
        races_view(r@) == without(races_view(races@), timer@),
{
    let ghost view = races_view(races@);
    let mut left: Vec<&'a str> = Vec::new();
    let mut k: usize = 0;
    assert(view.take(0) =~= Seq::<Seq<char>>::empty());
    assert(races_view(left@) =~= Seq::<Seq<char>>::empty());
    while k < races.len()
        invariant
            k <= races@.len(),
            view == races_view(races@),
            races_view(left@) == without(view.take(k as int), timer@),
        decreases races@.len() - k,
    {
        assert(view.take(k + 1).drop_last() =~= view.take(k as int));
        assert(view.take(k + 1).last() == races@[k as int]@);
        if !str_eq(races[k], timer) {
            let ghost before = races_view(left@);
            left.push(races[k]);
            assert(races_view(left@) =~= before.push(races@[k as int]@));
        }
        k += 1;
    }
    assert(view.take(k as int) =~= view);
    left
}

/// Where the oldest open race for the signal stands.
fn position_of_race(races: &Vec<&str>, name: &str) -> (r: usize)
    ensures
        r == oldest_race(races_view(races@), name@),
        r <= races@.len(),
{
    let ghost view = races_view(races@);
    let ghost p = race_for(view, name@);
    let mut k: usize = 0;
    while k < races.len()
        invariant
            k <= races@.len(),
            view == races_view(races@),
            p == race_for(view, name@),
            forall|j: int| 0 <= j < k ==> !#[trigger] p(j),
        decreases races@.len() - k,
    {
        if let Some(race) = signal_timeout_race_name(races[k]) {
            if str_eq(race, name) {
                proof {
                    lemma_first_index_is(p, 0, view.len() as int, k as int);
                }
                return k;
            }
        }
        assert(!p(k as int));
        k += 1;
    }
    proof {
        lemma_first_index_is(p, 0, view.len() as int, k as int);
    }
    k
}

/// Marks the signals that arrive while a race for their name is open.
fn build_race_reserved_signal_events(events: &Vec<WorkflowEvent>) -> (r: IndexSet)
    ensures
        r@ == race_reserved(events@),
{
    let mut marked = IndexSet::new();
    let mut races: Vec<&str> = Vec::new();
    let ghost wanted = race_reserved(events@);
    let mut i: usize = 0;
    assert(races_view(races@) =~= Seq::<Seq<char>>::empty());
    while i < events.len()
        invariant
            i <= events@.len(),
            wanted == race_reserved(events@),
            races_view(races@) == open_races(events@, i as int),
            forall|j: int| #[trigger] marked@.contains(j) == (j < i && wanted.contains(j)),
        decreases events@.len() - i,
    {
        let ghost before = races_view(races@);
        match &events[i] {
            WorkflowEvent::SignalReceived { signal_name, .. } => {
                let k = position_of_race(&races, signal_name.as_str());
                if k < races.len() {
                    marked.insert(i);
                    races.remove(k);
                    assert(races_view(races@) =~= before.remove(k as int));
                }
            },
            WorkflowEvent::TimerStarted { timer_id, .. } => {
                if signal_timeout_race_name(timer_id.as_str()).is_some() {
                    races.push(timer_id.as_str());
                    assert(races_view(races@) =~= before.push(timer_id@));
                }
            },
            WorkflowEvent::TimerFired { timer_id } => {
                races = close_race(&races, timer_id.as_str());
            },
            _ => {},
        }
        i += 1;
    }
    assert(marked@ =~= wanted);
    marked
}

/// Marks everything from `from` on.
fn mark_rest(len: usize, from: usize, marked: &mut IndexSet)
    requires
        from <= len,
    ensures
        final(marked)@ == old(marked)@.union(Set::new(|i: int| from <= i < len)),
{
    let ghost start = marked@;
    let mut i: usize = from;
    while i < len
        invariant
            from <= i <= len,
            forall|j: int| #[trigger] marked@.contains(j) == (start.contains(j) || from <= j < i),
        decreases len - i,
    {
        marked.insert(i);
        i += 1;
    }
    assert(marked@ =~= start.union(Set::new(|i: int| from <= i < len)));
}

impl HistoryMatcher {
    /// A matcher at the start of a history.
    ///
    /// Some events are transparent to every command from then on: operator
    /// pauses and bookkeeping after the run closed; each reopening of a failed
    /// run with the failure that it supersedes; of the cycle that the last
    /// reopening supersedes, the work that it left behind and its records; and
    /// the tail of a run that ended in failure.
    pub fn new(events: Vec<WorkflowEvent>) -> (r: HistoryMatcher)
        ensures
            r.wf(),
            r@ == Replay::start(events@),
    {
        let mut transparent = mark_silent(&events);
        let redrive = mark_reopened(&events, &mut transparent);
        if let Some(limit) = redrive {
            mark_abandoned(&events, limit, &mut transparent);
            mark_superseded_cycle_tail(&events, limit, &mut transparent);
        }
        assert(transparent@ =~= redriven(events@));
        let tail = HistoryMatcher::terminal_failure_tail_start(events.as_slice());
        if let Some(start) = tail {
            mark_rest(events.len(), start, &mut transparent);
            assert(transparent@ =~= transparent_from_start(events@));
        }
        let reserved = build_race_reserved_signal_events(&events);
        let ghost history = events@;
        let r = HistoryMatcher {
            events,
            cursor: 0,
            consumed_out_of_order_events: IndexSet::new(),
            consumed_signal_events: IndexSet::new(),
            transparent_events: transparent,
            pending_signals: VecDeque::new(),
            pending_external_signals: Vec::new(),
            pending_external_cancels: Vec::new(),
            pending_external_awaits: Vec::new(),
            late_race_signal_events: IndexSet::new(),
            race_reserved_signal_events: reserved,
            deprecated_patches: StringHashMap::new(),
            patch_ids_recorded_this_cycle: StringHashSet::new(),
            timer_scan_stopped_at_command: false,
            terminal_failure_tail: tail,
        };
        proof {
            lemma_start(history);
            assert(r@ =~= Replay::start(history));
        }
        r
    }

    /// Where the tail of a failed run begins: at the last event that is not an
    /// operator's pause and not bookkeeping, when that is the run's failure and
    /// something precedes it.
    ///
    /// A history that begins with the failure is no run that failed; it is cut
    /// off in front.
    pub fn terminal_failure_tail_start(events: &[WorkflowEvent]) -> (r: Option<usize>)
        ensures
            opt_index(r) == failure_tail(events@),
            r matches Some(i) ==> i < events@.len(),
    {
        let ghost p = |i: int| !is_silent(events@[i]);
        let mut i: usize = events.len();
        while i > 0 && is_silent_event(&events[i - 1])
            invariant
                i <= events@.len(),
                p == (|i: int| !is_silent(events@[i])),
                forall|j: int| i <= j < events@.len() ==> !#[trigger] p(j),
            decreases i,
        {
            assert(!p(i - 1));
            i -= 1;
        }
        proof {
            assert(i > 0 ==> p(i - 1));
            lemma_last_index_is(p, events@.len() as int, i - 1);
        }
        if i > 1 {
            if let WorkflowEvent::WorkflowFailed { .. } = &events[i - 1] {
                return Some(i - 1);
            }
        }
        None
    }
}

} // verus!
