//! What waits for signals give back, told by what is recorded.
use crate::activity_laws::lemma_search_ends;
use crate::event::WorkflowEvent;
use crate::json::{json_view, JsonView};
use crate::kinds::{lemma_split_at_first, race_signal_name};
use crate::moves::{
    lemma_at, lemma_moved_to, lemma_next_open, lemma_next_open_here, lemma_prepared,
    lemma_scan_stop, lemma_stashed_frame,
};
use crate::outcome::{HistoryMatchView, SignalOrTimerView};
use crate::record_laws::{is_marker, points_at};
use crate::replay::Replay;
use crate::scan::{marker_named, signal_named, timer_fired, ScanView};
use crate::search::{lemma_first_index, lemma_first_index_is};
use crate::signal::{lemma_picked, picked};
use crate::signal_race::lemma_pending_prefix;
use crate::stash::PendingSignalView;
use crate::timer_laws::{arms, fires};
use crate::vocabulary::{issues_command, runs_beside};
use vstd::prelude::*;

verus! {

/// Whether a signal of that name was received.
pub open spec fn receives(e: WorkflowEvent, name: Seq<char>) -> bool {
    e matches WorkflowEvent::SignalReceived { signal_name, .. } && signal_name@ == name
}

// ── Deadline timers ─────────────────────────────────────────────────────────
/// The id of the deadline timer of a wait for a signal.
pub open spec fn deadline_id(seq: Seq<char>, name: Seq<char>) -> Seq<char> {
    "__signal_timeout:"@ + seq + ":"@ + name
}

/// Whether the timer is the deadline of a wait for the signal.
pub open spec fn is_deadline_of(timer: Seq<char>, name: Seq<char>) -> bool {
    exists|seq: Seq<char>| !seq.contains(':') && timer == #[trigger] deadline_id(seq, name)
}

/// A deadline timer is told by its id: `__signal_timeout:{seq}:{name}` is one of a
/// wait for that very signal, colons in the name included, and no other timer is.
pub proof fn law_deadline_timer_names_its_signal(timer: Seq<char>, name: Seq<char>)
    ensures
        race_signal_name(timer) == Some(name) <==> is_deadline_of(timer, name),
{
    let prefix = "__signal_timeout:"@;
    reveal_strlit(":");
    let rest = timer.skip(prefix.len() as int);
    if is_deadline_of(timer, name) {
        let seq = choose|seq: Seq<char>|
            !seq.contains(':') && timer == #[trigger] deadline_id(seq, name);
        assert(rest =~= seq.push(':') + name);
        assert(prefix =~= timer.subrange(0, prefix.len() as int));
        lemma_split_at_first(rest, seq, name, ':');
    }
    if race_signal_name(timer) == Some(name) {
        rest.index_of_first_ensures(':');
        let i = rest.index_of_first(':').unwrap();
        let seq = rest.take(i);
        assert(!seq.contains(':')) by {
            if seq.contains(':') {
                let j = choose|j: int| 0 <= j < seq.len() && seq[j] == ':';
                assert(rest[j] == ':');
            }
        }
        assert(timer =~= deadline_id(seq, name));
    }
}

// ── Waits ───────────────────────────────────────────────────────────────────
/// A signal that was taken out of history is delivered before anything ahead: the
/// oldest of that name, with the payload that was received, and it alone leaves the
/// queue.
pub proof fn law_oldest_pending_signal_is_delivered(s: Replay, name: Seq<char>, k: int)
    requires
        s.wf(),
        0 <= k < s.pending_signals.len(),
        s.pending_signals[k].name == name,
        forall|j: int| 0 <= j < k ==> (#[trigger] s.pending_signals[j]).name != name,
    ensures
        s.events[s.pending_signals[k].index] matches WorkflowEvent::SignalReceived {
            signal_name,
            payload,
        } && signal_name@ == name && s.signal(name, None) == (
            Replay { pending_signals: s.pending_signals.remove(k), ..s },
            HistoryMatchView::Matched { output: json_view(payload) },
        ),
{
    let eligible = |j: int|
        s.pending_signals[j].name == name && s.pending_signals[j].index < s.len();
    assert(s.pending_entry_wf(s.pending_signals[k]));
    assert forall|j: int| 0 <= j < k implies !#[trigger] eligible(j) by {
        assert(s.pending_signals[j].name != name);
    }
    lemma_first_index_is(eligible, 0, s.pending_signals.len() as int, k);
}

/// A command that is crossed by a wait for the signal; the deadline of another wait
/// for the same signal is no such command.
pub open spec fn crossed_by_wait(e: WorkflowEvent, name: Seq<char>) -> bool {
    issues_command(e) && !(e matches WorkflowEvent::TimerStarted { timer_id, .. }
        && is_deadline_of(timer_id.0@, name))
}

/// With none of that name taken out, a wait gets the first signal of that name
/// ahead, with the payload that was received, whatever commands ran next to it.
/// The commands that were crossed are still to be claimed, and the cursor returns
/// in front of them.
///
/// `t` is the first event ahead, still to be claimed, that is such a signal or was
/// not recorded next to the wait. Where it is no such signal, the wait diverges
/// there, unless it crossed a command; where there is none, the wait is new.
pub proof fn law_wait_gets_its_own_signal(s: Replay, name: Seq<char>, t: int)
    requires
        s.wf(),
        forall|k: int|
            0 <= k < s.pending_signals.len() ==> (#[trigger] s.pending_signals[k]).name != name,
        s.cursor <= t <= s.len(),
        t < s.len() ==> s.open_at(t) && (receives(s.events[t], name) || !runs_beside(s.events[t])),
        forall|j: int|
            s.cursor <= j < t && s.open_at(j) ==> runs_beside(#[trigger] s.events[j]) && !receives(
                s.events[j],
                name,
            ),
    ensures
        ({
            let (after, r) = s.signal(name, None);
            let crossed = exists|j: int|
                s.cursor <= j < t && s.open_at(j) && crossed_by_wait(#[trigger] s.events[j], name);
            &&& if t < s.len() && receives(s.events[t], name) {
                &&& s.events[t] matches WorkflowEvent::SignalReceived { payload, .. } && r == (
                HistoryMatchView::Matched { output: json_view(payload) })
                &&& after.consumed(t)
                &&& !crossed ==> t < after.cursor
            } else if t < s.len() && !crossed {
                &&& points_at(r, t)
                &&& r matches HistoryMatchView::Diverged { expected, .. } && expected
                    == "SignalReceived"@ + "("@ + name + ")"@
            } else {
                r is NoMatch
            }
            &&& forall|j: int|
                s.cursor <= j < t && s.open_at(j) && crossed_by_wait(#[trigger] s.events[j], name)
                    ==> !after.consumed(j) && after.cursor <= j
        }),
{
    let eligible = |j: int|
        s.pending_signals[j].name == name && s.pending_signals[j].index < s.len();
    let queue = s.pending_signals.len() as int;
    assert forall|j: int| 0 <= j < queue implies !#[trigger] eligible(j) by {
        assert(s.pending_signals[j].name != name);
    }
    lemma_first_index_is(eligible, 0, queue, queue);
    let a = s.advanced();
    lemma_moved_to(s, s.cursor);
    lemma_next_open(s, s.cursor);
    lemma_next_open_here(a, a.cursor);
    if t < a.cursor && t < s.len() {
        assert(s.consumed(t));
    }
    assert forall|j: int| s.cursor <= j < a.cursor implies !s.open_at(j) by {}
    if a.cursor < s.len() {
        let end = s.len();
        let scan = ScanView::Signal { name, race: false };
        assert forall|j: int| a.cursor <= j < t implies !(#[trigger] a.step_at(scan, j) is Hit)
            && !(a.step_at(scan, j) is Halt) && (a.step_at(scan, j) is Command) == (s.open_at(j)
            && crossed_by_wait(s.events[j], name)) by {
            assert(s.open_at(j) ==> runs_beside(s.events[j]) && !receives(s.events[j], name));
            match s.events[j] {
                WorkflowEvent::TimerStarted { timer_id, .. } => law_deadline_timer_names_its_signal(
                    timer_id.0@,
                    name,
                ),
                _ => {},
            }
        }
        lemma_search_ends(a, scan, a.cursor, end, t);
        lemma_scan_stop(a, scan, a.cursor, end);
        lemma_stashed_frame(a, scan, a.cursor, t);
        let w = a.scanned(scan, a.cursor, end);
        let command = a.scan_command(scan, a.cursor, end);
        let commands = |i: int| a.step_at(scan, i) is Command;
        lemma_first_index(commands, a.cursor, t);
        let after = s.signal(name, None).0;
        assert forall|j: int|
            s.cursor <= j < t && s.open_at(j) && crossed_by_wait(
                #[trigger] s.events[j],
                name,
            ) implies !after.consumed(j) && after.cursor <= j && command is Some by {
            assert(a.cursor <= j);
            assert(commands(j));
            let first = command.unwrap();
            assert(commands(first) && first <= j);
            assert(w.consumed(j) == a.consumed(j));
            assert(w.consumed(first) == a.consumed(first));
            if t < s.len() && receives(s.events[t], name) {
                lemma_next_open_here(w.delivered(t), first);
            }
        }
        match command {
            Some(c) => {
                assert(commands(c));
                assert(s.open_at(c) && crossed_by_wait(s.events[c], name));
            },
            None => {
                if t < s.len() {
                    lemma_next_open(w.delivered(t), t + 1);
                }
            },
        }
    }
}

/// A wait that is a branch of a race gets the oldest signal of that name that was
/// received before the race was settled, taken out or not, with its payload; a
/// signal behind the settlement is not for it, and nothing makes it diverge.
///
/// `end` is where the race was settled: the first marker of that name that no later
/// cycle superseded.
pub proof fn law_race_branch_gets_only_earlier_signals(
    s: Replay,
    name: Seq<char>,
    marker: Seq<char>,
    end: int,
)
    requires
        s.wf(),
        0 <= end <= s.len(),
        end < s.len() ==> is_marker(s.events[end], marker) && !s.transparent.contains(end),
        forall|j: int|
            0 <= j < end && is_marker(#[trigger] s.events[j], marker) ==> s.transparent.contains(j),
    ensures
        ({
            let (after, r) = s.signal(name, Some(marker));
            &&& forall|k: int|
                0 <= k < s.pending_signals.len() && (#[trigger] s.pending_signals[k]).name == name
                    && s.pending_signals[k].index < end && (forall|j: int|
                    0 <= j < k ==> (#[trigger] s.pending_signals[j]).name != name) ==> (
                s.events[s.pending_signals[k].index] matches WorkflowEvent::SignalReceived {
                    payload,
                    ..
                } && r == (HistoryMatchView::Matched { output: json_view(payload) }) && after == (
                Replay { pending_signals: s.pending_signals.remove(k), ..s }))
            &&& (forall|k: int|
                0 <= k < s.pending_signals.len() ==> (#[trigger] s.pending_signals[k]).name != name
                    || s.pending_signals[k].index >= end) ==> {
                &&& forall|t: int|
                    s.cursor <= t < end && s.open_at(t) && receives(#[trigger] s.events[t], name)
                        && (forall|j: int|
                        s.cursor <= j < t && s.open_at(j) ==> !receives(
                            #[trigger] s.events[j],
                            name,
                        )) ==> (s.events[t] matches WorkflowEvent::SignalReceived { payload, .. }
                        && r == (HistoryMatchView::Matched { output: json_view(payload) })
                        && after.consumed(t))
                &&& (forall|j: int|
                    s.cursor <= j < end && s.open_at(j) ==> !receives(#[trigger] s.events[j], name))
                    ==> r is NoMatch
            }
        }),
{
    let settles = |i: int| !s.transparent.contains(i) && marker_named(s.events[i], marker);
    assert forall|j: int| 0 <= j < end implies !#[trigger] settles(j) by {
        if marker_named(s.events[j], marker) {
            assert(is_marker(s.events[j], marker));
        }
    }
    lemma_first_index_is(settles, 0, s.len(), end);
    let bound = Some(marker);
    assert(s.race_end(bound) == end);
    let eligible = |j: int| s.pending_signals[j].name == name && s.pending_signals[j].index < end;
    let queue = s.pending_signals.len() as int;
    let (after, r) = s.signal(name, Some(marker));
    assert forall|k: int|
        0 <= k < s.pending_signals.len() && (#[trigger] s.pending_signals[k]).name == name
            && s.pending_signals[k].index < end && (forall|j: int|
            0 <= j < k ==> (#[trigger] s.pending_signals[j]).name != name) implies (
    s.events[s.pending_signals[k].index] matches WorkflowEvent::SignalReceived { payload, .. } && r
        == (HistoryMatchView::Matched { output: json_view(payload) }) && after == (Replay {
        pending_signals: s.pending_signals.remove(k),
        ..s
    })) by {
        assert(s.pending_entry_wf(s.pending_signals[k]));
        assert forall|j: int| 0 <= j < k implies !#[trigger] eligible(j) by {
            assert(s.pending_signals[j].name != name);
        }
        lemma_first_index_is(eligible, 0, queue, k);
    }
    if forall|k: int|
        0 <= k < s.pending_signals.len() ==> (#[trigger] s.pending_signals[k]).name != name
            || s.pending_signals[k].index >= end {
        assert forall|j: int| 0 <= j < queue implies !#[trigger] eligible(j) by {
            assert(s.pending_signals[j].name != name || s.pending_signals[j].index >= end);
        }
        lemma_first_index_is(eligible, 0, queue, queue);
        let a = s.advanced();
        lemma_moved_to(s, s.cursor);
        lemma_next_open(s, s.cursor);
        lemma_next_open_here(a, a.cursor);
        let scan = ScanView::Signal { name, race: true };
        assert forall|t: int|
            s.cursor <= t < end && s.open_at(t) && receives(#[trigger] s.events[t], name) && (
            forall|j: int|
                s.cursor <= j < t && s.open_at(j) ==> !receives(
                    #[trigger] s.events[j],
                    name,
                )) implies (s.events[t] matches WorkflowEvent::SignalReceived { payload, .. } && r
            == (HistoryMatchView::Matched { output: json_view(payload) }) && after.consumed(
            t,
        )) by {
            if t < a.cursor {
                assert(s.consumed(t));
            }
            assert forall|j: int| a.cursor <= j < t implies !(#[trigger] a.step_at(
                scan,
                j,
            ) is Hit) && !(a.step_at(scan, j) is Halt) by {
                assert(s.open_at(j) ==> !receives(s.events[j], name));
            }
            lemma_search_ends(a, scan, a.cursor, end, t);
        }
        if (forall|j: int|
            s.cursor <= j < end && s.open_at(j) ==> !receives(#[trigger] s.events[j], name))
            && a.cursor < end {
            assert forall|j: int| a.cursor <= j < end implies !(#[trigger] a.step_at(
                scan,
                j,
            ) is Hit) && !(a.step_at(scan, j) is Halt) by {
                assert(s.open_at(j) ==> !receives(s.events[j], name));
            }
            lemma_search_ends(a, scan, a.cursor, end, end);
        }
    }
}

/// A signal is reported as left exactly where one of that name was taken out and
/// not delivered, or stands ahead of the cursor and was not taken.
pub proof fn law_left_signal_is_reported(s: Replay, name: Seq<char>)
    requires
        s.wf(),
    ensures
        s.has_signal(name) <==> {
            ||| exists|k: int|
                0 <= k < s.pending_signals.len() && receives(
                    s.events[(#[trigger] s.pending_signals[k]).index],
                    name,
                )
            ||| exists|i: int|
                s.cursor <= i < s.len() && !s.consumed(i) && receives(#[trigger] s.events[i], name)
        },
{
    assert forall|k: int| 0 <= k < s.pending_signals.len() implies (receives(
        s.events[(#[trigger] s.pending_signals[k]).index],
        name,
    ) == (s.pending_signals[k].name == name)) by {
        assert(s.pending_entry_wf(s.pending_signals[k]));
    }
    if exists|i: int|
        s.cursor <= i < s.len() && s.open_at(i) && signal_named(#[trigger] s.events[i], name) {
        let i = choose|i: int|
            s.cursor <= i < s.len() && s.open_at(i) && signal_named(#[trigger] s.events[i], name);
        assert(!s.consumed(i) && receives(s.events[i], name));
    }
    if exists|i: int|
        s.cursor <= i < s.len() && !s.consumed(i) && receives(#[trigger] s.events[i], name) {
        let i = choose|i: int|
            s.cursor <= i < s.len() && !s.consumed(i) && receives(#[trigger] s.events[i], name);
        assert(s.open_at(i) && signal_named(s.events[i], name));
    }
}

// ── Claims by handlers ──────────────────────────────────────────────────────
/// A handler that claims the signals of a name gets every one of that name that was
/// taken out and not reserved for a race, none twice and none else, oldest first,
/// each with the payload that was received and where; the others stay in the queue.
/// One that claims a single signal gets the oldest of these.
pub proof fn law_handler_gets_its_own_signals(s: Replay, name: Seq<char>)
    requires
        s.wf(),
    ensures
        ({
            let p = s.prepared();
            let (after, claims) = s.signals_claimed(name);
            let own = |k: int|
                receives(s.events[p.pending_signals[k].index], name) && !s.reserved.contains(
                    p.pending_signals[k].index,
                );
            &&& forall|k: int|
                #![trigger p.pending_signals[k]]
                0 <= k < p.pending_signals.len() ==> (claims.contains(p.pending_signals[k])
                    <==> own(k)) && (after.pending_signals.contains(p.pending_signals[k]) <==> !own(
                    k,
                ))
            &&& forall|m: int|
                0 <= m < claims.len() ==> (s.events[(#[trigger] claims[m]).index]
                    matches WorkflowEvent::SignalReceived { payload, .. } && claims[m].payload
                    == json_view(payload)) && p.pending_signals.contains(claims[m])
            &&& forall|m: int, n: int|
                0 <= m < n < claims.len() ==> (#[trigger] claims[m]).index < (
                #[trigger] claims[n]).index
            &&& forall|k: int|
                0 <= k < p.pending_signals.len() && #[trigger] own(k) && (forall|j: int|
                    0 <= j < k ==> !#[trigger] own(j)) ==> (
                s.events[p.pending_signals[k].index] matches WorkflowEvent::SignalReceived {
                    payload,
                    ..
                } && s.signal_claimed(name) == (
                    Replay { pending_signals: p.pending_signals.remove(k), ..p },
                    Some(json_view(payload)),
                ))
            &&& (forall|k: int| 0 <= k < p.pending_signals.len() ==> !#[trigger] own(k))
                ==> s.signal_claimed(name) == (p, None::<JsonView>)
        }),
{
    let p = s.prepared();
    lemma_prepared(s);
    let queue = p.pending_signals;
    let yes = |c: PendingSignalView| p.claimable(name, c);
    let no = |c: PendingSignalView| !p.claimable(name, c);
    lemma_picked(queue, yes);
    lemma_picked(queue, no);
    let (after, claims) = s.signals_claimed(name);
    assert(claims == picked(queue, yes));
    assert(after.pending_signals == picked(queue, no));
    let own = |k: int|
        receives(s.events[p.pending_signals[k].index], name) && !s.reserved.contains(
            p.pending_signals[k].index,
        );
    assert forall|k: int| 0 <= k < queue.len() implies yes(#[trigger] queue[k]) == own(k) by {
        assert(p.pending_entry_wf(queue[k]));
    }
    assert forall|k: int|
        #![trigger p.pending_signals[k]]
        0 <= k < queue.len() implies (claims.contains(queue[k]) <==> own(k)) && (
    after.pending_signals.contains(queue[k]) <==> !own(k)) by {
        assert(yes(queue[k]) == own(k));
        assert(no(queue[k]) == !own(k));
        if claims.contains(queue[k]) {
            let m = choose|m: int| 0 <= m < claims.len() && claims[m] == queue[k];
            assert(yes(picked(queue, yes)[m]));
        }
        if after.pending_signals.contains(queue[k]) {
            let left = after.pending_signals;
            let m = choose|m: int| 0 <= m < left.len() && left[m] == queue[k];
            assert(no(picked(queue, no)[m]));
        }
    }
    assert forall|m: int| 0 <= m < claims.len() implies (s.events[(#[trigger] claims[m]).index]
        matches WorkflowEvent::SignalReceived { payload, .. } && claims[m].payload == json_view(
        payload,
    )) && queue.contains(claims[m]) by {
        assert(queue.contains(picked(queue, yes)[m]));
        let k = choose|k: int| 0 <= k < queue.len() && queue[k] == claims[m];
        assert(p.pending_entry_wf(queue[k]));
    }
    let first = |k: int| p.claimable(name, p.pending_signals[k]);
    assert forall|k: int| 0 <= k < queue.len() implies #[trigger] first(k) == own(k) by {
        assert(yes(queue[k]) == own(k));
    }
    assert forall|k: int|
        0 <= k < queue.len() && #[trigger] own(k) && (forall|j: int|
            0 <= j < k ==> !#[trigger] own(j)) implies (s.events[queue[k].index]
        matches WorkflowEvent::SignalReceived { payload, .. } && s.signal_claimed(name) == (
        Replay { pending_signals: queue.remove(k), ..p },
        Some(json_view(payload)),
    )) by {
        assert(p.pending_entry_wf(queue[k]));
        assert(first(k) == own(k));
        assert forall|j: int| 0 <= j < k implies !#[trigger] first(j) by {
            assert(!own(j));
        }
        lemma_first_index_is(first, 0, queue.len() as int, k);
    }
    if forall|k: int| 0 <= k < queue.len() ==> !#[trigger] own(k) {
        assert forall|k: int| 0 <= k < queue.len() implies !#[trigger] first(k) by {
            assert(!own(k));
        }
        lemma_first_index_is(first, 0, queue.len() as int, queue.len() as int);
    }
}

// ── Races against a deadline ────────────────────────────────────────────────
/// Whether `l` is the first signal of that name behind `f` that is not late yet.
pub open spec fn first_late(s: Replay, name: Seq<char>, f: int, l: int) -> bool {
    &&& f < l < s.len()
    &&& receives(s.events[l], name)
    &&& !s.late.contains(l)
    &&& forall|j: int|
        f < j < l && receives(#[trigger] s.events[j], name) ==> s.late.contains(j)
}

/// What a race that goes to the timer notes as late.
proof fn lemma_noted_as_late(w: Replay, name: Seq<char>, f: int, command: Option<int>)
    requires
        0 <= f < w.len(),
    ensures
        forall|l: int| #[trigger]
            first_late(w, name, f, l) ==> w.race_timer_won(f, command, name).late
                == w.late.insert(l),
        (forall|l: int| !#[trigger] first_late(w, name, f, l)) ==> w.race_timer_won(
            f,
            command,
            name,
        ).late == w.late,
{
    let p = |i: int| !w.late.contains(i) && signal_named(w.events[i], name);
    lemma_first_index(p, f + 1, w.len());
    let loser = w.next_loser(name, f);
    assert forall|l: int| #[trigger] first_late(w, name, f, l) implies loser == l by {
        assert(p(l));
        assert forall|j: int| f + 1 <= j < l implies !#[trigger] p(j) by {
            if receives(w.events[j], name) {
                assert(w.late.contains(j));
            }
        }
        lemma_first_index_is(p, f + 1, w.len(), l);
    }
    if loser < w.len() {
        assert(p(loser));
        assert forall|j: int| f < j < loser && receives(
            #[trigger] w.events[j],
            name,
        ) implies w.late.contains(j) by {
            assert(!p(j));
        }
        assert(first_late(w, name, f, loser));
    }
}

/// A race between a signal and its deadline is decided by whichever of a signal of
/// that name and the timer's own fire was recorded first, whatever commands ran
/// next to it. A signal that won gives the payload that was received; a fire that
/// won delivers nothing, and the next signal of that name is noted as late. The
/// commands that were crossed are still to be claimed.
///
/// None of that name is taken out. `t` is the first event behind the arming, still
/// to be claimed, that decides or was not recorded next to the race. Where it does
/// not decide, or where there is none, the race is still in progress.
pub proof fn law_signal_race_is_decided_by_the_first(
    s: Replay,
    name: Seq<char>,
    timer: Seq<char>,
    t: int,
)
    requires
        s.wf(),
        s.prepared().cursor < t <= s.len(),
        arms(s.events[s.prepared().cursor], timer),
        forall|k: int|
            0 <= k < s.prepared().pending_signals.len() ==> (
            #[trigger] s.prepared().pending_signals[k]).name != name,
        t < s.len() ==> s.prepared().open_at(t) && (receives(s.events[t], name) || fires(
            s.events[t],
            timer,
        ) || !runs_beside(s.events[t])),
        forall|j: int|
            s.prepared().cursor < j < t && s.prepared().open_at(j) ==> runs_beside(
                #[trigger] s.events[j],
            ) && !receives(s.events[j], name) && !fires(s.events[j], timer),
    ensures
        ({
            let p = s.prepared();
            let (after, r) = s.signal_or_timer(name, timer, None);
            &&& if t < s.len() && receives(s.events[t], name) {
                &&& s.events[t] matches WorkflowEvent::SignalReceived { payload, .. } && r == (
                SignalOrTimerView::SignalWon { payload: json_view(payload) })
                &&& after.consumed(t)
                &&& after.late == p.late
                &&& forall|f: int|
                    t < f && p.open_at(f) && fires(#[trigger] s.events[f], timer) && (forall|g: int|
                        t < g < f && p.open_at(g) ==> !fires(#[trigger] s.events[g], timer))
                        ==> after.consumed(f)
            } else if t < s.len() && fires(s.events[t], timer) {
                &&& r is TimerWon
                &&& after.consumed(t) || t < after.cursor
                &&& forall|l: int| #[trigger]
                    first_late(p, name, t, l) ==> after.late == p.late.insert(l)
                &&& (forall|l: int| !#[trigger] first_late(p, name, t, l)) ==> after.late == p.late
            } else {
                r is InProgress && after.late == p.late
            }
            &&& forall|j: int|
                p.cursor < j < t && p.open_at(j) && issues_command(#[trigger] s.events[j])
                    ==> !after.consumed(j) && after.cursor <= j
        }),
{
    let p = s.prepared();
    lemma_prepared(s);
    let q = p.at(p.cursor + 1);
    lemma_at(p, p.cursor + 1);
    let queue = p.pending_signals;
    let n = queue.len() as int;
    let before = |k: int| p.pending_signals[k].name == name && p.pending_signals[k].index < p.cursor;
    let named = |k: int| q.pending_signals[k].name == name;
    assert forall|k: int| 0 <= k < n implies !#[trigger] before(k) by {
        assert(s.prepared().pending_signals[k].name != name);
    }
    assert forall|k: int| 0 <= k < n implies !#[trigger] named(k) by {
        assert(s.prepared().pending_signals[k].name != name);
    }
    lemma_first_index_is(before, 0, n, n);
    lemma_first_index_is(named, 0, n, n);
    let scan = ScanView::SignalOrTimer { name, timer };
    assert forall|j: int| q.cursor <= j < t implies !(#[trigger] q.step_at(scan, j) is Hit) && !(
    q.step_at(scan, j) is Halt) && (q.step_at(scan, j) is Command) == (p.open_at(j)
        && issues_command(s.events[j])) by {
        assert(p.open_at(j) ==> runs_beside(s.events[j]) && !receives(s.events[j], name) && !fires(
            s.events[j],
            timer,
        ));
    }
    lemma_search_ends(q, scan, q.cursor, q.len(), t);
    lemma_scan_stop(q, scan, q.cursor, q.len());
    lemma_stashed_frame(q, scan, q.cursor, t);
    let w = q.scanned(scan, q.cursor, q.len());
    let command = q.scan_command(scan, q.cursor, q.len());
    let commands = |i: int| q.step_at(scan, i) is Command;
    lemma_first_index(commands, q.cursor, t);
    let after = s.signal_or_timer(name, timer, None).0;
    let d = w.delivered(t);
    let fire = |i: int| !d.consumed(i) && timer_fired(d.events[i], timer);
    if t < s.len() {
        lemma_first_index(fire, t + 1, d.len());
        lemma_noted_as_late(w, name, t, command);
        assert forall|l: int| #[trigger] first_late(p, name, t, l) == first_late(
            w,
            name,
            t,
            l,
        ) by {}
        if forall|l: int| !#[trigger] first_late(p, name, t, l) {
            assert forall|l: int| !#[trigger] first_late(w, name, t, l) by {
                assert(!first_late(p, name, t, l));
            }
        }
        lemma_next_open(w, t + 1);
    }
    let won = d.stray_fire_claimed(timer, t);
    let loser = w.next_loser(name, t);
    let noted = if loser < w.len() {
        Replay { late: w.late.insert(loser), ..w }
    } else {
        w
    };
    assert forall|j: int|
        p.cursor < j < t && p.open_at(j) && issues_command(
            #[trigger] s.events[j],
        ) implies !after.consumed(j) && after.cursor <= j by {
        assert(commands(j));
        let first = command.unwrap();
        assert(commands(first) && first <= j);
        assert(w.consumed(j) == q.consumed(j));
        assert(w.consumed(first) == q.consumed(first));
        if t < s.len() && receives(s.events[t], name) {
            lemma_next_open_here(won, first);
        } else if t < s.len() && fires(s.events[t], timer) {
            lemma_next_open_here(noted.claimed(t), first);
        } else {
            lemma_next_open_here(w, first);
        }
    }
    if t < s.len() && !receives(s.events[t], name) && fires(s.events[t], timer) {
        match command {
            Some(c) => {},
            None => lemma_next_open(noted, t + 1),
        }
    }
    if t < s.len() && receives(s.events[t], name) {
        assert forall|f: int|
            t < f && p.open_at(f) && fires(#[trigger] s.events[f], timer) && (forall|g: int|
                t < g < f && p.open_at(g) ==> !fires(
                    #[trigger] s.events[g],
                    timer,
                )) implies after.consumed(f) by {
            assert(w.consumed(f) == q.consumed(f));
            assert(fire(f));
            assert forall|g: int| t + 1 <= g < f implies !#[trigger] fire(g) by {
                assert(w.consumed(g) == q.consumed(g));
                assert(p.open_at(g) ==> !fires(s.events[g], timer));
            }
            lemma_first_index_is(fire, t + 1, d.len(), f);
        }
    }
}

/// A signal that was taken out decides the race by where it was received. Received
/// before the race was armed, it wins outright, and nothing else is claimed.
/// Received behind the arming, it wins unless the timer's own fire stands before
/// it: then the fire wins, and the signal stays in the queue.
///
/// The signal stands at `k` in the queue, the first of its name. `t` is, behind the
/// arming and before the signal, the first event still to be claimed that is a fire
/// of the timer or was not recorded next to the race, or else where the signal was
/// received.
pub proof fn law_signal_race_against_a_pending_signal(
    s: Replay,
    name: Seq<char>,
    timer: Seq<char>,
    k: int,
    t: int,
)
    requires
        s.wf(),
        0 <= k < s.prepared().pending_signals.len(),
        s.prepared().pending_signals[k].name == name,
        forall|j: int|
            0 <= j < k ==> (#[trigger] s.prepared().pending_signals[j]).name != name,
    ensures
        ({
            let p = s.prepared();
            let i = p.pending_signals[k].index;
            let (after, r) = s.signal_or_timer(name, timer, None);
            &&& s.events[i] matches WorkflowEvent::SignalReceived { payload, .. } && {
                &&& i < p.cursor ==> r == (SignalOrTimerView::SignalWon {
                    payload: json_view(payload),
                }) && after == (Replay { pending_signals: p.pending_signals.remove(k), ..p })
                &&& p.cursor < t <= i && p.cursor < s.len() && arms(s.events[p.cursor], timer) && (t
                    < i ==> p.open_at(t) && (fires(s.events[t], timer) || !runs_beside(
                    s.events[t],
                ))) && (forall|j: int|
                    p.cursor < j < t && p.open_at(j) ==> runs_beside(#[trigger] s.events[j])
                        && !fires(s.events[j], timer)) ==> (if t == i {
                    r == (SignalOrTimerView::SignalWon { payload: json_view(payload) })
                } else if fires(s.events[t], timer) {
                    r is TimerWon && after.is_pending(i)
                } else {
                    r is InProgress && after.is_pending(i)
                })
            }
        }),
{
    let p = s.prepared();
    lemma_prepared(s);
    let q = p.at(p.cursor + 1);
    let queue = p.pending_signals;
    let n = queue.len() as int;
    let i = queue[k].index;
    assert(p.pending_entry_wf(queue[k]));
    let before = |m: int| p.pending_signals[m].name == name && p.pending_signals[m].index < p.cursor;
    let named = |m: int| q.pending_signals[m].name == name;
    assert forall|m: int| 0 <= m < k implies !#[trigger] before(m) && !named(m) by {
        assert(s.prepared().pending_signals[m].name != name);
    }
    assert forall|m: int| 0 <= m < k implies !#[trigger] named(m) by {
        assert(!before(m));
        assert(s.prepared().pending_signals[m].name != name);
    }
    if i < p.cursor {
        lemma_first_index_is(before, 0, n, k);
    } else if p.cursor < t <= i && p.cursor < s.len() && arms(s.events[p.cursor], timer) && (t < i
        ==> p.open_at(t) && (fires(s.events[t], timer) || !runs_beside(s.events[t]))) && (forall|
        j: int,
    |
        p.cursor < j < t && p.open_at(j) ==> runs_beside(#[trigger] s.events[j]) && !fires(
            s.events[j],
            timer,
        )) {
        assert forall|m: int| 0 <= m < n implies !#[trigger] before(m) by {
            if k < m {
                assert(queue[k].index < queue[m].index);
            }
        }
        lemma_first_index_is(before, 0, n, n);
        lemma_first_index_is(named, 0, n, k);
        let scan = ScanView::SignalOrTimer { name, timer };
        assert forall|j: int| q.cursor <= j < i && receives(
            #[trigger] s.events[j],
            name,
        ) implies q.consumed(j) by {
            if !q.consumed(j) {
                assert(p.open_signal(j));
                assert(queue[k].index < j);
            }
        }
        assert forall|j: int| q.cursor <= j < t implies !(#[trigger] q.step_at(scan, j) is Hit)
            && !(q.step_at(scan, j) is Halt) by {
            assert(p.open_at(j) ==> runs_beside(s.events[j]) && !fires(s.events[j], timer));
        }
        if t < i {
            assert(q.step_at(scan, t) is Hit || q.step_at(scan, t) is Halt);
        }
        lemma_at(p, p.cursor + 1);
        lemma_search_ends(q, scan, q.cursor, i, t);
        lemma_scan_stop(q, scan, q.cursor, i);
        lemma_pending_prefix(q, scan, q.cursor, t);
        let w = q.scanned(scan, q.cursor, i);
        assert(w.pending_signals[k] == queue[k]);
        let after = s.signal_or_timer(name, timer, None).0;
        if t < i {
            assert(after.pending_signals == w.pending_signals);
            assert(after.pending_signals[k].index == i);
        }
    }
}

} // verus!
