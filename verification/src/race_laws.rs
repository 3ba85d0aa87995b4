//! What holds of races against a deadline: what was recorded first decides, and
//! what lost is settled.
use crate::child::{child_mismatch, child_race_result, started_child};
use crate::json::JsonView;
use crate::moves::{
    lemma_at, lemma_claimed, lemma_delivered, lemma_dequeued, lemma_moved_to, lemma_prepared,
    lemma_scan_stop, lemma_scanned, lemma_side_fields, lemma_stashed_frame, lemma_step_classes,
};
use crate::outcome::{ChildOrTimerView, SignalOrTimerView, TimerFireMatch};
use crate::replay::Replay;
use crate::scan::{child_outcome, signal_named, timer_cancelled, timer_fired, timer_step, ScanView};
use crate::search::{lemma_first_index, lemma_first_index_is, lemma_first_index_same};
use crate::signal::signal_payload;
use crate::signal_laws::{
    law_preparation_delivers_nothing, lemma_at_hands_over_nothing, lemma_deliverable_is_left,
    lemma_dequeued_hands_over, lemma_stashed_hands_over_nothing,
};
use crate::signal_race::lemma_pending_prefix;
use crate::timer::timer_mismatch;
use crate::types::ExecutionId;
use vstd::prelude::*;

verus! {

impl Replay {
    /// Whether a fire of the timer that is still to be claimed stands at `i`.
    pub open spec fn open_fire(self, timer: Seq<char>, i: int) -> bool {
        self.open_at(i) && timer_fired(self.events[i], timer)
    }

    /// Whether the event at `i` is never looked for again: taken, or behind the
    /// cursor.
    pub open spec fn done(self, i: int) -> bool {
        self.consumed(i) || i < self.cursor
    }
}

/// Claiming an event that is no signal delivers none.
proof fn lemma_claimed_hands_over_nothing(s: Replay, i: int)
    requires
        !(s.events[i] is SignalReceived),
    ensures
        s.hands_over_nothing(s.claimed(i)),
{
    let t = s.claimed(i);
    assert forall|j: int| #[trigger] t.undelivered(j) == s.undelivered(j) by {
        assert(t.is_pending(j) == s.is_pending(j));
    }
}

/// Settling a race for the signal at `pos` delivers at most that signal, and
/// claims the first fire of the timer behind it.
proof fn lemma_race_signal_settled(s: Replay, pos: int, command: Option<int>, timer: Seq<char>)
    requires
        s.wf(),
        s.cursor <= pos < s.len(),
        s.events[pos] is SignalReceived,
        command matches Some(c) ==> s.cursor <= c <= s.len(),
        !s.is_pending(pos),
    ensures
        ({
            let t = s.race_signal_won(pos, command, timer);
            &&& forall|j: int| #[trigger] t.undelivered(j) == (s.undelivered(j) && j != pos)
            &&& forall|f: int|
                pos < f && #[trigger] s.open_fire(timer, f) && (forall|g: int|
                    pos < g < f ==> !#[trigger] s.open_fire(timer, g)) ==> t.consumed(f)
        }),
{
    let d = s.delivered(pos);
    lemma_delivered(s, pos);
    assert forall|j: int| #[trigger] d.undelivered(j) == (s.undelivered(j) && j != pos) by {
        assert(d.is_pending(j) == s.is_pending(j));
    }
    let p = |i: int| !d.consumed(i) && timer_fired(d.events[i], timer);
    lemma_first_index(p, pos + 1, d.len());
    let fire = d.next_fire(timer, pos + 1);
    let f = d.stray_fire_claimed(timer, pos);
    if fire < d.len() {
        assert(p(fire));
        lemma_claimed_hands_over_nothing(d, fire);
    }
    let next = match command {
        Some(c) => c,
        None => pos + 1,
    };
    let t = f.moved_to(next);
    lemma_at_hands_over_nothing(f, t.cursor);
    assert forall|j: int| #[trigger] t.undelivered(j) == (s.undelivered(j) && j != pos) by {
        assert(f.undelivered(j) == d.undelivered(j));
    }
    assert forall|i: int|
        pos < i && #[trigger] s.open_fire(timer, i) && (forall|g: int|
            pos < g < i ==> !#[trigger] s.open_fire(timer, g)) implies t.consumed(i) by {
        assert(p(i));
        assert forall|g: int| pos + 1 <= g < i implies !#[trigger] p(g) by {
            assert(!s.open_fire(timer, g));
        }
        lemma_first_index_is(p, pos + 1, d.len(), i);
    }
}

/// A scan takes out no fire of a timer.
proof fn lemma_stashed_keeps_fires(s: Replay, scan: ScanView, from: int, to: int, timer: Seq<char>)
    ensures
        forall|i: int| #[trigger]
            s.stashed(scan, from, to).open_fire(timer, i) == s.open_fire(timer, i),
{
    lemma_stashed_frame(s, scan, from, to);
    assert forall|i: int| #[trigger]
        s.stashed(scan, from, to).open_fire(timer, i) == s.open_fire(timer, i) by {
        if s.open_fire(timer, i) {
            lemma_step_classes(scan, s.events[i]);
            assert(s.stashed(scan, from, to).consumed(i) == s.consumed(i));
        }
        if s.stashed(scan, from, to).open_fire(timer, i) {
            assert(!s.consumed(i));
        }
    }
}

/// A race between a signal and its deadline goes to whichever was recorded first.
///
/// The signal wins only where no fire of the timer precedes it; the oldest one is
/// delivered, its payload unchanged, and no other signal is; where it arrived after the race
/// began, the next fire of the timer is claimed with it. The timer wins only
/// where no signal of the name that is still to be delivered precedes its fire;
/// the fire is settled, the next signal of the name that is not late yet is noted
/// as late, and no signal is delivered. Nothing else delivers a signal.
pub proof fn law_signal_race_goes_to_the_first(
    s: Replay,
    name: Seq<char>,
    timer: Seq<char>,
    duration: Option<u64>,
)
    requires
        s.wf(),
    ensures
        ({
            let p = s.prepared();
            let (t, r) = s.signal_or_timer(name, timer, duration);
            match r {
                SignalOrTimerView::SignalWon { payload } => exists|i: int|
                    #![trigger p.deliverable(name, i)]
                    {
                        &&& p.deliverable(name, i)
                        &&& s.hands_over(t, i)
                        &&& payload == signal_payload(s.events[i])
                        &&& forall|j: int| #[trigger] p.deliverable(name, j) ==> i <= j
                        &&& forall|f: int|
                            p.cursor < f < i ==> !#[trigger] p.open_fire(timer, f)
                        &&& forall|f: int|
                            p.cursor < i < f && #[trigger] p.open_fire(timer, f) && (forall|g: int|
                                i < g < f ==> !#[trigger] p.open_fire(timer, g)) ==> t.consumed(f)
                    },
                SignalOrTimerView::TimerWon => s.hands_over_nothing(t) && exists|f: int|
                    #![trigger p.open_fire(timer, f)]
                    {
                        &&& p.open_fire(timer, f)
                        &&& t.done(f)
                        &&& forall|i: int| #[trigger] p.deliverable(name, i) ==> f < i
                        &&& p.next_loser(name, f) < s.len() ==> t.late.contains(
                            p.next_loser(name, f),
                        ) && !p.late.contains(p.next_loser(name, f))
                    },
                _ => s.hands_over_nothing(t),
            }
        }),
{
    let p = s.prepared();
    lemma_prepared(s);
    law_preparation_delivers_nothing(s);
    let queue = p.pending_signals;
    let (t, r) = s.signal_or_timer(name, timer, duration);
    let before = |k: int|
        p.pending_signals[k].name == name && p.pending_signals[k].index < p.cursor;
    lemma_first_index(before, 0, queue.len() as int);
    let k = p.first_pending_before(name, p.cursor);
    if k < queue.len() {
        assert(before(k));
        let i = queue[k].index;
        lemma_dequeued_hands_over(p, k);
        assert(p.pending_entry_wf(queue[k]));
        assert(p.is_pending(i));
        assert(p.undelivered(i) == s.undelivered(i));
        assert forall|j: int| #[trigger] t.undelivered(j) == (s.undelivered(j) && j != i) by {
            assert(p.undelivered(j) == s.undelivered(j));
        }
        assert(p.deliverable(name, i));
        assert forall|j: int| #[trigger] p.deliverable(name, j) implies i <= j by {
            if p.is_pending(j) {
                let o = choose|o: int| 0 <= o < queue.len() && #[trigger] queue[o].index == j;
                assert(p.pending_entry_wf(queue[o]));
                if j < p.cursor {
                    assert(before(o));
                    if k < o {
                        assert(queue[k].index < queue[o].index);
                    }
                }
            }
        }
    } else if p.replaying() && timer_mismatch(
        p.events[p.cursor],
        timer,
        duration,
    ) is None {
        let q = p.at(p.cursor + 1);
        lemma_at(p, p.cursor + 1);
        lemma_at_hands_over_nothing(p, p.cursor + 1);
        let m = q.first_pending(name);
        lemma_first_index(|k: int| queue[k].name == name, 0, queue.len() as int);
        assert(p.events[p.cursor] is TimerStarted);
        assert forall|o: int| 0 <= o < queue.len() && (#[trigger] queue[o]).name
            == name implies p.cursor < queue[o].index by {
            assert(!before(o));
            assert(p.pending_entry_wf(queue[o]));
        }
        let end = if m < queue.len() {
            queue[m].index
        } else {
            q.len()
        };
        if m < queue.len() {
            assert(q.pending_entry_wf(queue[m]));
        }
        let scan = ScanView::SignalOrTimer { name, timer };
        let stop = q.scan_stop(scan, q.cursor, end);
        let command = q.scan_command(scan, q.cursor, end);
        let w = q.scanned(scan, q.cursor, end);
        lemma_scan_stop(q, scan, q.cursor, end);
        lemma_scanned(q, scan, q.cursor, end);
        lemma_stashed_frame(q, scan, q.cursor, stop);
        lemma_stashed_hands_over_nothing(q, scan, q.cursor, stop);
        lemma_pending_prefix(q, scan, q.cursor, stop);
        lemma_stashed_keeps_fires(q, scan, q.cursor, stop, timer);
        assert forall|f: int| #[trigger] w.open_fire(timer, f) == p.open_fire(timer, f) by {
            assert(q.open_fire(timer, f) == p.open_fire(timer, f));
        }
        assert forall|j: int| #[trigger] w.undelivered(j) == s.undelivered(j) by {
            assert(w.undelivered(j) == q.undelivered(j));
            assert(q.undelivered(j) == p.undelivered(j));
            assert(p.undelivered(j) == s.undelivered(j));
        }
        assert forall|f: int| p.cursor < f < stop implies !#[trigger] p.open_fire(timer, f) by {
            assert(!(q.step_at(scan, f) is Hit));
        }
        assert forall|i: int| #[trigger] p.deliverable(name, i) implies stop <= i by {
            if p.is_pending(i) {
                let o = choose|o: int| 0 <= o < queue.len() && #[trigger] queue[o].index == i;
                assert(p.pending_entry_wf(queue[o]));
                assert(queue[o].name == name);
                assert(m < queue.len() && m <= o) by {
                    let named = |k: int| queue[k].name == name;
                    assert(named(o));
                }
                if m < o {
                    assert(queue[m].index < queue[o].index);
                }
            } else if i < stop {
                assert(p.cursor < i);
                assert(!(q.step_at(scan, i) is Hit));
            }
        }
        if q.scan_hits(scan, q.cursor, end) {
            assert(w.consumed(stop) == q.consumed(stop));
            if signal_named(q.events[stop], name) {
                assert(w.open_signal(stop));
                assert(!w.is_pending(stop)) by {
                    if w.is_pending(stop) {
                        let o = choose|o: int|
                            0 <= o < w.pending_signals.len() && #[trigger] w.pending_signals[o].index
                                == stop;
                        assert(w.pending_entry_wf(w.pending_signals[o]));
                    }
                }
                lemma_race_signal_settled(w, stop, command, timer);
                assert forall|f: int|
                    p.cursor < stop < f && #[trigger] p.open_fire(timer, f) && (forall|g: int|
                        stop < g < f ==> !#[trigger] p.open_fire(timer, g)) implies t.consumed(
                    f,
                ) by {
                    assert(w.open_fire(timer, f));
                    assert forall|g: int| stop < g < f implies !#[trigger] w.open_fire(
                        timer,
                        g,
                    ) by {
                        assert(!p.open_fire(timer, g));
                    }
                }
                assert(w.undelivered(stop) == s.undelivered(stop));
                assert forall|j: int| #[trigger] t.undelivered(j) == (s.undelivered(j) && j
                    != stop) by {
                    assert(w.undelivered(j) == s.undelivered(j));
                }
                assert(p.deliverable(name, stop));
            } else {
                assert(p.open_fire(timer, stop));
                assert forall|i: int| #[trigger] p.deliverable(name, i) implies stop < i by {
                    assert(stop <= i);
                }
                lemma_timer_won(w, stop, command, name);
                lemma_same_loser(w, p, name, stop);
                lemma_first_index(
                    |i: int| !p.late.contains(i) && signal_named(p.events[i], name),
                    stop + 1,
                    p.len(),
                );
                assert forall|j: int| #[trigger] t.undelivered(j) == s.undelivered(j) by {
                    assert(w.undelivered(j) == s.undelivered(j));
                }
            }
        } else if stop == end && end < q.len() {
            let x = w.dequeued(m);
            assert(w.pending_signals[m] == queue[m]);
            lemma_dequeued(w, m);
            lemma_dequeued_hands_over(w, m);
            assert(!x.undelivered(end));
            assert(!x.is_pending(end));
            lemma_race_signal_settled(x, end, command, timer);
            assert forall|f: int|
                p.cursor < end < f && #[trigger] p.open_fire(timer, f) && (forall|g: int|
                    end < g < f ==> !#[trigger] p.open_fire(timer, g)) implies t.consumed(f) by {
                assert(w.open_fire(timer, f));
                assert(x.open_fire(timer, f));
                assert forall|g: int| end < g < f implies !#[trigger] x.open_fire(timer, g) by {
                    assert(!p.open_fire(timer, g));
                    assert(!w.open_fire(timer, g));
                }
            }
            assert(w.undelivered(end) == s.undelivered(end));
            assert forall|j: int| #[trigger] t.undelivered(j) == (s.undelivered(j) && j
                != end) by {
                assert(x.undelivered(j) == (w.undelivered(j) && j != end));
                assert(w.undelivered(j) == s.undelivered(j));
            }
            assert(p.is_pending(end)) by {
                assert(p.pending_signals[m].index == end);
            }
            assert(p.pending_entry_wf(queue[m]));
            assert(p.deliverable(name, end));
        } else {
            let x = w.rewound(command);
            match command {
                Some(c) => lemma_at_hands_over_nothing(w, x.cursor),
                None => {},
            }
            assert forall|j: int| #[trigger] t.undelivered(j) == s.undelivered(j) by {
                assert(x.undelivered(j) == w.undelivered(j));
                assert(w.undelivered(j) == s.undelivered(j));
            }
        }
    }
}

/// Which signal is late depends on the history and on which already are.
proof fn lemma_same_loser(s: Replay, t: Replay, name: Seq<char>, pos: int)
    requires
        s.events == t.events,
        s.late == t.late,
    ensures
        s.next_loser(name, pos) == t.next_loser(name, pos),
{
    lemma_first_index_same(
        |i: int| !s.late.contains(i) && signal_named(s.events[i], name),
        |i: int| !t.late.contains(i) && signal_named(t.events[i], name),
        pos + 1,
        s.len(),
    );
}

/// Settling a race for the fire at `pos` delivers no signal and settles the fire.
proof fn lemma_timer_won(s: Replay, pos: int, command: Option<int>, name: Seq<char>)
    requires
        s.wf(),
        s.cursor <= pos < s.len(),
        !(s.events[pos] is SignalReceived),
        command matches Some(c) ==> s.cursor <= c <= s.len(),
    ensures
        s.hands_over_nothing(s.race_timer_won(pos, command, name)),
        s.race_timer_won(pos, command, name).done(pos),
        s.next_loser(name, pos) < s.len() ==> s.race_timer_won(pos, command, name).late.contains(
            s.next_loser(name, pos),
        ),
{
    let p = |i: int| !s.late.contains(i) && signal_named(s.events[i], name);
    lemma_first_index(p, pos + 1, s.len());
    let loser = s.next_loser(name, pos);
    let noted = if loser < s.len() {
        Replay { late: s.late.insert(loser), ..s }
    } else {
        s
    };
    lemma_side_fields(s, noted);
    let t = noted.settled(pos, command);
    match command {
        Some(c) => {
            lemma_claimed_hands_over_nothing(noted, pos);
            lemma_claimed(noted, pos);
            lemma_at_hands_over_nothing(noted.claimed(pos), t.cursor);
        },
        None => {
            lemma_moved_to(noted, pos + 1);
            lemma_at_hands_over_nothing(noted, t.cursor);
        },
    }
    assert forall|j: int| #[trigger] t.undelivered(j) == s.undelivered(j) by {
        assert(noted.is_pending(j) == s.is_pending(j));
        assert(noted.undelivered(j) == s.undelivered(j));
        if command is Some {
            assert(noted.claimed(pos).undelivered(j) == noted.undelivered(j));
            assert(t.undelivered(j) == noted.claimed(pos).undelivered(j));
        }
    }
}

/// A signal that lost its race counts no more as left over, and can still be
/// delivered to a later wait.
pub proof fn law_late_signal_is_excused_and_deliverable(s: Replay, name: Seq<char>, i: int)
    requires
        s.wf(),
        s.late.contains(i),
        s.deliverable(name, i),
    ensures
        !s.unclaimed_command(i),
        s.has_signal(name),
{
    lemma_deliverable_is_left(s, name, i);
}

// ── Children ────────────────────────────────────────────────────────────────
impl Replay {
    /// Whether an outcome of the child that is still to be claimed stands at `i`.
    pub open spec fn open_outcome(self, child: ExecutionId, i: int) -> bool {
        self.open_at(i) && child_outcome(self.events[i], child)
    }
}

/// A scan takes out no outcome of a child.
proof fn lemma_stashed_keeps_outcomes(
    s: Replay,
    scan: ScanView,
    from: int,
    to: int,
    child: ExecutionId,
)
    ensures
        forall|i: int| #[trigger]
            s.stashed(scan, from, to).open_outcome(child, i) == s.open_outcome(child, i),
{
    lemma_stashed_frame(s, scan, from, to);
    assert forall|i: int| #[trigger]
        s.stashed(scan, from, to).open_outcome(child, i) == s.open_outcome(child, i) by {
        if s.open_outcome(child, i) {
            lemma_step_classes(scan, s.events[i]);
            assert(s.stashed(scan, from, to).consumed(i) == s.consumed(i));
        }
        if s.stashed(scan, from, to).open_outcome(child, i) {
            assert(!s.consumed(i));
        }
    }
}

/// A race between a child and its deadline goes to whichever was recorded first.
///
/// The child wins only where no fire of the timer precedes its outcome, which is
/// given back and claimed together with the next fire. The timer wins only where
/// no outcome of the child precedes its fire, which is settled together with the
/// child's outcome behind it, where one is recorded.
pub proof fn law_child_race_goes_to_the_first(
    s: Replay,
    name: Seq<char>,
    input: JsonView,
    timer: Seq<char>,
    duration: Option<u64>,
)
    requires
        s.wf(),
    ensures
        ({
            let p = s.prepared();
            let child = started_child(s.events[p.cursor]);
            let (t, r) = s.child_or_timer(name, input, timer, duration);
            match r {
                ChildOrTimerView::TimerFired { child_id, child_already_terminal } => {
                    &&& child_id == child
                    &&& exists|f: int|
                        #![trigger p.open_fire(timer, f)]
                        {
                            &&& p.cursor + 2 <= f
                            &&& p.open_fire(timer, f)
                            &&& t.done(f)
                            &&& forall|i: int|
                                p.cursor + 2 <= i < f ==> !#[trigger] p.open_outcome(child, i)
                            &&& child_already_terminal == exists|i: int|
                                f < i && #[trigger] p.open_outcome(child, i)
                            &&& forall|i: int|
                                f < i && #[trigger] p.open_outcome(child, i) && (forall|g: int|
                                    f < g < i ==> !#[trigger] p.open_outcome(child, g))
                                    ==> t.consumed(i)
                        }
                },
                ChildOrTimerView::InProgress { child_id } => child_id == child,
                ChildOrTimerView::NoMatch => !p.replaying(),
                ChildOrTimerView::Diverged { .. } => t == p,
                _ => exists|i: int|
                    #![trigger p.open_outcome(child, i)]
                    {
                        &&& p.cursor + 2 <= i
                        &&& p.open_outcome(child, i)
                        &&& r == child_race_result(s.events[i])
                        &&& t.consumed(i)
                        &&& forall|f: int|
                            p.cursor + 2 <= f < i ==> !#[trigger] p.open_fire(timer, f)
                        &&& forall|f: int|
                            i < f && #[trigger] p.open_fire(timer, f) && (forall|g: int|
                                i < g < f ==> !#[trigger] p.open_fire(timer, g)) ==> t.consumed(f)
                    },
            }
        }),
{
    let p = s.prepared();
    lemma_prepared(s);
    let (t, r) = s.child_or_timer(name, input, timer, duration);
    if p.replaying() && child_mismatch(p.events[p.cursor], name, input) is None && p.cursor + 1
        < p.len() && timer_mismatch(p.events[p.cursor + 1], timer, duration) is None {
        let child = started_child(p.events[p.cursor]);
        let resume = p.cursor + 2;
        assert(p.events[p.cursor] is ChildWorkflowStarted);
        assert(p.events[p.cursor + 1] is TimerStarted);
        let scan = ScanView::ChildOrTimer { child, timer };
        let stop = p.scan_stop(scan, resume, p.len());
        let command = p.scan_command(scan, resume, p.len());
        let w = p.scanned(scan, resume, p.len());
        lemma_scan_stop(p, scan, resume, p.len());
        lemma_scanned(p, scan, resume, p.len());
        lemma_stashed_keeps_fires(p, scan, resume, stop, timer);
        lemma_stashed_keeps_outcomes(p, scan, resume, stop, child);
        if p.scan_hits(scan, resume, p.len()) {
            assert(w.consumed(stop) == p.consumed(stop));
            if child_outcome(p.events[stop], child) {
                assert(p.open_outcome(child, stop));
                let c = w.claimed(stop);
                lemma_claimed(w, stop);
                assert forall|f: int| resume <= f < stop implies !#[trigger] p.open_fire(
                    timer,
                    f,
                ) by {
                    assert(!(p.step_at(scan, f) is Hit));
                }
                let fires = |i: int| !c.consumed(i) && timer_fired(c.events[i], timer);
                lemma_first_index(fires, stop + 1, c.len());
                assert forall|f: int|
                    stop < f && #[trigger] p.open_fire(timer, f) && (forall|g: int|
                        stop < g < f ==> !#[trigger] p.open_fire(timer, g)) implies t.consumed(
                    f,
                ) by {
                    assert(w.open_fire(timer, f));
                    assert(fires(f));
                    assert forall|g: int| stop + 1 <= g < f implies !#[trigger] fires(g) by {
                        assert(!p.open_fire(timer, g));
                        assert(!w.open_fire(timer, g));
                    }
                    lemma_first_index_is(fires, stop + 1, c.len(), f);
                }
            } else {
                assert(p.open_fire(timer, stop));
                assert forall|i: int| resume <= i < stop implies !#[trigger] p.open_outcome(
                    child,
                    i,
                ) by {
                    assert(!(p.step_at(scan, i) is Hit));
                }
                let ends = |i: int| !w.consumed(i) && child_outcome(w.events[i], child);
                lemma_first_index(ends, stop + 1, w.len());
                let k = w.open_child_outcome(child, stop + 1);
                if k < w.len() {
                    assert(ends(k));
                    assert(w.open_outcome(child, k));
                    assert(p.open_outcome(child, k));
                    lemma_claimed(w, k);
                }
                let l = w.losing_child_claimed(child, stop);
                match command {
                    Some(c) => {},
                    None => lemma_moved_to(l, stop + 1),
                }
                assert forall|i: int| stop < i && #[trigger] p.open_outcome(child, i) implies k
                    <= i && k < w.len() by {
                    assert(w.open_outcome(child, i));
                    assert(ends(i));
                }
                assert forall|i: int|
                    stop < i && #[trigger] p.open_outcome(child, i) && (forall|g: int|
                        stop < g < i ==> !#[trigger] p.open_outcome(child, g)) implies t.consumed(
                    i,
                ) by {
                    assert(k == i);
                }
            }
        }
    }
}

// ── Cancellable timers ──────────────────────────────────────────────────────
/// The outcome of a cancellable timer is whichever of its fire and its cancel
/// was recorded first, and it is then claimed; no command, and no arming of the
/// timer itself, that is still to be claimed stands before it. Where neither is
/// found, either such an event stands in the way, which is noted, or neither is
/// recorded ahead.
pub proof fn law_timer_outcome_is_the_first(s: Replay, timer: Seq<char>)
    requires
        s.wf(),
    ensures
        ({
            let p = (Replay { scan_stopped: false, ..s }).prepared();
            let (t, r) = s.timer_or_cancel(timer);
            match r {
                TimerFireMatch::NoMatch => if t.scan_stopped {
                    exists|j: int|
                        p.cursor <= j && #[trigger] p.open_at(j) && timer_step(
                            s.events[j],
                            timer,
                        ) is Halt
                } else {
                    forall|j: int|
                        p.cursor <= j && #[trigger] p.open_at(j) ==> !timer_fired(
                            s.events[j],
                            timer,
                        ) && !timer_cancelled(s.events[j], timer)
                },
                _ => exists|i: int|
                    #![trigger p.open_at(i)]
                    {
                        &&& p.cursor <= i && p.open_at(i)
                        &&& r is Fired ==> timer_fired(s.events[i], timer)
                        &&& r is Cancelled ==> timer_cancelled(s.events[i], timer)
                        &&& t.consumed(i)
                        &&& forall|j: int|
                            p.cursor <= j < i && #[trigger] p.open_at(j) ==> !(timer_step(
                                s.events[j],
                                timer,
                            ) is Halt)
                    },
            }
        }),
{
    let z = Replay { scan_stopped: false, ..s };
    lemma_side_fields(s, z);
    lemma_prepared(z);
    let p = z.prepared();
    let scan = ScanView::TimerOutcome(timer);
    let stop = p.scan_stop(scan, p.cursor, p.len());
    lemma_scan_stop(p, scan, p.cursor, p.len());
    lemma_scanned(p, scan, p.cursor, p.len());
    lemma_stashed_frame(p, scan, p.cursor, stop);
    assert forall|j: int| p.cursor <= j < stop && #[trigger] p.open_at(j) implies !(timer_step(
        s.events[j],
        timer,
    ) is Halt) && !timer_fired(s.events[j], timer) && !timer_cancelled(s.events[j], timer) by {
        assert(!(p.step_at(scan, j) is Hit) && !(p.step_at(scan, j) is Halt));
    }
    if p.replaying() && stop < p.len() {
        assert(p.open_at(stop));
    }
}

/// A cancel of a timer is claimed only where no command, and no arming or fire of
/// the timer itself, that is still to be claimed stands before it.
pub proof fn law_timer_cancel_crosses_no_command(s: Replay, timer: Seq<char>)
    requires
        s.wf(),
        s.timer_cancel(timer).1 is Matched,
    ensures
        ({
            let p = (Replay { scan_stopped: false, ..s }).prepared();
            let t = s.timer_cancel(timer).0;
            exists|i: int|
                #![trigger p.open_at(i)]
                {
                    &&& p.cursor <= i && p.open_at(i)
                    &&& timer_cancelled(s.events[i], timer)
                    &&& t.consumed(i)
                    &&& forall|j: int|
                        p.cursor <= j < i && #[trigger] p.open_at(j) ==> !(timer_step(
                            s.events[j],
                            timer,
                        ) is Halt)
                }
        }),
{
    let z = Replay { scan_stopped: false, ..s };
    lemma_side_fields(s, z);
    lemma_prepared(z);
    let p = z.prepared();
    let scan = ScanView::TimerCancel(timer);
    let stop = p.scan_stop(scan, p.cursor, p.len());
    lemma_scan_stop(p, scan, p.cursor, p.len());
    lemma_scanned(p, scan, p.cursor, p.len());
    assert forall|j: int| p.cursor <= j < stop && #[trigger] p.open_at(j) implies !(timer_step(
        s.events[j],
        timer,
    ) is Halt) by {
        assert(!(p.step_at(scan, j) is Hit) && !(p.step_at(scan, j) is Halt));
    }
    assert(p.open_at(stop));
}

} // verus!
