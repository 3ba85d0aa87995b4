//! What holds of the delivery of signals.
use crate::json::JsonView;
use crate::laws::lemma_prepared_stays;
use crate::moves::{
    lemma_absorbed_frame, lemma_delivered, lemma_dequeued, lemma_drained, lemma_moved_to,
    lemma_next_open, lemma_prepared, lemma_scan_stop, lemma_scanned, lemma_stashed_frame,
};
use crate::outcome::HistoryMatchView;
use crate::replay::Replay;
use crate::scan::{marker_named, signal_named, ScanView};
use crate::search::{first_index, lemma_first_index, lemma_first_index_is};
use crate::signal::{lemma_picked, picked, signal_payload};
use crate::stash::PendingSignalView;
use vstd::prelude::*;

verus! {

impl Replay {
    /// Whether, on the way to `later`, the signal recorded at `i` was delivered
    /// and no other.
    pub open spec fn hands_over(self, later: Replay, i: int) -> bool {
        &&& self.undelivered(i)
        &&& forall|j: int| #[trigger]
            later.undelivered(j) == (self.undelivered(j) && j != i)
    }

    /// Whether, on the way to `later`, no signal was delivered.
    pub open spec fn hands_over_nothing(self, later: Replay) -> bool {
        forall|j: int| #[trigger] later.undelivered(j) == self.undelivered(j)
    }

    /// Whether a signal of that name that is still to be delivered, pending or
    /// ahead of the cursor, stands at `i`.
    pub open spec fn deliverable(self, name: Seq<char>, i: int) -> bool {
        &&& 0 <= i < self.len()
        &&& signal_named(self.events[i], name)
        &&& self.is_pending(i) || (self.cursor <= i && !self.consumed(i))
    }
}

// ── Taking out is no delivery ───────────────────────────────────────────────
/// Moving the cursor delivers nothing.
pub(crate) proof fn lemma_at_hands_over_nothing(s: Replay, c: int)
    ensures
        s.hands_over_nothing(s.at(c)),
{
    let t = s.at(c);
    assert forall|j: int| #[trigger] t.undelivered(j) == s.undelivered(j) by {
        assert(t.is_pending(j) == s.is_pending(j));
        assert(t.consumed(j) == s.consumed(j));
    }
}

/// Keeping an event aside delivers nothing.
proof fn lemma_absorbed_hands_over_nothing(s: Replay, i: int)
    requires
        s.open_at(i),
    ensures
        s.hands_over_nothing(s.absorbed(i)),
{
    let t = s.absorbed(i);
    lemma_absorbed_frame(s, i);
    assert forall|j: int| #[trigger] t.undelivered(j) == s.undelivered(j) by {
        if s.events[i] is SignalReceived {
            let n = s.pending_signals.len() as int;
            assert(t.pending_signals.len() == n + 1);
            assert(t.pending_signals[n].index == i);
            if s.is_pending(j) {
                let k = choose|k: int|
                    0 <= k < s.pending_signals.len() && #[trigger] s.pending_signals[k].index == j;
                assert(t.pending_signals[k].index == j);
            }
            if t.is_pending(j) {
                let k = choose|k: int|
                    0 <= k < t.pending_signals.len() && #[trigger] t.pending_signals[k].index == j;
                if k < n {
                    assert(s.pending_signals[k].index == j);
                }
            }
        } else {
            assert(t.is_pending(j) == s.is_pending(j));
        }
    }
}

/// What a scan keeps aside is not delivered by it.
pub(crate) proof fn lemma_stashed_hands_over_nothing(s: Replay, scan: ScanView, from: int, to: int)
    requires
        0 <= from,
        to <= s.len(),
    ensures
        s.hands_over_nothing(s.stashed(scan, from, to)),
    decreases to - from,
{
    if from < to {
        let b = s.stashed(scan, from, to - 1);
        lemma_stashed_hands_over_nothing(s, scan, from, to - 1);
        lemma_stashed_frame(s, scan, from, to - 1);
        if s.step_at(scan, to - 1) is Stash {
            assert(b.consumed(to - 1) == s.consumed(to - 1));
            lemma_absorbed_hands_over_nothing(b, to - 1);
        }
    }
}

/// Noting outcomes of external primitives delivers nothing.
proof fn lemma_resolved_hands_over_nothing(s: Replay, from: int, to: int)
    requires
        0 <= from,
        to <= s.len(),
    ensures
        s.hands_over_nothing(s.resolved(from, to)),
        s.resolved(from, to).events == s.events,
    decreases to - from,
{
    if from < to {
        let b = s.resolved(from, to - 1);
        lemma_resolved_hands_over_nothing(s, from, to - 1);
        if !b.consumed(to - 1) && b.awaits_outcome(s.events[to - 1]) {
            lemma_absorbed_hands_over_nothing(b, to - 1);
            lemma_absorbed_frame(b, to - 1);
        }
    }
}

/// Preparing for a command delivers no signal.
pub proof fn law_preparation_delivers_nothing(s: Replay)
    requires
        s.wf(),
    ensures
        s.hands_over_nothing(s.prepared()),
{
    let a = s.advanced();
    lemma_moved_to(s, s.cursor);
    lemma_at_hands_over_nothing(s, a.cursor);
    let stop = a.scan_stop(ScanView::Drain, a.cursor, a.len());
    lemma_scan_stop(a, ScanView::Drain, a.cursor, a.len());
    let t = a.stashed(ScanView::Drain, a.cursor, stop);
    lemma_stashed_hands_over_nothing(a, ScanView::Drain, a.cursor, stop);
    lemma_at_hands_over_nothing(t, stop);
    let d = a.drained();
    lemma_drained(a);
    lemma_resolved_hands_over_nothing(d, d.cursor, d.len());
    assert forall|j: int| #[trigger] s.prepared().undelivered(j) == s.undelivered(j) by {
        assert(d.undelivered(j) == t.undelivered(j));
        assert(t.undelivered(j) == a.undelivered(j));
        assert(a.undelivered(j) == s.undelivered(j));
    }
}

// ── Delivering ──────────────────────────────────────────────────────────────
/// Delivering a pending signal delivers it and no other.
pub(crate) proof fn lemma_dequeued_hands_over(s: Replay, k: int)
    requires
        s.wf(),
        0 <= k < s.pending_signals.len(),
    ensures
        s.hands_over(s.dequeued(k), s.pending_signals[k].index),
{
    let t = s.dequeued(k);
    let i = s.pending_signals[k].index;
    lemma_dequeued(s, k);
    assert forall|j: int| #[trigger] t.undelivered(j) == (s.undelivered(j) && j != i) by {
        if s.is_pending(j) && j != i {
            let o = choose|o: int|
                0 <= o < s.pending_signals.len() && #[trigger] s.pending_signals[o].index == j;
            let n = if o < k {
                o
            } else {
                o - 1
            };
            assert(t.pending_signals[n].index == j);
        }
    }
}

/// Delivering a signal out of history delivers it and no other.
pub(crate) proof fn lemma_delivered_hands_over(s: Replay, i: int)
    requires
        s.wf(),
        s.open_signal(i),
    ensures
        s.hands_over(s.delivered(i), i),
{
    let t = s.delivered(i);
    lemma_delivered(s, i);
    assert forall|j: int| #[trigger] t.undelivered(j) == (s.undelivered(j) && j != i) by {
        assert(t.is_pending(j) == s.is_pending(j));
        if t.is_pending(i) {
            let k = choose|k: int|
                0 <= k < t.pending_signals.len() && #[trigger] t.pending_signals[k].index == i;
            assert(s.pending_entry_wf(s.pending_signals[k]));
        }
    }
}

/// No marker that settles the race stands before its end.
pub(crate) proof fn lemma_race_end(s: Replay, bound: Option<Seq<char>>)
    ensures
        0 <= s.race_end(bound) <= s.len(),
        forall|j: int|
            0 <= j < s.race_end(bound) && bound is Some && marker_named(
                #[trigger] s.events[j],
                bound.unwrap(),
            ) ==> s.transparent.contains(j),
{
    if let Some(marker) = bound {
        let settles = |i: int| !s.transparent.contains(i) && marker_named(s.events[i], marker);
        lemma_first_index(settles, 0, s.len());
        assert forall|j: int|
            0 <= j < s.race_end(bound) && marker_named(
                #[trigger] s.events[j],
                marker,
            ) implies s.transparent.contains(j) by {
            assert(!settles(j));
        }
    }
}

/// A wait for a signal that is satisfied delivers the oldest signal of that name,
/// its payload unchanged, and no other; one that is not delivers none. A wait that
/// is a branch of a race is never satisfied by a signal behind a marker that
/// settled the race, pending or not; only the markers of a superseded cycle, which
/// are transparent, do not settle it.
pub proof fn law_wait_delivers_exactly_one(s: Replay, name: Seq<char>, bound: Option<Seq<char>>)
    requires
        s.wf(),
    ensures
        match s.signal(name, bound).1 {
            HistoryMatchView::Matched { output } => exists|i: int|
                #![trigger s.deliverable(name, i)]
                {
                    &&& s.deliverable(name, i)
                    &&& s.hands_over(s.signal(name, bound).0, i)
                    &&& output == signal_payload(s.events[i])
                    &&& forall|j: int| #[trigger] s.deliverable(name, j) ==> i <= j
                    &&& forall|j: int|
                        0 <= j < i && bound is Some && marker_named(
                            #[trigger] s.events[j],
                            bound.unwrap(),
                        ) ==> s.transparent.contains(j)
                },
            _ => s.hands_over_nothing(s.signal(name, bound).0),
        },
{
    let end = s.race_end(bound);
    let k = s.first_pending_before(name, end);
    let queue = s.pending_signals;
    let eligible = |k: int| s.pending_signals[k].name == name && s.pending_signals[k].index < end;
    lemma_first_index(eligible, 0, queue.len() as int);
    lemma_race_end(s, bound);
    if k < queue.len() {
        assert(eligible(k));
        lemma_dequeued_hands_over(s, k);
        assert(s.pending_entry_wf(queue[k]));
        assert(s.is_pending(queue[k].index));
        assert(s.deliverable(name, queue[k].index));
        assert forall|j: int| #[trigger] s.deliverable(name, j) implies queue[k].index <= j by {
            if s.is_pending(j) {
                let o = choose|o: int| 0 <= o < queue.len() && #[trigger] queue[o].index == j;
                assert(s.pending_entry_wf(queue[o]));
                if k < o {
                    assert(queue[k].index < queue[o].index);
                } else if o < k {
                    assert(queue[o].index < queue[k].index);
                    assert(eligible(o));
                }
            } else {
                assert(s.open_signal(j));
            }
        }
    } else {
        let a = s.advanced();
        lemma_moved_to(s, s.cursor);
        lemma_next_open(s, s.cursor);
        lemma_at_hands_over_nothing(s, a.cursor);
        if a.replaying() && a.cursor < end {
            let scan = ScanView::Signal { name, race: bound is Some };
            let stop = a.scan_stop(scan, a.cursor, end);
            let command = a.scan_command(scan, a.cursor, end);
            let t = a.scanned(scan, a.cursor, end);
            lemma_scan_stop(a, scan, a.cursor, end);
            lemma_scanned(a, scan, a.cursor, end);
            lemma_stashed_hands_over_nothing(a, scan, a.cursor, stop);
            assert forall|j: int| #[trigger] t.undelivered(j) == s.undelivered(j) by {
                assert(a.undelivered(j) == s.undelivered(j));
            }
            if a.scan_hits(scan, a.cursor, end) {
                assert(signal_named(s.events[stop], name));
                assert(t.consumed(stop) == a.consumed(stop));
                assert(t.open_signal(stop));
                lemma_delivered_hands_over(t, stop);
                let d = t.delivered(stop);
                let next = match command {
                    Some(c) => c,
                    None => stop + 1,
                };
                let after = d.moved_to(next);
                lemma_at_hands_over_nothing(d, after.cursor);
                assert forall|j: int| #[trigger]
                    after.undelivered(j) == (s.undelivered(j) && j != stop) by {
                    assert(after.undelivered(j) == d.undelivered(j));
                    assert(d.undelivered(j) == (t.undelivered(j) && j != stop));
                    assert(t.undelivered(j) == s.undelivered(j));
                }
                assert(t.undelivered(stop) == s.undelivered(stop));
                assert(s.deliverable(name, stop));
                assert forall|j: int| #[trigger] s.deliverable(name, j) implies stop <= j by {
                    if s.is_pending(j) {
                        let o = choose|o: int| 0 <= o < queue.len() && #[trigger] queue[o].index == j;
                        assert(s.pending_entry_wf(queue[o]));
                        assert(!eligible(o));
                    } else if j < stop {
                        if j < a.cursor {
                            assert(s.consumed(j));
                        } else {
                            assert(!(a.step_at(scan, j) is Hit));
                        }
                    }
                }
            }
        }
    }
}

/// Where no signal of a name is left, a wait for it is never satisfied.
pub proof fn law_no_signal_no_delivery(s: Replay, name: Seq<char>, bound: Option<Seq<char>>)
    requires
        s.wf(),
        !s.has_signal(name),
    ensures
        !(s.signal(name, bound).1 is Matched),
{
    law_wait_delivers_exactly_one(s, name, bound);
    if s.signal(name, bound).1 is Matched {
        let i = choose|i: int|
            #![trigger s.deliverable(name, i)]
            s.deliverable(name, i) && s.hands_over(s.signal(name, bound).0, i);
        lemma_deliverable_is_left(s, name, i);
    }
}

/// A deliverable signal is one that is left.
pub(crate) proof fn lemma_deliverable_is_left(s: Replay, name: Seq<char>, i: int)
    requires
        s.wf(),
        s.deliverable(name, i),
    ensures
        s.has_signal(name),
{
    if s.is_pending(i) {
        let k = choose|k: int|
            0 <= k < s.pending_signals.len() && #[trigger] s.pending_signals[k].index == i;
        assert(s.pending_entry_wf(s.pending_signals[k]));
        assert(s.pending_signals[k].name == name);
    } else {
        assert(s.open_at(i));
    }
}

// ── Claims by handlers ──────────────────────────────────────────────────────
/// Whether the signal recorded at `i` is among the claimed ones.
pub open spec fn among(claims: Seq<PendingSignalView>, i: int) -> bool {
    exists|k: int| 0 <= k < claims.len() && #[trigger] claims[k].index == i
}

/// Claiming all pending signals of a name delivers exactly the claimed ones,
/// oldest first, their payloads unchanged; each bears the name and none arrived
/// while a race for it was open.
pub proof fn law_claim_delivers_exactly_the_claimed(s: Replay, name: Seq<char>)
    requires
        s.wf(),
    ensures
        ({
            let (t, claims) = s.signals_claimed(name);
            &&& forall|j: int| #[trigger]
                t.undelivered(j) == (s.undelivered(j) && !among(claims, j))
            &&& forall|k: int|
                #![trigger claims[k]]
                0 <= k < claims.len() ==> {
                    &&& s.undelivered(claims[k].index)
                    &&& signal_named(s.events[claims[k].index], name)
                    &&& claims[k].payload == signal_payload(s.events[claims[k].index])
                    &&& !s.reserved.contains(claims[k].index)
                }
            &&& forall|j: int, k: int|
                0 <= j < k < claims.len() ==> (#[trigger] claims[j]).index < (
                #[trigger] claims[k]).index
        }),
{
    let p = s.prepared();
    lemma_prepared(s);
    law_preparation_delivers_nothing(s);
    let yes = |c: PendingSignalView| p.claimable(name, c);
    let no = |c: PendingSignalView| !p.claimable(name, c);
    let queue = p.pending_signals;
    lemma_picked(queue, yes);
    lemma_picked(queue, no);
    let (t, claims) = s.signals_claimed(name);
    let left = t.pending_signals;
    assert(claims == picked(queue, yes));
    assert(left == picked(queue, no));
    assert forall|k: int|
        #![trigger claims[k]]
        0 <= k < claims.len() implies p.is_pending(claims[k].index) && p.pending_entry_wf(
        claims[k],
    ) && p.claimable(name, claims[k]) by {
        assert(yes(claims[k]) && queue.contains(claims[k]));
        let o = choose|o: int| 0 <= o < queue.len() && queue[o] == claims[k];
        assert(p.pending_signals[o].index == claims[k].index);
    }
    assert forall|k: int|
        #![trigger claims[k]]
        0 <= k < claims.len() implies s.undelivered(claims[k].index) by {
        assert(p.undelivered(claims[k].index) == s.undelivered(claims[k].index));
    }
    assert forall|j: int| #[trigger] t.undelivered(j) == (s.undelivered(j) && !among(
        claims,
        j,
    )) by {
        assert(p.undelivered(j) == s.undelivered(j));
        assert(t.consumed(j) == p.consumed(j));
        if t.is_pending(j) {
            let k = choose|k: int| 0 <= k < left.len() && #[trigger] left[k].index == j;
            assert(no(left[k]) && queue.contains(left[k]));
            let o = choose|o: int| 0 <= o < queue.len() && queue[o] == left[k];
            assert(p.pending_signals[o].index == j);
            if among(claims, j) {
                let m = choose|m: int| 0 <= m < claims.len() && #[trigger] claims[m].index == j;
                assert(yes(claims[m]) && queue.contains(claims[m]));
                let n = choose|n: int| 0 <= n < queue.len() && queue[n] == claims[m];
                assert(queue[n].index == queue[o].index);
                assert(n == o);
            }
        }
        if p.is_pending(j) {
            let o = choose|o: int| 0 <= o < queue.len() && #[trigger] queue[o].index == j;
            assert(p.pending_entry_wf(queue[o]));
            if yes(queue[o]) {
                assert(claims.contains(queue[o]));
                let m = choose|m: int| 0 <= m < claims.len() && claims[m] == queue[o];
                assert(claims[m].index == j);
            } else {
                assert(no(queue[o]));
                assert(left.contains(queue[o]));
                let m = choose|m: int| 0 <= m < left.len() && left[m] == queue[o];
                assert(left[m].index == j);
            }
        } else if among(claims, j) {
            let m = choose|m: int| 0 <= m < claims.len() && #[trigger] claims[m].index == j;
            assert(p.is_pending(claims[m].index));
        }
    }
}

/// Where everything is picked, nothing is left out.
proof fn lemma_picked_all(list: Seq<PendingSignalView>, p: spec_fn(PendingSignalView) -> bool)
    requires
        forall|k: int| 0 <= k < list.len() ==> p(#[trigger] list[k]),
    ensures
        picked(list, p) == list,
    decreases list.len(),
{
    if list.len() > 0 {
        let front = list.drop_last();
        assert forall|k: int| 0 <= k < front.len() implies p(#[trigger] front[k]) by {
            assert(p(list[k]));
        }
        lemma_picked_all(front, p);
        assert(p(list[list.len() - 1]));
        assert(picked(list, p) =~= list);
    }
}

/// Where nothing is picked, nothing remains.
proof fn lemma_picked_none(list: Seq<PendingSignalView>, p: spec_fn(PendingSignalView) -> bool)
    requires
        forall|k: int| 0 <= k < list.len() ==> !p(#[trigger] list[k]),
    ensures
        picked(list, p) == Seq::<PendingSignalView>::empty(),
    decreases list.len(),
{
    if list.len() > 0 {
        let front = list.drop_last();
        assert forall|k: int| 0 <= k < front.len() implies !p(#[trigger] front[k]) by {
            assert(!p(list[k]));
        }
        lemma_picked_none(front, p);
        assert(!p(list[list.len() - 1]));
    }
}

/// Claiming a name again right away finds nothing and changes nothing; so does
/// claiming one.
pub proof fn law_claiming_again_finds_nothing(s: Replay, name: Seq<char>)
    requires
        s.wf(),
    ensures
        ({
            let t = s.signals_claimed(name).0;
            &&& t.signals_claimed(name) == (t, Seq::<PendingSignalView>::empty())
            &&& t.signal_claimed(name) == (t, None::<JsonView>)
        }),
{
    let p = s.prepared();
    lemma_prepared(s);
    let t = s.signals_claimed(name).0;
    lemma_prepared_stays(s, t);
    let was = |c: PendingSignalView| !p.claimable(name, c);
    lemma_picked(p.pending_signals, was);
    let yes = |c: PendingSignalView| t.claimable(name, c);
    let no = |c: PendingSignalView| !t.claimable(name, c);
    let queue = t.pending_signals;
    assert forall|k: int| 0 <= k < queue.len() implies no(#[trigger] queue[k]) by {
        assert(was(queue[k]));
    }
    assert forall|k: int| 0 <= k < queue.len() implies !yes(#[trigger] queue[k]) by {
        assert(no(queue[k]));
    }
    lemma_picked_all(queue, no);
    lemma_picked_none(queue, yes);
    let first = |k: int| t.claimable(name, t.pending_signals[k]);
    assert forall|k: int| 0 <= k < queue.len() implies !#[trigger] first(k) by {
        assert(no(queue[k]));
    }
    lemma_first_index_is(first, 0, queue.len() as int, queue.len() as int);
}

/// Claiming one pending signal delivers it and no other, its payload unchanged;
/// it bears the name and did not arrive while a race for it was open. Finding
/// none delivers none.
pub proof fn law_single_claim_delivers_exactly_one(s: Replay, name: Seq<char>)
    requires
        s.wf(),
    ensures
        match s.signal_claimed(name).1 {
            Some(payload) => exists|i: int|
                #![trigger s.hands_over(s.signal_claimed(name).0, i)]
                {
                    &&& s.hands_over(s.signal_claimed(name).0, i)
                    &&& signal_named(s.events[i], name)
                    &&& payload == signal_payload(s.events[i])
                    &&& !s.reserved.contains(i)
                },
            None => s.hands_over_nothing(s.signal_claimed(name).0),
        },
{
    let p = s.prepared();
    lemma_prepared(s);
    law_preparation_delivers_nothing(s);
    let queue = p.pending_signals;
    let first = |k: int| p.claimable(name, p.pending_signals[k]);
    lemma_first_index(first, 0, queue.len() as int);
    let k = first_index(first, 0, queue.len() as int);
    if k < queue.len() {
        let i = queue[k].index;
        let t = p.dequeued(k);
        assert(first(k));
        assert(p.pending_entry_wf(queue[k]));
        lemma_dequeued_hands_over(p, k);
        assert forall|j: int| #[trigger] t.undelivered(j) == (s.undelivered(j) && j != i) by {
            assert(p.undelivered(j) == s.undelivered(j));
        }
        assert(p.undelivered(i) == s.undelivered(i));
        assert(s.hands_over(s.signal_claimed(name).0, i));
    }
}

// ── What is left over ───────────────────────────────────────────────────────
/// Where unclaimed signals are counted, one stands.
proof fn lemma_unclaimed_signal_exists(s: Replay, name: Seq<char>, to: int)
    requires
        s.unclaimed_signals(name, to) > 0,
    ensures
        exists|i: int| s.cursor <= i < to && #[trigger] s.unclaimed_signal(name, i),
    decreases to - s.cursor,
{
    if !s.unclaimed_signal(name, to - 1) {
        lemma_unclaimed_signal_exists(s, name, to - 1);
    }
}

/// Where undelivered signals are counted, one is pending.
proof fn lemma_undelivered_signal_exists(s: Replay, name: Seq<char>, n: int)
    requires
        s.undelivered_signals(name, n) > 0,
    ensures
        exists|k: int|
            0 <= k < n && (#[trigger] s.pending_signals[k]).name == name && !s.late.contains(
                s.pending_signals[k].index,
            ),
    decreases n,
{
    if !(s.pending_signals[n - 1].name == name && !s.late.contains(
        s.pending_signals[n - 1].index,
    )) {
        lemma_undelivered_signal_exists(s, name, n - 1);
    }
}

/// Signals that are counted as left over are left-over history, and can still be
/// delivered.
pub proof fn law_leftover_signals_are_leftover_history(s: Replay, name: Seq<char>)
    requires
        s.wf(),
        s.unconsumed_signals(name) > 0,
    ensures
        s.unconsumed(),
        s.has_signal(name),
{
    let n = s.pending_signals.len() as int;
    if s.unclaimed_signals(name, s.len()) > 0 {
        lemma_unclaimed_signal_exists(s, name, s.len());
        let i = choose|i: int| s.cursor <= i < s.len() && #[trigger] s.unclaimed_signal(name, i);
        assert(s.unclaimed_command(i));
        assert(s.open_at(i) && signal_named(s.events[i], name));
    } else {
        lemma_undelivered_signal_exists(s, name, n);
        let k = choose|k: int|
            0 <= k < n && (#[trigger] s.pending_signals[k]).name == name && !s.late.contains(
                s.pending_signals[k].index,
            );
        assert(s.pending_signals[k].name == name);
    }
}

/// Left-over history is history that was not replayed.
pub proof fn law_leftover_history_is_buffered(s: Replay)
    requires
        s.wf(),
        s.unconsumed(),
    ensures
        s.buffered(),
{
    if exists|i: int| #[trigger] s.unclaimed_command(i) {
        let i = choose|i: int| #[trigger] s.unclaimed_command(i);
        lemma_next_open(s, s.cursor);
        if s.next_open(s.cursor) == s.len() {
            assert(s.consumed(i));
        }
    }
}

} // verus!
