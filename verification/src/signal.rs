//! Received signals, and their races against a deadline.
use crate::event::WorkflowEvent;
use crate::json::{json_null, json_view, opt_json, JsonView};
use crate::kinds::{actual_event_name, event_label};
use crate::matcher::HistoryMatcher;
use crate::moves::{
    lemma_delivered, lemma_dequeued, lemma_evolves_transitive, lemma_moved_to, lemma_prepared,
    lemma_scan_stop, lemma_scanned,
};
use crate::outcome::{diverged, diverged_at, HistoryMatch, HistoryMatchView};
use crate::replay::Replay;
use crate::scan::{is_marker_named, is_signal_named, marker_named, signal_named, Scan, ScanView};
use crate::search::{first_index, lemma_first_index, lemma_first_index_is};
use crate::stash::{pending_view, PendingSignal, PendingSignalView};
use crate::text::{str_eq, tag, tagged};
use crate::types::opt_str;
use serde_json::Value;
use std::collections::VecDeque;
use vstd::prelude::*;

verus! {

/// What a recorded signal carries.
pub open spec fn signal_payload(e: WorkflowEvent) -> JsonView {
    match e {
        WorkflowEvent::SignalReceived { payload, .. } => json_view(payload),
        _ => JsonView::Null,
    }
}

// ── Waits for a signal ──────────────────────────────────────────────────────
impl Replay {
    /// Where the first pending signal of that name stands in the queue; the
    /// length of the queue when there is none.
    pub open spec fn first_pending(self, name: Seq<char>) -> int {
        first_index(
            |k: int| self.pending_signals[k].name == name,
            0,
            self.pending_signals.len() as int,
        )
    }

    /// Where the first pending signal of that name that was recorded before `pos`
    /// stands in the queue; the length of the queue when there is none.
    pub open spec fn first_pending_before(self, name: Seq<char>, pos: int) -> int {
        first_index(
            |k: int| self.pending_signals[k].name == name && self.pending_signals[k].index < pos,
            0,
            self.pending_signals.len() as int,
        )
    }

    /// Up to where a signal can satisfy a wait. With a bound, the wait is a branch
    /// of the race that the marker of that name settles: a signal recorded behind
    /// the marker belongs to a later wait, also where the marker was already
    /// claimed. A transparent marker was recorded by a cycle that was superseded,
    /// and settles nothing.
    pub open spec fn race_end(self, bound: Option<Seq<char>>) -> int {
        match bound {
            Some(marker) => first_index(
                |i: int| !self.transparent.contains(i) && marker_named(self.events[i], marker),
                0,
                self.len(),
            ),
            None => self.len(),
        }
    }

    /// What waiting for a signal yields. The first pending signal of that name
    /// is delivered. Without one it is looked for from the cursor on: past the
    /// end it is new; where it is found it is delivered; at an event that no
    /// wait may cross, with no command crossed before it, there is a divergence.
    ///
    /// With a bound, the wait is a branch of a race: only signals that were
    /// recorded before the race was settled count, pending or not, everything
    /// up to there is crossed, and there is no divergence.
    pub open spec fn signal(
        self,
        name: Seq<char>,
        bound: Option<Seq<char>>,
    ) -> (Replay, HistoryMatchView) {
        let end = self.race_end(bound);
        let k = self.first_pending_before(name, end);
        if k < self.pending_signals.len() {
            (
                self.dequeued(k),
                HistoryMatchView::Matched { output: self.pending_signals[k].payload },
            )
        } else {
            let s = self.advanced();
            if !s.replaying() || end <= s.cursor {
                (s, HistoryMatchView::NoMatch)
            } else {
                let scan = ScanView::Signal { name, race: bound is Some };
                let stop = s.scan_stop(scan, s.cursor, end);
                let command = s.scan_command(scan, s.cursor, end);
                let scanned = s.scanned(scan, s.cursor, end);
                if s.scan_hits(scan, s.cursor, end) {
                    (
                        scanned.delivered(stop).moved_to(
                            match command {
                                Some(c) => c,
                                None => stop + 1,
                            },
                        ),
                        HistoryMatchView::Matched { output: signal_payload(s.events[stop]) },
                    )
                } else if stop < end && bound is None && command is None {
                    (
                        scanned,
                        diverged_at(
                            tagged("SignalReceived"@, name),
                            event_label(s.events[stop]),
                            stop,
                        ),
                    )
                } else {
                    (scanned, HistoryMatchView::NoMatch)
                }
            }
        }
    }
}

/// The pending signals that `p` picks, in order.
pub open spec fn picked(
    list: Seq<PendingSignalView>,
    p: spec_fn(PendingSignalView) -> bool,
) -> Seq<PendingSignalView>
    decreases list.len(),
{
    if list.len() == 0 {
        Seq::empty()
    } else if p(list.last()) {
        picked(list.drop_last(), p).push(list.last())
    } else {
        picked(list.drop_last(), p)
    }
}

/// What is picked stands in the list, and in its order.
pub proof fn lemma_picked(list: Seq<PendingSignalView>, p: spec_fn(PendingSignalView) -> bool)
    requires
        forall|j: int, k: int|
            0 <= j < k < list.len() ==> (#[trigger] list[j]).index < (#[trigger] list[k]).index,
    ensures
        forall|j: int, k: int|
            0 <= j < k < picked(list, p).len() ==> (#[trigger] picked(list, p)[j]).index < (
            #[trigger] picked(list, p)[k]).index,
        forall|j: int|
            0 <= j < picked(list, p).len() ==> p(#[trigger] picked(list, p)[j]) && list.contains(
                picked(list, p)[j],
            ),
        forall|k: int|
            0 <= k < list.len() && p(#[trigger] list[k]) ==> picked(list, p).contains(list[k]),
    decreases list.len(),
{
    if list.len() > 0 {
        let front = list.drop_last();
        assert forall|j: int, k: int| 0 <= j < k < front.len() implies (#[trigger] front[j]).index
            < (#[trigger] front[k]).index by {
            assert(list[j].index < list[k].index);
        }
        lemma_picked(front, p);
        let sub = picked(front, p);
        let r = picked(list, p);
        let n = list.len() - 1;
        assert forall|j: int| 0 <= j < r.len() implies p(#[trigger] r[j]) && list.contains(r[j]) by {
            if j < sub.len() {
                assert(front.contains(sub[j]));
                let i = choose|i: int| 0 <= i < front.len() && front[i] == sub[j];
                assert(list[i] == r[j]);
            } else {
                assert(list[n] == r[j]);
            }
        }
        assert forall|j: int, k: int| 0 <= j < k < r.len() implies (#[trigger] r[j]).index < (
        #[trigger] r[k]).index by {
            if k < sub.len() {
                assert(sub[j].index < sub[k].index);
            } else {
                assert(front.contains(sub[j]));
                let i = choose|i: int| 0 <= i < front.len() && front[i] == sub[j];
                assert(list[i].index < list[n].index);
            }
        }
        assert forall|k: int| 0 <= k < list.len() && p(#[trigger] list[k]) implies r.contains(
            list[k],
        ) by {
            if k < n {
                assert(front[k] == list[k]);
                assert(sub.contains(front[k]));
                let i = choose|i: int| 0 <= i < sub.len() && sub[i] == list[k];
                assert(r[i] == list[k]);
            } else {
                assert(r[r.len() - 1] == list[k]);
            }
        }
    }
}

/// Delivering some of the pending signals keeps the invariant.
proof fn lemma_pending_kept(s: Replay, p: spec_fn(PendingSignalView) -> bool)
    requires
        s.wf(),
    ensures
        ({
            let t = Replay { pending_signals: picked(s.pending_signals, p), ..s };
            t.wf() && s.evolves_to(t)
        }),
{
    let t = Replay { pending_signals: picked(s.pending_signals, p), ..s };
    lemma_picked(s.pending_signals, p);
    assert forall|k: int| 0 <= k < t.pending_signals.len() implies t.pending_entry_wf(
        #[trigger] t.pending_signals[k],
    ) by {
        assert(s.pending_signals.contains(t.pending_signals[k]));
        let i = choose|i: int|
            0 <= i < s.pending_signals.len() && s.pending_signals[i] == t.pending_signals[k];
        assert(s.pending_entry_wf(s.pending_signals[i]));
    }
    assert forall|k: int, i: int|
        0 <= k < t.pending_signals.len() && t.cursor <= i && #[trigger] t.open_signal(
            i,
        ) implies (#[trigger] t.pending_signals[k]).index < i by {
        assert(s.open_signal(i));
        assert(s.pending_signals.contains(t.pending_signals[k]));
        let o = choose|o: int|
            0 <= o < s.pending_signals.len() && s.pending_signals[o] == t.pending_signals[k];
        assert(s.pending_signals[o].index < i);
    }
    assert forall|i: int| #[trigger] t.undelivered(i) implies s.undelivered(i) by {
        if t.is_pending(i) {
            let k = choose|k: int|
                0 <= k < t.pending_signals.len() && #[trigger] t.pending_signals[k].index == i;
            assert(s.pending_signals.contains(t.pending_signals[k]));
            let o = choose|o: int|
                0 <= o < s.pending_signals.len() && s.pending_signals[o] == t.pending_signals[k];
            assert(s.pending_signals[o].index == i);
        }
    }
}

impl Replay {
    /// Whether a pending signal may be claimed by a handler for that name: it
    /// bears the name, and no race for it was open when it arrived.
    pub open spec fn claimable(self, name: Seq<char>, p: PendingSignalView) -> bool {
        p.name == name && !self.reserved.contains(p.index)
    }

    /// What claiming all pending signals of a name yields: those that may be
    /// claimed, in the order in which they were recorded.
    pub open spec fn signals_claimed(
        self,
        name: Seq<char>,
    ) -> (Replay, Seq<PendingSignalView>) {
        let s = self.prepared();
        (
            Replay {
                pending_signals: picked(
                    s.pending_signals,
                    |p: PendingSignalView| !s.claimable(name, p),
                ),
                ..s
            },
            picked(s.pending_signals, |p: PendingSignalView| s.claimable(name, p)),
        )
    }

    /// What claiming one pending signal of a name yields: the oldest that may be
    /// claimed.
    pub open spec fn signal_claimed(self, name: Seq<char>) -> (Replay, Option<JsonView>) {
        let s = self.prepared();
        let k = first_index(
            |k: int| s.claimable(name, s.pending_signals[k]),
            0,
            s.pending_signals.len() as int,
        );
        if k < s.pending_signals.len() {
            (s.dequeued(k), Some(s.pending_signals[k].payload))
        } else {
            (s, None)
        }
    }
}

/// Claimed signals of that name, each with where it was recorded.
pub open spec fn claims_view(
    claims: Seq<(usize, Value)>,
    name: Seq<char>,
) -> Seq<PendingSignalView> {
    claims.map_values(
        |c: (usize, Value)|
            PendingSignalView { name, payload: json_view(c.1), index: c.0 as int },
    )
}

impl HistoryMatcher {
    /// Matches a wait for a signal against history.
    ///
    /// Known limitation: when the signal is found behind the fire of a
    /// cancellable timer, the cursor moves past that fire, and a later
    /// [`HistoryMatcher::match_timer_or_cancel`] no longer finds it.
    pub fn match_signal(&mut self, signal_name: &str) -> (r: HistoryMatch)
        requires
            old(self).wf(),
        ensures
            final(self).wf(),
            old(self)@.evolves_to(final(self)@),
            (final(self)@, r@) == old(self)@.signal(signal_name@, None),
    {
        self.match_signal_inner(signal_name, None)
    }

    /// Matches a wait for a signal that is a branch of a race.
    ///
    /// Whatever other branches recorded is crossed, and a signal that never
    /// arrived is no divergence. A signal recorded behind the race's own
    /// settlement marker belongs to a later wait, also where it is pending or
    /// the marker was already claimed.
    pub fn match_race_signal(&mut self, signal_name: &str, settle_marker: &str) -> (r: HistoryMatch)
        requires
            old(self).wf(),
        ensures
            final(self).wf(),
            old(self)@.evolves_to(final(self)@),
            (final(self)@, r@) == old(self)@.signal(signal_name@, Some(settle_marker@)),
    {
        self.match_signal_inner(signal_name, Some(settle_marker))
    }

    /// Where the first pending signal of that name stands in the queue.
    pub(crate) fn position_of_pending(&self, signal_name: &str) -> (r: usize)
        ensures
            r == self@.first_pending(signal_name@),
            r <= self@.pending_signals.len(),
    {
        let ghost list = self@.pending_signals;
        let ghost p = |k: int| list[k].name == signal_name@;
        let mut k: usize = 0;
        while k < self.pending_signals.len()
            invariant
                k <= list.len(),
                list == self@.pending_signals,
                p == (|k: int| list[k].name == signal_name@),
                forall|j: int| 0 <= j < k ==> !#[trigger] p(j),
            decreases list.len() - k,
        {
            if str_eq(self.pending_signals[k].name.as_str(), signal_name) {
                proof {
                    lemma_first_index_is(p, 0, list.len() as int, k as int);
                }
                return k;
            }
            assert(!p(k as int));
            k += 1;
        }
        proof {
            lemma_first_index_is(p, 0, list.len() as int, k as int);
        }
        k
    }

    /// Delivers the pending signal number `k`.
    pub(crate) fn dequeue(&mut self, k: usize) -> (r: Value)
        requires
            old(self).wf(),
            k < old(self)@.pending_signals.len(),
        ensures
            final(self).wf(),
            old(self)@.evolves_to(final(self)@),
            final(self)@ == old(self)@.dequeued(k as int),
            json_view(r) == old(self)@.pending_signals[k as int].payload,
    {
        let ghost s = self@;
        proof {
            lemma_dequeued(s, k as int);
        }
        let taken = self.pending_signals.remove(k).unwrap();
        assert(self@.pending_signals =~= s.pending_signals.remove(k as int));
        taken.payload
    }

    /// Where the first pending signal of that name that was recorded before `pos`
    /// stands in the queue.
    pub(crate) fn position_of_pending_before(&self, signal_name: &str, pos: usize) -> (r: usize)
        ensures
            r == self@.first_pending_before(signal_name@, pos as int),
            r <= self@.pending_signals.len(),
    {
        let ghost list = self@.pending_signals;
        let ghost p = |k: int| list[k].name == signal_name@ && list[k].index < pos;
        let mut k: usize = 0;
        while k < self.pending_signals.len()
            invariant
                k <= list.len(),
                list == self@.pending_signals,
                p == (|k: int| list[k].name == signal_name@ && list[k].index < pos),
                forall|j: int| 0 <= j < k ==> !#[trigger] p(j),
            decreases list.len() - k,
        {
            let early = self.pending_signals[k].index < pos;
            if early && str_eq(self.pending_signals[k].name.as_str(), signal_name) {
                proof {
                    lemma_first_index_is(p, 0, list.len() as int, k as int);
                }
                return k;
            }
            assert(!p(k as int));
            k += 1;
        }
        proof {
            lemma_first_index_is(p, 0, list.len() as int, k as int);
        }
        k
    }

    /// Finds [`Replay::race_end`].
    fn find_race_end(&self, bound: Option<&str>) -> (r: usize)
        requires
            self.wf(),
        ensures
            r == self@.race_end(opt_str(bound)),
            r <= self@.len(),
    {
        let marker = match bound {
            Some(marker) => marker,
            None => {
                return self.events.len();
            },
        };
        let ghost s = self@;
        let ghost p = |i: int| !s.transparent.contains(i) && marker_named(s.events[i], marker@);
        let mut i: usize = 0;
        while i < self.events.len() && (self.transparent_events.contains(i) || !is_marker_named(
            &self.events[i],
            marker,
        ))
            invariant
                s == self@,
                i <= s.len(),
                p == (|i: int| !s.transparent.contains(i) && marker_named(s.events[i], marker@)),
                forall|j: int| 0 <= j < i ==> !#[trigger] p(j),
            decreases s.len() - i,
        {
            assert(!p(i as int));
            i += 1;
        }
        proof {
            lemma_first_index_is(p, 0, s.len(), i as int);
        }
        i
    }

    /// Matches a wait for a signal; with a bound, as a branch of a race.
    fn match_signal_inner(&mut self, signal_name: &str, bound: Option<&str>) -> (r: HistoryMatch)
        requires
            old(self).wf(),
        ensures
            final(self).wf(),
            old(self)@.evolves_to(final(self)@),
            (final(self)@, r@) == old(self)@.signal(signal_name@, opt_str(bound)),
    {
        let ghost start = self@;
        let end = self.find_race_end(bound);
        let k = self.position_of_pending_before(signal_name, end);
        if k < self.pending_signals.len() {
            let payload = self.dequeue(k);
            return HistoryMatch::Matched { output: payload };
        }
        proof {
            lemma_moved_to(start, start.cursor);
        }
        self.advance_to_next_unconsumed_event();
        let ghost s = self@;
        if !self.is_replaying() || end <= self.cursor {
            return HistoryMatch::NoMatch;
        }
        let race = bound.is_some();
        let ghost scan = ScanView::Signal { name: signal_name@, race };
        let here = self.cursor;
        let found = self.scan(&Scan::Signal { name: signal_name, race }, here, end);
        let ghost t = self@;
        proof {
            lemma_scanned(s, scan, s.cursor, end as int);
            lemma_scan_stop(s, scan, s.cursor, end as int);
            lemma_evolves_transitive(start, s, t);
        }
        if found.hit {
            let output = match &self.events[found.stop] {
                WorkflowEvent::SignalReceived { payload, .. } => payload.clone(),
                _ => json_null(),
            };
            self.consumed_signal_events.insert(found.stop);
            let ghost d = self@;
            let next = match found.command {
                Some(c) => c,
                None => found.stop + 1,
            };
            self.move_to(next);
            proof {
                lemma_delivered(t, found.stop as int);
                assert(d == t.delivered(found.stop as int));
                lemma_moved_to(d, next as int);
                lemma_evolves_transitive(start, t, d);
                lemma_evolves_transitive(start, d, self@);
            }
            return HistoryMatch::Matched { output };
        }
        if found.stop < end && !race && found.command.is_none() {
            return diverged(
                tag("SignalReceived", signal_name),
                actual_event_name(&self.events[found.stop]),
                found.stop,
            );
        }
        HistoryMatch::NoMatch
    }

    /// Claims every pending signal of that name for a handler, with where each
    /// was recorded, in the order in which they were recorded.
    ///
    /// Only signals that were taken out of history are in reach: those in front
    /// of the next command, and those that the scan for an earlier command's
    /// outcome crossed. A signal that arrived while a race for its name was open
    /// is left to that race.
    pub fn claim_pending_signal(&mut self, signal_name: &str) -> (r: Vec<(usize, Value)>)
        requires
            old(self).wf(),
        ensures
            final(self).wf(),
            old(self)@.evolves_to(final(self)@),
            (final(self)@, claims_view(r@, signal_name@)) == old(self)@.signals_claimed(
                signal_name@,
            ),
            forall|j: int, k: int| 0 <= j < k < r@.len() ==> r@[j].0 < r@[k].0,
    {
        let ghost start = self@;
        proof {
            lemma_prepared(start);
        }
        self.prepare_match();
        let ghost s = self@;
        let ghost all = s.pending_signals;
        let ghost yes = |p: PendingSignalView| s.claimable(signal_name@, p);
        let ghost no = |p: PendingSignalView| !s.claimable(signal_name@, p);
        let mut claimed: Vec<(usize, Value)> = Vec::new();
        let mut remaining: VecDeque<PendingSignal> = VecDeque::new();
        let ghost mut done: int = 0;
        assert(all.take(0) =~= Seq::<PendingSignalView>::empty());
        assert(claims_view(claimed@, signal_name@) =~= Seq::<PendingSignalView>::empty());
        assert(pending_view(remaining@) =~= Seq::<PendingSignalView>::empty());
        assert(all.skip(0) =~= all);
        loop
            invariant
                0 <= done <= all.len(),
                all == s.pending_signals,
                yes == (|p: PendingSignalView| s.claimable(signal_name@, p)),
                no == (|p: PendingSignalView| !s.claimable(signal_name@, p)),
                self@ == (Replay { pending_signals: all.skip(done), ..s }),
                claims_view(claimed@, signal_name@) == picked(all.take(done), yes),
                pending_view(remaining@) == picked(all.take(done), no),
            ensures
                done == all.len(),
            decreases all.len() - done,
        {
            let ghost queue = self.pending_signals@;
            assert(pending_view(queue) == all.skip(done));
            assert(queue.len() == all.skip(done).len());
            match self.pending_signals.pop_front() {
                Some(signal) => {
                    proof {
                        assert(signal@ == all.skip(done)[0]);
                        assert forall|j: int| 0 <= j < queue.len() implies (
                        #[trigger] queue[j])@ == all[done + j] by {
                            assert(pending_view(queue)[j] == all.skip(done)[j]);
                        }
                        assert(pending_view(self.pending_signals@) =~= all.skip(done + 1));
                        assert(all.take(done + 1).drop_last() =~= all.take(done));
                        assert(all.take(done + 1).last() == signal@);
                    }
                    let reserved = self.race_reserved_signal_events.contains(signal.index);
                    if str_eq(signal.name.as_str(), signal_name) && !reserved {
                        let ghost had = claims_view(claimed@, signal_name@);
                        claimed.push((signal.index, signal.payload));
                        assert(claims_view(claimed@, signal_name@) =~= had.push(signal@));
                    } else {
                        let ghost had = pending_view(remaining@);
                        remaining.push_back(signal);
                        assert(pending_view(remaining@) =~= had.push(signal@));
                    }
                    proof {
                        done = done + 1;
                    }
                },
                None => {
                    assert(all.skip(done).len() == 0);
                    break;
                },
            }
        }
        self.pending_signals = remaining;
        proof {
            assert(all.take(done) =~= all);
            lemma_pending_kept(s, no);
            lemma_evolves_transitive(start, s, self@);
            lemma_picked(all, yes);
            let view = claims_view(claimed@, signal_name@);
            assert forall|j: int, k: int| 0 <= j < k < claimed@.len() implies claimed@[j].0
                < claimed@[k].0 by {
                assert(view[j].index < view[k].index);
            }
        }
        claimed
    }

    /// Claims the oldest pending signal of that name, if any is in reach, under
    /// the conditions of [`HistoryMatcher::claim_pending_signal`].
    pub fn try_claim_pending_signal(&mut self, signal_name: &str) -> (r: Option<Value>)
        requires
            old(self).wf(),
        ensures
            final(self).wf(),
            old(self)@.evolves_to(final(self)@),
            (final(self)@, opt_json(r)) == old(self)@.signal_claimed(signal_name@),
    {
        let ghost start = self@;
        proof {
            lemma_prepared(start);
        }
        self.prepare_match();
        let ghost s = self@;
        let ghost list = s.pending_signals;
        let ghost p = |k: int| s.claimable(signal_name@, s.pending_signals[k]);
        let mut k: usize = 0;
        while k < self.pending_signals.len()
            invariant
                k <= list.len(),
                list == s.pending_signals,
                self@ == s,
                p == (|k: int| s.claimable(signal_name@, s.pending_signals[k])),
                forall|j: int| 0 <= j < k ==> !#[trigger] p(j),
                s.wf(),
                start.evolves_to(s),
                s == start.prepared(),
                start == old(self)@,
            decreases list.len() - k,
        {
            let reserved = self.race_reserved_signal_events.contains(self.pending_signals[k].index);
            if str_eq(self.pending_signals[k].name.as_str(), signal_name) && !reserved {
                proof {
                    assert(p(k as int));
                    lemma_first_index_is(p, 0, list.len() as int, k as int);
                }
                let payload = self.dequeue(k);
                proof {
                    lemma_evolves_transitive(start, s, self@);
                }
                return Some(payload);
            }
            assert(!p(k as int));
            k += 1;
        }
        proof {
            lemma_first_index_is(p, 0, list.len() as int, k as int);
        }
        None
    }

    /// Whether a signal of that name is still to be delivered: pending, or ahead
    /// of the cursor. Nothing is consumed.
    pub fn has_unconsumed_signal(&self, signal_name: &str) -> (r: bool)
        requires
            self.wf(),
        ensures
            r == self@.has_signal(signal_name@),
    {
        let ghost s = self@;
        let k = self.position_of_pending(signal_name);
        proof {
            lemma_first_index(
                |k: int| s.pending_signals[k].name == signal_name@,
                0,
                s.pending_signals.len() as int,
            );
        }
        if k < self.pending_signals.len() {
            assert(s.pending_signals[k as int].name == signal_name@);
            return true;
        }
        assert forall|j: int| 0 <= j < s.pending_signals.len() implies (
        #[trigger] s.pending_signals[j]).name != signal_name@ by {
            let p = |k: int| s.pending_signals[k].name == signal_name@;
            assert(!p(j));
        }
        let mut i: usize = self.cursor;
        while i < self.events.len()
            invariant
                s == self@,
                s.cursor <= i <= s.len(),
                forall|j: int|
                    0 <= j < s.pending_signals.len() ==> (#[trigger] s.pending_signals[j]).name
                        != signal_name@,
                forall|j: int|
                    s.cursor <= j < i ==> !(s.open_at(j) && signal_named(
                        #[trigger] s.events[j],
                        signal_name@,
                    )),
            decreases s.len() - i,
        {
            if !self.is_consumed(i) && is_signal_named(&self.events[i], signal_name) {
                assert(s.open_at(i as int) && signal_named(s.events[i as int], signal_name@));
                return true;
            }
            i += 1;
        }
        false
    }
}

impl Replay {
    /// Whether a signal of that name is still to be delivered.
    pub open spec fn has_signal(self, name: Seq<char>) -> bool {
        ||| exists|k: int|
            0 <= k < self.pending_signals.len() && (#[trigger] self.pending_signals[k]).name == name
        ||| exists|i: int|
            self.cursor <= i < self.len() && self.open_at(i) && signal_named(
                #[trigger] self.events[i],
                name,
            )
    }
}

} // verus!
