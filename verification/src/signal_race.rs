//! Races of a signal against a deadline.
use crate::event::WorkflowEvent;
use crate::json::json_null;
use crate::matcher::{opt_index, HistoryMatcher};
use crate::moves::{
    lemma_at, lemma_claimed, lemma_delivered, lemma_evolves_transitive, lemma_moved_to,
    lemma_prepared, lemma_rewound, lemma_scan_stop, lemma_scanned, lemma_settled, lemma_side_fields,
};
use crate::outcome::{report_index, reported, SignalOrTimerMatch, SignalOrTimerView};
use crate::replay::Replay;
use crate::scan::{is_signal_named, is_timer_fired, signal_named, timer_fired, Scan, ScanView};
use crate::search::{first_index, lemma_first_index, lemma_first_index_is};
use crate::signal::signal_payload;
use crate::timer::{find_timer_mismatch, timer_mismatch};
use vstd::prelude::*;

verus! {

impl Replay {
    /// Where a fire of the timer that is still to be claimed first stands from
    /// `from` on; the end when nowhere.
    pub open spec fn next_fire(self, timer: Seq<char>, from: int) -> int {
        first_index(
            |i: int| !self.consumed(i) && timer_fired(self.events[i], timer),
            from,
            self.len(),
        )
    }

    /// A fire of the timer behind `pos` claimed, where there is one: the race was
    /// decided before it.
    pub open spec fn stray_fire_claimed(self, timer: Seq<char>, pos: int) -> Replay {
        let fire = self.next_fire(timer, pos + 1);
        if fire < self.len() {
            self.claimed(fire)
        } else {
            self
        }
    }

    /// A race settled for the signal at `pos`.
    pub open spec fn race_signal_won(
        self,
        pos: int,
        command: Option<int>,
        timer: Seq<char>,
    ) -> Replay {
        self.delivered(pos).stray_fire_claimed(timer, pos).moved_to(
            match command {
                Some(c) => c,
                None => pos + 1,
            },
        )
    }

    /// The first signal of that name behind `pos` that has not lost a race yet;
    /// the end when there is none.
    pub open spec fn next_loser(self, name: Seq<char>, pos: int) -> int {
        first_index(
            |i: int| !self.late.contains(i) && signal_named(self.events[i], name),
            pos + 1,
            self.len(),
        )
    }

    /// A race settled for the fire at `pos`: the next signal of that name is late,
    /// and stays deliverable.
    pub open spec fn race_timer_won(
        self,
        pos: int,
        command: Option<int>,
        name: Seq<char>,
    ) -> Replay {
        let loser = self.next_loser(name, pos);
        let noted = if loser < self.len() {
            Replay { late: self.late.insert(loser), ..self }
        } else {
            self
        };
        noted.settled(pos, command)
    }

    /// What is found of the race between the signal and the timer from the
    /// cursor on, where none of the pending signals of that name was recorded
    /// before: whichever of the signal, pending or still to be claimed, and the
    /// timer's fire was recorded first decides.
    pub open spec fn signal_race_from_here(
        self,
        name: Seq<char>,
        timer: Seq<char>,
    ) -> (Replay, SignalOrTimerView) {
        let k = self.first_pending(name);
        let end = if k < self.pending_signals.len() {
            self.pending_signals[k].index
        } else {
            self.len()
        };
        let scan = ScanView::SignalOrTimer { name, timer };
        let stop = self.scan_stop(scan, self.cursor, end);
        let command = self.scan_command(scan, self.cursor, end);
        let scanned = self.scanned(scan, self.cursor, end);
        if self.scan_hits(scan, self.cursor, end) {
            if signal_named(self.events[stop], name) {
                (
                    scanned.race_signal_won(stop, command, timer),
                    SignalOrTimerView::SignalWon { payload: signal_payload(self.events[stop]) },
                )
            } else {
                (scanned.race_timer_won(stop, command, name), SignalOrTimerView::TimerWon)
            }
        } else if stop == end && end < self.len() {
            (
                scanned.dequeued(k).race_signal_won(end, command, timer),
                SignalOrTimerView::SignalWon { payload: self.pending_signals[k].payload },
            )
        } else {
            (scanned.rewound(command), SignalOrTimerView::InProgress)
        }
    }

    /// What matching a race between a signal and its deadline yields, with the
    /// duration compared where one is given. A pending signal that was recorded
    /// before the race wins it. Without one, past the end the race is new; at
    /// another event, timer or duration there is a divergence; else the first
    /// recorded resolution decides.
    pub open spec fn signal_or_timer(
        self,
        name: Seq<char>,
        timer: Seq<char>,
        duration: Option<u64>,
    ) -> (Replay, SignalOrTimerView) {
        let s = self.prepared();
        let k = s.first_pending_before(name, s.cursor);
        if k < s.pending_signals.len() {
            (
                s.dequeued(k),
                SignalOrTimerView::SignalWon { payload: s.pending_signals[k].payload },
            )
        } else if !s.replaying() {
            (s, SignalOrTimerView::NoMatch)
        } else {
            match timer_mismatch(s.events[s.cursor], timer, duration) {
                Some((expected, actual)) => (
                    s,
                    SignalOrTimerView::Diverged {
                        expected,
                        actual,
                        event_index: reported(s.cursor),
                    },
                ),
                None => s.at(s.cursor + 1).signal_race_from_here(name, timer),
            }
        }
    }
}

/// Claiming a stray fire keeps the invariant.
pub(crate) proof fn lemma_stray_fire_claimed(s: Replay, timer: Seq<char>, pos: int)
    requires
        s.wf(),
        0 <= pos < s.len(),
    ensures
        s.stray_fire_claimed(timer, pos).wf(),
        s.evolves_to(s.stray_fire_claimed(timer, pos)),
        s.stray_fire_claimed(timer, pos).cursor == s.cursor,
{
    let p = |i: int| !s.consumed(i) && timer_fired(s.events[i], timer);
    lemma_first_index(p, pos + 1, s.len());
    let fire = s.next_fire(timer, pos + 1);
    if fire < s.len() {
        lemma_claimed(s, fire);
    }
}

/// Settling a race for a signal keeps the invariant.
pub(crate) proof fn lemma_race_signal_won(s: Replay, pos: int, command: Option<int>, timer: Seq<char>)
    requires
        s.wf(),
        s.cursor <= pos < s.len(),
        command matches Some(c) ==> s.cursor <= c <= s.len(),
    ensures
        s.race_signal_won(pos, command, timer).wf(),
        s.evolves_to(s.race_signal_won(pos, command, timer)),
{
    let d = s.delivered(pos);
    lemma_delivered(s, pos);
    let f = d.stray_fire_claimed(timer, pos);
    lemma_stray_fire_claimed(d, timer, pos);
    lemma_evolves_transitive(s, d, f);
    let next = match command {
        Some(c) => c,
        None => pos + 1,
    };
    lemma_moved_to(f, next);
    lemma_evolves_transitive(s, f, f.moved_to(next));
}

/// Settling a race for a fire keeps the invariant.
pub(crate) proof fn lemma_race_timer_won(s: Replay, pos: int, command: Option<int>, name: Seq<char>)
    requires
        s.wf(),
        s.cursor <= pos < s.len(),
        command matches Some(c) ==> s.cursor <= c <= s.len(),
    ensures
        s.race_timer_won(pos, command, name).wf(),
        s.evolves_to(s.race_timer_won(pos, command, name)),
{
    let p = |i: int| !s.late.contains(i) && signal_named(s.events[i], name);
    lemma_first_index(p, pos + 1, s.len());
    let loser = s.next_loser(name, pos);
    let noted = if loser < s.len() {
        Replay { late: s.late.insert(loser), ..s }
    } else {
        s
    };
    lemma_side_fields(s, noted);
    lemma_settled(noted, pos, command);
    lemma_evolves_transitive(s, noted, noted.settled(pos, command));
}

/// Pending signals keep their places while further ones are taken out.
pub(crate) proof fn lemma_pending_prefix(s: Replay, scan: ScanView, from: int, to: int)
    ensures
        s.pending_signals.len() <= s.stashed(scan, from, to).pending_signals.len(),
        forall|k: int|
            0 <= k < s.pending_signals.len() ==> #[trigger] s.stashed(
                scan,
                from,
                to,
            ).pending_signals[k] == s.pending_signals[k],
    decreases to - from,
{
    if from < to {
        lemma_pending_prefix(s, scan, from, to - 1);
    }
}

impl HistoryMatcher {
    /// Claims a fire of the timer behind `pos`, where there is one.
    pub(crate) fn claim_stray_fire(&mut self, timer_id: &str, pos: usize)
        requires
            pos < old(self).events.len(),
        ensures
            final(self)@ == old(self)@.stray_fire_claimed(timer_id@, pos as int),
    {
        let ghost s = self@;
        let ghost p = |i: int| !s.consumed(i) && timer_fired(s.events[i], timer_id@);
        let mut i: usize = pos + 1;
        while i < self.events.len()
            invariant
                pos + 1 <= i <= s.len(),
                self@ == s,
                p == (|i: int| !s.consumed(i) && timer_fired(s.events[i], timer_id@)),
                forall|j: int| pos + 1 <= j < i ==> !#[trigger] p(j),
                s == old(self)@,
            decreases s.len() - i,
        {
            if !self.is_consumed(i) && is_timer_fired(&self.events[i], timer_id) {
                proof {
                    assert(p(i as int));
                    lemma_first_index_is(p, pos + 1, s.len(), i as int);
                }
                self.consumed_out_of_order_events.insert(i);
                return ;
            }
            assert(!p(i as int));
            i += 1;
        }
        proof {
            lemma_first_index_is(p, pos + 1, s.len(), i as int);
        }
    }

    /// Settles a race for the signal at `pos`.
    fn settle_race_signal_won(&mut self, pos: usize, command: Option<usize>, timer_id: &str)
        requires
            pos < old(self).events.len(),
            command matches Some(c) ==> c <= old(self).events@.len(),
        ensures
            final(self)@ == old(self)@.race_signal_won(
                pos as int,
                opt_index(command),
                timer_id@,
            ),
    {
        let ghost s = self@;
        self.consumed_signal_events.insert(pos);
        assert(self@ == s.delivered(pos as int));
        self.claim_stray_fire(timer_id, pos);
        let next = match command {
            Some(c) => c,
            None => pos + 1,
        };
        self.move_to(next);
    }

    /// Settles a race for the fire at `pos`.
    fn settle_race_timer_won(&mut self, pos: usize, command: Option<usize>, signal_name: &str)
        requires
            pos < old(self).events.len(),
            command matches Some(c) ==> c <= old(self).events@.len(),
        ensures
            final(self)@ == old(self)@.race_timer_won(
                pos as int,
                opt_index(command),
                signal_name@,
            ),
    {
        let ghost s = self@;
        let ghost p = |i: int| !s.late.contains(i) && signal_named(s.events[i], signal_name@);
        let mut i: usize = pos + 1;
        while i < self.events.len() && !(!self.late_race_signal_events.contains(i)
            && is_signal_named(&self.events[i], signal_name))
            invariant
                pos + 1 <= i <= s.len(),
                self@ == s,
                p == (|i: int| !s.late.contains(i) && signal_named(s.events[i], signal_name@)),
                forall|j: int| pos + 1 <= j < i ==> !#[trigger] p(j),
            decreases s.len() - i,
        {
            assert(!p(i as int));
            i += 1;
        }
        proof {
            lemma_first_index_is(p, pos + 1, s.len(), i as int);
        }
        if i < self.events.len() {
            self.late_race_signal_events.insert(i);
        }
        self.settle(pos, command);
    }

    /// Looks for the resolution of a race between a signal and a timer from the
    /// cursor on.
    fn scan_signal_race(&mut self, signal_name: &str, timer_id: &str) -> (r: SignalOrTimerMatch)
        requires
            old(self).wf(),
            forall|k: int|
                0 <= k < old(self)@.pending_signals.len() && (
                #[trigger] old(self)@.pending_signals[k]).name == signal_name@ ==> old(
                    self,
                )@.cursor <= old(self)@.pending_signals[k].index,
        ensures
            final(self).wf(),
            old(self)@.evolves_to(final(self)@),
            (final(self)@, r@) == old(self)@.signal_race_from_here(signal_name@, timer_id@),
    {
        let ghost s = self@;
        let k = self.position_of_pending(signal_name);
        proof {
            lemma_first_index(
                |k: int| s.pending_signals[k].name == signal_name@,
                0,
                s.pending_signals.len() as int,
            );
            if k < s.pending_signals.len() {
                assert(s.pending_entry_wf(s.pending_signals[k as int]));
                assert(s.pending_signals[k as int].name == signal_name@);
            }
        }
        let len = self.events.len();
        let end: usize = if k < self.pending_signals.len() {
            self.pending_signals[k].index
        } else {
            len
        };
        let from = self.cursor;
        let ghost scan = ScanView::SignalOrTimer { name: signal_name@, timer: timer_id@ };
        let found = self.scan(&Scan::SignalOrTimer { name: signal_name, timer: timer_id }, from, end);
        let ghost t = self@;
        let ghost command = opt_index(found.command);
        proof {
            lemma_scanned(s, scan, s.cursor, end as int);
            lemma_scan_stop(s, scan, s.cursor, end as int);
            lemma_pending_prefix(s, scan, s.cursor, found.stop as int);
        }
        if found.hit {
            if is_signal_named(&self.events[found.stop], signal_name) {
                let payload = match &self.events[found.stop] {
                    WorkflowEvent::SignalReceived { payload, .. } => payload.clone(),
                    _ => json_null(),
                };
                self.settle_race_signal_won(found.stop, found.command, timer_id);
                proof {
                    lemma_race_signal_won(t, found.stop as int, command, timer_id@);
                    lemma_evolves_transitive(s, t, self@);
                }
                return SignalOrTimerMatch::SignalWon { payload };
            }
            self.settle_race_timer_won(found.stop, found.command, signal_name);
            proof {
                lemma_race_timer_won(t, found.stop as int, command, signal_name@);
                lemma_evolves_transitive(s, t, self@);
            }
            return SignalOrTimerMatch::TimerWon;
        }
        if found.stop == end && end < len {
            let payload = self.dequeue(k);
            let ghost d = self@;
            self.settle_race_signal_won(end, found.command, timer_id);
            proof {
                lemma_race_signal_won(d, end as int, command, timer_id@);
                lemma_evolves_transitive(s, t, d);
                lemma_evolves_transitive(s, d, self@);
            }
            return SignalOrTimerMatch::SignalWon { payload };
        }
        self.rewind_to(found.command);
        proof {
            lemma_rewound(t, command);
            lemma_evolves_transitive(s, t, self@);
        }
        SignalOrTimerMatch::InProgress
    }

    /// Matches a race between a signal and its deadline against history.
    ///
    /// Whichever of the signal and the timer's fire was recorded first wins. A
    /// fire behind a winning signal is claimed with it, so that no later command
    /// meets it; a signal behind a winning fire stays deliverable.
    pub fn match_signal_or_timer(
        &mut self,
        signal_name: &str,
        timer_id: &str,
        expected_duration: Option<u64>,
    ) -> (r: SignalOrTimerMatch)
        requires
            old(self).wf(),
        ensures
            final(self).wf(),
            old(self)@.evolves_to(final(self)@),
            (final(self)@, r@) == old(self)@.signal_or_timer(
                signal_name@,
                timer_id@,
                expected_duration,
            ),
    {
        let ghost start = self@;
        proof {
            lemma_prepared(start);
        }
        let replaying = self.prepare_match();
        let ghost s = self@;
        let here = self.cursor;
        let k = self.position_of_pending_before(signal_name, here);
        if k < self.pending_signals.len() {
            let payload = self.dequeue(k);
            proof {
                lemma_evolves_transitive(start, s, self@);
            }
            return SignalOrTimerMatch::SignalWon { payload };
        }
        if !replaying {
            return SignalOrTimerMatch::NoMatch;
        }
        if let Some((expected, actual)) = find_timer_mismatch(
            &self.events[here],
            timer_id,
            expected_duration,
        ) {
            return SignalOrTimerMatch::Diverged {
                expected,
                actual,
                event_index: report_index(here),
            };
        }
        self.step_over();
        let ghost moved = self@;
        proof {
            lemma_at(s, s.cursor + 1);
            lemma_evolves_transitive(start, s, moved);
            let p = |k: int|
                s.pending_signals[k].name == signal_name@ && s.pending_signals[k].index < s.cursor;
            lemma_first_index(p, 0, s.pending_signals.len() as int);
            assert forall|k: int|
                0 <= k < moved.pending_signals.len() && (#[trigger] moved.pending_signals[k]).name
                    == signal_name@ implies moved.cursor <= moved.pending_signals[k].index by {
                assert(!p(k));
                assert(s.pending_entry_wf(s.pending_signals[k]));
            }
        }
        let r = self.scan_signal_race(signal_name, timer_id);
        proof {
            lemma_evolves_transitive(start, moved, self@);
        }
        r
    }
}

} // verus!
