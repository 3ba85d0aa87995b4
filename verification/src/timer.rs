//! Durable timers and durable locks.
use crate::event::WorkflowEvent;
use crate::json::{json_null, JsonView};
use crate::kinds::{
    actual_event_name, event_label, is_stashable, is_stashable_event, is_update, is_update_event,
};
use crate::matcher::HistoryMatcher;
use crate::moves::{
    lemma_at, lemma_claimed, lemma_evolves_transitive, lemma_moved_to, lemma_prepared,
    lemma_scan_end, lemma_scanned, lemma_side_fields,
};
use crate::outcome::{
    diverged, diverged_at, report_index, reported, HistoryMatch, HistoryMatchView, MutexGrantMatch,
    MutexGrantView, TimerFireMatch,
};
use crate::replay::Replay;
use crate::scan::{is_timer_fired, is_timer_started, timer_fired, timer_started, Scan, ScanView};
use crate::search::{first_index, lemma_first_index_is};
use crate::text::{decimal, glue, push_decimal, str_eq, tag, tagged};
use vstd::prelude::*;
use vstd::string::StringExecFns;

verus! {

// ── The arming of a timer ───────────────────────────────────────────────────
/// How the arming of a timer is shown together with its duration.
pub open spec fn timer_with_duration(timer: Seq<char>, secs: u64) -> Seq<char> {
    tagged("TimerStarted"@, timer + ", duration="@ + decimal(secs as nat) + "s"@)
}

/// Assembles [`timer_with_duration`].
fn show_timer_with_duration(timer: &str, secs: u64) -> (r: String)
    ensures
        r@ == timer_with_duration(timer@, secs),
{
    let mut text = glue(timer, ", duration=");
    push_decimal(&mut text, secs);
    text.append("s");
    tag("TimerStarted", text.as_str())
}

/// How `e` differs from the arming of the timer, with the duration compared
/// where one is given: what was requested and what is recorded.
pub open spec fn timer_mismatch(
    e: WorkflowEvent,
    timer: Seq<char>,
    duration: Option<u64>,
) -> Option<(Seq<char>, Seq<char>)> {
    match e {
        WorkflowEvent::TimerStarted { timer_id, duration_secs } => if timer_id@ != timer {
            Some((tagged("TimerStarted"@, timer), tagged("TimerStarted"@, timer_id@)))
        } else if duration is Some && duration.unwrap() != duration_secs {
            Some(
                (
                    timer_with_duration(timer, duration.unwrap()),
                    timer_with_duration(timer, duration_secs),
                ),
            )
        } else {
            None
        },
        other => Some((tagged("TimerStarted"@, timer), event_label(other))),
    }
}

/// Computes [`timer_mismatch`].
pub(crate) fn find_timer_mismatch(event: &WorkflowEvent, timer: &str, duration: Option<u64>) -> (r:
    Option<(String, String)>)
    ensures
        match r {
            Some(texts) => timer_mismatch(*event, timer@, duration) == Some(
                (texts.0@, texts.1@),
            ),
            None => timer_mismatch(*event, timer@, duration) is None,
        },
{
    match event {
        WorkflowEvent::TimerStarted { timer_id, duration_secs } => {
            if !str_eq(timer_id.as_str(), timer) {
                return Some((tag("TimerStarted", timer), tag("TimerStarted", timer_id.as_str())));
            }
            if let Some(expected) = duration {
                if expected != *duration_secs {
                    return Some(
                        (
                            show_timer_with_duration(timer, expected),
                            show_timer_with_duration(timer_id.as_str(), *duration_secs),
                        ),
                    );
                }
            }
            None
        },
        other => Some((tag("TimerStarted", timer), actual_event_name(other))),
    }
}

// ── Timers ──────────────────────────────────────────────────────────────────
impl Replay {
    /// What matching a timer yields, with the duration compared where one is
    /// given: past the end nothing; at another event, timer or duration a
    /// divergence; else whether its fire is found further on. An armed timer
    /// that has not fired leaves the cursor behind its arming.
    pub open spec fn timer(
        self,
        timer: Seq<char>,
        duration: Option<u64>,
    ) -> (Replay, HistoryMatchView) {
        let s = self.prepared();
        if !s.replaying() {
            (s, HistoryMatchView::NoMatch)
        } else {
            match timer_mismatch(s.events[s.cursor], timer, duration) {
                Some((expected, actual)) => (s, diverged_at(expected, actual, s.cursor)),
                None => {
                    let scan = ScanView::Timer(timer);
                    let t = s.at(s.cursor + 1);
                    let scanned = t.scanned(scan, t.cursor, t.len());
                    if t.scan_hits(scan, t.cursor, t.len()) {
                        (
                            scanned.settled_outcome(
                                t.scan_stop(scan, t.cursor, t.len()),
                                t.scan_command(scan, t.cursor, t.len()),
                            ),
                            HistoryMatchView::Matched { output: JsonView::Null },
                        )
                    } else {
                        (scanned, HistoryMatchView::NoMatch)
                    }
                },
            }
        }
    }

    /// What matching the arming of a timer yields: past the end nothing; at
    /// another event, timer or duration a divergence; else the arming is
    /// claimed.
    pub open spec fn timer_arm(
        self,
        timer: Seq<char>,
        duration: u64,
    ) -> (Replay, HistoryMatchView) {
        let s = self.prepared();
        if !s.replaying() {
            (s, HistoryMatchView::NoMatch)
        } else {
            match timer_mismatch(s.events[s.cursor], timer, Some(duration)) {
                Some((expected, actual)) => (s, diverged_at(expected, actual, s.cursor)),
                None => (
                    s.moved_to(s.cursor + 1),
                    HistoryMatchView::Matched { output: JsonView::Null },
                ),
            }
        }
    }

    /// What a scan from the cursor for a cancellable timer leaves: what it found
    /// is claimed ahead of the cursor; else it is noted whether a command ended
    /// the scan.
    pub open spec fn timer_scanned(self, scan: ScanView) -> Replay {
        let stop = self.scan_stop(scan, self.cursor, self.len());
        let scanned = self.scanned(scan, self.cursor, self.len());
        if self.scan_hits(scan, self.cursor, self.len()) {
            scanned.claimed(stop).advanced()
        } else {
            Replay { scan_stopped: stop < self.len(), ..scanned }
        }
    }

    /// What matching the cancel of a timer yields: the cancel is claimed where
    /// it is found; else nothing, with a note whether a command stands in its
    /// way.
    pub open spec fn timer_cancel(self, timer: Seq<char>) -> (Replay, HistoryMatchView) {
        let s = (Replay { scan_stopped: false, ..self }).prepared();
        if !s.replaying() {
            (s, HistoryMatchView::NoMatch)
        } else {
            let scan = ScanView::TimerCancel(timer);
            (
                s.timer_scanned(scan),
                if s.scan_hits(scan, s.cursor, s.len()) {
                    HistoryMatchView::Matched { output: JsonView::Null }
                } else {
                    HistoryMatchView::NoMatch
                },
            )
        }
    }

    /// What observing the outcome of a cancellable timer yields: of its fire and
    /// its cancel, the one that was recorded first; else nothing, with a note
    /// whether a command stands in its way.
    pub open spec fn timer_or_cancel(self, timer: Seq<char>) -> (Replay, TimerFireMatch) {
        let s = (Replay { scan_stopped: false, ..self }).prepared();
        if !s.replaying() {
            (s, TimerFireMatch::NoMatch)
        } else {
            let scan = ScanView::TimerOutcome(timer);
            let stop = s.scan_stop(scan, s.cursor, s.len());
            (
                s.timer_scanned(scan),
                if !s.scan_hits(scan, s.cursor, s.len()) {
                    TimerFireMatch::NoMatch
                } else if timer_fired(s.events[stop], timer) {
                    TimerFireMatch::Fired
                } else {
                    TimerFireMatch::Cancelled
                },
            )
        }
    }

    /// Whether the arming of the timer is the next event that is neither kept
    /// aside nor fire-and-forget.
    pub open spec fn timer_started_next(self, timer: Seq<char>) -> bool {
        let next = first_index(
            |i: int| !self.consumed(i) && !precedes_timer(self.events[i]),
            self.cursor,
            self.len(),
        );
        next < self.len() && timer_started(self.events[next], timer)
    }

    /// What matching the acquisition of a durable lock yields: past the end
    /// nothing; at another event or key a divergence; else the recorded grant.
    pub open spec fn mutex_granted(self, key: Seq<char>) -> (Replay, MutexGrantView) {
        let s = self.prepared();
        if !s.replaying() {
            (s, MutexGrantView::NoMatch)
        } else {
            match s.events[s.cursor] {
                WorkflowEvent::MutexGranted { key: recorded_key, lock_seq, acquired_at } =>
                    if recorded_key@ != key {
                        (
                            s,
                            MutexGrantView::Diverged {
                                expected: tagged("MutexGranted"@, key),
                                actual: tagged("MutexGranted"@, recorded_key@),
                                event_index: reported(s.cursor),
                            },
                        )
                    } else {
                        (
                            s.moved_to(s.cursor + 1),
                            MutexGrantView::Granted { lock_seq, acquired_at },
                        )
                    },
                other => (
                    s,
                    MutexGrantView::Diverged {
                        expected: tagged("MutexGranted"@, key),
                        actual: event_label(other),
                        event_index: reported(s.cursor),
                    },
                ),
            }
        }
    }
}

/// Whether `e` may stand in front of the arming of a timer that is next.
pub open spec fn precedes_timer(e: WorkflowEvent) -> bool {
    ||| is_stashable(e)
    ||| is_update(e)
    ||| e is ChildWorkflowSpawnedDetached
    ||| e is TimerCancelled
}

/// Computes [`precedes_timer`].
fn may_precede_timer(event: &WorkflowEvent) -> (r: bool)
    ensures
        r == precedes_timer(*event),
{
    match event {
        WorkflowEvent::ChildWorkflowSpawnedDetached { .. } => true,
        WorkflowEvent::TimerCancelled { .. } => true,
        other => is_stashable_event(other) || is_update_event(other),
    }
}

impl HistoryMatcher {
    /// Whether the arming of the timer is the next event that is neither kept
    /// aside nor fire-and-forget. Nothing is consumed.
    pub fn is_timer_started_next(&self, timer_id: &str) -> (r: bool)
        requires
            self.wf(),
        ensures
            r == self@.timer_started_next(timer_id@),
    {
        let ghost s = self@;
        let ghost p = |i: int| !s.consumed(i) && !precedes_timer(s.events[i]);
        let mut i: usize = self.cursor;
        while i < self.events.len()
            invariant
                s == self@,
                s.cursor <= i <= s.len(),
                p == (|i: int| !s.consumed(i) && !precedes_timer(s.events[i])),
                forall|j: int| s.cursor <= j < i ==> !#[trigger] p(j),
            decreases s.len() - i,
        {
            if !self.is_consumed(i) && !may_precede_timer(&self.events[i]) {
                proof {
                    lemma_first_index_is(p, s.cursor, s.len(), i as int);
                }
                return is_timer_started(&self.events[i], timer_id);
            }
            assert(!p(i as int));
            i += 1;
        }
        proof {
            lemma_first_index_is(p, s.cursor, s.len(), i as int);
        }
        false
    }

    /// Whether the timer was ever armed, anywhere in history. Nothing is
    /// consumed.
    pub fn history_contains_timer_started(&self, timer_id: &str) -> (r: bool)
        ensures
            r == exists|i: int|
                0 <= i < self@.len() && timer_started(#[trigger] self@.events[i], timer_id@),
    {
        let mut i: usize = 0;
        while i < self.events.len()
            invariant
                i <= self@.len(),
                forall|j: int| 0 <= j < i ==> !timer_started(#[trigger] self@.events[j], timer_id@),
            decreases self@.len() - i,
        {
            if is_timer_started(&self.events[i], timer_id) {
                assert(timer_started(self@.events[i as int], timer_id@));
                return true;
            }
            i += 1;
        }
        false
    }

    /// Matches a timer command against history.
    ///
    /// Expects the arming of the timer at the cursor, and looks ahead for its
    /// fire.
    pub fn match_timer(&mut self, timer_id: &str) -> (r: HistoryMatch)
        requires
            old(self).wf(),
        ensures
            final(self).wf(),
            old(self)@.evolves_to(final(self)@),
            (final(self)@, r@) == old(self)@.timer(timer_id@, None),
    {
        self.match_timer_strict(timer_id, None)
    }

    /// Like [`HistoryMatcher::match_timer`], and compares the duration where one
    /// is given.
    pub fn match_timer_strict(&mut self, timer_id: &str, expected_duration: Option<u64>) -> (r:
        HistoryMatch)
        requires
            old(self).wf(),
        ensures
            final(self).wf(),
            old(self)@.evolves_to(final(self)@),
            (final(self)@, r@) == old(self)@.timer(timer_id@, expected_duration),
    {
        let ghost start = self@;
        proof {
            lemma_prepared(start);
        }
        if !self.prepare_match() {
            return HistoryMatch::NoMatch;
        }
        let ghost s = self@;
        let here = self.cursor;
        if let Some((expected, actual)) = find_timer_mismatch(
            &self.events[here],
            timer_id,
            expected_duration,
        ) {
            return diverged(expected, actual, here);
        }
        self.step_over();
        let ghost moved = self@;
        let ghost scan = ScanView::Timer(timer_id@);
        proof {
            lemma_at(s, s.cursor + 1);
            lemma_evolves_transitive(start, s, moved);
            lemma_scan_end(moved, scan, moved.cursor, moved.len());
        }
        let from = self.cursor;
        let end = self.events.len();
        let found = self.scan(&Scan::Timer(timer_id), from, end);
        if !found.hit {
            proof {
                lemma_evolves_transitive(start, moved, self@);
            }
            return HistoryMatch::NoMatch;
        }
        self.settle_terminal(found.stop, found.command);
        proof {
            lemma_evolves_transitive(start, moved, self@);
        }
        HistoryMatch::Matched { output: json_null() }
    }

    /// Matches the arming of a cancellable timer against history.
    ///
    /// The arming has to stand at the cursor and is claimed there; its outcome
    /// is observed by [`HistoryMatcher::match_timer_or_cancel`].
    pub fn match_timer_arm(&mut self, timer_id: &str, expected_duration: u64) -> (r: HistoryMatch)
        requires
            old(self).wf(),
        ensures
            final(self).wf(),
            old(self)@.evolves_to(final(self)@),
            (final(self)@, r@) == old(self)@.timer_arm(timer_id@, expected_duration),
    {
        let ghost start = self@;
        proof {
            lemma_prepared(start);
        }
        if !self.prepare_match() {
            return HistoryMatch::NoMatch;
        }
        let ghost s = self@;
        let here = self.cursor;
        if let Some((expected, actual)) = find_timer_mismatch(
            &self.events[here],
            timer_id,
            Some(expected_duration),
        ) {
            return diverged(expected, actual, here);
        }
        self.claim_at_cursor();
        proof {
            lemma_evolves_transitive(start, s, self@);
        }
        HistoryMatch::Matched { output: json_null() }
    }

    /// Matches the acquisition of a durable lock against history.
    ///
    /// The grant has to stand at the cursor and is claimed there.
    pub fn match_mutex_granted(&mut self, key: &str) -> (r: MutexGrantMatch)
        requires
            old(self).wf(),
        ensures
            final(self).wf(),
            old(self)@.evolves_to(final(self)@),
            (final(self)@, r@) == old(self)@.mutex_granted(key@),
    {
        let ghost start = self@;
        proof {
            lemma_prepared(start);
        }
        if !self.prepare_match() {
            return MutexGrantMatch::NoMatch;
        }
        let ghost s = self@;
        let here = self.cursor;
        let (lock_seq, acquired_at) = match &self.events[here] {
            WorkflowEvent::MutexGranted { key: recorded_key, lock_seq, acquired_at } => {
                if !str_eq(recorded_key.as_str(), key) {
                    return MutexGrantMatch::Diverged {
                        expected: tag("MutexGranted", key),
                        actual: tag("MutexGranted", recorded_key.as_str()),
                        event_index: report_index(here),
                    };
                }
                (*lock_seq, *acquired_at)
            },
            other => {
                return MutexGrantMatch::Diverged {
                    expected: tag("MutexGranted", key),
                    actual: actual_event_name(other),
                    event_index: report_index(here),
                };
            },
        };
        self.claim_at_cursor();
        proof {
            lemma_evolves_transitive(start, s, self@);
        }
        MutexGrantMatch::Granted { lock_seq, acquired_at }
    }

    /// Scans from the cursor for a cancellable timer, claims what it finds, and
    /// notes whether a command ended the scan. Returns where the find stands.
    fn scan_for_timer(&mut self, scan: &Scan) -> (r: Option<usize>)
        requires
            old(self).wf(),
            !old(self)@.scan_stopped,
            !(scan@ is SagaMarker),
        ensures
            final(self).wf(),
            old(self)@.evolves_to(final(self)@),
            final(self)@ == old(self)@.timer_scanned(scan@),
            r is Some <==> old(self)@.scan_hits(scan@, old(self)@.cursor, old(self)@.len()),
            r matches Some(i) ==> i == old(self)@.scan_stop(
                scan@,
                old(self)@.cursor,
                old(self)@.len(),
            ) && i < old(self)@.len(),
    {
        let ghost s = self@;
        let from = self.cursor;
        let end = self.events.len();
        let found = self.scan(scan, from, end);
        let ghost t = self@;
        proof {
            lemma_scanned(s, scan@, s.cursor, s.len());
        }
        if found.hit {
            self.consumed_out_of_order_events.insert(found.stop);
            let ghost c = self@;
            self.advance_to_next_unconsumed_event();
            proof {
                lemma_claimed(t, found.stop as int);
                assert(c == t.claimed(found.stop as int));
                lemma_moved_to(c, c.cursor);
                lemma_evolves_transitive(s, t, c);
                lemma_evolves_transitive(s, c, self@);
            }
            return Some(found.stop);
        }
        self.timer_scan_stopped_at_command = found.stop < end;
        proof {
            lemma_side_fields(t, self@);
            lemma_evolves_transitive(s, t, self@);
        }
        None
    }

    /// Matches the cancel of a cancellable timer against history.
    ///
    /// The cancel is claimed wherever it stands ahead, as long as only
    /// bookkeeping, other timers and events kept aside stand in between. When a
    /// command does, nothing is claimed and
    /// [`HistoryMatcher::timer_scan_stopped_at_command`] says so.
    pub fn match_timer_cancel(&mut self, timer_id: &str) -> (r: HistoryMatch)
        requires
            old(self).wf(),
        ensures
            final(self).wf(),
            old(self)@.evolves_to(final(self)@),
            (final(self)@, r@) == old(self)@.timer_cancel(timer_id@),
    {
        let ghost start = self@;
        self.timer_scan_stopped_at_command = false;
        let ghost reset = self@;
        proof {
            assert(reset == (Replay { scan_stopped: false, ..start }));
            lemma_side_fields(start, reset);
            lemma_prepared(reset);
        }
        let replaying = self.prepare_match();
        let ghost s = self@;
        proof {
            lemma_evolves_transitive(start, reset, s);
        }
        if !replaying {
            return HistoryMatch::NoMatch;
        }
        let found = self.scan_for_timer(&Scan::TimerCancel(timer_id));
        proof {
            lemma_evolves_transitive(start, s, self@);
        }
        match found {
            Some(_) => HistoryMatch::Matched { output: json_null() },
            None => HistoryMatch::NoMatch,
        }
    }

    /// Observes the outcome of a cancellable timer.
    ///
    /// Of the timer's fire and its cancel, the one that was recorded first
    /// decides and is claimed, under the same conditions as in
    /// [`HistoryMatcher::match_timer_cancel`].
    pub fn match_timer_or_cancel(&mut self, timer_id: &str) -> (r: TimerFireMatch)
        requires
            old(self).wf(),
        ensures
            final(self).wf(),
            old(self)@.evolves_to(final(self)@),
            (final(self)@, r) == old(self)@.timer_or_cancel(timer_id@),
    {
        let ghost start = self@;
        self.timer_scan_stopped_at_command = false;
        let ghost reset = self@;
        proof {
            assert(reset == (Replay { scan_stopped: false, ..start }));
            lemma_side_fields(start, reset);
            lemma_prepared(reset);
        }
        let replaying = self.prepare_match();
        let ghost s = self@;
        proof {
            lemma_evolves_transitive(start, reset, s);
        }
        if !replaying {
            return TimerFireMatch::NoMatch;
        }
        let found = self.scan_for_timer(&Scan::TimerOutcome(timer_id));
        proof {
            lemma_evolves_transitive(start, s, self@);
        }
        match found {
            Some(i) => if is_timer_fired(&self.events[i], timer_id) {
                TimerFireMatch::Fired
            } else {
                TimerFireMatch::Cancelled
            },
            None => TimerFireMatch::NoMatch,
        }
    }

    /// Whether the most recent scan for a cancellable timer ended at a command.
    ///
    /// After a scan that found nothing, this tells a command out of order from a
    /// new one at the end of history.
    pub fn timer_scan_stopped_at_command(&self) -> (r: bool)
        ensures
            r == self@.scan_stopped,
    {
        self.timer_scan_stopped_at_command
    }
}

} // verus!
