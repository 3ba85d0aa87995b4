//! The matcher: a cursor over recorded history.
//!
//! Everything that matches a command moves through the few steps of this
//! module: the cursor skips what is taken, signals and external primitives are
//! kept aside for their own commands, a scan looks ahead for an outcome, and an
//! outcome is settled.
use crate::event::WorkflowEvent;
use crate::index_set::IndexSet;
use crate::kinds::{is_stashable, is_stashable_event};
use crate::moves::{
    lemma_absorbed_frame, lemma_drained, lemma_moved_to, lemma_nothing_to_await, lemma_prepared,
    lemma_resolved, lemma_resolved_idle, lemma_stashed_frame, lemma_step_classes,
};
use crate::replay::Replay;
use crate::scan::{is_activity_progress, Scan, ScanStep};
use crate::search::{lemma_first_index_is, lemma_first_index_same};
use crate::stash::{
    awaits_view, cancels_view, holds_cancel, holds_signal, pending_view, resolve_await,
    resolve_cancel, resolve_signal, signals_view, PendingSignal, StashedAwaitTerminal,
    StashedCancelTerminal, StashedExternalAwait, StashedExternalCancel, StashedExternalSignal,
    StashedSignalTerminal,
};
use crate::types::{clone_text, ActivityExecId};
use std::collections::VecDeque;
use vstd::hash_map::StringHashMap;
use vstd::hash_set::StringHashSet;
use vstd::prelude::*;

verus! {

/// Walks through recorded workflow events during replay, matching commands
/// against what was recorded.
///
/// While recorded history lies ahead, each workflow command must match the
/// corresponding event. Past its end, commands are new and are executed for
/// real.
pub struct HistoryMatcher {
    pub(crate) events: Vec<WorkflowEvent>,
    pub(crate) cursor: usize,
    pub(crate) consumed_out_of_order_events: IndexSet,
    pub(crate) consumed_signal_events: IndexSet,
    pub(crate) transparent_events: IndexSet,
    pub(crate) pending_signals: VecDeque<PendingSignal>,
    pub(crate) pending_external_signals: Vec<StashedExternalSignal>,
    pub(crate) pending_external_cancels: Vec<StashedExternalCancel>,
    pub(crate) pending_external_awaits: Vec<StashedExternalAwait>,
    pub(crate) late_race_signal_events: IndexSet,
    pub(crate) race_reserved_signal_events: IndexSet,
    pub(crate) deprecated_patches: StringHashMap<bool>,
    pub(crate) patch_ids_recorded_this_cycle: StringHashSet,
    pub(crate) timer_scan_stopped_at_command: bool,
    pub(crate) terminal_failure_tail: Option<usize>,
}

impl View for HistoryMatcher {
    type V = Replay;

    open spec fn view(&self) -> Replay {
        self.replay()
    }
}

/// What a scan met.
pub(crate) struct Scanned {
    /// Where it ended.
    pub(crate) stop: usize,
    /// Whether it found what it looked for.
    pub(crate) hit: bool,
    /// The first command that it crossed.
    pub(crate) command: Option<usize>,
}

/// An optional position as a mathematical integer.
pub open spec fn opt_index(i: Option<usize>) -> Option<int> {
    match i {
        Some(i) => Some(i as int),
        None => None,
    }
}

impl HistoryMatcher {
    /// The state of the replay.
    pub open(crate) spec fn replay(&self) -> Replay {
        Replay {
            events: self.events@,
            cursor: self.cursor as int,
            out_of_order: self.consumed_out_of_order_events@,
            signals_consumed: self.consumed_signal_events@,
            transparent: self.transparent_events@,
            pending_signals: pending_view(self.pending_signals@),
            external_signals: signals_view(self.pending_external_signals@),
            external_cancels: cancels_view(self.pending_external_cancels@),
            external_awaits: awaits_view(self.pending_external_awaits@),
            late: self.late_race_signal_events@,
            reserved: self.race_reserved_signal_events@,
            deprecated: self.deprecated_patches@,
            latched: self.patch_ids_recorded_this_cycle@,
            scan_stopped: self.timer_scan_stopped_at_command,
            failure_tail: opt_index(self.terminal_failure_tail),
        }
    }

    /// The matcher's invariant.
    pub open spec fn wf(&self) -> bool {
        self@.wf()
    }

    // ── Consumption ─────────────────────────────────────────────────────────
    /// Whether the event at `index` is already taken.
    pub fn is_consumed(&self, index: usize) -> (r: bool)
        ensures
            r == self@.consumed(index as int),
    {
        self.consumed_out_of_order_events.contains(index) || self.consumed_signal_events.contains(
            index,
        ) || self.transparent_events.contains(index)
    }

    /// Moves the cursor past events that are taken.
    pub(crate) fn advance_to_next_unconsumed_event(&mut self)
        requires
            old(self).cursor <= old(self).events@.len(),
        ensures
            final(self)@ == old(self)@.advanced(),
    {
        let ghost s = self@;
        let ghost p = |i: int| !s.consumed(i);
        while self.cursor < self.events.len() && self.is_consumed(self.cursor)
            invariant
                s.cursor <= self.cursor <= s.len(),
                self@ == s.at(self.cursor as int),
                p == (|i: int| !s.consumed(i)),
                forall|i: int| s.cursor <= i < self.cursor ==> !#[trigger] p(i),
            decreases self.events@.len() - self.cursor,
        {
            assert(!p(self.cursor as int));
            self.cursor = self.cursor + 1;
        }
        proof {
            lemma_first_index_is(p, s.cursor, s.len(), self.cursor as int);
        }
    }

    /// Moves the cursor to the first event from `index` on that is not taken.
    pub(crate) fn move_to(&mut self, index: usize)
        requires
            index <= old(self).events@.len(),
        ensures
            final(self)@ == old(self)@.moved_to(index as int),
    {
        let ghost s = self@;
        self.cursor = index;
        let ghost a = self@;
        self.advance_to_next_unconsumed_event();
        proof {
            assert(a == s.at(index as int));
            lemma_same_next_open(s, a, index as int);
        }
    }

    // ── Keeping events aside ────────────────────────────────────────────────
    /// Takes the signal or external event at `index` out of history and keeps
    /// it aside for its own command.
    pub(crate) fn stash_transparent_external_event(&mut self, index: usize)
        requires
            index < old(self).events@.len(),
            is_stashable(old(self).events@[index as int]),
        ensures
            final(self)@ == old(self)@.absorbed(index as int),
    {
        let ghost s = self@;
        match &self.events[index] {
            WorkflowEvent::SignalReceived { signal_name, payload } => {
                self.pending_signals.push_back(
                    PendingSignal { name: signal_name.clone(), payload: payload.clone(), index },
                );
            },
            WorkflowEvent::ExternalSignalRequested {
                signal_id,
                target,
                signal_name,
                payload,
                idempotency_key,
            } => {
                self.pending_external_signals.push(
                    StashedExternalSignal {
                        signal_id: *signal_id,
                        target: *target,
                        signal_name: signal_name.clone(),
                        payload: payload.clone(),
                        idempotency_key: clone_text(idempotency_key),
                        terminal: None,
                    },
                );
            },
            WorkflowEvent::ExternalSignalDelivered { signal_id } => {
                resolve_signal(
                    &mut self.pending_external_signals,
                    *signal_id,
                    StashedSignalTerminal::Delivered,
                );
            },
            WorkflowEvent::ExternalSignalFailed { signal_id, reason_code } => {
                resolve_signal(
                    &mut self.pending_external_signals,
                    *signal_id,
                    StashedSignalTerminal::Failed(reason_code.clone()),
                );
            },
            WorkflowEvent::ExternalCancelRequested { cancel_id, target } => {
                self.pending_external_cancels.push(
                    StashedExternalCancel { cancel_id: *cancel_id, target: *target, terminal: None },
                );
            },
            WorkflowEvent::ExternalCancelDelivered { cancel_id } => {
                resolve_cancel(
                    &mut self.pending_external_cancels,
                    *cancel_id,
                    StashedCancelTerminal::Delivered,
                );
            },
            WorkflowEvent::ExternalCancelFailed { cancel_id, reason_code } => {
                resolve_cancel(
                    &mut self.pending_external_cancels,
                    *cancel_id,
                    StashedCancelTerminal::Failed(reason_code.clone()),
                );
            },
            WorkflowEvent::ExternalAwaitRequested { await_id, target } => {
                self.pending_external_awaits.push(
                    StashedExternalAwait { await_id: *await_id, target: *target, terminal: None },
                );
            },
            WorkflowEvent::ExternalAwaitResolved { await_id, output } => {
                resolve_await(
                    &mut self.pending_external_awaits,
                    *await_id,
                    StashedAwaitTerminal::Resolved(output.clone()),
                );
            },
            WorkflowEvent::ExternalAwaitFailed {
                await_id,
                reason_code,
                message,
                error_type,
                details,
                non_retryable,
            } => {
                resolve_await(
                    &mut self.pending_external_awaits,
                    *await_id,
                    StashedAwaitTerminal::Failed {
                        reason_code: reason_code.clone(),
                        message: clone_text(message),
                        error_type: clone_text(error_type),
                        details: details.clone(),
                        non_retryable: *non_retryable,
                    },
                );
            },
            _ => {},
        }
        self.consumed_signal_events.insert(index);
        let ghost t = s.absorbed(index as int);
        assert(self@.pending_signals =~= t.pending_signals);
        assert(self@.external_signals =~= t.external_signals);
        assert(self@.external_cancels =~= t.external_cancels);
        assert(self@.external_awaits =~= t.external_awaits);
    }

    // ── Scanning ────────────────────────────────────────────────────────────
    /// Scans `from..end`, keeping aside what the scan keeps aside.
    pub(crate) fn scan(&mut self, scan: &Scan, from: usize, end: usize) -> (r: Scanned)
        requires
            from <= end <= old(self).events@.len(),
        ensures
            final(self)@ == old(self)@.scanned(scan@, from as int, end as int),
            r.stop == old(self)@.scan_stop(scan@, from as int, end as int),
            r.hit == old(self)@.scan_hits(scan@, from as int, end as int),
            opt_index(r.command) == old(self)@.scan_command(scan@, from as int, end as int),
            from <= r.stop <= end,
            r.command matches Some(c) ==> from <= c < r.stop,
            r.hit ==> r.stop < end,
            final(self).events@ == old(self).events@,
            final(self).cursor == old(self).cursor,
    {
        let ghost s = self@;
        let ghost v = scan@;
        let ghost ends = |i: int| s.step_at(v, i) is Hit || s.step_at(v, i) is Halt;
        let ghost commands = |i: int| s.step_at(v, i) is Command;
        let mut i: usize = from;
        let mut command: Option<usize> = None;
        while i < end
            invariant
                from <= i <= end <= s.len(),
                v == scan@,
                self@ == s.stashed(v, from as int, i as int),
                self.events@ == s.events,
                self.cursor == s.cursor,
                ends == (|i: int| s.step_at(v, i) is Hit || s.step_at(v, i) is Halt),
                commands == (|i: int| s.step_at(v, i) is Command),
                forall|j: int| from <= j < i ==> !#[trigger] ends(j),
                match command {
                    Some(c) => {
                        &&& from <= c < i
                        &&& commands(c as int)
                        &&& forall|j: int| from <= j < c ==> !#[trigger] commands(j)
                    },
                    None => forall|j: int| from <= j < i ==> !#[trigger] commands(j),
                },
            ensures
                from <= i <= end,
                i < end ==> ends(i as int),
            decreases end - i,
        {
            proof {
                lemma_stashed_frame(s, v, from as int, i as int);
                assert(self@.consumed(i as int) == s.consumed(i as int));
            }
            if !self.is_consumed(i) {
                match scan.step(&self.events[i]) {
                    ScanStep::Pass => {},
                    ScanStep::Command => {
                        assert(commands(i as int));
                        if command.is_none() {
                            command = Some(i);
                        }
                    },
                    ScanStep::Stash => {
                        if is_stashable_event(&self.events[i]) {
                            self.stash_transparent_external_event(i);
                        } else {
                            self.consumed_signal_events.insert(i);
                        }
                        proof {
                            lemma_step_classes(v, s.events[i as int]);
                            lemma_absorbed_frame(
                                s.stashed(v, from as int, i as int),
                                i as int,
                            );
                        }
                    },
                    ScanStep::Hit | ScanStep::Halt => {
                        assert(ends(i as int));
                        break;
                    },
                }
            }
            assert(!ends(i as int));
            i += 1;
        }
        proof {
            lemma_first_index_is(ends, from as int, end as int, i as int);
            match command {
                Some(c) => lemma_first_index_is(commands, from as int, i as int, c as int),
                None => lemma_first_index_is(commands, from as int, i as int, i as int),
            }
            lemma_stashed_frame(s, v, from as int, i as int);
        }
        let hit = i < end && match scan.step(&self.events[i]) {
            ScanStep::Hit => true,
            _ => false,
        };
        Scanned { stop: i, hit, command }
    }

    // ── Before every command ────────────────────────────────────────────────
    /// Whether the cursor is still within the recorded history.
    pub fn is_replaying(&self) -> (r: bool)
        requires
            self.wf(),
        ensures
            r == self@.replaying(),
    {
        let ghost s = self@;
        let ghost p = |i: int| !s.consumed(i);
        let mut cursor: usize = self.cursor;
        while cursor < self.events.len() && self.is_consumed(cursor)
            invariant
                s == self@,
                s.cursor <= cursor <= s.len(),
                p == (|i: int| !s.consumed(i)),
                forall|i: int| s.cursor <= i < cursor ==> !#[trigger] p(i),
            decreases self.events@.len() - cursor,
        {
            assert(!p(cursor as int));
            cursor += 1;
        }
        proof {
            lemma_first_index_is(p, s.cursor, s.len(), cursor as int);
        }
        cursor < self.events.len()
    }

    /// Takes the signals, external primitives and updates in front of the next
    /// command out of history, and moves the cursor past them.
    ///
    /// Signals can be recorded at any point, also ahead of the command that
    /// waits for them; a command that is matched first must not take them for a
    /// divergence.
    pub fn drain_early_signals(&mut self)
        requires
            old(self).wf(),
        ensures
            final(self).wf(),
            old(self)@.evolves_to(final(self)@),
            final(self)@ == old(self)@.drained(),
    {
        proof {
            lemma_drained(self@);
        }
        let end = self.events.len();
        let from = self.cursor;
        let drained = self.scan(&Scan::Drain, from, end);
        self.cursor = drained.stop;
    }

    /// Notes the outcomes of external signals and cancels that were taken out,
    /// wherever they stand ahead of the cursor.
    pub(crate) fn scan_ahead_for_external_signal_terminals(&mut self)
        requires
            old(self).wf(),
        ensures
            final(self)@ == old(self)@.resolved(old(self)@.cursor, old(self)@.len()),
    {
        let ghost s = self@;
        if self.pending_external_signals.len() == 0 && self.pending_external_cancels.len() == 0 {
            proof {
                assert forall|j: int| s.cursor <= j < s.len() && !#[trigger] s.consumed(
                    j,
                ) implies !s.awaits_outcome(s.events[j]) by {
                    lemma_nothing_to_await(s, s.events[j]);
                }
                lemma_resolved_idle(s, s.cursor, s.len());
            }
            return ;
        }
        let mut i: usize = self.cursor;
        while i < self.events.len()
            invariant
                s.wf(),
                s.cursor <= i <= s.len(),
                self@ == s.resolved(s.cursor, i as int),
                self.events@ == s.events,
            decreases s.len() - i,
        {
            proof {
                lemma_resolved(s, s.cursor, i as int);
            }
            if !self.is_consumed(i) {
                let awaited = match &self.events[i] {
                    WorkflowEvent::ExternalSignalDelivered { signal_id } => holds_signal(
                        &self.pending_external_signals,
                        *signal_id,
                    ),
                    WorkflowEvent::ExternalSignalFailed { signal_id, .. } => holds_signal(
                        &self.pending_external_signals,
                        *signal_id,
                    ),
                    WorkflowEvent::ExternalCancelDelivered { cancel_id } => holds_cancel(
                        &self.pending_external_cancels,
                        *cancel_id,
                    ),
                    WorkflowEvent::ExternalCancelFailed { cancel_id, .. } => holds_cancel(
                        &self.pending_external_cancels,
                        *cancel_id,
                    ),
                    _ => false,
                };
                if awaited {
                    self.stash_transparent_external_event(i);
                }
            }
            i += 1;
            proof {
                lemma_resolved(s, s.cursor, i as int);
            }
        }
    }

    /// Prepares for matching a command: moves the cursor past what is taken and
    /// what is kept aside, and notes the outcomes of external signals and
    /// cancels as far as they are recorded. Returns whether recorded history
    /// lies ahead of the cursor.
    pub fn prepare_match(&mut self) -> (r: bool)
        requires
            old(self).wf(),
        ensures
            final(self).wf(),
            old(self)@.evolves_to(final(self)@),
            final(self)@ == old(self)@.prepared(),
            r == final(self)@.replaying(),
            r == (final(self)@.cursor < final(self)@.len()),
    {
        proof {
            lemma_prepared(self@);
            lemma_moved_to(self@, self@.cursor);
            lemma_drained(self@.advanced());
        }
        self.advance_to_next_unconsumed_event();
        self.drain_early_signals();
        self.scan_ahead_for_external_signal_terminals();
        self.is_replaying()
    }

    /// Moves the cursor one event ahead.
    pub(crate) fn step_over(&mut self)
        requires
            old(self)@.cursor < old(self)@.len(),
        ensures
            final(self)@ == old(self)@.at(old(self)@.cursor + 1),
    {
        assert(self.cursor < self.events.len());
        self.cursor = self.cursor + 1;
    }

    /// Claims the event at the cursor.
    pub(crate) fn claim_at_cursor(&mut self)
        requires
            old(self).wf(),
            old(self)@.cursor < old(self)@.len(),
        ensures
            final(self).wf(),
            old(self)@.evolves_to(final(self)@),
            final(self)@ == old(self)@.moved_to(old(self)@.cursor + 1),
    {
        proof {
            lemma_moved_to(self@, self@.cursor + 1);
        }
        assert(self.cursor < self.events.len());
        let next = self.cursor + 1;
        self.move_to(next);
    }

    // ── After every scan ────────────────────────────────────────────────────
    /// Returns the cursor to the first crossed command, where there was one.
    pub(crate) fn rewind_to(&mut self, command: Option<usize>)
        requires
            command matches Some(c) ==> c <= old(self).events@.len(),
        ensures
            final(self)@ == old(self)@.rewound(opt_index(command)),
    {
        if let Some(c) = command {
            self.move_to(c);
        }
    }

    /// Settles the event at `index`: with a crossed command it is claimed ahead
    /// of the cursor, which returns to that command; else the cursor moves past
    /// it.
    pub(crate) fn settle(&mut self, index: usize, command: Option<usize>)
        requires
            index < old(self).events.len(),
            command matches Some(c) ==> c <= old(self).events@.len(),
        ensures
            final(self)@ == old(self)@.settled(index as int, opt_index(command)),
    {
        match command {
            Some(c) => {
                self.consumed_out_of_order_events.insert(index);
                self.move_to(c);
            },
            None => self.move_to(index + 1),
        }
    }

    /// Settles the outcome at `index`; with a crossed command also the
    /// activity's progress in between is claimed, or it would be left standing
    /// in front of later commands.
    pub(crate) fn settle_terminal(&mut self, index: usize, command: Option<usize>)
        requires
            index < old(self).events.len(),
            command matches Some(c) ==> c <= index,
        ensures
            final(self)@ == old(self)@.settled_outcome(index as int, opt_index(command)),
    {
        let ghost s = self@;
        match command {
            Some(c) => {
                self.consumed_out_of_order_events.insert(index);
                let activity: Option<ActivityExecId> = match &self.events[index] {
                    WorkflowEvent::ActivityCompleted { activity_id, .. } => Some(*activity_id),
                    WorkflowEvent::ActivityFailed { activity_id, .. } => Some(*activity_id),
                    WorkflowEvent::ActivityTimedOut { activity_id, .. } => Some(*activity_id),
                    _ => None,
                };
                let ghost base = s.out_of_order.insert(index as int);
                let ghost progress = s.progress_before(c as int, index as int);
                if let Some(id) = activity {
                    let mut i: usize = c;
                    while i < index
                        invariant
                            c <= i <= index < s.len(),
                            self.events@ == s.events,
                            progress == s.progress_before(c as int, index as int),
                            match s.events[index as int] {
                                WorkflowEvent::ActivityCompleted { activity_id, .. } => activity_id
                                    == id,
                                WorkflowEvent::ActivityFailed { activity_id, .. } => activity_id
                                    == id,
                                WorkflowEvent::ActivityTimedOut { activity_id, .. } => activity_id
                                    == id,
                                _ => false,
                            },
                            self@ == (Replay { out_of_order: self@.out_of_order, ..s }),
                            forall|j: int|
                                #[trigger] self@.out_of_order.contains(j) == (base.contains(j) || (
                                j < i && progress.contains(j))),
                        decreases index - i,
                    {
                        if is_activity_progress(&self.events[i], id) {
                            self.consumed_out_of_order_events.insert(i);
                        }
                        i += 1;
                    }
                }
                assert(self@.out_of_order =~= base.union(progress));
                self.move_to(c);
            },
            None => self.move_to(index + 1),
        }
    }
}

/// The cursor has no part in where it is moved to.
pub(crate) proof fn lemma_same_next_open(s: Replay, t: Replay, from: int)
    requires
        s.events == t.events,
        s.out_of_order == t.out_of_order,
        s.signals_consumed == t.signals_consumed,
        s.transparent == t.transparent,
    ensures
        s.next_open(from) == t.next_open(from),
{
    lemma_first_index_same(
        |i: int| !s.consumed(i),
        |i: int| !t.consumed(i),
        from,
        s.len(),
    );
}

} // verus!
