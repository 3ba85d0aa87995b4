//! The state of a replay, and how it moves.
use crate::event::WorkflowEvent;
use crate::json::{json_view, opt_json};
use crate::origin::{failure_tail, race_reserved, transparent_from_start};
use crate::scan::{activity_progress, ScanStep, ScanView};
use crate::search::first_index;
use crate::stash::{
    await_resolved, cancel_position, cancel_resolved, signal_position, signal_resolved,
    AwaitTerminalView, CancelTerminalView, ExternalAwaitView, ExternalCancelView,
    ExternalSignalView, PendingSignalView, SignalTerminalView,
};
use crate::types::opt_text;
use vstd::prelude::*;

verus! {

/// The state of a replay.
#[verifier::ext_equal]
pub struct Replay {
    /// The recorded history.
    pub events: Seq<WorkflowEvent>,
    /// Where the next command is looked for.
    pub cursor: int,
    /// Positions that were claimed ahead of the cursor.
    pub out_of_order: Set<int>,
    /// Positions of signals, external primitives and updates that were taken
    /// out of history.
    pub signals_consumed: Set<int>,
    /// Positions that no command claims.
    pub transparent: Set<int>,
    /// Received signals that were taken out and not delivered yet.
    pub pending_signals: Seq<PendingSignalView>,
    /// External signals that were taken out and not claimed yet.
    pub external_signals: Seq<ExternalSignalView>,
    /// External cancels that were taken out and not claimed yet.
    pub external_cancels: Seq<ExternalCancelView>,
    /// External awaits that were taken out and not claimed yet.
    pub external_awaits: Seq<ExternalAwaitView>,
    /// Positions of signals that lost a race against their deadline.
    pub late: Set<int>,
    /// Positions of signals that arrive while a race for them is open.
    pub reserved: Set<int>,
    /// Deprecated patches, each with whether a marker for it is present.
    pub deprecated: Map<Seq<char>, bool>,
    /// Patches whose marker this very replay is about to record.
    pub latched: Set<Seq<char>>,
    /// Whether the last scan for a cancellable timer ended at a command.
    pub scan_stopped: bool,
    /// Where the tail of a failed run begins.
    pub failure_tail: Option<int>,
}

impl Replay {
    /// The state before the first command.
    pub open spec fn start(events: Seq<WorkflowEvent>) -> Replay {
        Replay {
            events,
            cursor: 0,
            out_of_order: Set::empty(),
            signals_consumed: Set::empty(),
            transparent: transparent_from_start(events),
            pending_signals: Seq::empty(),
            external_signals: Seq::empty(),
            external_cancels: Seq::empty(),
            external_awaits: Seq::empty(),
            late: Set::empty(),
            reserved: race_reserved(events),
            deprecated: Map::empty(),
            latched: Set::empty(),
            scan_stopped: false,
            failure_tail: failure_tail(events),
        }
    }

    /// The length of the history.
    pub open spec fn len(self) -> int {
        self.events.len() as int
    }

    // ── Consumption ─────────────────────────────────────────────────────────
    /// Whether the event at `i` is taken.
    pub open spec fn consumed(self, i: int) -> bool {
        ||| self.out_of_order.contains(i)
        ||| self.signals_consumed.contains(i)
        ||| self.transparent.contains(i)
    }

    /// Whether the event at `i` is still to be claimed.
    pub open spec fn open_at(self, i: int) -> bool {
        0 <= i < self.len() && !self.consumed(i)
    }

    /// Whether a signal still to be claimed stands at `i`.
    pub open spec fn open_signal(self, i: int) -> bool {
        self.open_at(i) && self.events[i] is SignalReceived
    }

    /// The first position from `from` on whose event is still to be claimed.
    pub open spec fn next_open(self, from: int) -> int {
        first_index(|i: int| !self.consumed(i), from, self.len())
    }

    /// Whether recorded history lies ahead of the cursor.
    pub open spec fn replaying(self) -> bool {
        self.next_open(self.cursor) < self.len()
    }

    /// Whether the signal recorded at `i` waits to be delivered.
    pub open spec fn is_pending(self, i: int) -> bool {
        exists|k: int|
            0 <= k < self.pending_signals.len() && #[trigger] self.pending_signals[k].index == i
    }

    /// Whether the signal recorded at `i` was never delivered.
    pub open spec fn undelivered(self, i: int) -> bool {
        &&& 0 <= i < self.len()
        &&& self.events[i] is SignalReceived
        &&& self.is_pending(i) || !self.consumed(i)
    }

    // ── Invariant ───────────────────────────────────────────────────────────
    /// Pending signals stand as they were recorded, in the order in which they
    /// were recorded, ahead of every signal that is still to be taken out.
    pub open spec fn pending_wf(self) -> bool {
        &&& forall|k: int|
            0 <= k < self.pending_signals.len() ==> self.pending_entry_wf(
                #[trigger] self.pending_signals[k],
            )
        &&& forall|j: int, k: int|
            0 <= j < k < self.pending_signals.len() ==> (#[trigger] self.pending_signals[j]).index
                < (#[trigger] self.pending_signals[k]).index
        &&& forall|k: int, i: int|
            0 <= k < self.pending_signals.len() && self.cursor <= i && #[trigger] self.open_signal(
                i,
            ) ==> (#[trigger] self.pending_signals[k]).index < i
    }

    /// A pending signal is one that was recorded and taken out of history.
    pub open spec fn pending_entry_wf(self, p: PendingSignalView) -> bool {
        &&& 0 <= p.index < self.len()
        &&& self.signals_consumed.contains(p.index)
        &&& match self.events[p.index] {
            WorkflowEvent::SignalReceived { signal_name, payload } => signal_name@ == p.name
                && json_view(payload) == p.payload,
            _ => false,
        }
    }

    /// The invariant of a replay.
    pub open spec fn wf(self) -> bool {
        &&& 0 <= self.cursor <= self.len()
        &&& forall|i: int| #[trigger] self.out_of_order.contains(i) ==> 0 <= i < self.len()
        &&& forall|i: int| #[trigger] self.signals_consumed.contains(i) ==> 0 <= i < self.len()
        &&& forall|i: int| #[trigger] self.transparent.contains(i) ==> 0 <= i < self.len()
        &&& forall|i: int| #[trigger] self.late.contains(i) ==> 0 <= i < self.len()
        &&& self.pending_wf()
        &&& self.transparent == transparent_from_start(self.events)
        &&& self.reserved == race_reserved(self.events)
        &&& self.failure_tail == failure_tail(self.events)
    }

    /// What every operation keeps: the history and what was known of it from
    /// the start stay, the cursor never moves back, what is taken stays taken,
    /// what was delivered stays delivered, and what was decided of a patch stays
    /// decided.
    pub open spec fn evolves_to(self, later: Replay) -> bool {
        &&& later.events == self.events
        &&& later.transparent == self.transparent
        &&& later.reserved == self.reserved
        &&& later.failure_tail == self.failure_tail
        &&& self.cursor <= later.cursor
        &&& self.out_of_order.subset_of(later.out_of_order)
        &&& self.signals_consumed.subset_of(later.signals_consumed)
        &&& self.late.subset_of(later.late)
        &&& self.latched.subset_of(later.latched)
        &&& forall|i: int| #[trigger] later.undelivered(i) ==> self.undelivered(i)
        &&& forall|id: Seq<char>| #[trigger]
            self.deprecated.contains_key(id) ==> later.deprecated.contains_key(id)
                && later.deprecated[id] == self.deprecated[id]
    }

    // ── Moving the cursor ───────────────────────────────────────────────────
    /// The cursor put at `c`.
    pub open spec fn at(self, c: int) -> Replay {
        Replay { cursor: c, ..self }
    }

    /// The cursor put at the first event from `c` on that is still to be
    /// claimed.
    pub open spec fn moved_to(self, c: int) -> Replay {
        self.at(self.next_open(c))
    }

    /// The cursor moved past what is taken.
    pub open spec fn advanced(self) -> Replay {
        self.moved_to(self.cursor)
    }

    // ── Claiming ────────────────────────────────────────────────────────────
    /// The event at `i` claimed ahead of the cursor.
    pub open spec fn claimed(self, i: int) -> Replay {
        Replay { out_of_order: self.out_of_order.insert(i), ..self }
    }

    /// The signal at `i` delivered out of history.
    pub open spec fn delivered(self, i: int) -> Replay {
        Replay { signals_consumed: self.signals_consumed.insert(i), ..self }
    }

    /// The pending signal number `k` delivered.
    pub open spec fn dequeued(self, k: int) -> Replay {
        Replay { pending_signals: self.pending_signals.remove(k), ..self }
    }

    // ── Keeping events aside ────────────────────────────────────────────────
    /// The event at `i` taken out of history and kept aside for its own command:
    /// a signal or a request of an external primitive is queued, an outcome of
    /// an external primitive is noted at its request.
    pub open spec fn absorbed(self, i: int) -> Replay {
        let taken = self.delivered(i);
        match self.events[i] {
            WorkflowEvent::SignalReceived { signal_name, payload } => Replay {
                pending_signals: self.pending_signals.push(
                    PendingSignalView {
                        name: signal_name@,
                        payload: json_view(payload),
                        index: i,
                    },
                ),
                ..taken
            },
            WorkflowEvent::ExternalSignalRequested {
                signal_id,
                target,
                signal_name,
                payload,
                idempotency_key,
            } => Replay {
                external_signals: self.external_signals.push(
                    ExternalSignalView {
                        signal_id,
                        target,
                        signal_name: signal_name@,
                        payload: json_view(payload),
                        idempotency_key: opt_text(idempotency_key),
                        terminal: None,
                    },
                ),
                ..taken
            },
            WorkflowEvent::ExternalSignalDelivered { signal_id } => Replay {
                external_signals: signal_resolved(
                    self.external_signals,
                    signal_id,
                    SignalTerminalView::Delivered,
                ),
                ..taken
            },
            WorkflowEvent::ExternalSignalFailed { signal_id, reason_code } => Replay {
                external_signals: signal_resolved(
                    self.external_signals,
                    signal_id,
                    SignalTerminalView::Failed(reason_code@),
                ),
                ..taken
            },
            WorkflowEvent::ExternalCancelRequested { cancel_id, target } => Replay {
                external_cancels: self.external_cancels.push(
                    ExternalCancelView { cancel_id, target, terminal: None },
                ),
                ..taken
            },
            WorkflowEvent::ExternalCancelDelivered { cancel_id } => Replay {
                external_cancels: cancel_resolved(
                    self.external_cancels,
                    cancel_id,
                    CancelTerminalView::Delivered,
                ),
                ..taken
            },
            WorkflowEvent::ExternalCancelFailed { cancel_id, reason_code } => Replay {
                external_cancels: cancel_resolved(
                    self.external_cancels,
                    cancel_id,
                    CancelTerminalView::Failed(reason_code@),
                ),
                ..taken
            },
            WorkflowEvent::ExternalAwaitRequested { await_id, target } => Replay {
                external_awaits: self.external_awaits.push(
                    ExternalAwaitView { await_id, target, terminal: None },
                ),
                ..taken
            },
            WorkflowEvent::ExternalAwaitResolved { await_id, output } => Replay {
                external_awaits: await_resolved(
                    self.external_awaits,
                    await_id,
                    AwaitTerminalView::Resolved(json_view(output)),
                ),
                ..taken
            },
            WorkflowEvent::ExternalAwaitFailed {
                await_id,
                reason_code,
                message,
                error_type,
                details,
                non_retryable,
            } => Replay {
                external_awaits: await_resolved(
                    self.external_awaits,
                    await_id,
                    AwaitTerminalView::Failed {
                        reason_code: reason_code@,
                        message: opt_text(message),
                        error_type: opt_text(error_type),
                        details: opt_json(details),
                        non_retryable,
                    },
                ),
                ..taken
            },
            _ => taken,
        }
    }

    // ── Scanning ────────────────────────────────────────────────────────────
    /// What the scan does at the event at `i`; taken events are crossed.
    pub open spec fn step_at(self, scan: ScanView, i: int) -> ScanStep {
        if self.consumed(i) {
            ScanStep::Pass
        } else {
            scan.step(self.events[i])
        }
    }

    /// Where the scan of `from..end` ends: at the first event that it looks for
    /// or must not cross, else at `end`.
    pub open spec fn scan_stop(self, scan: ScanView, from: int, end: int) -> int {
        first_index(
            |i: int| self.step_at(scan, i) is Hit || self.step_at(scan, i) is Halt,
            from,
            end,
        )
    }

    /// Whether the scan of `from..end` finds what it looks for.
    pub open spec fn scan_hits(self, scan: ScanView, from: int, end: int) -> bool {
        let stop = self.scan_stop(scan, from, end);
        stop < end && self.step_at(scan, stop) is Hit
    }

    /// The first command that the scan of `from..end` crosses.
    pub open spec fn scan_command(self, scan: ScanView, from: int, end: int) -> Option<int> {
        let stop = self.scan_stop(scan, from, end);
        let first = first_index(|i: int| self.step_at(scan, i) is Command, from, stop);
        if first < stop {
            Some(first)
        } else {
            None
        }
    }

    /// Everything between `from` and `to` that the scan keeps aside taken out of
    /// history, in order.
    pub open spec fn stashed(self, scan: ScanView, from: int, to: int) -> Replay
        decreases to - from,
    {
        if to <= from {
            self
        } else if self.step_at(scan, to - 1) is Stash {
            self.stashed(scan, from, to - 1).absorbed(to - 1)
        } else {
            self.stashed(scan, from, to - 1)
        }
    }

    /// The state after the scan of `from..end`.
    pub open spec fn scanned(self, scan: ScanView, from: int, end: int) -> Replay {
        self.stashed(scan, from, self.scan_stop(scan, from, end))
    }

    // ── Before every command ────────────────────────────────────────────────
    /// Signals, external primitives and updates in front of the next command
    /// taken out of history.
    pub open spec fn drained(self) -> Replay {
        self.scanned(ScanView::Drain, self.cursor, self.len()).at(
            self.scan_stop(ScanView::Drain, self.cursor, self.len()),
        )
    }

    /// Whether `e` is the outcome of an external signal or cancel that was
    /// taken out.
    pub open spec fn awaits_outcome(self, e: WorkflowEvent) -> bool {
        match e {
            WorkflowEvent::ExternalSignalDelivered { signal_id } => signal_position(
                self.external_signals,
                signal_id,
            ) < self.external_signals.len(),
            WorkflowEvent::ExternalSignalFailed { signal_id, .. } => signal_position(
                self.external_signals,
                signal_id,
            ) < self.external_signals.len(),
            WorkflowEvent::ExternalCancelDelivered { cancel_id } => cancel_position(
                self.external_cancels,
                cancel_id,
            ) < self.external_cancels.len(),
            WorkflowEvent::ExternalCancelFailed { cancel_id, .. } => cancel_position(
                self.external_cancels,
                cancel_id,
            ) < self.external_cancels.len(),
            _ => false,
        }
    }

    /// The outcomes between `from` and `to` of external signals and cancels that
    /// were taken out noted at their requests.
    pub open spec fn resolved(self, from: int, to: int) -> Replay
        decreases to - from,
    {
        if to <= from {
            self
        } else {
            let before = self.resolved(from, to - 1);
            if !before.consumed(to - 1) && before.awaits_outcome(self.events[to - 1]) {
                before.absorbed(to - 1)
            } else {
                before
            }
        }
    }

    /// The state in which a command is matched: the cursor past what is taken
    /// and past what is kept aside, and the outcomes of external signals and
    /// cancels noted as far as they are recorded.
    pub open spec fn prepared(self) -> Replay {
        let s = self.advanced().drained();
        s.resolved(s.cursor, s.len())
    }

    // ── After every scan ────────────────────────────────────────────────────
    /// The cursor returned to the first crossed command, where there was one.
    pub open spec fn rewound(self, command: Option<int>) -> Replay {
        match command {
            Some(c) => self.moved_to(c),
            None => self,
        }
    }

    /// The event at `t` settled: with a crossed command it is claimed ahead of
    /// the cursor, which returns to that command; else the cursor moves past it.
    pub open spec fn settled(self, t: int, command: Option<int>) -> Replay {
        match command {
            Some(c) => self.claimed(t).moved_to(c),
            None => self.moved_to(t + 1),
        }
    }

    /// The positions between `c` and `t` of progress of the activity whose
    /// outcome stands at `t`.
    pub open spec fn progress_before(self, c: int, t: int) -> Set<int> {
        Set::new(
            |i: int|
                c <= i < t && match self.events[t] {
                    WorkflowEvent::ActivityCompleted { activity_id, .. } => activity_progress(
                        self.events[i],
                        activity_id,
                    ),
                    WorkflowEvent::ActivityFailed { activity_id, .. } => activity_progress(
                        self.events[i],
                        activity_id,
                    ),
                    WorkflowEvent::ActivityTimedOut { activity_id, .. } => activity_progress(
                        self.events[i],
                        activity_id,
                    ),
                    _ => false,
                },
        )
    }

    /// The outcome at `t` settled, as by [`Replay::settled`]; with a crossed
    /// command also the activity's progress in between is claimed.
    pub open spec fn settled_outcome(self, t: int, command: Option<int>) -> Replay {
        match command {
            Some(c) => Replay {
                out_of_order: self.out_of_order.insert(t).union(self.progress_before(c, t)),
                ..self
            }.moved_to(c),
            None => self.moved_to(t + 1),
        }
    }
}

} // verus!
