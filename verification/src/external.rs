//! Signals to, cancels of and awaits of other workflows.
use crate::event::WorkflowEvent;
use crate::ids::{execution_text, id_text, show_target, target_text};
use crate::json::{json_null, json_view, opt_json, JsonView};
use crate::kinds::{actual_event_name, event_label};
use crate::matcher::HistoryMatcher;
use crate::moves::{
    lemma_at, lemma_evolves_transitive, lemma_next_open, lemma_prepared, lemma_scan_end,
    lemma_scan_stop, lemma_side_fields,
};
use crate::outcome::{diverged, diverged_at, HistoryMatch, HistoryMatchView};
use crate::replay::Replay;
use crate::scan::{Scan, ScanView};
use crate::search::{first_index, lemma_first_index_is};
use crate::stash::{
    await_of, cancel_to, signal_to, take_await, take_cancel, take_signal, AwaitTerminalView,
    CancelTerminalView, ExternalAwaitView, ExternalCancelView, ExternalSignalView,
    SignalTerminalView, StashedAwaitTerminal, StashedCancelTerminal, StashedSignalTerminal,
};
use crate::text::{glue, str_eq, tag, tagged};
use crate::types::{
    clone_text, opt_text, ExecutionId, ExternalAwaitId, ExternalCancelId, ExternalSignalId,
    ExternalTarget,
};
use vstd::prelude::*;

verus! {

// ── Requests ahead of the cursor ────────────────────────────────────────────
/// The kinds of requests to other workflows.
#[derive(Clone, Copy)]
pub enum RequestKind {
    /// A signal to another workflow.
    Signal,
    /// A cancel of another workflow.
    Cancel,
    /// An await of another workflow.
    Await,
}

/// Whether `e` records a request of that kind.
pub open spec fn is_request(e: WorkflowEvent, kind: RequestKind) -> bool {
    match kind {
        RequestKind::Signal => e is ExternalSignalRequested,
        RequestKind::Cancel => e is ExternalCancelRequested,
        RequestKind::Await => e is ExternalAwaitRequested,
    }
}

/// Decides [`is_request`].
fn records_request(e: &WorkflowEvent, kind: RequestKind) -> (r: bool)
    ensures
        r == is_request(*e, kind),
{
    match (kind, e) {
        (RequestKind::Signal, WorkflowEvent::ExternalSignalRequested { .. }) => true,
        (RequestKind::Cancel, WorkflowEvent::ExternalCancelRequested { .. }) => true,
        (RequestKind::Await, WorkflowEvent::ExternalAwaitRequested { .. }) => true,
        _ => false,
    }
}

/// How a recorded request is shown.
pub open spec fn request_label(e: WorkflowEvent) -> Seq<char> {
    match e {
        WorkflowEvent::ExternalSignalRequested { target, signal_name, .. } => signal_request(
            target,
            signal_name@,
        ),
        WorkflowEvent::ExternalCancelRequested { target, .. } => cancel_request(target),
        WorkflowEvent::ExternalAwaitRequested { target, .. } => await_request(target),
        other => event_label(other),
    }
}

/// Assembles [`request_label`].
fn show_request(e: &WorkflowEvent) -> (r: String)
    ensures
        r@ == request_label(*e),
{
    match e {
        WorkflowEvent::ExternalSignalRequested { target, signal_name, .. } => show_signal_request(
            target,
            signal_name.as_str(),
        ),
        WorkflowEvent::ExternalCancelRequested { target, .. } => show_cancel_request(target),
        WorkflowEvent::ExternalAwaitRequested { target, .. } => show_await_request(*target),
        other => actual_event_name(other),
    }
}

impl Replay {
    /// The position of the first request of that kind that is still to be
    /// claimed from the cursor on, and the length of history without one.
    pub open spec fn request_ahead(self, kind: RequestKind) -> int {
        first_index(
            |i: int| !self.consumed(i) && is_request(self.events[i], kind),
            self.cursor,
            self.len(),
        )
    }
}

/// With no event ahead that is still to be claimed, there is no request ahead.
pub proof fn lemma_no_request_ahead(s: Replay, kind: RequestKind)
    requires
        s.wf(),
        !s.replaying(),
    ensures
        s.request_ahead(kind) == s.len(),
{
    lemma_next_open(s, s.cursor);
    lemma_first_index_is(
        |i: int| !s.consumed(i) && is_request(s.events[i], kind),
        s.cursor,
        s.len(),
        s.len(),
    );
}

impl HistoryMatcher {
    /// Finds [`Replay::request_ahead`].
    fn find_request_ahead(&self, kind: RequestKind) -> (r: usize)
        requires
            self.wf(),
        ensures
            r == self@.request_ahead(kind),
            r <= self@.len(),
    {
        let ghost s = self@;
        let ghost p = |i: int| !s.consumed(i) && is_request(s.events[i], kind);
        let mut i: usize = self.cursor;
        while i < self.events.len() && (self.is_consumed(i) || !records_request(
            &self.events[i],
            kind,
        ))
            invariant
                self.wf(),
                s == self@,
                s.cursor <= i <= s.len(),
                p == (|i: int| !s.consumed(i) && is_request(s.events[i], kind)),
                forall|j: int| s.cursor <= j < i ==> !#[trigger] p(j),
            decreases s.len() - i,
        {
            assert(!p(i as int));
            i += 1;
        }
        proof {
            lemma_first_index_is(p, s.cursor, s.len(), i as int);
        }
        i
    }
}

// ── Signals to other workflows ──────────────────────────────────────────────
/// How a request to signal another workflow is shown.
pub open spec fn signal_request(target: ExternalTarget, name: Seq<char>) -> Seq<char> {
    tagged("ExternalSignalRequested"@, "target="@ + target_text(target) + ", signal="@ + name)
}

/// Assembles [`signal_request`].
fn show_signal_request(target: &ExternalTarget, name: &str) -> (r: String)
    ensures
        r@ == signal_request(*target, name@),
{
    let shown = show_target(target);
    let to = glue("target=", shown.as_str());
    let signal = glue(glue(to.as_str(), ", signal=").as_str(), name);
    tag("ExternalSignalRequested", signal.as_str())
}

/// What an external signal that was taken out of history gives back.
pub open spec fn stashed_signal_result(signal: ExternalSignalView) -> HistoryMatchView {
    match signal.terminal {
        Some(SignalTerminalView::Delivered) => HistoryMatchView::Matched {
            output: JsonView::Null,
        },
        Some(SignalTerminalView::Failed(reason_code)) => HistoryMatchView::ExternalSignalFailed {
            signal_id: signal.signal_id,
            reason_code,
        },
        None => HistoryMatchView::ExternalSignalInProgress {
            signal_id: signal.signal_id,
            payload: signal.payload,
            idempotency_key: signal.idempotency_key,
        },
    }
}

/// What the recorded outcome of an external signal gives back.
pub open spec fn signal_result(e: WorkflowEvent) -> HistoryMatchView {
    match e {
        WorkflowEvent::ExternalSignalDelivered { .. } => HistoryMatchView::Matched {
            output: JsonView::Null,
        },
        WorkflowEvent::ExternalSignalFailed { signal_id, reason_code } =>
            HistoryMatchView::ExternalSignalFailed { signal_id, reason_code: reason_code@ },
        _ => HistoryMatchView::NoMatch,
    }
}

impl Replay {
    /// What is found of the external signal `id` from the cursor on.
    pub open spec fn external_signal_from_here(
        self,
        id: ExternalSignalId,
        payload: JsonView,
        idempotency_key: Option<Seq<char>>,
    ) -> (Replay, HistoryMatchView) {
        let scan = ScanView::ExternalSignal(id);
        let stop = self.scan_stop(scan, self.cursor, self.len());
        let command = self.scan_command(scan, self.cursor, self.len());
        let scanned = self.scanned(scan, self.cursor, self.len());
        if self.scan_hits(scan, self.cursor, self.len()) {
            (scanned.settled_outcome(stop, command), signal_result(self.events[stop]))
        } else {
            (
                scanned.rewound(command),
                HistoryMatchView::ExternalSignalInProgress {
                    signal_id: id,
                    payload,
                    idempotency_key,
                },
            )
        }
    }

    /// What matching a signal to another workflow yields. The first such signal
    /// that was taken out of history is claimed. Without one, where no command is
    /// left in history it is new, unless a request for another signal is still
    /// ahead, which is then shown with its position; elsewhere it is looked for
    /// at the cursor.
    pub open spec fn external_signal(
        self,
        target: ExternalTarget,
        name: Seq<char>,
    ) -> (Replay, HistoryMatchView) {
        let s = self.prepared();
        let k = signal_to(s.external_signals, target, name);
        if k < s.external_signals.len() {
            (
                Replay { external_signals: s.external_signals.remove(k), ..s },
                stashed_signal_result(s.external_signals[k]),
            )
        } else if !s.replaying() {
            let ahead = self.request_ahead(RequestKind::Signal);
            if ahead < self.len() {
                (
                    s,
                    diverged_at(
                        signal_request(target, name),
                        request_label(self.events[ahead]),
                        ahead,
                    ),
                )
            } else {
                (s, HistoryMatchView::NoMatch)
            }
        } else {
            match s.events[s.cursor] {
                WorkflowEvent::ExternalSignalRequested {
                    signal_id,
                    target: recorded_target,
                    signal_name,
                    payload,
                    idempotency_key,
                } => if recorded_target != target || signal_name@ != name {
                    (
                        s,
                        diverged_at(
                            signal_request(target, name),
                            signal_request(recorded_target, signal_name@),
                            s.cursor,
                        ),
                    )
                } else {
                    s.at(s.cursor + 1).external_signal_from_here(
                        signal_id,
                        json_view(payload),
                        opt_text(idempotency_key),
                    )
                },
                other => (
                    s,
                    diverged_at(signal_request(target, name), event_label(other), s.cursor),
                ),
            }
        }
    }
}

impl HistoryMatcher {
    /// Matches a signal to another workflow against history.
    ///
    /// Signals that were recorded side by side have no order of their own: they
    /// are claimed by target and name, in whichever order they are requested.
    pub fn match_external_signal(&mut self, target: &ExternalTarget, signal_name: &str) -> (r:
        HistoryMatch)
        requires
            old(self).wf(),
        ensures
            final(self).wf(),
            old(self)@.evolves_to(final(self)@),
            (final(self)@, r@) == old(self)@.external_signal(*target, signal_name@),
    {
        let ghost start = self@;
        proof {
            lemma_prepared(start);
        }
        let ahead = self.find_request_ahead(RequestKind::Signal);
        let has_history = self.prepare_match();
        let ghost s = self@;
        if let Some(stashed) = take_signal(&mut self.pending_external_signals, target, signal_name) {
            proof {
                lemma_side_fields(s, self@);
                lemma_evolves_transitive(start, s, self@);
            }
            return match stashed.terminal {
                Some(StashedSignalTerminal::Delivered) => HistoryMatch::Matched {
                    output: json_null(),
                },
                Some(StashedSignalTerminal::Failed(reason_code)) =>
                    HistoryMatch::ExternalSignalFailed { signal_id: stashed.signal_id, reason_code },
                None => HistoryMatch::ExternalSignalInProgress {
                    signal_id: stashed.signal_id,
                    payload: stashed.payload,
                    idempotency_key: stashed.idempotency_key,
                },
            };
        }
        let here = self.cursor;
        if !has_history {
            if ahead < self.events.len() {
                return diverged(
                    show_signal_request(target, signal_name),
                    show_request(&self.events[ahead]),
                    ahead,
                );
            }
            return HistoryMatch::NoMatch;
        }
        let (signal_id, recorded_payload, recorded_key) = match &self.events[here] {
            WorkflowEvent::ExternalSignalRequested {
                signal_id,
                target: recorded_target,
                signal_name: recorded_name,
                payload,
                idempotency_key,
            } => {
                if *recorded_target != *target || !str_eq(recorded_name.as_str(), signal_name) {
                    return diverged(
                        show_signal_request(target, signal_name),
                        show_signal_request(recorded_target, recorded_name.as_str()),
                        here,
                    );
                }
                (*signal_id, payload.clone(), clone_text(idempotency_key))
            },
            other => {
                return diverged(
                    show_signal_request(target, signal_name),
                    actual_event_name(other),
                    here,
                );
            },
        };
        self.step_over();
        let ghost moved = self@;
        let ghost scan = ScanView::ExternalSignal(signal_id);
        proof {
            lemma_at(s, s.cursor + 1);
            lemma_evolves_transitive(start, s, moved);
            lemma_scan_end(moved, scan, moved.cursor, moved.len());
            lemma_scan_stop(moved, scan, moved.cursor, moved.len());
        }
        let from = self.cursor;
        let end = self.events.len();
        let found = self.scan(&Scan::ExternalSignal(signal_id), from, end);
        if !found.hit {
            self.rewind_to(found.command);
            proof {
                lemma_evolves_transitive(start, moved, self@);
            }
            return HistoryMatch::ExternalSignalInProgress {
                signal_id,
                payload: recorded_payload,
                idempotency_key: recorded_key,
            };
        }
        let result = match &self.events[found.stop] {
            WorkflowEvent::ExternalSignalDelivered { .. } => HistoryMatch::Matched {
                output: json_null(),
            },
            WorkflowEvent::ExternalSignalFailed { signal_id, reason_code } =>
                HistoryMatch::ExternalSignalFailed {
                    signal_id: *signal_id,
                    reason_code: reason_code.clone(),
                },
            _ => HistoryMatch::NoMatch,
        };
        self.settle_terminal(found.stop, found.command);
        proof {
            lemma_evolves_transitive(start, moved, self@);
        }
        result
    }
}

// ── Cancels of other workflows ──────────────────────────────────────────────
/// How a request to cancel another workflow is shown.
pub open spec fn cancel_request(target: ExternalTarget) -> Seq<char> {
    tagged("ExternalCancelRequested"@, "target="@ + target_text(target))
}

/// Assembles [`cancel_request`].
fn show_cancel_request(target: &ExternalTarget) -> (r: String)
    ensures
        r@ == cancel_request(*target),
{
    tag("ExternalCancelRequested", glue("target=", show_target(target).as_str()).as_str())
}

/// What an external cancel that was taken out of history gives back.
pub open spec fn stashed_cancel_result(cancel: ExternalCancelView) -> HistoryMatchView {
    match cancel.terminal {
        Some(CancelTerminalView::Delivered) => HistoryMatchView::Matched {
            output: JsonView::Null,
        },
        Some(CancelTerminalView::Failed(reason_code)) => HistoryMatchView::ExternalCancelFailed {
            cancel_id: cancel.cancel_id,
            reason_code,
        },
        None => HistoryMatchView::ExternalCancelInProgress { cancel_id: cancel.cancel_id },
    }
}

/// What the recorded outcome of an external cancel gives back.
pub open spec fn cancel_result(e: WorkflowEvent) -> HistoryMatchView {
    match e {
        WorkflowEvent::ExternalCancelDelivered { .. } => HistoryMatchView::Matched {
            output: JsonView::Null,
        },
        WorkflowEvent::ExternalCancelFailed { cancel_id, reason_code } =>
            HistoryMatchView::ExternalCancelFailed { cancel_id, reason_code: reason_code@ },
        _ => HistoryMatchView::NoMatch,
    }
}

impl Replay {
    /// What is found of the external cancel `id` from the cursor on.
    pub open spec fn external_cancel_from_here(
        self,
        id: ExternalCancelId,
    ) -> (Replay, HistoryMatchView) {
        let scan = ScanView::ExternalCancel(id);
        let stop = self.scan_stop(scan, self.cursor, self.len());
        let command = self.scan_command(scan, self.cursor, self.len());
        let scanned = self.scanned(scan, self.cursor, self.len());
        if self.scan_hits(scan, self.cursor, self.len()) {
            (scanned.settled_outcome(stop, command), cancel_result(self.events[stop]))
        } else {
            (
                scanned.rewound(command),
                HistoryMatchView::ExternalCancelInProgress { cancel_id: id },
            )
        }
    }

    /// What matching a cancel of another workflow yields. The first such cancel
    /// that was taken out of history is claimed. Without one, where no command is
    /// left in history it is new, unless a request for another cancel is still
    /// ahead, which is then shown with its position; elsewhere it is looked for
    /// at the cursor.
    pub open spec fn external_cancel(self, target: ExternalTarget) -> (Replay, HistoryMatchView) {
        let s = self.prepared();
        let k = cancel_to(s.external_cancels, target);
        if k < s.external_cancels.len() {
            (
                Replay { external_cancels: s.external_cancels.remove(k), ..s },
                stashed_cancel_result(s.external_cancels[k]),
            )
        } else if !s.replaying() {
            let ahead = self.request_ahead(RequestKind::Cancel);
            if ahead < self.len() {
                (
                    s,
                    diverged_at(cancel_request(target), request_label(self.events[ahead]), ahead),
                )
            } else {
                (s, HistoryMatchView::NoMatch)
            }
        } else {
            match s.events[s.cursor] {
                WorkflowEvent::ExternalCancelRequested { cancel_id, target: recorded_target } =>
                    if recorded_target != target {
                        (
                            s,
                            diverged_at(
                                cancel_request(target),
                                cancel_request(recorded_target),
                                s.cursor,
                            ),
                        )
                    } else {
                        s.at(s.cursor + 1).external_cancel_from_here(cancel_id)
                    },
                other => (s, diverged_at(cancel_request(target), event_label(other), s.cursor)),
            }
        }
    }
}

impl HistoryMatcher {
    /// Matches a cancel of another workflow against history, as
    /// [`HistoryMatcher::match_external_signal`] does a signal, by its target
    /// alone.
    pub fn match_external_cancel(&mut self, target: &ExternalTarget) -> (r: HistoryMatch)
        requires
            old(self).wf(),
        ensures
            final(self).wf(),
            old(self)@.evolves_to(final(self)@),
            (final(self)@, r@) == old(self)@.external_cancel(*target),
    {
        let ghost start = self@;
        proof {
            lemma_prepared(start);
        }
        let ahead = self.find_request_ahead(RequestKind::Cancel);
        let has_history = self.prepare_match();
        let ghost s = self@;
        if let Some(stashed) = take_cancel(&mut self.pending_external_cancels, target) {
            proof {
                lemma_side_fields(s, self@);
                lemma_evolves_transitive(start, s, self@);
            }
            return match stashed.terminal {
                Some(StashedCancelTerminal::Delivered) => HistoryMatch::Matched {
                    output: json_null(),
                },
                Some(StashedCancelTerminal::Failed(reason_code)) =>
                    HistoryMatch::ExternalCancelFailed { cancel_id: stashed.cancel_id, reason_code },
                None => HistoryMatch::ExternalCancelInProgress { cancel_id: stashed.cancel_id },
            };
        }
        let here = self.cursor;
        if !has_history {
            if ahead < self.events.len() {
                return diverged(
                    show_cancel_request(target),
                    show_request(&self.events[ahead]),
                    ahead,
                );
            }
            return HistoryMatch::NoMatch;
        }
        let cancel_id = match &self.events[here] {
            WorkflowEvent::ExternalCancelRequested { cancel_id, target: recorded_target } => {
                if *recorded_target != *target {
                    return diverged(
                        show_cancel_request(target),
                        show_cancel_request(recorded_target),
                        here,
                    );
                }
                *cancel_id
            },
            other => {
                return diverged(show_cancel_request(target), actual_event_name(other), here);
            },
        };
        self.step_over();
        let ghost moved = self@;
        let ghost scan = ScanView::ExternalCancel(cancel_id);
        proof {
            lemma_at(s, s.cursor + 1);
            lemma_evolves_transitive(start, s, moved);
            lemma_scan_end(moved, scan, moved.cursor, moved.len());
            lemma_scan_stop(moved, scan, moved.cursor, moved.len());
        }
        let from = self.cursor;
        let end = self.events.len();
        let found = self.scan(&Scan::ExternalCancel(cancel_id), from, end);
        if !found.hit {
            self.rewind_to(found.command);
            proof {
                lemma_evolves_transitive(start, moved, self@);
            }
            return HistoryMatch::ExternalCancelInProgress { cancel_id };
        }
        let result = match &self.events[found.stop] {
            WorkflowEvent::ExternalCancelDelivered { .. } => HistoryMatch::Matched {
                output: json_null(),
            },
            WorkflowEvent::ExternalCancelFailed { cancel_id, reason_code } =>
                HistoryMatch::ExternalCancelFailed {
                    cancel_id: *cancel_id,
                    reason_code: reason_code.clone(),
                },
            _ => HistoryMatch::NoMatch,
        };
        self.settle_terminal(found.stop, found.command);
        proof {
            lemma_evolves_transitive(start, moved, self@);
        }
        result
    }
}

// ── Awaits of other workflows ───────────────────────────────────────────────
/// How a request to await another workflow is shown.
pub open spec fn await_request(target: ExecutionId) -> Seq<char> {
    tagged("ExternalAwaitRequested"@, "target="@ + execution_text(target))
}

/// Assembles [`await_request`].
fn show_await_request(target: ExecutionId) -> (r: String)
    ensures
        r@ == await_request(target),
{
    tag("ExternalAwaitRequested", glue("target=", id_text(target.0).as_str()).as_str())
}

/// What an external await that was taken out of history gives back.
pub open spec fn stashed_await_result(awaited: ExternalAwaitView) -> HistoryMatchView {
    match awaited.terminal {
        Some(AwaitTerminalView::Resolved(output)) => HistoryMatchView::Matched { output },
        Some(
            AwaitTerminalView::Failed { reason_code, message, error_type, details, non_retryable },
        ) => HistoryMatchView::ExternalAwaitFailed {
            await_id: awaited.await_id,
            reason_code,
            message,
            error_type,
            details,
            non_retryable,
        },
        None => HistoryMatchView::ExternalAwaitInProgress { await_id: awaited.await_id },
    }
}

/// What the recorded outcome of an external await gives back.
pub open spec fn await_result(e: WorkflowEvent) -> HistoryMatchView {
    match e {
        WorkflowEvent::ExternalAwaitResolved { output, .. } => HistoryMatchView::Matched {
            output: json_view(output),
        },
        WorkflowEvent::ExternalAwaitFailed {
            await_id,
            reason_code,
            message,
            error_type,
            details,
            non_retryable,
        } => HistoryMatchView::ExternalAwaitFailed {
            await_id,
            reason_code: reason_code@,
            message: opt_text(message),
            error_type: opt_text(error_type),
            details: opt_json(details),
            non_retryable,
        },
        _ => HistoryMatchView::NoMatch,
    }
}

impl Replay {
    /// What is found of the external await `id` from the cursor on.
    pub open spec fn external_await_from_here(
        self,
        id: ExternalAwaitId,
    ) -> (Replay, HistoryMatchView) {
        let scan = ScanView::ExternalAwait(id);
        let stop = self.scan_stop(scan, self.cursor, self.len());
        let command = self.scan_command(scan, self.cursor, self.len());
        let scanned = self.scanned(scan, self.cursor, self.len());
        if self.scan_hits(scan, self.cursor, self.len()) {
            (scanned.settled_outcome(stop, command), await_result(self.events[stop]))
        } else {
            (scanned.rewound(command), HistoryMatchView::ExternalAwaitInProgress { await_id: id })
        }
    }

    /// What matching an await of another workflow yields. The first such await
    /// that was taken out of history is claimed. Without one, where no command is
    /// left in history it is new, unless a request for another await is still
    /// ahead, which is then shown with its position; elsewhere it is looked for
    /// at the cursor.
    pub open spec fn external_await(self, target: ExecutionId) -> (Replay, HistoryMatchView) {
        let s = self.prepared();
        let k = await_of(s.external_awaits, target);
        if k < s.external_awaits.len() {
            (
                Replay { external_awaits: s.external_awaits.remove(k), ..s },
                stashed_await_result(s.external_awaits[k]),
            )
        } else if !s.replaying() {
            let ahead = self.request_ahead(RequestKind::Await);
            if ahead < self.len() {
                (
                    s,
                    diverged_at(await_request(target), request_label(self.events[ahead]), ahead),
                )
            } else {
                (s, HistoryMatchView::NoMatch)
            }
        } else {
            match s.events[s.cursor] {
                WorkflowEvent::ExternalAwaitRequested { await_id, target: recorded_target } =>
                    if recorded_target != target {
                        (
                            s,
                            diverged_at(
                                await_request(target),
                                await_request(recorded_target),
                                s.cursor,
                            ),
                        )
                    } else {
                        s.at(s.cursor + 1).external_await_from_here(await_id)
                    },
                other => (s, diverged_at(await_request(target), event_label(other), s.cursor)),
            }
        }
    }
}

impl HistoryMatcher {
    /// Matches an await of another workflow against history, as
    /// [`HistoryMatcher::match_external_cancel`] does a cancel; the outcome
    /// carries how the awaited workflow closed.
    pub fn match_external_await(&mut self, target: ExecutionId) -> (r: HistoryMatch)
        requires
            old(self).wf(),
        ensures
            final(self).wf(),
            old(self)@.evolves_to(final(self)@),
            (final(self)@, r@) == old(self)@.external_await(target),
    {
        let ghost start = self@;
        proof {
            lemma_prepared(start);
        }
        let ahead = self.find_request_ahead(RequestKind::Await);
        let has_history = self.prepare_match();
        let ghost s = self@;
        if let Some(stashed) = take_await(&mut self.pending_external_awaits, target) {
            proof {
                lemma_side_fields(s, self@);
                lemma_evolves_transitive(start, s, self@);
            }
            return match stashed.terminal {
                Some(StashedAwaitTerminal::Resolved(output)) => HistoryMatch::Matched { output },
                Some(
                    StashedAwaitTerminal::Failed {
                        reason_code,
                        message,
                        error_type,
                        details,
                        non_retryable,
                    },
                ) => HistoryMatch::ExternalAwaitFailed {
                    await_id: stashed.await_id,
                    reason_code,
                    message,
                    error_type,
                    details,
                    non_retryable,
                },
                None => HistoryMatch::ExternalAwaitInProgress { await_id: stashed.await_id },
            };
        }
        let here = self.cursor;
        if !has_history {
            if ahead < self.events.len() {
                return diverged(
                    show_await_request(target),
                    show_request(&self.events[ahead]),
                    ahead,
                );
            }
            return HistoryMatch::NoMatch;
        }
        let await_id = match &self.events[here] {
            WorkflowEvent::ExternalAwaitRequested { await_id, target: recorded_target } => {
                if *recorded_target != target {
                    return diverged(
                        show_await_request(target),
                        show_await_request(*recorded_target),
                        here,
                    );
                }
                *await_id
            },
            other => {
                return diverged(show_await_request(target), actual_event_name(other), here);
            },
        };
        self.step_over();
        let ghost moved = self@;
        let ghost scan = ScanView::ExternalAwait(await_id);
        proof {
            lemma_at(s, s.cursor + 1);
            lemma_evolves_transitive(start, s, moved);
            lemma_scan_end(moved, scan, moved.cursor, moved.len());
            lemma_scan_stop(moved, scan, moved.cursor, moved.len());
        }
        let from = self.cursor;
        let end = self.events.len();
        let found = self.scan(&Scan::ExternalAwait(await_id), from, end);
        if !found.hit {
            self.rewind_to(found.command);
            proof {
                lemma_evolves_transitive(start, moved, self@);
            }
            return HistoryMatch::ExternalAwaitInProgress { await_id };
        }
        let result = match &self.events[found.stop] {
            WorkflowEvent::ExternalAwaitResolved { output, .. } => HistoryMatch::Matched {
                output: output.clone(),
            },
            WorkflowEvent::ExternalAwaitFailed {
                await_id,
                reason_code,
                message,
                error_type,
                details,
                non_retryable,
            } => HistoryMatch::ExternalAwaitFailed {
                await_id: *await_id,
                reason_code: reason_code.clone(),
                message: clone_text(message),
                error_type: clone_text(error_type),
                details: details.clone(),
                non_retryable: *non_retryable,
            },
            _ => HistoryMatch::NoMatch,
        };
        self.settle_terminal(found.stop, found.command);
        proof {
            lemma_evolves_transitive(start, moved, self@);
        }
        result
    }
}

} // verus!
