//! What signals, cancels and awaits of other workflows give back, told by what is
//! recorded of them.
use crate::activity_laws::{lemma_search_ends, lemma_search_returns};
use crate::event::WorkflowEvent;
use crate::external::{is_request, RequestKind};
use crate::ids::{execution_text, target_text};
use crate::json::{json_view, opt_json, JsonView};
use crate::moves::{
    lemma_drained, lemma_moved_to, lemma_next_open, lemma_prepared, lemma_resolved, lemma_scan_stop,
    lemma_stashed_frame,
};
use crate::outcome::HistoryMatchView;
use crate::place_laws::lemma_only_answers;
use crate::record_laws::points_at;
use crate::replay::Replay;
use crate::scan::ScanView;
use crate::search::{lemma_first_index, lemma_first_index_is};
use crate::stash::{
    await_of, await_position, cancel_position, cancel_to, signal_position, signal_to,
    AwaitTerminalView, CancelTerminalView, ExternalAwaitView, ExternalCancelView,
    ExternalSignalView, SignalTerminalView,
};
use crate::types::{
    opt_text, ExecutionId, ExternalAwaitId, ExternalCancelId, ExternalSignalId, ExternalTarget,
};
use crate::vocabulary::{belongs_to_update, issues_command, reports_progress, waits_for_claim};
use vstd::prelude::*;

verus! {

// ── Signals to other workflows ──────────────────────────────────────────────
/// Whether the signal was requested.
pub open spec fn signal_is_requested(e: WorkflowEvent, id: ExternalSignalId) -> bool {
    e matches WorkflowEvent::ExternalSignalRequested { signal_id, .. } && signal_id == id
}

/// Whether a signal like that was requested, under whichever id.
pub open spec fn asks_for_signal(
    e: WorkflowEvent,
    target: ExternalTarget,
    name: Seq<char>,
) -> bool {
    e matches WorkflowEvent::ExternalSignalRequested { target: to, signal_name, .. }
        && to == target && signal_name@ == name
}

/// Whether what waits is a signal like that.
pub open spec fn is_such_signal(
    w: ExternalSignalView,
    target: ExternalTarget,
    name: Seq<char>,
) -> bool {
    w.target == target && w.signal_name == name
}

/// Whether the outcome of the signal is recorded.
pub open spec fn signal_is_answered(e: WorkflowEvent, id: ExternalSignalId) -> bool {
    match e {
        WorkflowEvent::ExternalSignalDelivered { signal_id, .. } => signal_id == id,
        WorkflowEvent::ExternalSignalFailed { signal_id, .. } => signal_id == id,
        _ => false,
    }
}

/// The outcome that `e` records.
spec fn signal_answer(e: WorkflowEvent) -> Option<SignalTerminalView> {
    match e {
        WorkflowEvent::ExternalSignalDelivered { .. } => Some(SignalTerminalView::Delivered),
        WorkflowEvent::ExternalSignalFailed { reason_code, .. } => Some(
            SignalTerminalView::Failed(reason_code@),
        ),
        _ => None,
    }
}

/// The list holds the entry, as the first like it and the only one of its id.
spec fn signal_tracked(list: Seq<ExternalSignalView>, entry: ExternalSignalView) -> bool {
    exists|k: int| #[trigger] signal_stands_at(list, entry, k)
}

/// Whether the entry stands at `k`, as the first like it and the only one of its id.
spec fn signal_stands_at(list: Seq<ExternalSignalView>, entry: ExternalSignalView, k: int) -> bool {
    &&& 0 <= k < list.len()
    &&& list[k] == entry
    &&& forall|j: int| 0 <= j < k ==> !is_such_signal(
        #[trigger] list[j],
        entry.target,
        entry.signal_name,
    )
    &&& forall|j: int|
        0 <= j < list.len() && j != k ==> (#[trigger] list[j]).signal_id != entry.signal_id
}

/// The list holds neither one like it nor one of its id.
spec fn signal_untracked(list: Seq<ExternalSignalView>, entry: ExternalSignalView) -> bool {
    forall|j: int|
        0 <= j < list.len()
            ==> (#[trigger] list[j]).signal_id != entry.signal_id && !is_such_signal(
            list[j],
            entry.target,
            entry.signal_name,
        )
}

/// What is taken out next leaves the entry out, unless it is its request or one
/// like it.
proof fn lemma_signal_stays_untracked(w: Replay, i: int, entry: ExternalSignalView)
    requires
        signal_untracked(w.external_signals, entry),
        !signal_is_requested(w.events[i], entry.signal_id),
        !asks_for_signal(w.events[i], entry.target, entry.signal_name),
    ensures
        signal_untracked(w.absorbed(i).external_signals, entry),
{
    let list = w.external_signals;
    match w.events[i] {
        WorkflowEvent::ExternalSignalDelivered { signal_id, .. } => lemma_first_index(
            |k: int| list[k].signal_id == signal_id,
            0,
            list.len() as int,
        ),
        WorkflowEvent::ExternalSignalFailed { signal_id, .. } => lemma_first_index(
            |k: int| list[k].signal_id == signal_id,
            0,
            list.len() as int,
        ),
        _ => {},
    }
}

/// What is taken out next leaves the entry in its place; its own outcome is noted.
proof fn lemma_signal_stays_tracked(w: Replay, i: int, entry: ExternalSignalView)
    requires
        signal_tracked(w.external_signals, entry),
        !signal_is_requested(w.events[i], entry.signal_id),
    ensures
        signal_tracked(
            w.absorbed(i).external_signals,
            if signal_is_answered(w.events[i], entry.signal_id) {
                ExternalSignalView { terminal: signal_answer(w.events[i]), ..entry }
            } else {
                entry
            },
        ),
{
    let list = w.external_signals;
    let after = w.absorbed(i).external_signals;
    let at = choose|k: int| #[trigger] signal_stands_at(list, entry, k);
    lemma_first_index_is(|k: int| list[k].signal_id == entry.signal_id, 0, list.len() as int, at);
    match w.events[i] {
        WorkflowEvent::ExternalSignalDelivered { signal_id, .. } => {
            if signal_id != entry.signal_id {
                lemma_first_index(|k: int| list[k].signal_id == signal_id, 0, list.len() as int);
                assert(signal_stands_at(after, entry, at));
            } else {
                assert(signal_position(list, signal_id) == at);
                assert(signal_stands_at(
                    after,
                    ExternalSignalView { terminal: signal_answer(w.events[i]), ..entry },
                    at,
                ));
            }
        },
        WorkflowEvent::ExternalSignalFailed { signal_id, .. } => {
            if signal_id != entry.signal_id {
                lemma_first_index(|k: int| list[k].signal_id == signal_id, 0, list.len() as int);
                assert(signal_stands_at(after, entry, at));
            } else {
                assert(signal_position(list, signal_id) == at);
                assert(signal_stands_at(
                    after,
                    ExternalSignalView { terminal: signal_answer(w.events[i]), ..entry },
                    at,
                ));
            }
        },
        _ => {
            assert(signal_stands_at(after, entry, at));
        },
    }
}

/// What is queued of the request at `i`, with the outcome at `t` noted where it
/// stands before `n`.
spec fn signal_entry(s: Replay, i: int, t: int, n: int) -> ExternalSignalView {
    let terminal = if t < n {
        signal_answer(s.events[t])
    } else {
        None
    };
    match s.events[i] {
        WorkflowEvent::ExternalSignalRequested {
            signal_id,
            target,
            signal_name,
            payload,
            idempotency_key,
        } => ExternalSignalView {
            signal_id,
            target,
            signal_name: signal_name@,
            payload: json_view(payload),
            idempotency_key: opt_text(idempotency_key),
            terminal,
        },
        _ => s.external_signals[0],
    }
}

/// The request at `i` is the only one of its id that is taken out in front of the
/// next command, and the first like it; its outcome stands at `t`, and nowhere
/// else behind the request.
pub open spec fn signal_stands_out(
    s: Replay,
    id: ExternalSignalId,
    target: ExternalTarget,
    name: Seq<char>,
    i: int,
    t: int,
) -> bool {
    &&& s.cursor <= i < s.prepared().cursor
    &&& s.open_at(i)
    &&& signal_is_requested(s.events[i], id)
    &&& asks_for_signal(s.events[i], target, name)
    &&& i < t <= s.len()
    &&& t < s.len() ==> s.open_at(t) && signal_is_answered(s.events[t], id)
    &&& forall|j: int|
        s.cursor <= j < s.prepared().cursor && j != i && s.open_at(j) ==> !signal_is_requested(
            #[trigger] s.events[j],
            id,
        )
    &&& forall|j: int|
        s.cursor <= j < i && s.open_at(j) ==> !asks_for_signal(#[trigger] s.events[j], target, name)
    &&& forall|j: int|
        i < j < s.len() && j != t && s.open_at(j) ==> !signal_is_answered(
            #[trigger] s.events[j],
            id,
        )
    &&& forall|k: int|
        0 <= k < s.external_signals.len()
            ==> (#[trigger] s.external_signals[k]).signal_id != id && !is_such_signal(
            s.external_signals[k],
            target,
            name,
        )
}

/// The request is queued once the events up to `n` are taken out.
proof fn lemma_signal_is_queued(
    s: Replay,
    id: ExternalSignalId,
    target: ExternalTarget,
    name: Seq<char>,
    i: int,
    t: int,
    n: int,
)
    requires
        s.wf(),
        signal_stands_out(s, id, target, name, i, t),
        s.advanced().cursor <= n <= s.prepared().cursor,
    ensures
        n <= i ==> signal_untracked(
            s.advanced().stashed(ScanView::Drain, s.advanced().cursor, n).external_signals,
            signal_entry(s, i, t, n),
        ),
        n > i ==> signal_tracked(
            s.advanced().stashed(ScanView::Drain, s.advanced().cursor, n).external_signals,
            signal_entry(s, i, t, n),
        ),
    decreases n,
{
    let a = s.advanced();
    let d = a.drained();
    lemma_moved_to(s, s.cursor);
    lemma_next_open(s, s.cursor);
    lemma_scan_stop(a, ScanView::Drain, a.cursor, a.len());
    lemma_drained(a);
    lemma_resolved(d, d.cursor, d.len());
    assert(a.consumed(i) == s.consumed(i));
    if i < a.cursor {
        assert(s.consumed(i));
    }
    if a.cursor < n {
        let b = a.stashed(ScanView::Drain, a.cursor, n - 1);
        lemma_signal_is_queued(s, id, target, name, i, t, n - 1);
        lemma_stashed_frame(a, ScanView::Drain, a.cursor, n - 1);
        assert(!(a.step_at(ScanView::Drain, n - 1) is Halt));
        assert(a.consumed(n - 1) == s.consumed(n - 1));
        assert(b.events[n - 1] == s.events[n - 1]);
        if !s.consumed(n - 1) {
            assert(s.open_at(n - 1));
            assert(a.step_at(ScanView::Drain, n - 1) is Stash);
            if n - 1 < i {
                lemma_signal_stays_untracked(b, n - 1, signal_entry(s, i, t, n));
            } else if n - 1 == i {
                let list = b.absorbed(i).external_signals;
                assert(signal_stands_at(list, signal_entry(s, i, t, n), list.len() - 1));
            } else {
                lemma_signal_stays_tracked(b, n - 1, signal_entry(s, i, t, n - 1));
            }
        } else {
            assert(n - 1 != i && n - 1 != t);
        }
    }
}

/// The outcome is noted once the events up to `n` are looked at.
proof fn lemma_signal_keeps_its_answer(
    s: Replay,
    id: ExternalSignalId,
    target: ExternalTarget,
    name: Seq<char>,
    i: int,
    t: int,
    n: int,
)
    requires
        s.wf(),
        signal_stands_out(s, id, target, name, i, t),
        s.prepared().cursor <= n <= s.len(),
    ensures
        signal_tracked(
            s.advanced().drained().resolved(s.prepared().cursor, n).external_signals,
            signal_entry(s, i, t, n),
        ),
    decreases n,
{
    let a = s.advanced();
    let d = a.drained();
    lemma_moved_to(s, s.cursor);
    lemma_next_open(s, s.cursor);
    lemma_scan_stop(a, ScanView::Drain, a.cursor, a.len());
    lemma_drained(a);
    lemma_resolved(d, d.cursor, d.len());
    lemma_stashed_frame(a, ScanView::Drain, a.cursor, d.cursor);
    if n <= d.cursor {
        lemma_signal_is_queued(s, id, target, name, i, t, n);
    } else {
        let b = d.resolved(d.cursor, n - 1);
        let entry = signal_entry(s, i, t, n - 1);
        lemma_signal_keeps_its_answer(s, id, target, name, i, t, n - 1);
        lemma_only_answers(d, d.cursor, n - 1);
        assert(b.consumed(n - 1) == d.consumed(n - 1));
        assert(d.consumed(n - 1) == a.stashed(ScanView::Drain, a.cursor, d.cursor).consumed(n - 1));
        assert(a.consumed(n - 1) == s.consumed(n - 1));
        assert(b.events[n - 1] == s.events[n - 1]);
        if !s.consumed(n - 1) {
            assert(s.open_at(n - 1));
            if b.awaits_outcome(s.events[n - 1]) {
                lemma_signal_stays_tracked(b, n - 1, entry);
            } else if signal_is_answered(s.events[n - 1], id) {
                let at = choose|k: int| #[trigger] signal_stands_at(b.external_signals, entry, k);
                let list = b.external_signals;
                lemma_first_index_is(|k: int| list[k].signal_id == id, 0, list.len() as int, at);
                assert(signal_position(list, id) == at);
            }
        } else {
            assert(n - 1 != t);
        }
    }
}

/// A signal to another workflow that was taken out in front of the next command is given back to
/// the first request like it, whatever the request's place: with its own outcome,
/// or as being in progress under its own id, with all that was recorded with it.
/// It is given back once.
pub proof fn law_signal_gets_its_own_outcome(
    s: Replay,
    id: ExternalSignalId,
    target: ExternalTarget,
    name: Seq<char>,
    i: int,
    t: int,
)
    requires
        s.wf(),
        signal_stands_out(s, id, target, name, i, t),
    ensures
        ({
            let p = s.prepared();
            let (after, r) = s.external_signal(target, name);
            &&& t < s.len() ==> {
                &&& s.events[t] is ExternalSignalDelivered ==> r == (HistoryMatchView::Matched {
                    output: JsonView::Null,
                })
                &&& s.events[t] matches WorkflowEvent::ExternalSignalFailed { reason_code, .. }
                    ==> r == (
                HistoryMatchView::ExternalSignalFailed { signal_id: id, reason_code: reason_code@ })
            }
            &&& !(t < s.len()) ==> (s.events[i]
                matches WorkflowEvent::ExternalSignalRequested { payload, idempotency_key, .. }
                && r == (HistoryMatchView::ExternalSignalInProgress {
                signal_id: id,
                payload: json_view(payload),
                idempotency_key: opt_text(idempotency_key),
            }))
            &&& after == (Replay { external_signals: after.external_signals, ..p })
            &&& after.external_signals.len() == p.external_signals.len() - 1
            &&& forall|k: int|
                0 <= k < after.external_signals.len()
                    ==> (#[trigger] after.external_signals[k]).signal_id != id
        }),
{
    let p = s.prepared();
    let list = p.external_signals;
    let a = s.advanced();
    let d = a.drained();
    lemma_moved_to(s, s.cursor);
    lemma_drained(a);
    lemma_resolved(d, d.cursor, d.len());
    lemma_signal_keeps_its_answer(s, id, target, name, i, t, s.len());
    let at = choose|k: int| #[trigger] signal_stands_at(list, signal_entry(s, i, t, s.len()), k);
    let like = |k: int| (list[k]).target == target && list[k].signal_name == name;
    lemma_first_index_is(like, 0, list.len() as int, at);
    assert(signal_to(list, target, name) == at);
}

/// A signal to another workflow that waits is given back to the first request like it: with the
/// outcome that was noted, or as being in progress. One like it further back
/// waits on.
pub proof fn law_waiting_signal_is_given_back_in_order(
    s: Replay,
    target: ExternalTarget,
    name: Seq<char>,
    k: int,
)
    requires
        s.wf(),
        0 <= k < s.prepared().external_signals.len(),
        is_such_signal(s.prepared().external_signals[k], target, name),
        forall|j: int|
            0 <= j < k ==> !is_such_signal(
                #[trigger] s.prepared().external_signals[j],
                target,
                name,
            ),
    ensures
        ({
            let p = s.prepared();
            let w = p.external_signals[k];
            let (after, r) = s.external_signal(target, name);
            &&& w.terminal is None ==> r == (HistoryMatchView::ExternalSignalInProgress {
                signal_id: w.signal_id,
                payload: w.payload,
                idempotency_key: w.idempotency_key,
            })
            &&& w.terminal matches Some(SignalTerminalView::Delivered) ==> r == (
            HistoryMatchView::Matched { output: JsonView::Null })
            &&& w.terminal matches Some(SignalTerminalView::Failed(reason_code)) ==> r == (
            HistoryMatchView::ExternalSignalFailed { signal_id: w.signal_id, reason_code })
            &&& after == (Replay { external_signals: p.external_signals.remove(k), ..p })
        }),
{
    let list = s.prepared().external_signals;
    lemma_first_index_is(
        |j: int| (list[j]).target == target && list[j].signal_name == name,
        0,
        list.len() as int,
        k,
    );
    assert(signal_to(list, target, name) == k);
}

/// A signal of a name to a workflow, with none like it
/// waiting, is new where no command is left, unless one was recorded from the
/// cursor on: the first of those is then shown, with its place. Where a command is
/// left, that is shown. Nothing else changes.
pub proof fn law_other_signal_is_no_match(
    s: Replay,
    target: ExternalTarget,
    name: Seq<char>,
    h: int,
)
    requires
        s.wf(),
        forall|j: int|
            0 <= j < s.prepared().external_signals.len() ==> !is_such_signal(
                #[trigger] s.prepared().external_signals[j],
                target,
                name,
            ),
        s.cursor <= h <= s.len(),
        h < s.len() ==> s.open_at(h) && s.events[h] is ExternalSignalRequested,
        forall|j: int|
            s.cursor <= j < h && s.open_at(j)
                ==> !(#[trigger] s.events[j] is ExternalSignalRequested),
    ensures
        ({
            let p = s.prepared();
            let (after, r) = s.external_signal(target, name);
            &&& after == p
            &&& p.cursor < s.len() ==> points_at(r, p.cursor)
            &&& p.cursor == s.len() && h == s.len() ==> r is NoMatch
            &&& p.cursor == s.len() && h < s.len() ==> points_at(r, h)
            &&& r matches HistoryMatchView::Diverged { expected, actual, .. } ==> {
                &&& expected == "ExternalSignalRequested"@ + "("@ + ("target="@
                    + target_text(target) + ", signal="@ + name) + ")"@
                &&& p.cursor == s.len() ==> (s.events[h]
                    matches WorkflowEvent::ExternalSignalRequested {
                    target: other,
                    signal_name,
                    ..
                }
                    && actual == "ExternalSignalRequested"@ + "("@ + ("target="@
                        + target_text(other)
                    + ", signal="@ + signal_name@) + ")"@)
            }
        }),
{
    let p = s.prepared();
    let list = p.external_signals;
    lemma_prepared(s);
    lemma_first_index_is(
        |j: int| (list[j]).target == target && list[j].signal_name == name,
        0,
        list.len() as int,
        list.len() as int,
    );
    assert(signal_to(list, target, name) == list.len());
    let ahead = |j: int| !s.consumed(j) && is_request(s.events[j], RequestKind::Signal);
    assert forall|j: int| s.cursor <= j < h implies !#[trigger] ahead(j) by {
        if !s.consumed(j) {
            assert(s.open_at(j));
            assert(!(s.events[j] is ExternalSignalRequested));
        }
    }
    lemma_first_index_is(ahead, s.cursor, s.len(), h);
    assert(s.request_ahead(RequestKind::Signal) == h);
}

// ── Cancels of other workflows ──────────────────────────────────────────────
/// Whether the cancel was requested.
pub open spec fn cancel_is_requested(e: WorkflowEvent, id: ExternalCancelId) -> bool {
    e matches WorkflowEvent::ExternalCancelRequested { cancel_id, .. } && cancel_id == id
}

/// Whether a cancel like that was requested, under whichever id.
pub open spec fn asks_for_cancel(e: WorkflowEvent, target: ExternalTarget) -> bool {
    e matches WorkflowEvent::ExternalCancelRequested { target: to, .. } && to == target
}

/// Whether what waits is a cancel like that.
pub open spec fn is_such_cancel(w: ExternalCancelView, target: ExternalTarget) -> bool {
    w.target == target
}

/// Whether the outcome of the cancel is recorded.
pub open spec fn cancel_is_answered(e: WorkflowEvent, id: ExternalCancelId) -> bool {
    match e {
        WorkflowEvent::ExternalCancelDelivered { cancel_id, .. } => cancel_id == id,
        WorkflowEvent::ExternalCancelFailed { cancel_id, .. } => cancel_id == id,
        _ => false,
    }
}

/// The outcome that `e` records.
spec fn cancel_answer(e: WorkflowEvent) -> Option<CancelTerminalView> {
    match e {
        WorkflowEvent::ExternalCancelDelivered { .. } => Some(CancelTerminalView::Delivered),
        WorkflowEvent::ExternalCancelFailed { reason_code, .. } => Some(
            CancelTerminalView::Failed(reason_code@),
        ),
        _ => None,
    }
}

/// The list holds the entry, as the first like it and the only one of its id.
spec fn cancel_tracked(list: Seq<ExternalCancelView>, entry: ExternalCancelView) -> bool {
    exists|k: int| #[trigger] cancel_stands_at(list, entry, k)
}

/// Whether the entry stands at `k`, as the first like it and the only one of its id.
spec fn cancel_stands_at(list: Seq<ExternalCancelView>, entry: ExternalCancelView, k: int) -> bool {
    &&& 0 <= k < list.len()
    &&& list[k] == entry
    &&& forall|j: int| 0 <= j < k ==> !is_such_cancel(
        #[trigger] list[j],
        entry.target,
    )
    &&& forall|j: int|
        0 <= j < list.len() && j != k ==> (#[trigger] list[j]).cancel_id != entry.cancel_id
}

/// The list holds neither one like it nor one of its id.
spec fn cancel_untracked(list: Seq<ExternalCancelView>, entry: ExternalCancelView) -> bool {
    forall|j: int|
        0 <= j < list.len()
            ==> (#[trigger] list[j]).cancel_id != entry.cancel_id && !is_such_cancel(
            list[j],
            entry.target,
        )
}

/// What is taken out next leaves the entry out, unless it is its request or one
/// like it.
proof fn lemma_cancel_stays_untracked(w: Replay, i: int, entry: ExternalCancelView)
    requires
        cancel_untracked(w.external_cancels, entry),
        !cancel_is_requested(w.events[i], entry.cancel_id),
        !asks_for_cancel(w.events[i], entry.target),
    ensures
        cancel_untracked(w.absorbed(i).external_cancels, entry),
{
    let list = w.external_cancels;
    match w.events[i] {
        WorkflowEvent::ExternalCancelDelivered { cancel_id, .. } => lemma_first_index(
            |k: int| list[k].cancel_id == cancel_id,
            0,
            list.len() as int,
        ),
        WorkflowEvent::ExternalCancelFailed { cancel_id, .. } => lemma_first_index(
            |k: int| list[k].cancel_id == cancel_id,
            0,
            list.len() as int,
        ),
        _ => {},
    }
}

/// What is taken out next leaves the entry in its place; its own outcome is noted.
proof fn lemma_cancel_stays_tracked(w: Replay, i: int, entry: ExternalCancelView)
    requires
        cancel_tracked(w.external_cancels, entry),
        !cancel_is_requested(w.events[i], entry.cancel_id),
    ensures
        cancel_tracked(
            w.absorbed(i).external_cancels,
            if cancel_is_answered(w.events[i], entry.cancel_id) {
                ExternalCancelView { terminal: cancel_answer(w.events[i]), ..entry }
            } else {
                entry
            },
        ),
{
    let list = w.external_cancels;
    let after = w.absorbed(i).external_cancels;
    let at = choose|k: int| #[trigger] cancel_stands_at(list, entry, k);
    lemma_first_index_is(|k: int| list[k].cancel_id == entry.cancel_id, 0, list.len() as int, at);
    match w.events[i] {
        WorkflowEvent::ExternalCancelDelivered { cancel_id, .. } => {
            if cancel_id != entry.cancel_id {
                lemma_first_index(|k: int| list[k].cancel_id == cancel_id, 0, list.len() as int);
                assert(cancel_stands_at(after, entry, at));
            } else {
                assert(cancel_position(list, cancel_id) == at);
                assert(cancel_stands_at(
                    after,
                    ExternalCancelView { terminal: cancel_answer(w.events[i]), ..entry },
                    at,
                ));
            }
        },
        WorkflowEvent::ExternalCancelFailed { cancel_id, .. } => {
            if cancel_id != entry.cancel_id {
                lemma_first_index(|k: int| list[k].cancel_id == cancel_id, 0, list.len() as int);
                assert(cancel_stands_at(after, entry, at));
            } else {
                assert(cancel_position(list, cancel_id) == at);
                assert(cancel_stands_at(
                    after,
                    ExternalCancelView { terminal: cancel_answer(w.events[i]), ..entry },
                    at,
                ));
            }
        },
        _ => {
            assert(cancel_stands_at(after, entry, at));
        },
    }
}

/// What is queued of the request at `i`, with the outcome at `t` noted where it
/// stands before `n`.
spec fn cancel_entry(s: Replay, i: int, t: int, n: int) -> ExternalCancelView {
    let terminal = if t < n {
        cancel_answer(s.events[t])
    } else {
        None
    };
    match s.events[i] {
        WorkflowEvent::ExternalCancelRequested { cancel_id, target } => ExternalCancelView {
            cancel_id,
            target,
            terminal,
        },
        _ => s.external_cancels[0],
    }
}

/// The request at `i` is the only one of its id that is taken out in front of the
/// next command, and the first like it; its outcome stands at `t`, and nowhere
/// else behind the request.
pub open spec fn cancel_stands_out(
    s: Replay,
    id: ExternalCancelId,
    target: ExternalTarget,
    i: int,
    t: int,
) -> bool {
    &&& s.cursor <= i < s.prepared().cursor
    &&& s.open_at(i)
    &&& cancel_is_requested(s.events[i], id)
    &&& asks_for_cancel(s.events[i], target)
    &&& i < t <= s.len()
    &&& t < s.len() ==> s.open_at(t) && cancel_is_answered(s.events[t], id)
    &&& forall|j: int|
        s.cursor <= j < s.prepared().cursor && j != i && s.open_at(j) ==> !cancel_is_requested(
            #[trigger] s.events[j],
            id,
        )
    &&& forall|j: int|
        s.cursor <= j < i && s.open_at(j) ==> !asks_for_cancel(#[trigger] s.events[j], target)
    &&& forall|j: int|
        i < j < s.len() && j != t && s.open_at(j) ==> !cancel_is_answered(
            #[trigger] s.events[j],
            id,
        )
    &&& forall|k: int|
        0 <= k < s.external_cancels.len()
            ==> (#[trigger] s.external_cancels[k]).cancel_id != id && !is_such_cancel(
            s.external_cancels[k],
            target,
        )
}

/// The request is queued once the events up to `n` are taken out.
proof fn lemma_cancel_is_queued(
    s: Replay,
    id: ExternalCancelId,
    target: ExternalTarget,
    i: int,
    t: int,
    n: int,
)
    requires
        s.wf(),
        cancel_stands_out(s, id, target, i, t),
        s.advanced().cursor <= n <= s.prepared().cursor,
    ensures
        n <= i ==> cancel_untracked(
            s.advanced().stashed(ScanView::Drain, s.advanced().cursor, n).external_cancels,
            cancel_entry(s, i, t, n),
        ),
        n > i ==> cancel_tracked(
            s.advanced().stashed(ScanView::Drain, s.advanced().cursor, n).external_cancels,
            cancel_entry(s, i, t, n),
        ),
    decreases n,
{
    let a = s.advanced();
    let d = a.drained();
    lemma_moved_to(s, s.cursor);
    lemma_next_open(s, s.cursor);
    lemma_scan_stop(a, ScanView::Drain, a.cursor, a.len());
    lemma_drained(a);
    lemma_resolved(d, d.cursor, d.len());
    assert(a.consumed(i) == s.consumed(i));
    if i < a.cursor {
        assert(s.consumed(i));
    }
    if a.cursor < n {
        let b = a.stashed(ScanView::Drain, a.cursor, n - 1);
        lemma_cancel_is_queued(s, id, target, i, t, n - 1);
        lemma_stashed_frame(a, ScanView::Drain, a.cursor, n - 1);
        assert(!(a.step_at(ScanView::Drain, n - 1) is Halt));
        assert(a.consumed(n - 1) == s.consumed(n - 1));
        assert(b.events[n - 1] == s.events[n - 1]);
        if !s.consumed(n - 1) {
            assert(s.open_at(n - 1));
            assert(a.step_at(ScanView::Drain, n - 1) is Stash);
            if n - 1 < i {
                lemma_cancel_stays_untracked(b, n - 1, cancel_entry(s, i, t, n));
            } else if n - 1 == i {
                let list = b.absorbed(i).external_cancels;
                assert(cancel_stands_at(list, cancel_entry(s, i, t, n), list.len() - 1));
            } else {
                lemma_cancel_stays_tracked(b, n - 1, cancel_entry(s, i, t, n - 1));
            }
        } else {
            assert(n - 1 != i && n - 1 != t);
        }
    }
}

/// The outcome is noted once the events up to `n` are looked at.
proof fn lemma_cancel_keeps_its_answer(
    s: Replay,
    id: ExternalCancelId,
    target: ExternalTarget,
    i: int,
    t: int,
    n: int,
)
    requires
        s.wf(),
        cancel_stands_out(s, id, target, i, t),
        s.prepared().cursor <= n <= s.len(),
    ensures
        cancel_tracked(
            s.advanced().drained().resolved(s.prepared().cursor, n).external_cancels,
            cancel_entry(s, i, t, n),
        ),
    decreases n,
{
    let a = s.advanced();
    let d = a.drained();
    lemma_moved_to(s, s.cursor);
    lemma_next_open(s, s.cursor);
    lemma_scan_stop(a, ScanView::Drain, a.cursor, a.len());
    lemma_drained(a);
    lemma_resolved(d, d.cursor, d.len());
    lemma_stashed_frame(a, ScanView::Drain, a.cursor, d.cursor);
    if n <= d.cursor {
        lemma_cancel_is_queued(s, id, target, i, t, n);
    } else {
        let b = d.resolved(d.cursor, n - 1);
        let entry = cancel_entry(s, i, t, n - 1);
        lemma_cancel_keeps_its_answer(s, id, target, i, t, n - 1);
        lemma_only_answers(d, d.cursor, n - 1);
        assert(b.consumed(n - 1) == d.consumed(n - 1));
        assert(d.consumed(n - 1) == a.stashed(ScanView::Drain, a.cursor, d.cursor).consumed(n - 1));
        assert(a.consumed(n - 1) == s.consumed(n - 1));
        assert(b.events[n - 1] == s.events[n - 1]);
        if !s.consumed(n - 1) {
            assert(s.open_at(n - 1));
            if b.awaits_outcome(s.events[n - 1]) {
                lemma_cancel_stays_tracked(b, n - 1, entry);
            } else if cancel_is_answered(s.events[n - 1], id) {
                let at = choose|k: int| #[trigger] cancel_stands_at(b.external_cancels, entry, k);
                let list = b.external_cancels;
                lemma_first_index_is(|k: int| list[k].cancel_id == id, 0, list.len() as int, at);
                assert(cancel_position(list, id) == at);
            }
        } else {
            assert(n - 1 != t);
        }
    }
}

/// A cancel of another workflow that was taken out in front of the next command is given back to
/// the first request like it, whatever the request's place: with its own outcome,
/// or as being in progress under its own id, with all that was recorded with it.
/// It is given back once.
pub proof fn law_cancel_gets_its_own_outcome(
    s: Replay,
    id: ExternalCancelId,
    target: ExternalTarget,
    i: int,
    t: int,
)
    requires
        s.wf(),
        cancel_stands_out(s, id, target, i, t),
    ensures
        ({
            let p = s.prepared();
            let (after, r) = s.external_cancel(target);
            &&& t < s.len() ==> {
                &&& s.events[t] is ExternalCancelDelivered ==> r == (HistoryMatchView::Matched {
                    output: JsonView::Null,
                })
                &&& s.events[t] matches WorkflowEvent::ExternalCancelFailed { reason_code, .. }
                    ==> r == (
                HistoryMatchView::ExternalCancelFailed { cancel_id: id, reason_code: reason_code@ })
            }
            &&& !(t < s.len())
                ==> r == (HistoryMatchView::ExternalCancelInProgress { cancel_id: id })
            &&& after == (Replay { external_cancels: after.external_cancels, ..p })
            &&& after.external_cancels.len() == p.external_cancels.len() - 1
            &&& forall|k: int|
                0 <= k < after.external_cancels.len()
                    ==> (#[trigger] after.external_cancels[k]).cancel_id != id
        }),
{
    let p = s.prepared();
    let list = p.external_cancels;
    let a = s.advanced();
    let d = a.drained();
    lemma_moved_to(s, s.cursor);
    lemma_drained(a);
    lemma_resolved(d, d.cursor, d.len());
    lemma_cancel_keeps_its_answer(s, id, target, i, t, s.len());
    let at = choose|k: int| #[trigger] cancel_stands_at(list, cancel_entry(s, i, t, s.len()), k);
    let like = |k: int| (list[k]).target == target;
    lemma_first_index_is(like, 0, list.len() as int, at);
    assert(cancel_to(list, target) == at);
}

/// A cancel of another workflow that waits is given back to the first request like it: with the
/// outcome that was noted, or as being in progress. One like it further back
/// waits on.
pub proof fn law_waiting_cancel_is_given_back_in_order(s: Replay, target: ExternalTarget, k: int)
    requires
        s.wf(),
        0 <= k < s.prepared().external_cancels.len(),
        is_such_cancel(s.prepared().external_cancels[k], target),
        forall|j: int|
            0 <= j < k ==> !is_such_cancel(
                #[trigger] s.prepared().external_cancels[j],
                target,
            ),
    ensures
        ({
            let p = s.prepared();
            let w = p.external_cancels[k];
            let (after, r) = s.external_cancel(target);
            &&& w.terminal is None
                ==> r == (HistoryMatchView::ExternalCancelInProgress { cancel_id: w.cancel_id })
            &&& w.terminal matches Some(CancelTerminalView::Delivered) ==> r == (
            HistoryMatchView::Matched { output: JsonView::Null })
            &&& w.terminal matches Some(CancelTerminalView::Failed(reason_code)) ==> r == (
            HistoryMatchView::ExternalCancelFailed { cancel_id: w.cancel_id, reason_code })
            &&& after == (Replay { external_cancels: p.external_cancels.remove(k), ..p })
        }),
{
    let list = s.prepared().external_cancels;
    lemma_first_index_is(
        |j: int| (list[j]).target == target,
        0,
        list.len() as int,
        k,
    );
    assert(cancel_to(list, target) == k);
}

/// A cancel of a workflow, with none like it
/// waiting, is new where no command is left, unless one was recorded from the
/// cursor on: the first of those is then shown, with its place. Where a command is
/// left, that is shown. Nothing else changes.
pub proof fn law_other_cancel_is_no_match(s: Replay, target: ExternalTarget, h: int)
    requires
        s.wf(),
        forall|j: int|
            0 <= j < s.prepared().external_cancels.len() ==> !is_such_cancel(
                #[trigger] s.prepared().external_cancels[j],
                target,
            ),
        s.cursor <= h <= s.len(),
        h < s.len() ==> s.open_at(h) && s.events[h] is ExternalCancelRequested,
        forall|j: int|
            s.cursor <= j < h && s.open_at(j)
                ==> !(#[trigger] s.events[j] is ExternalCancelRequested),
    ensures
        ({
            let p = s.prepared();
            let (after, r) = s.external_cancel(target);
            &&& after == p
            &&& p.cursor < s.len() ==> points_at(r, p.cursor)
            &&& p.cursor == s.len() && h == s.len() ==> r is NoMatch
            &&& p.cursor == s.len() && h < s.len() ==> points_at(r, h)
            &&& r matches HistoryMatchView::Diverged { expected, actual, .. } ==> {
                &&& expected == "ExternalCancelRequested"@ + "("@ + ("target="@
                    + target_text(target)) + ")"@
                &&& p.cursor == s.len() ==> (s.events[h]
                    matches WorkflowEvent::ExternalCancelRequested { target: other, .. }
                    && actual == "ExternalCancelRequested"@ + "("@ + ("target="@ + target_text(
                    other,
                )) + ")"@)
            }
        }),
{
    let p = s.prepared();
    let list = p.external_cancels;
    lemma_prepared(s);
    lemma_first_index_is(
        |j: int| (list[j]).target == target,
        0,
        list.len() as int,
        list.len() as int,
    );
    assert(cancel_to(list, target) == list.len());
    let ahead = |j: int| !s.consumed(j) && is_request(s.events[j], RequestKind::Cancel);
    assert forall|j: int| s.cursor <= j < h implies !#[trigger] ahead(j) by {
        if !s.consumed(j) {
            assert(s.open_at(j));
            assert(!(s.events[j] is ExternalCancelRequested));
        }
    }
    lemma_first_index_is(ahead, s.cursor, s.len(), h);
    assert(s.request_ahead(RequestKind::Cancel) == h);
}

// ── Awaits of other workflows ───────────────────────────────────────────────
/// Whether the await was requested.
pub open spec fn await_is_requested(e: WorkflowEvent, id: ExternalAwaitId) -> bool {
    e matches WorkflowEvent::ExternalAwaitRequested { await_id, .. } && await_id == id
}

/// Whether an await like that was requested, under whichever id.
pub open spec fn asks_for_await(e: WorkflowEvent, target: ExecutionId) -> bool {
    e matches WorkflowEvent::ExternalAwaitRequested { target: to, .. } && to == target
}

/// Whether what waits is an await like that.
pub open spec fn is_such_await(w: ExternalAwaitView, target: ExecutionId) -> bool {
    w.target == target
}

/// Whether the outcome of the await is recorded.
pub open spec fn await_is_answered(e: WorkflowEvent, id: ExternalAwaitId) -> bool {
    match e {
        WorkflowEvent::ExternalAwaitResolved { await_id, .. } => await_id == id,
        WorkflowEvent::ExternalAwaitFailed { await_id, .. } => await_id == id,
        _ => false,
    }
}

/// The outcome that `e` records.
spec fn await_answer(e: WorkflowEvent) -> Option<AwaitTerminalView> {
    match e {
        WorkflowEvent::ExternalAwaitResolved { output, .. } => Some(
            AwaitTerminalView::Resolved(json_view(output)),
        ),
        WorkflowEvent::ExternalAwaitFailed {
            reason_code,
            message,
            error_type,
            details,
            non_retryable,
            ..
        } => Some(
            AwaitTerminalView::Failed {
                reason_code: reason_code@,
                message: opt_text(message),
                error_type: opt_text(error_type),
                details: opt_json(details),
                non_retryable,
            },
        ),
        _ => None,
    }
}

/// The list holds the entry, as the first like it and the only one of its id.
spec fn await_tracked(list: Seq<ExternalAwaitView>, entry: ExternalAwaitView) -> bool {
    exists|k: int| #[trigger] await_stands_at(list, entry, k)
}

/// Whether the entry stands at `k`, as the first like it and the only one of its id.
spec fn await_stands_at(list: Seq<ExternalAwaitView>, entry: ExternalAwaitView, k: int) -> bool {
    &&& 0 <= k < list.len()
    &&& list[k] == entry
    &&& forall|j: int| 0 <= j < k ==> !is_such_await(
        #[trigger] list[j],
        entry.target,
    )
    &&& forall|j: int|
        0 <= j < list.len() && j != k ==> (#[trigger] list[j]).await_id != entry.await_id
}

/// The list holds neither one like it nor one of its id.
spec fn await_untracked(list: Seq<ExternalAwaitView>, entry: ExternalAwaitView) -> bool {
    forall|j: int|
        0 <= j < list.len() ==> (#[trigger] list[j]).await_id != entry.await_id && !is_such_await(
            list[j],
            entry.target,
        )
}

/// What is taken out next leaves the entry out, unless it is its request or one
/// like it.
proof fn lemma_await_stays_untracked(w: Replay, i: int, entry: ExternalAwaitView)
    requires
        await_untracked(w.external_awaits, entry),
        !await_is_requested(w.events[i], entry.await_id),
        !asks_for_await(w.events[i], entry.target),
    ensures
        await_untracked(w.absorbed(i).external_awaits, entry),
{
    let list = w.external_awaits;
    match w.events[i] {
        WorkflowEvent::ExternalAwaitResolved { await_id, .. } => lemma_first_index(
            |k: int| list[k].await_id == await_id,
            0,
            list.len() as int,
        ),
        WorkflowEvent::ExternalAwaitFailed { await_id, .. } => lemma_first_index(
            |k: int| list[k].await_id == await_id,
            0,
            list.len() as int,
        ),
        _ => {},
    }
}

/// What is taken out next leaves the entry in its place; its own outcome is noted.
proof fn lemma_await_stays_tracked(w: Replay, i: int, entry: ExternalAwaitView)
    requires
        await_tracked(w.external_awaits, entry),
        !await_is_requested(w.events[i], entry.await_id),
    ensures
        await_tracked(
            w.absorbed(i).external_awaits,
            if await_is_answered(w.events[i], entry.await_id) {
                ExternalAwaitView { terminal: await_answer(w.events[i]), ..entry }
            } else {
                entry
            },
        ),
{
    let list = w.external_awaits;
    let after = w.absorbed(i).external_awaits;
    let at = choose|k: int| #[trigger] await_stands_at(list, entry, k);
    lemma_first_index_is(|k: int| list[k].await_id == entry.await_id, 0, list.len() as int, at);
    match w.events[i] {
        WorkflowEvent::ExternalAwaitResolved { await_id, .. } => {
            if await_id != entry.await_id {
                lemma_first_index(|k: int| list[k].await_id == await_id, 0, list.len() as int);
                assert(await_stands_at(after, entry, at));
            } else {
                assert(await_position(list, await_id) == at);
                assert(await_stands_at(
                    after,
                    ExternalAwaitView { terminal: await_answer(w.events[i]), ..entry },
                    at,
                ));
            }
        },
        WorkflowEvent::ExternalAwaitFailed { await_id, .. } => {
            if await_id != entry.await_id {
                lemma_first_index(|k: int| list[k].await_id == await_id, 0, list.len() as int);
                assert(await_stands_at(after, entry, at));
            } else {
                assert(await_position(list, await_id) == at);
                assert(await_stands_at(
                    after,
                    ExternalAwaitView { terminal: await_answer(w.events[i]), ..entry },
                    at,
                ));
            }
        },
        _ => {
            assert(await_stands_at(after, entry, at));
        },
    }
}

/// What is queued of the request at `i`, with the outcome at `t` noted where it
/// stands before `n`.
spec fn await_entry(s: Replay, i: int, t: int, n: int) -> ExternalAwaitView {
    let terminal = if t < n {
        await_answer(s.events[t])
    } else {
        None
    };
    match s.events[i] {
        WorkflowEvent::ExternalAwaitRequested { await_id, target } => ExternalAwaitView {
            await_id,
            target,
            terminal,
        },
        _ => s.external_awaits[0],
    }
}

/// The request at `i` is the only one of its id that is taken out in front of the
/// next command, and the first like it; its outcome stands at `t`, and nowhere
/// else behind the request.
pub open spec fn await_stands_out(
    s: Replay,
    id: ExternalAwaitId,
    target: ExecutionId,
    i: int,
    t: int,
) -> bool {
    &&& s.cursor <= i < s.prepared().cursor
    &&& s.open_at(i)
    &&& await_is_requested(s.events[i], id)
    &&& asks_for_await(s.events[i], target)
    &&& i < t <= s.len()
    &&& t < s.len() ==> s.open_at(t) && await_is_answered(s.events[t], id)
    &&& forall|j: int|
        s.cursor <= j < s.prepared().cursor && j != i && s.open_at(j) ==> !await_is_requested(
            #[trigger] s.events[j],
            id,
        )
    &&& forall|j: int|
        s.cursor <= j < i && s.open_at(j) ==> !asks_for_await(#[trigger] s.events[j], target)
    &&& forall|j: int|
        i < j < s.len() && j != t && s.open_at(j) ==> !await_is_answered(#[trigger] s.events[j], id)
    &&& forall|k: int|
        0 <= k < s.external_awaits.len()
            ==> (#[trigger] s.external_awaits[k]).await_id != id && !is_such_await(
            s.external_awaits[k],
            target,
        )
}

/// The request is queued once the events up to `n` are taken out.
proof fn lemma_await_is_queued(
    s: Replay,
    id: ExternalAwaitId,
    target: ExecutionId,
    i: int,
    t: int,
    n: int,
)
    requires
        s.wf(),
        await_stands_out(s, id, target, i, t),
        s.advanced().cursor <= n <= s.prepared().cursor,
    ensures
        n <= i ==> await_untracked(
            s.advanced().stashed(ScanView::Drain, s.advanced().cursor, n).external_awaits,
            await_entry(s, i, t, n),
        ),
        n > i ==> await_tracked(
            s.advanced().stashed(ScanView::Drain, s.advanced().cursor, n).external_awaits,
            await_entry(s, i, t, n),
        ),
    decreases n,
{
    let a = s.advanced();
    let d = a.drained();
    lemma_moved_to(s, s.cursor);
    lemma_next_open(s, s.cursor);
    lemma_scan_stop(a, ScanView::Drain, a.cursor, a.len());
    lemma_drained(a);
    lemma_resolved(d, d.cursor, d.len());
    assert(a.consumed(i) == s.consumed(i));
    if i < a.cursor {
        assert(s.consumed(i));
    }
    if a.cursor < n {
        let b = a.stashed(ScanView::Drain, a.cursor, n - 1);
        lemma_await_is_queued(s, id, target, i, t, n - 1);
        lemma_stashed_frame(a, ScanView::Drain, a.cursor, n - 1);
        assert(!(a.step_at(ScanView::Drain, n - 1) is Halt));
        assert(a.consumed(n - 1) == s.consumed(n - 1));
        assert(b.events[n - 1] == s.events[n - 1]);
        if !s.consumed(n - 1) {
            assert(s.open_at(n - 1));
            assert(a.step_at(ScanView::Drain, n - 1) is Stash);
            if n - 1 < i {
                lemma_await_stays_untracked(b, n - 1, await_entry(s, i, t, n));
            } else if n - 1 == i {
                let list = b.absorbed(i).external_awaits;
                assert(await_stands_at(list, await_entry(s, i, t, n), list.len() - 1));
            } else {
                lemma_await_stays_tracked(b, n - 1, await_entry(s, i, t, n - 1));
            }
        } else {
            assert(n - 1 != i && n - 1 != t);
        }
    }
}

/// Outcomes of signals and cancels leave the queue of awaits alone.
proof fn lemma_answers_leave_awaits(s: Replay, from: int, to: int)
    ensures
        s.resolved(from, to).external_awaits == s.external_awaits,
        s.resolved(from, to).events == s.events,
    decreases to - from,
{
    if from < to {
        lemma_answers_leave_awaits(s, from, to - 1);
    }
}

/// An await of another workflow that was taken out in front of the next command is given back to
/// the first request like it, whatever the request's place: with its own outcome,
/// or as being in progress under its own id, with all that was recorded with it.
/// It is given back once.
pub proof fn law_await_gets_its_own_outcome(
    s: Replay,
    id: ExternalAwaitId,
    target: ExecutionId,
    i: int,
    t: int,
)
    requires
        s.wf(),
        await_stands_out(s, id, target, i, t),
    ensures
        ({
            let p = s.prepared();
            let (after, r) = s.external_await(target);
            &&& t < p.cursor ==> {
                &&& s.events[t] matches WorkflowEvent::ExternalAwaitResolved { output, .. }
                    ==> r == (
                HistoryMatchView::Matched { output: json_view(output) })
                &&& s.events[t] matches WorkflowEvent::ExternalAwaitFailed {
                    reason_code,
                    message,
                    error_type,
                    details,
                    non_retryable,
                    ..
                } ==> r == (HistoryMatchView::ExternalAwaitFailed {
                    await_id: id,
                    reason_code: reason_code@,
                    message: opt_text(message),
                    error_type: opt_text(error_type),
                    details: opt_json(details),
                    non_retryable,
                })
            }
            &&& !(t < p.cursor)
                ==> r == (HistoryMatchView::ExternalAwaitInProgress { await_id: id })
            &&& after == (Replay { external_awaits: after.external_awaits, ..p })
            &&& after.external_awaits.len() == p.external_awaits.len() - 1
            &&& forall|k: int|
                0 <= k < after.external_awaits.len()
                    ==> (#[trigger] after.external_awaits[k]).await_id != id
        }),
{
    let p = s.prepared();
    let list = p.external_awaits;
    let a = s.advanced();
    let d = a.drained();
    lemma_moved_to(s, s.cursor);
    lemma_drained(a);
    lemma_resolved(d, d.cursor, d.len());
    lemma_await_is_queued(s, id, target, i, t, p.cursor);
    lemma_scan_stop(a, ScanView::Drain, a.cursor, a.len());
    lemma_answers_leave_awaits(d, d.cursor, d.len());
    let at = choose|k: int| #[trigger] await_stands_at(list, await_entry(s, i, t, p.cursor), k);
    let like = |k: int| (list[k]).target == target;
    lemma_first_index_is(like, 0, list.len() as int, at);
    assert(await_of(list, target) == at);
}

/// An await of another workflow that waits is given back to the first request like it: with the
/// outcome that was noted, or as being in progress. One like it further back
/// waits on.
pub proof fn law_waiting_await_is_given_back_in_order(s: Replay, target: ExecutionId, k: int)
    requires
        s.wf(),
        0 <= k < s.prepared().external_awaits.len(),
        is_such_await(s.prepared().external_awaits[k], target),
        forall|j: int|
            0 <= j < k ==> !is_such_await(
                #[trigger] s.prepared().external_awaits[j],
                target,
            ),
    ensures
        ({
            let p = s.prepared();
            let w = p.external_awaits[k];
            let (after, r) = s.external_await(target);
            &&& w.terminal is None
                ==> r == (HistoryMatchView::ExternalAwaitInProgress { await_id: w.await_id })
            &&& w.terminal matches Some(AwaitTerminalView::Resolved(output)) ==> r == (
            HistoryMatchView::Matched { output })
            &&& w.terminal matches Some(
                AwaitTerminalView::Failed {
                    reason_code,
                    message,
                    error_type,
                    details,
                    non_retryable,
                },
            ) ==> r == (HistoryMatchView::ExternalAwaitFailed {
                await_id: w.await_id,
                reason_code,
                message,
                error_type,
                details,
                non_retryable,
            })
            &&& after == (Replay { external_awaits: p.external_awaits.remove(k), ..p })
        }),
{
    let list = s.prepared().external_awaits;
    lemma_first_index_is(
        |j: int| (list[j]).target == target,
        0,
        list.len() as int,
        k,
    );
    assert(await_of(list, target) == k);
}

/// An await of a workflow, with none like it
/// waiting, is new where no command is left, unless one was recorded from the
/// cursor on: the first of those is then shown, with its place. Where a command is
/// left, that is shown. Nothing else changes.
pub proof fn law_other_await_is_no_match(s: Replay, target: ExecutionId, h: int)
    requires
        s.wf(),
        forall|j: int|
            0 <= j < s.prepared().external_awaits.len() ==> !is_such_await(
                #[trigger] s.prepared().external_awaits[j],
                target,
            ),
        s.cursor <= h <= s.len(),
        h < s.len() ==> s.open_at(h) && s.events[h] is ExternalAwaitRequested,
        forall|j: int|
            s.cursor <= j < h && s.open_at(j)
                ==> !(#[trigger] s.events[j] is ExternalAwaitRequested),
    ensures
        ({
            let p = s.prepared();
            let (after, r) = s.external_await(target);
            &&& after == p
            &&& p.cursor < s.len() ==> points_at(r, p.cursor)
            &&& p.cursor == s.len() && h == s.len() ==> r is NoMatch
            &&& p.cursor == s.len() && h < s.len() ==> points_at(r, h)
            &&& r matches HistoryMatchView::Diverged { expected, actual, .. } ==> {
                &&& expected == "ExternalAwaitRequested"@ + "("@ + ("target="@
                    + execution_text(target)) + ")"@
                &&& p.cursor == s.len() ==> (s.events[h]
                    matches WorkflowEvent::ExternalAwaitRequested { target: other, .. }
                    && actual == "ExternalAwaitRequested"@ + "("@ + ("target="@ + execution_text(
                    other,
                )) + ")"@)
            }
        }),
{
    let p = s.prepared();
    let list = p.external_awaits;
    lemma_prepared(s);
    lemma_first_index_is(
        |j: int| (list[j]).target == target,
        0,
        list.len() as int,
        list.len() as int,
    );
    assert(await_of(list, target) == list.len());
    let ahead = |j: int| !s.consumed(j) && is_request(s.events[j], RequestKind::Await);
    assert forall|j: int| s.cursor <= j < h implies !#[trigger] ahead(j) by {
        if !s.consumed(j) {
            assert(s.open_at(j));
            assert(!(s.events[j] is ExternalAwaitRequested));
        }
    }
    lemma_first_index_is(ahead, s.cursor, s.len(), h);
    assert(s.request_ahead(RequestKind::Await) == h);
}

// ── Looking ahead from a request ────────────────────────────────────────────
/// What may stand between the request of a signal and its outcome.
pub open spec fn beside_signal_request(e: WorkflowEvent) -> bool {
    match e {
        WorkflowEvent::ExternalSignalRequested { .. } => false,
        WorkflowEvent::ExternalSignalDelivered { .. } => false,
        WorkflowEvent::ExternalSignalFailed { .. } => false,
        WorkflowEvent::ChildWorkflowSpawnedDetached { .. } => true,
        _ => belongs_to_update(e) || waits_for_claim(e),
    }
}

/// Whether the event spawned a child that is not waited for.
pub open spec fn spawns_detached(e: WorkflowEvent) -> bool {
    e is ChildWorkflowSpawnedDetached
}

/// Whether the event is a command, or an outcome or a step of one other than a
/// worker's sign of life.
pub open spec fn crossed_by_request(e: WorkflowEvent) -> bool {
    match e {
        WorkflowEvent::ActivityStarted { .. } => false,
        WorkflowEvent::ActivityHeartbeat { .. } => false,
        _ => issues_command(e) || reports_progress(e),
    }
}

/// What may stand between the request of a cancel or an await and its outcome.
pub open spec fn beside_request(e: WorkflowEvent) -> bool {
    match e {
        WorkflowEvent::WorkflowStarted { .. } => true,
        WorkflowEvent::UpdateAdmitted { .. } => true,
        WorkflowEvent::UpdateCompleted { .. } => true,
        WorkflowEvent::UpdateFailed { .. } => true,
        WorkflowEvent::WorkflowExecutionPaused { .. } => true,
        WorkflowEvent::WorkflowExecutionResumed { .. } => true,
        _ => waits_for_claim(e) || crossed_by_request(e),
    }
}

/// Looking ahead from a signal for its outcome finds its own, where nothing stands in
/// between but what may: then that is what is given back, and it is settled. Else
/// the signal is in progress. Commands that were crossed are still to be claimed.
///
/// `t` is the first event ahead, still to be claimed, that is the outcome or must
/// not be crossed.
pub proof fn law_signal_search_finds_its_own_outcome(
    q: Replay,
    id: ExternalSignalId,
    payload: JsonView,
    key: Option<Seq<char>>,
    t: int,
)
    requires
        q.wf(),
        q.cursor <= t <= q.len(),
        t < q.len()
            ==> q.open_at(t)
                && (signal_is_answered(q.events[t], id) || !beside_signal_request(q.events[t])),
        forall|j: int|
            q.cursor <= j < t && q.open_at(j) ==> beside_signal_request(
                #[trigger] q.events[j],
            ) && !signal_is_answered(
                q.events[j],
                id,
            ),
    ensures
        ({
            let (after, r) = q.external_signal_from_here(id, payload, key);
            let found = t < q.len() && signal_is_answered(q.events[t], id);
            &&& found ==> {
                &&& q.events[t] is ExternalSignalDelivered ==> r == (HistoryMatchView::Matched {
                    output: JsonView::Null,
                })
                &&& q.events[t] matches WorkflowEvent::ExternalSignalFailed { reason_code, .. }
                    ==> r == (
                HistoryMatchView::ExternalSignalFailed { signal_id: id, reason_code: reason_code@ })
                &&& after.consumed(t) || t < after.cursor
            }
            &&& !found
                ==> r == (HistoryMatchView::ExternalSignalInProgress {
                signal_id: id,
                payload,
                idempotency_key: key,
            })
            &&& forall|j: int|
                q.cursor <= j < t && q.open_at(j) && spawns_detached(#[trigger] q.events[j])
                    ==> !after.consumed(j) && after.cursor <= j
        }),
{
    let scan = ScanView::ExternalSignal(id);
    assert forall|j: int| q.cursor <= j < t implies !(#[trigger] q.step_at(scan, j) is Hit) && !(
    q.step_at(scan, j) is Halt) && (q.step_at(scan, j) is Command) == (q.open_at(j)
        && spawns_detached(q.events[j])) by {
        assert(q.open_at(j)
            ==> beside_signal_request(q.events[j]) && !signal_is_answered(q.events[j], id));
    }
    lemma_search_ends(q, scan, q.cursor, q.len(), t);
    lemma_search_returns(q, scan);
    let after = q.external_signal_from_here(id, payload, key).0;
    assert forall|j: int|
        q.cursor <= j < t && q.open_at(j) && spawns_detached(
            #[trigger] q.events[j],
        ) implies !after.consumed(j)
        && after.cursor <= j by {
        assert(q.step_at(scan, j) is Command);
    }
}

/// Looking ahead from a cancel for its outcome finds its own, where nothing stands in
/// between but what may: then that is what is given back, and it is settled. Else
/// the cancel is in progress. Commands that were crossed are still to be claimed.
///
/// `t` is the first event ahead, still to be claimed, that is the outcome or must
/// not be crossed.
pub proof fn law_cancel_search_finds_its_own_outcome(q: Replay, id: ExternalCancelId, t: int)
    requires
        q.wf(),
        q.cursor <= t <= q.len(),
        t < q.len()
            ==> q.open_at(t)
                && (cancel_is_answered(q.events[t], id) || !beside_request(q.events[t])),
        forall|j: int|
            q.cursor <= j < t && q.open_at(j) ==> beside_request(
                #[trigger] q.events[j],
            ) && !cancel_is_answered(
                q.events[j],
                id,
            ),
    ensures
        ({
            let (after, r) = q.external_cancel_from_here(id);
            let found = t < q.len() && cancel_is_answered(q.events[t], id);
            &&& found ==> {
                &&& q.events[t] is ExternalCancelDelivered ==> r == (HistoryMatchView::Matched {
                    output: JsonView::Null,
                })
                &&& q.events[t] matches WorkflowEvent::ExternalCancelFailed { reason_code, .. }
                    ==> r == (
                HistoryMatchView::ExternalCancelFailed { cancel_id: id, reason_code: reason_code@ })
                &&& after.consumed(t) || t < after.cursor
            }
            &&& !found ==> r == (HistoryMatchView::ExternalCancelInProgress { cancel_id: id })
            &&& forall|j: int|
                q.cursor <= j < t && q.open_at(j) && crossed_by_request(#[trigger] q.events[j])
                    ==> !after.consumed(j) && after.cursor <= j
        }),
{
    let scan = ScanView::ExternalCancel(id);
    assert forall|j: int| q.cursor <= j < t implies !(#[trigger] q.step_at(scan, j) is Hit) && !(
    q.step_at(scan, j) is Halt) && (q.step_at(scan, j) is Command) == (q.open_at(j)
        && crossed_by_request(q.events[j])) by {
        assert(q.open_at(j)
            ==> beside_request(q.events[j]) && !cancel_is_answered(q.events[j], id));
    }
    lemma_search_ends(q, scan, q.cursor, q.len(), t);
    lemma_search_returns(q, scan);
    let after = q.external_cancel_from_here(id).0;
    assert forall|j: int|
        q.cursor <= j < t && q.open_at(j) && crossed_by_request(
            #[trigger] q.events[j],
        ) implies !after.consumed(j)
        && after.cursor <= j by {
        assert(q.step_at(scan, j) is Command);
    }
}

/// Looking ahead from an await for its outcome finds its own, where nothing stands in
/// between but what may: then that is what is given back, and it is settled. Else
/// the await is in progress. Commands that were crossed are still to be claimed.
///
/// `t` is the first event ahead, still to be claimed, that is the outcome or must
/// not be crossed.
pub proof fn law_await_search_finds_its_own_outcome(q: Replay, id: ExternalAwaitId, t: int)
    requires
        q.wf(),
        q.cursor <= t <= q.len(),
        t < q.len()
            ==> q.open_at(t)
                && (await_is_answered(q.events[t], id) || !beside_request(q.events[t])),
        forall|j: int|
            q.cursor <= j < t && q.open_at(j) ==> beside_request(
                #[trigger] q.events[j],
            ) && !await_is_answered(
                q.events[j],
                id,
            ),
    ensures
        ({
            let (after, r) = q.external_await_from_here(id);
            let found = t < q.len() && await_is_answered(q.events[t], id);
            &&& found ==> {
                &&& q.events[t] matches WorkflowEvent::ExternalAwaitResolved { output, .. }
                    ==> r == (
                HistoryMatchView::Matched { output: json_view(output) })
                &&& q.events[t] matches WorkflowEvent::ExternalAwaitFailed {
                    reason_code,
                    message,
                    error_type,
                    details,
                    non_retryable,
                    ..
                } ==> r == (HistoryMatchView::ExternalAwaitFailed {
                    await_id: id,
                    reason_code: reason_code@,
                    message: opt_text(message),
                    error_type: opt_text(error_type),
                    details: opt_json(details),
                    non_retryable,
                })
                &&& after.consumed(t) || t < after.cursor
            }
            &&& !found ==> r == (HistoryMatchView::ExternalAwaitInProgress { await_id: id })
            &&& forall|j: int|
                q.cursor <= j < t && q.open_at(j) && crossed_by_request(#[trigger] q.events[j])
                    ==> !after.consumed(j) && after.cursor <= j
        }),
{
    let scan = ScanView::ExternalAwait(id);
    assert forall|j: int| q.cursor <= j < t implies !(#[trigger] q.step_at(scan, j) is Hit) && !(
    q.step_at(scan, j) is Halt) && (q.step_at(scan, j) is Command) == (q.open_at(j)
        && crossed_by_request(q.events[j])) by {
        assert(q.open_at(j) ==> beside_request(q.events[j]) && !await_is_answered(q.events[j], id));
    }
    lemma_search_ends(q, scan, q.cursor, q.len(), t);
    lemma_search_returns(q, scan);
    let after = q.external_await_from_here(id).0;
    assert forall|j: int|
        q.cursor <= j < t && q.open_at(j) && crossed_by_request(
            #[trigger] q.events[j],
        ) implies !after.consumed(j)
        && after.cursor <= j by {
        assert(q.step_at(scan, j) is Command);
    }
}

} // verus!
