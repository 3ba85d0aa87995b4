//! What searches keep aside of what waits for its own command.
use crate::event::WorkflowEvent;
use crate::json::json_view;
use crate::moves::{lemma_scan_stop, lemma_stashed_frame};
use crate::replay::Replay;
use crate::scan::ScanView;
use crate::search::{lemma_first_index, lemma_first_index_is};
use crate::types::opt_text;
use crate::vocabulary::waits_for_claim;
use vstd::prelude::*;

verus! {

/// Whether the search is one of a command that others may run next to, or of a
/// timer that may be cancelled.
pub open spec fn keeps_aside(scan: ScanView) -> bool {
    ||| scan is Activity
    ||| scan is LocalActivity
    ||| scan is ExternalActivity
    ||| scan is Timer
    ||| scan is TimerCancel
    ||| scan is TimerOutcome
    ||| scan is Signal
    ||| scan is SignalOrTimer
    ||| scan is ChildOrTimer
}

/// Whether the event at `j` is taken out of history, and a signal or a request
/// waits with all that was recorded with it.
pub open spec fn waits_aside(after: Replay, j: int) -> bool {
    &&& after.consumed(j)
    &&& match after.events[j] {
        WorkflowEvent::SignalReceived { signal_name, payload } => exists|k: int|
            0 <= k < after.pending_signals.len() && {
                let w = #[trigger] after.pending_signals[k];
                w.index == j && w.name == signal_name@ && w.payload == json_view(payload)
            },
        WorkflowEvent::ExternalSignalRequested {
            signal_id,
            target,
            signal_name,
            payload,
            idempotency_key,
        } => exists|k: int|
            0 <= k < after.external_signals.len() && {
                let w = #[trigger] after.external_signals[k];
                &&& w.signal_id == signal_id
                &&& w.target == target
                &&& w.signal_name == signal_name@
                &&& w.payload == json_view(payload)
                &&& w.idempotency_key == opt_text(idempotency_key)
            },
        WorkflowEvent::ExternalCancelRequested { cancel_id, target } => exists|k: int|
            0 <= k < after.external_cancels.len() && {
                let w = #[trigger] after.external_cancels[k];
                w.cancel_id == cancel_id && w.target == target
            },
        WorkflowEvent::ExternalAwaitRequested { await_id, target } => exists|k: int|
            0 <= k < after.external_awaits.len() && {
                let w = #[trigger] after.external_awaits[k];
                w.await_id == await_id && w.target == target
            },
        _ => true,
    }
}

/// Taking one more event out leaves what waits as it is, apart from outcomes.
proof fn lemma_still_aside(b: Replay, i: int, j: int)
    requires
        waits_aside(b, j),
    ensures
        waits_aside(b.absorbed(i), j),
{
    let t = b.absorbed(i);
    let signals = b.external_signals;
    let cancels = b.external_cancels;
    let awaits = b.external_awaits;
    match b.events[i] {
        WorkflowEvent::ExternalSignalDelivered { signal_id } => lemma_first_index(
            |k: int| signals[k].signal_id == signal_id,
            0,
            signals.len() as int,
        ),
        WorkflowEvent::ExternalSignalFailed { signal_id, .. } => lemma_first_index(
            |k: int| signals[k].signal_id == signal_id,
            0,
            signals.len() as int,
        ),
        WorkflowEvent::ExternalCancelDelivered { cancel_id } => lemma_first_index(
            |k: int| cancels[k].cancel_id == cancel_id,
            0,
            cancels.len() as int,
        ),
        WorkflowEvent::ExternalCancelFailed { cancel_id, .. } => lemma_first_index(
            |k: int| cancels[k].cancel_id == cancel_id,
            0,
            cancels.len() as int,
        ),
        WorkflowEvent::ExternalAwaitResolved { await_id, .. } => lemma_first_index(
            |k: int| awaits[k].await_id == await_id,
            0,
            awaits.len() as int,
        ),
        WorkflowEvent::ExternalAwaitFailed { await_id, .. } => lemma_first_index(
            |k: int| awaits[k].await_id == await_id,
            0,
            awaits.len() as int,
        ),
        _ => {},
    }
    match b.events[j] {
        WorkflowEvent::SignalReceived { signal_name, payload } => {
            let k = choose|k: int|
                0 <= k < b.pending_signals.len() && {
                    let w = #[trigger] b.pending_signals[k];
                    w.index == j && w.name == signal_name@ && w.payload == json_view(payload)
                };
            assert(t.pending_signals[k] == b.pending_signals[k]);
        },
        WorkflowEvent::ExternalSignalRequested {
            signal_id,
            target,
            signal_name,
            payload,
            idempotency_key,
        } => {
            let k = choose|k: int|
                0 <= k < b.external_signals.len() && {
                    let w = #[trigger] b.external_signals[k];
                    &&& w.signal_id == signal_id
                    &&& w.target == target
                    &&& w.signal_name == signal_name@
                    &&& w.payload == json_view(payload)
                    &&& w.idempotency_key == opt_text(idempotency_key)
                };
            assert(t.external_signals[k].signal_id == signal_id);
        },
        WorkflowEvent::ExternalCancelRequested { cancel_id, target } => {
            let k = choose|k: int|
                0 <= k < b.external_cancels.len() && {
                    let w = #[trigger] b.external_cancels[k];
                    w.cancel_id == cancel_id && w.target == target
                };
            assert(t.external_cancels[k].cancel_id == cancel_id);
        },
        WorkflowEvent::ExternalAwaitRequested { await_id, target } => {
            let k = choose|k: int|
                0 <= k < b.external_awaits.len() && {
                    let w = #[trigger] b.external_awaits[k];
                    w.await_id == await_id && w.target == target
                };
            assert(t.external_awaits[k].await_id == await_id);
        },
        _ => {},
    }
}

/// An event that is taken out waits.
proof fn lemma_now_aside(b: Replay, i: int)
    ensures
        waits_aside(b.absorbed(i), i),
{
    let t = b.absorbed(i);
    match b.events[i] {
        WorkflowEvent::SignalReceived { .. } => {
            assert(t.pending_signals[b.pending_signals.len() as int].index == i);
        },
        WorkflowEvent::ExternalSignalRequested { signal_id, .. } => {
            assert(t.external_signals[b.external_signals.len() as int].signal_id == signal_id);
        },
        WorkflowEvent::ExternalCancelRequested { cancel_id, .. } => {
            assert(t.external_cancels[b.external_cancels.len() as int].cancel_id == cancel_id);
        },
        WorkflowEvent::ExternalAwaitRequested { await_id, .. } => {
            assert(t.external_awaits[b.external_awaits.len() as int].await_id == await_id);
        },
        _ => {},
    }
}

/// What is taken out on the way waits.
proof fn lemma_all_aside(q: Replay, scan: ScanView, from: int, to: int, j: int)
    requires
        from <= j < to,
        q.step_at(scan, j) is Stash,
    ensures
        waits_aside(q.stashed(scan, from, to), j),
    decreases to - from,
{
    let b = q.stashed(scan, from, to - 1);
    lemma_stashed_frame(q, scan, from, to - 1);
    if j < to - 1 {
        lemma_all_aside(q, scan, from, to - 1, j);
        if q.step_at(scan, to - 1) is Stash {
            lemma_still_aside(b, to - 1, j);
        }
    } else {
        lemma_now_aside(b, to - 1);
    }
}

/// A search loses nothing that waits for a command of its own: every signal and
/// every step of a request to another workflow that it crosses is taken out of
/// history, and signals and requests wait with all that was recorded with them.
pub proof fn law_searches_keep_aside_what_waits(
    q: Replay,
    scan: ScanView,
    from: int,
    end: int,
    j: int,
)
    requires
        keeps_aside(scan),
        0 <= from <= end <= q.len(),
        from <= j < q.scan_stop(scan, from, end),
        q.open_at(j),
        waits_for_claim(q.events[j]),
    ensures
        waits_aside(q.scanned(scan, from, end), j),
{
    lemma_scan_stop(q, scan, from, end);
    assert(!(q.step_at(scan, j) is Hit) && !(q.step_at(scan, j) is Halt));
    assert(q.step_at(scan, j) is Stash);
    lemma_all_aside(q, scan, from, q.scan_stop(scan, from, end), j);
}

/// What is taken out leaves the place of a waiting await, and an outcome that was
/// noted stays noted.
proof fn lemma_noted(q: Replay, scan: ScanView, from: int, to: int, k: int)
    requires
        0 <= k < q.external_awaits.len(),
        forall|m: int|
            0 <= m < k ==> (#[trigger] q.external_awaits[m]).await_id
                != q.external_awaits[k].await_id,
    ensures
        ({
            let id = q.external_awaits[k].await_id;
            let after = q.stashed(scan, from, to);
            &&& k < after.external_awaits.len()
            &&& after.external_awaits[k].await_id == id
            &&& forall|m: int| 0 <= m < k ==> (#[trigger] after.external_awaits[m]).await_id != id
            &&& (q.external_awaits[k].terminal is Some || exists|j: int|
                from <= j < to && #[trigger] q.step_at(scan, j) is Stash && (match q.events[j] {
                    WorkflowEvent::ExternalAwaitResolved { await_id, .. } => await_id == id,
                    WorkflowEvent::ExternalAwaitFailed { await_id, .. } => await_id == id,
                    _ => false,
                })) ==> after.external_awaits[k].terminal is Some
        }),
    decreases to - from,
{
    if from < to {
        let id = q.external_awaits[k].await_id;
        let b = q.stashed(scan, from, to - 1);
        lemma_noted(q, scan, from, to - 1, k);
        lemma_stashed_frame(q, scan, from, to - 1);
        let list = b.external_awaits;
        match q.events[to - 1] {
            WorkflowEvent::ExternalAwaitResolved { await_id, .. } => {
                if await_id == id {
                    lemma_first_index_is(
                        |m: int| list[m].await_id == await_id,
                        0,
                        list.len() as int,
                        k,
                    );
                } else {
                    lemma_first_index(|m: int| list[m].await_id == await_id, 0, list.len() as int);
                }
            },
            WorkflowEvent::ExternalAwaitFailed { await_id, .. } => {
                if await_id == id {
                    lemma_first_index_is(
                        |m: int| list[m].await_id == await_id,
                        0,
                        list.len() as int,
                        k,
                    );
                } else {
                    lemma_first_index(|m: int| list[m].await_id == await_id, 0, list.len() as int);
                }
            },
            _ => {},
        }
    }
}

/// The outcome of an await that a search crosses is noted at the await that waits
/// for it.
pub proof fn law_searches_note_outcomes_of_awaits(
    q: Replay,
    scan: ScanView,
    from: int,
    end: int,
    k: int,
    j: int,
)
    requires
        keeps_aside(scan),
        0 <= from <= end <= q.len(),
        from <= j < q.scan_stop(scan, from, end),
        q.open_at(j),
        0 <= k < q.external_awaits.len(),
        forall|m: int|
            0 <= m < k ==> (#[trigger] q.external_awaits[m]).await_id
                != q.external_awaits[k].await_id,
        match q.events[j] {
            WorkflowEvent::ExternalAwaitResolved { await_id, .. } => await_id
                == q.external_awaits[k].await_id,
            WorkflowEvent::ExternalAwaitFailed { await_id, .. } => await_id
                == q.external_awaits[k].await_id,
            _ => false,
        },
    ensures
        ({
            let after = q.scanned(scan, from, end);
            &&& k < after.external_awaits.len()
            &&& after.external_awaits[k].await_id == q.external_awaits[k].await_id
            &&& after.external_awaits[k].terminal is Some
        }),
{
    lemma_scan_stop(q, scan, from, end);
    assert(!(q.step_at(scan, j) is Hit) && !(q.step_at(scan, j) is Halt));
    assert(q.step_at(scan, j) is Stash);
    lemma_noted(q, scan, from, q.scan_stop(scan, from, end), k);
}

} // verus!
