//! Where the next command is looked for, and what is taken out in front of it,
//! told by what is recorded.
use crate::event::WorkflowEvent;
use crate::json::json_view;
use crate::moves::{
    lemma_absorbed_frame, lemma_drained, lemma_moved_to, lemma_next_open, lemma_prepared,
    lemma_resolved, lemma_scan_stop, lemma_stashed_frame,
};
use crate::replay::Replay;
use crate::scan::ScanView;
use crate::vocabulary::{belongs_to_update, waits_for_claim};
use vstd::prelude::*;

verus! {

/// Whether the outcome of a signal or a cancel to another workflow is recorded.
pub open spec fn request_is_answered(e: WorkflowEvent) -> bool {
    match e {
        WorkflowEvent::ExternalSignalDelivered { .. } => true,
        WorkflowEvent::ExternalSignalFailed { .. } => true,
        WorkflowEvent::ExternalCancelDelivered { .. } => true,
        WorkflowEvent::ExternalCancelFailed { .. } => true,
        _ => false,
    }
}

/// Only outcomes of signals and cancels are taken from behind the place of the
/// next command.
pub(crate) proof fn lemma_only_answers(s: Replay, from: int, to: int)
    ensures
        forall|j: int| #[trigger]
            s.resolved(from, to).consumed(j) != s.consumed(j) ==> from <= j < to
                && request_is_answered(s.events[j]),
        s.resolved(from, to).events == s.events,
    decreases to - from,
{
    if from < to {
        let b = s.resolved(from, to - 1);
        lemma_only_answers(s, from, to - 1);
        lemma_absorbed_frame(b, to - 1);
    }
}

/// The next command is looked for at the first event from the cursor on that is
/// still to be claimed and neither belongs to an update nor waits for a command
/// of its own, whichever command it is. All that stands in front of that place is
/// taken; behind it, nothing but outcomes of signals and cancels to other
/// workflows is. What was decided before stands.
pub proof fn law_next_command_is_the_first_to_be_claimed(s: Replay)
    requires
        s.wf(),
    ensures
        ({
            let p = s.prepared();
            &&& p.events == s.events
            &&& s.cursor <= p.cursor <= s.len()
            &&& p.cursor < s.len() ==> {
                &&& s.open_at(p.cursor)
                &&& p.open_at(p.cursor)
                &&& !belongs_to_update(s.events[p.cursor])
                &&& !waits_for_claim(s.events[p.cursor])
            }
            &&& forall|j: int|
                s.cursor <= j < p.cursor && s.open_at(j) ==> belongs_to_update(
                    #[trigger] s.events[j],
                ) || waits_for_claim(s.events[j])
            &&& forall|j: int| s.cursor <= j < p.cursor ==> #[trigger] p.consumed(j)
            &&& forall|j: int| #[trigger]
                p.consumed(j) != s.consumed(j) ==> s.cursor <= j < p.cursor || (p.cursor < j
                    < s.len() && request_is_answered(s.events[j]))
            &&& p.out_of_order == s.out_of_order
            &&& p.transparent == s.transparent
            &&& p.late == s.late
            &&& p.reserved == s.reserved
            &&& p.deprecated == s.deprecated
            &&& p.latched == s.latched
            &&& p.scan_stopped == s.scan_stopped
            &&& p.failure_tail == s.failure_tail
        }),
        s.advanced().drained().cursor == s.prepared().cursor,
        s.advanced().drained().events == s.events,
        forall|j: int|
            s.prepared().cursor <= j ==> #[trigger] s.advanced().drained().consumed(j)
                == s.consumed(j),
{
    let a = s.advanced();
    let d = a.drained();
    let p = s.prepared();
    let stop = a.scan_stop(ScanView::Drain, a.cursor, a.len());
    lemma_moved_to(s, s.cursor);
    lemma_next_open(s, s.cursor);
    lemma_scan_stop(a, ScanView::Drain, a.cursor, a.len());
    lemma_stashed_frame(a, ScanView::Drain, a.cursor, stop);
    lemma_drained(a);
    lemma_resolved(d, d.cursor, d.len());
    lemma_only_answers(d, d.cursor, d.len());
    lemma_prepared(s);
    let w = a.stashed(ScanView::Drain, a.cursor, stop);
    assert(forall|j: int| #[trigger] d.consumed(j) == w.consumed(j));
    assert(forall|j: int| #[trigger] a.consumed(j) == s.consumed(j));
    assert forall|j: int| s.cursor <= j < p.cursor && s.open_at(j) implies belongs_to_update(
        #[trigger] s.events[j],
    ) || waits_for_claim(s.events[j]) by {
        if j < a.cursor {
            assert(s.consumed(j));
        } else {
            assert(!(a.step_at(ScanView::Drain, j) is Halt));
        }
    }
    assert forall|j: int| s.cursor <= j < p.cursor implies #[trigger] p.consumed(j) by {
        if j < a.cursor {
            assert(s.consumed(j));
        } else {
            assert(!(a.step_at(ScanView::Drain, j) is Halt));
            assert(w.consumed(j));
        }
        assert(d.consumed(j));
        assert(p.consumed(j) != d.consumed(j) ==> d.cursor <= j);
    }
    assert forall|j: int| #[trigger] p.consumed(j) != s.consumed(j) implies s.cursor <= j
        < p.cursor || (p.cursor < j < s.len() && request_is_answered(s.events[j])) by {
        assert(d.consumed(j) == w.consumed(j));
        assert(a.consumed(j) == s.consumed(j));
        assert(p.consumed(j) != d.consumed(j) ==> d.cursor <= j < d.len());
        if p.consumed(j) != d.consumed(j) && j == p.cursor {
            assert(p.open_at(p.cursor));
        }
    }
}

/// What taking out the events from the cursor up to `n` does to the queue of
/// signals.
proof fn lemma_signals_queue_up(a: Replay, n: int)
    requires
        0 <= a.cursor <= n <= a.len(),
        forall|j: int| a.cursor <= j < n ==> !(#[trigger] a.step_at(ScanView::Drain, j) is Halt),
    ensures
        ({
            let q = a.stashed(ScanView::Drain, a.cursor, n).pending_signals;
            &&& q.len() >= a.pending_signals.len()
            &&& forall|k: int|
                0 <= k < a.pending_signals.len() ==> #[trigger] q[k] == a.pending_signals[k]
            &&& forall|k: int|
                a.pending_signals.len() <= k < q.len() ==> {
                    let e = #[trigger] q[k];
                    &&& a.cursor <= e.index < n
                    &&& a.open_at(e.index)
                    &&& a.events[e.index] matches WorkflowEvent::SignalReceived {
                        signal_name,
                        payload,
                    }
                    &&& e.name == signal_name@
                    &&& e.payload == json_view(payload)
                }
            &&& forall|i: int|
                a.cursor <= i < n && a.open_at(i) && #[trigger] a.events[i] is SignalReceived
                    ==> exists|k: int|
                    a.pending_signals.len() <= k < q.len() && (#[trigger] q[k]).index == i
        }),
    decreases n - a.cursor,
{
    if a.cursor < n {
        let b = a.stashed(ScanView::Drain, a.cursor, n - 1);
        let t = a.stashed(ScanView::Drain, a.cursor, n);
        lemma_signals_queue_up(a, n - 1);
        lemma_stashed_frame(a, ScanView::Drain, a.cursor, n - 1);
        assert(!(a.step_at(ScanView::Drain, n - 1) is Halt));
        let q = t.pending_signals;
        assert forall|i: int|
            a.cursor <= i < n && a.open_at(i) && #[trigger] a.events[i] is SignalReceived implies
            exists|k: int|
            a.pending_signals.len() <= k < q.len() && (#[trigger] q[k]).index == i by {
            if i < n - 1 {
                let k = choose|k: int|
                    a.pending_signals.len() <= k < b.pending_signals.len()
                        && (#[trigger] b.pending_signals[k]).index == i;
                assert(q[k].index == i);
            } else {
                assert(a.step_at(ScanView::Drain, n - 1) is Stash);
                assert(q[q.len() - 1].index == i);
            }
        }
    }
}

/// Outcomes that are noted leave the queue of signals alone.
proof fn lemma_answers_leave_signals(s: Replay, from: int, to: int)
    ensures
        s.resolved(from, to).pending_signals == s.pending_signals,
        s.resolved(from, to).events == s.events,
    decreases to - from,
{
    if from < to {
        lemma_answers_leave_signals(s, from, to - 1);
    }
}

/// Each signal in front of the next command waits, under its own name and with
/// its own payload, behind those that waited before; nothing else joins them.
pub proof fn law_signals_in_front_wait_with_what_they_carry(s: Replay)
    requires
        s.wf(),
    ensures
        ({
            let p = s.prepared();
            let q = p.pending_signals;
            &&& q.len() >= s.pending_signals.len()
            &&& forall|k: int|
                0 <= k < s.pending_signals.len() ==> #[trigger] q[k] == s.pending_signals[k]
            &&& forall|k: int|
                s.pending_signals.len() <= k < q.len() ==> {
                    let e = #[trigger] q[k];
                    &&& s.cursor <= e.index < p.cursor
                    &&& s.open_at(e.index)
                    &&& s.events[e.index] matches WorkflowEvent::SignalReceived {
                        signal_name,
                        payload,
                    }
                    &&& e.name == signal_name@
                    &&& e.payload == json_view(payload)
                }
            &&& forall|i: int|
                s.cursor <= i < p.cursor && s.open_at(i) && #[trigger] s.events[i] is SignalReceived
                    ==> exists|k: int|
                    s.pending_signals.len() <= k < q.len() && (#[trigger] q[k]).index == i
            &&& forall|j: int, k: int|
                0 <= j < k < q.len() ==> (#[trigger] q[j]).index < (#[trigger] q[k]).index
        }),
{
    let a = s.advanced();
    let d = a.drained();
    let stop = a.scan_stop(ScanView::Drain, a.cursor, a.len());
    lemma_moved_to(s, s.cursor);
    lemma_next_open(s, s.cursor);
    lemma_scan_stop(a, ScanView::Drain, a.cursor, a.len());
    lemma_signals_queue_up(a, stop);
    lemma_answers_leave_signals(d, d.cursor, d.len());
    lemma_drained(a);
    lemma_resolved(d, d.cursor, d.len());
    lemma_prepared(s);
    assert(forall|j: int| #[trigger] a.consumed(j) == s.consumed(j));
    assert(forall|j: int| #[trigger] a.open_at(j) == s.open_at(j));
    assert forall|i: int|
        s.cursor <= i < s.prepared().cursor && s.open_at(i)
            && #[trigger] s.events[i] is SignalReceived implies a.cursor <= i && a.open_at(i) by {
        if i < a.cursor {
            assert(s.consumed(i));
        }
    }
}

} // verus!
