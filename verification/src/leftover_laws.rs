//! What is left of a history when the workflow ends, told by what is recorded.
use crate::event::WorkflowEvent;
use crate::moves::lemma_next_open;
use crate::replay::Replay;
use crate::vocabulary::{belongs_to_update, issues_command, reports_progress};
use vstd::prelude::*;

verus! {

/// Whether the event ends the run.
pub open spec fn ends_run(e: WorkflowEvent) -> bool {
    match e {
        WorkflowEvent::WorkflowCompleted { .. } => true,
        WorkflowEvent::WorkflowFailed { .. } => true,
        WorkflowEvent::WorkflowCancelled { .. } => true,
        WorkflowEvent::WorkflowContinuedAsNew { .. } => true,
        _ => false,
    }
}

/// History that nobody claimed is never overlooked, and nothing else is taken for
/// it: it is left over exactly where an event ahead of the cursor was not taken,
/// other than the end of the run, updates and signals that lost a race; or where
/// a signal was taken out and not delivered, unless it lost a race; or where a
/// request to another workflow was taken out and not claimed.
pub proof fn law_unclaimed_history_is_left_over(s: Replay)
    ensures
        s.unconsumed() <==> {
            ||| exists|i: int|
                #![trigger s.events[i]]
                {
                    &&& s.cursor <= i < s.len() && 0 <= i
                    &&& !s.out_of_order.contains(i)
                    &&& !s.signals_consumed.contains(i)
                    &&& !s.transparent.contains(i)
                    &&& !s.late.contains(i)
                    &&& !ends_run(s.events[i])
                    &&& !belongs_to_update(s.events[i])
                }
            ||| exists|k: int|
                0 <= k < s.pending_signals.len() && !s.late.contains(
                    (#[trigger] s.pending_signals[k]).index,
                )
            ||| s.external_signals.len() > 0
            ||| s.external_cancels.len() > 0
            ||| s.external_awaits.len() > 0
        },
{
    if exists|i: int|
        #![trigger s.events[i]]
        {
            &&& s.cursor <= i < s.len() && 0 <= i
            &&& !s.out_of_order.contains(i)
            &&& !s.signals_consumed.contains(i)
            &&& !s.transparent.contains(i)
            &&& !s.late.contains(i)
            &&& !ends_run(s.events[i])
            &&& !belongs_to_update(s.events[i])
        } {
        let i = choose|i: int|
            #![trigger s.events[i]]
            {
                &&& s.cursor <= i < s.len() && 0 <= i
                &&& !s.out_of_order.contains(i)
                &&& !s.signals_consumed.contains(i)
                &&& !s.transparent.contains(i)
                &&& !s.late.contains(i)
                &&& !ends_run(s.events[i])
                &&& !belongs_to_update(s.events[i])
            };
        assert(s.unclaimed_command(i));
    }
    if exists|i: int| #[trigger] s.unclaimed_command(i) {
        let i = choose|i: int| #[trigger] s.unclaimed_command(i);
        assert(!ends_run(s.events[i]));
    }
}

/// A command that the workflow no longer issues is noticed, and so is whatever is
/// recorded of its progress: an activity, local activity, child, timer, marker,
/// side effect or lock ahead of the cursor that nobody claimed is left over.
pub proof fn law_dropped_command_is_noticed(s: Replay, i: int)
    requires
        s.wf(),
        s.cursor <= i < s.len(),
        !s.consumed(i),
        issues_command(s.events[i]) || reports_progress(s.events[i]) || s.events[i] is MutexGranted
            || s.events[i] is ActivityAwaitingExternal || s.events[i] is LocalActivityExhausted,
        !s.late.contains(i),
    ensures
        s.unconsumed(),
        s.buffered(),
        s.replaying(),
{
    law_unclaimed_history_is_left_over(s);
    lemma_next_open(s, s.cursor);
    if s.next_open(s.cursor) == s.len() {
        assert(s.consumed(i));
    }
}

/// Once every event ahead of the cursor was taken and nothing that was taken out
/// waits, no history is left; a replay that has not come that far is not over.
pub proof fn law_history_is_used_up_exactly_when_all_is_taken(s: Replay)
    requires
        s.wf(),
    ensures
        s.replaying() <==> exists|i: int| s.cursor <= i < s.len() && !#[trigger] s.consumed(i),
        s.buffered() <==> (s.replaying() || s.pending_signals.len() > 0 || s.external_signals.len()
            > 0 || s.external_cancels.len() > 0 || s.external_awaits.len() > 0),
        !s.buffered() ==> !s.unconsumed(),
{
    lemma_next_open(s, s.cursor);
    let n = s.next_open(s.cursor);
    if s.replaying() {
        assert(s.cursor <= n < s.len() && !s.consumed(n));
    }
    law_unclaimed_history_is_left_over(s);
    if !s.replaying() {
        assert forall|i: int| s.cursor <= i < s.len() implies s.consumed(i) by {}
    }
}

/// Skipping moves past exactly one event that is still to be claimed and past what
/// is taken behind it; at the end of history it changes nothing.
pub proof fn law_skipping_moves_past_one_event(s: Replay)
    requires
        s.wf(),
    ensures
        s.skipped() == (Replay { cursor: s.skipped().cursor, ..s }),
        s.cursor < s.len() ==> {
            &&& s.cursor < s.skipped().cursor <= s.len()
            &&& forall|i: int| s.cursor < i < s.skipped().cursor ==> #[trigger] s.consumed(i)
            &&& s.skipped().cursor < s.len() ==> !s.consumed(s.skipped().cursor)
        },
        s.cursor == s.len() ==> s.skipped() == s,
{
    if s.cursor < s.len() {
        lemma_next_open(s, s.cursor + 1);
    }
}

} // verus!
