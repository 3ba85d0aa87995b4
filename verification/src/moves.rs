//! What the moves of a replay keep.
use crate::event::WorkflowEvent;
use crate::kinds::{is_stashable, is_update};
use crate::replay::Replay;
use crate::scan::ScanView;
use crate::search::lemma_first_index;
use vstd::prelude::*;

verus! {

// ── Evolution ───────────────────────────────────────────────────────────────
/// A replay evolves to itself.
pub proof fn lemma_evolves_reflexive(s: Replay)
    ensures
        s.evolves_to(s),
{
}

/// Evolution composes.
pub proof fn lemma_evolves_transitive(a: Replay, b: Replay, c: Replay)
    requires
        a.evolves_to(b),
        b.evolves_to(c),
    ensures
        a.evolves_to(c),
{
}

// ── Cursor moves ────────────────────────────────────────────────────────────
/// Where the cursor lands when it is moved.
pub proof fn lemma_next_open(s: Replay, from: int)
    requires
        0 <= from <= s.len(),
    ensures
        from <= s.next_open(from) <= s.len(),
        s.next_open(from) < s.len() ==> !s.consumed(s.next_open(from)),
        forall|i: int| from <= i < s.next_open(from) ==> #[trigger] s.consumed(i),
{
    let p = |i: int| !s.consumed(i);
    lemma_first_index(p, from, s.len());
    assert forall|i: int| from <= i < s.next_open(from) implies #[trigger] s.consumed(i) by {
        assert(!p(i));
    }
}

/// From an event that is still to be claimed the cursor does not move.
pub proof fn lemma_next_open_here(s: Replay, from: int)
    requires
        0 <= from <= s.len(),
        from < s.len() ==> !s.consumed(from),
    ensures
        s.next_open(from) == from,
{
    let p = |i: int| !s.consumed(i);
    assert(from < s.len() ==> p(from));
}

/// Placing the cursor further ahead keeps the invariant.
pub proof fn lemma_at(s: Replay, c: int)
    requires
        s.wf(),
        s.cursor <= c <= s.len(),
    ensures
        s.at(c).wf(),
        s.evolves_to(s.at(c)),
{
    let t = s.at(c);
    assert forall|k: int, i: int|
        0 <= k < t.pending_signals.len() && t.cursor <= i && #[trigger] t.open_signal(
            i,
        ) implies (#[trigger] t.pending_signals[k]).index < i by {
        assert(s.open_signal(i));
    }
    assert forall|k: int| 0 <= k < t.pending_signals.len() implies t.pending_entry_wf(
        #[trigger] t.pending_signals[k],
    ) by {
        assert(s.pending_entry_wf(s.pending_signals[k]));
    }
    assert forall|i: int| #[trigger] t.undelivered(i) implies s.undelivered(i) by {
        if t.is_pending(i) {
            let k = choose|k: int|
                0 <= k < t.pending_signals.len() && #[trigger] t.pending_signals[k].index == i;
            assert(s.pending_signals[k].index == i);
        }
    }
}

/// Moving the cursor ahead keeps the invariant.
pub proof fn lemma_moved_to(s: Replay, c: int)
    requires
        s.wf(),
        s.cursor <= c <= s.len(),
    ensures
        s.moved_to(c).wf(),
        s.evolves_to(s.moved_to(c)),
        c <= s.moved_to(c).cursor <= s.len(),
        s.moved_to(c).cursor < s.len() ==> !s.moved_to(c).consumed(s.moved_to(c).cursor),
{
    lemma_next_open(s, c);
    lemma_at(s, s.next_open(c));
}

/// Changing what has no part in matching the next event keeps the invariant.
pub proof fn lemma_side_fields(s: Replay, t: Replay)
    requires
        s.wf(),
        t == (Replay {
            external_signals: t.external_signals,
            external_cancels: t.external_cancels,
            external_awaits: t.external_awaits,
            late: t.late,
            deprecated: t.deprecated,
            latched: t.latched,
            scan_stopped: t.scan_stopped,
            ..s
        }),
        s.late.subset_of(t.late),
        forall|i: int| #[trigger] t.late.contains(i) ==> 0 <= i < s.len(),
        s.latched.subset_of(t.latched),
        forall|id: Seq<char>| #[trigger]
            s.deprecated.contains_key(id) ==> t.deprecated.contains_key(id) && t.deprecated[id]
                == s.deprecated[id],
    ensures
        t.wf(),
        s.evolves_to(t),
{
    assert forall|k: int, i: int|
        0 <= k < t.pending_signals.len() && t.cursor <= i && #[trigger] t.open_signal(
            i,
        ) implies (#[trigger] t.pending_signals[k]).index < i by {
        assert(s.open_signal(i));
    }
    assert forall|k: int| 0 <= k < t.pending_signals.len() implies t.pending_entry_wf(
        #[trigger] t.pending_signals[k],
    ) by {
        assert(s.pending_entry_wf(s.pending_signals[k]));
    }
    assert forall|i: int| #[trigger] t.undelivered(i) implies s.undelivered(i) by {
        if t.is_pending(i) {
            let k = choose|k: int|
                0 <= k < t.pending_signals.len() && #[trigger] t.pending_signals[k].index == i;
            assert(s.pending_signals[k].index == i);
        }
    }
}

// ── Claims ──────────────────────────────────────────────────────────────────
/// Claiming further events ahead of the cursor keeps the invariant.
pub proof fn lemma_claims(s: Replay, more: Set<int>)
    requires
        s.wf(),
        forall|i: int| #[trigger] more.contains(i) ==> 0 <= i < s.len(),
    ensures
        (Replay { out_of_order: s.out_of_order.union(more), ..s }).wf(),
        s.evolves_to(Replay { out_of_order: s.out_of_order.union(more), ..s }),
{
    let t = Replay { out_of_order: s.out_of_order.union(more), ..s };
    assert forall|k: int, i: int|
        0 <= k < t.pending_signals.len() && t.cursor <= i && #[trigger] t.open_signal(
            i,
        ) implies (#[trigger] t.pending_signals[k]).index < i by {
        assert(s.open_signal(i));
    }
    assert forall|k: int| 0 <= k < t.pending_signals.len() implies t.pending_entry_wf(
        #[trigger] t.pending_signals[k],
    ) by {
        assert(s.pending_entry_wf(s.pending_signals[k]));
    }
    assert forall|i: int| #[trigger] t.undelivered(i) implies s.undelivered(i) by {
        if t.is_pending(i) {
            let k = choose|k: int|
                0 <= k < t.pending_signals.len() && #[trigger] t.pending_signals[k].index == i;
            assert(s.pending_signals[k].index == i);
        }
    }
}

/// Claiming one event ahead of the cursor keeps the invariant.
pub proof fn lemma_claimed(s: Replay, i: int)
    requires
        s.wf(),
        0 <= i < s.len(),
    ensures
        s.claimed(i).wf(),
        s.evolves_to(s.claimed(i)),
{
    lemma_claims(s, set![i]);
    assert(s.out_of_order.union(set![i]) =~= s.out_of_order.insert(i));
}

/// Delivering a signal out of history keeps the invariant.
pub proof fn lemma_delivered(s: Replay, i: int)
    requires
        s.wf(),
        0 <= i < s.len(),
    ensures
        s.delivered(i).wf(),
        s.evolves_to(s.delivered(i)),
{
    let t = s.delivered(i);
    assert forall|k: int, j: int|
        0 <= k < t.pending_signals.len() && t.cursor <= j && #[trigger] t.open_signal(
            j,
        ) implies (#[trigger] t.pending_signals[k]).index < j by {
        assert(s.open_signal(j));
    }
    assert forall|k: int| 0 <= k < t.pending_signals.len() implies t.pending_entry_wf(
        #[trigger] t.pending_signals[k],
    ) by {
        assert(s.pending_entry_wf(s.pending_signals[k]));
    }
    assert forall|j: int| #[trigger] t.undelivered(j) implies s.undelivered(j) by {
        if t.is_pending(j) {
            let k = choose|k: int|
                0 <= k < t.pending_signals.len() && #[trigger] t.pending_signals[k].index == j;
            assert(s.pending_signals[k].index == j);
        }
    }
}

/// Delivering a pending signal keeps the invariant, and that signal is
/// delivered for good.
pub proof fn lemma_dequeued(s: Replay, k: int)
    requires
        s.wf(),
        0 <= k < s.pending_signals.len(),
    ensures
        s.dequeued(k).wf(),
        s.evolves_to(s.dequeued(k)),
        s.undelivered(s.pending_signals[k].index),
        !s.dequeued(k).undelivered(s.pending_signals[k].index),
{
    let t = s.dequeued(k);
    let gone = s.pending_signals[k].index;
    assert(s.pending_entry_wf(s.pending_signals[k]));
    assert forall|j: int| 0 <= j < t.pending_signals.len() implies #[trigger] t.pending_signals[j]
        == s.pending_signals[if j < k {
        j
    } else {
        j + 1
    }] by {}
    assert forall|j: int| 0 <= j < t.pending_signals.len() implies t.pending_entry_wf(
        #[trigger] t.pending_signals[j],
    ) by {
        let o = if j < k {
            j
        } else {
            j + 1
        };
        assert(s.pending_entry_wf(s.pending_signals[o]));
    }
    assert forall|j: int, i: int|
        0 <= j < t.pending_signals.len() && t.cursor <= i && #[trigger] t.open_signal(
            i,
        ) implies (#[trigger] t.pending_signals[j]).index < i by {
        let o = if j < k {
            j
        } else {
            j + 1
        };
        assert(s.open_signal(i));
        assert(s.pending_signals[o].index < i);
    }
    assert forall|i: int| #[trigger] t.undelivered(i) implies s.undelivered(i) by {
        if t.is_pending(i) {
            let j = choose|j: int|
                0 <= j < t.pending_signals.len() && #[trigger] t.pending_signals[j].index == i;
            let o = if j < k {
                j
            } else {
                j + 1
            };
            assert(s.pending_signals[o].index == i);
        }
    }
    assert(s.is_pending(gone));
    if t.is_pending(gone) {
        let j = choose|j: int|
            0 <= j < t.pending_signals.len() && #[trigger] t.pending_signals[j].index == gone;
        let o = if j < k {
            j
        } else {
            j + 1
        };
        assert(s.pending_signals[o].index == gone);
    }
}

// ── Keeping events aside ────────────────────────────────────────────────────
/// What taking one event out of history leaves as it was.
pub proof fn lemma_absorbed_frame(s: Replay, i: int)
    ensures
        s.absorbed(i).events == s.events,
        s.absorbed(i).cursor == s.cursor,
        s.absorbed(i).out_of_order == s.out_of_order,
        s.absorbed(i).signals_consumed == s.signals_consumed.insert(i),
        s.absorbed(i).transparent == s.transparent,
        s.absorbed(i).late == s.late,
        s.absorbed(i).reserved == s.reserved,
        s.absorbed(i).deprecated == s.deprecated,
        s.absorbed(i).latched == s.latched,
        s.absorbed(i).scan_stopped == s.scan_stopped,
        s.absorbed(i).failure_tail == s.failure_tail,
        !(s.events[i] is SignalReceived) ==> s.absorbed(i).pending_signals == s.pending_signals,
        forall|j: int| #[trigger] s.absorbed(i).consumed(j) == (s.consumed(j) || j == i),
{
}

/// Taking an event out of history in its turn keeps the invariant.
pub proof fn lemma_absorbed(s: Replay, i: int)
    requires
        s.wf(),
        s.open_at(i),
        s.events[i] is SignalReceived ==> s.cursor <= i && forall|j: int|
            s.cursor <= j < i ==> !#[trigger] s.open_signal(j),
    ensures
        s.absorbed(i).wf(),
        s.evolves_to(s.absorbed(i)),
{
    let t = s.absorbed(i);
    lemma_absorbed_frame(s, i);
    let n = s.pending_signals.len();
    assert forall|j: int| t.open_signal(j) implies s.open_signal(j) && j != i by {
        assert(t.consumed(j) == (s.consumed(j) || j == i));
    }
    assert forall|k: int| 0 <= k < t.pending_signals.len() implies t.pending_entry_wf(
        #[trigger] t.pending_signals[k],
    ) by {
        if k < n {
            assert(s.pending_entry_wf(s.pending_signals[k]));
        }
    }
    assert forall|k: int| 0 <= k < n implies #[trigger] t.pending_signals[k]
        == s.pending_signals[k] by {}
    if s.events[i] is SignalReceived {
        assert(s.open_signal(i));
        assert(t.pending_signals.len() == n + 1);
    }
    assert forall|j: int, k: int| 0 <= j < k < t.pending_signals.len() implies (
    #[trigger] t.pending_signals[j]).index < (#[trigger] t.pending_signals[k]).index by {
        if k == n {
            assert(s.pending_signals[j].index < i);
        } else {
            assert(s.pending_signals[j].index < s.pending_signals[k].index);
        }
    }
    assert forall|k: int, j: int|
        0 <= k < t.pending_signals.len() && t.cursor <= j && #[trigger] t.open_signal(
            j,
        ) implies (#[trigger] t.pending_signals[k]).index < j by {
        assert(s.open_signal(j));
        if k < n {
            assert(s.pending_signals[k].index < j);
        }
    }
    assert forall|j: int| #[trigger] t.undelivered(j) implies s.undelivered(j) by {
        assert(t.consumed(j) == (s.consumed(j) || j == i));
        if t.is_pending(j) {
            let k = choose|k: int|
                0 <= k < t.pending_signals.len() && #[trigger] t.pending_signals[k].index == j;
            if k < n {
                assert(s.pending_signals[k].index == j);
            }
        }
    }
}

/// What keeping a range aside leaves as it was, and what it takes.
pub proof fn lemma_stashed_frame(s: Replay, scan: ScanView, from: int, to: int)
    ensures
        s.stashed(scan, from, to).events == s.events,
        s.stashed(scan, from, to).cursor == s.cursor,
        s.stashed(scan, from, to).out_of_order == s.out_of_order,
        s.stashed(scan, from, to).transparent == s.transparent,
        s.stashed(scan, from, to).late == s.late,
        s.stashed(scan, from, to).reserved == s.reserved,
        s.stashed(scan, from, to).deprecated == s.deprecated,
        s.stashed(scan, from, to).latched == s.latched,
        s.stashed(scan, from, to).scan_stopped == s.scan_stopped,
        s.stashed(scan, from, to).failure_tail == s.failure_tail,
        forall|j: int| #[trigger]
            s.stashed(scan, from, to).consumed(j) == (s.consumed(j) || (from <= j < to
                && s.step_at(scan, j) is Stash)),
    decreases to - from,
{
    if from < to {
        lemma_stashed_frame(s, scan, from, to - 1);
        lemma_absorbed_frame(s.stashed(scan, from, to - 1), to - 1);
    }
}

/// What the scans take out of history, and how they treat signals: one scan
/// crosses them, every other one keeps them aside, looks for them or ends at
/// them.
pub proof fn lemma_step_classes(scan: ScanView, e: WorkflowEvent)
    ensures
        scan.step(e) is Stash ==> is_stashable(e) || is_update(e),
        scan is SagaMarker ==> !(scan.step(e) is Stash),
        !(scan is SagaMarker) && e is SignalReceived ==> !(scan.step(e) is Pass) && !(scan.step(
            e,
        ) is Command),
{
}

/// Keeping a range aside that the scan crosses keeps the invariant, and leaves
/// no signal of the range in history.
pub proof fn lemma_stashed(s: Replay, scan: ScanView, from: int, to: int)
    requires
        s.wf(),
        s.cursor <= from <= to <= s.len(),
        forall|i: int| s.cursor <= i < from ==> !#[trigger] s.open_signal(i),
        forall|i: int|
            from <= i < to ==> !(#[trigger] s.step_at(scan, i) is Hit) && !(s.step_at(
                scan,
                i,
            ) is Halt),
    ensures
        s.stashed(scan, from, to).wf(),
        s.evolves_to(s.stashed(scan, from, to)),
        !(scan is SagaMarker) ==> forall|i: int|
            s.cursor <= i < to ==> !#[trigger] s.stashed(scan, from, to).open_signal(i),
        scan is SagaMarker ==> s.stashed(scan, from, to) == s,
    decreases to - from,
{
    if from < to {
        let i = to - 1;
        let b = s.stashed(scan, from, i);
        lemma_stashed(s, scan, from, i);
        lemma_stashed_frame(s, scan, from, i);
        lemma_step_classes(scan, s.events[i]);
        assert(!(s.step_at(scan, i) is Hit) && !(s.step_at(scan, i) is Halt));
        assert(b.consumed(i) == s.consumed(i));
        let t = s.stashed(scan, from, to);
        if s.step_at(scan, i) is Stash {
            lemma_absorbed(b, i);
            lemma_absorbed_frame(b, i);
            lemma_evolves_transitive(s, b, b.absorbed(i));
        }
        if !(scan is SagaMarker) {
            assert forall|j: int| s.cursor <= j < to implies !#[trigger] t.open_signal(j) by {
                if j < i {
                    assert(!b.open_signal(j));
                    if s.step_at(scan, i) is Stash {
                        assert(t.consumed(j) == (b.consumed(j) || j == i));
                    }
                } else if t.open_signal(i) {
                    if s.step_at(scan, i) is Stash {
                        assert(t.consumed(j) == (b.consumed(j) || j == i));
                    }
                }
            }
        }
    }
}

// ── Scans ───────────────────────────────────────────────────────────────────
/// Where a scan stops and what it crosses on the way.
pub proof fn lemma_scan_stop(s: Replay, scan: ScanView, from: int, end: int)
    requires
        from <= end,
    ensures
        from <= s.scan_stop(scan, from, end) <= end,
        forall|i: int|
            from <= i < s.scan_stop(scan, from, end) ==> !(#[trigger] s.step_at(scan, i) is Hit)
                && !(s.step_at(scan, i) is Halt),
        s.scan_stop(scan, from, end) < end ==> {
            let stop = s.scan_stop(scan, from, end);
            s.step_at(scan, stop) is Hit || s.step_at(scan, stop) is Halt
        },
        s.scan_command(scan, from, end) matches Some(c) ==> from <= c < s.scan_stop(scan, from, end)
            && s.step_at(scan, c) is Command,
{
    let p = |i: int| s.step_at(scan, i) is Hit || s.step_at(scan, i) is Halt;
    lemma_first_index(p, from, end);
    let stop = s.scan_stop(scan, from, end);
    assert forall|i: int| from <= i < stop implies !(#[trigger] s.step_at(scan, i) is Hit) && !(
    s.step_at(scan, i) is Halt) by {
        assert(!p(i));
    }
    lemma_first_index(|i: int| s.step_at(scan, i) is Command, from, stop);
}

/// A scan from ahead of the cursor keeps the invariant; what it does not keep
/// aside stays as it was.
pub proof fn lemma_scanned(s: Replay, scan: ScanView, from: int, end: int)
    requires
        s.wf(),
        s.cursor <= from <= end <= s.len(),
        forall|i: int| s.cursor <= i < from ==> !#[trigger] s.open_signal(i),
    ensures
        s.scanned(scan, from, end).wf(),
        s.evolves_to(s.scanned(scan, from, end)),
        s.scanned(scan, from, end).events == s.events,
        s.scanned(scan, from, end).cursor == s.cursor,
        from <= s.scan_stop(scan, from, end) <= end,
        s.scan_command(scan, from, end) matches Some(c) ==> from <= c < s.scan_stop(
            scan,
            from,
            end,
        ),
        forall|j: int|
            !(from <= j < s.scan_stop(scan, from, end)) ==> #[trigger] s.scanned(
                scan,
                from,
                end,
            ).consumed(j) == s.consumed(j),
{
    lemma_scan_stop(s, scan, from, end);
    lemma_stashed(s, scan, from, s.scan_stop(scan, from, end));
    lemma_stashed_frame(s, scan, from, s.scan_stop(scan, from, end));
}

// ── Before every command ────────────────────────────────────────────────────
/// Draining keeps the invariant, and leaves the cursor at an event that is still
/// to be claimed and is not kept aside.
pub proof fn lemma_drained(s: Replay)
    requires
        s.wf(),
    ensures
        s.drained().wf(),
        s.evolves_to(s.drained()),
        s.drained().cursor == s.scan_stop(ScanView::Drain, s.cursor, s.len()),
        s.drained().cursor < s.len() ==> !s.drained().consumed(s.drained().cursor)
            && !is_stashable(s.events[s.drained().cursor]) && !is_update(
            s.events[s.drained().cursor],
        ),
{
    let end = s.len();
    lemma_scanned(s, ScanView::Drain, s.cursor, end);
    lemma_scan_stop(s, ScanView::Drain, s.cursor, end);
    lemma_at(s.scanned(ScanView::Drain, s.cursor, end), s.scan_stop(ScanView::Drain, s.cursor, end));
    lemma_evolves_transitive(s, s.scanned(ScanView::Drain, s.cursor, end), s.drained());
    let stop = s.drained().cursor;
    assert(s.scanned(ScanView::Drain, s.cursor, end).consumed(stop) == s.consumed(stop));
}

/// Noting the outcomes of external signals and cancels keeps the invariant, and
/// takes nothing else.
pub proof fn lemma_resolved(s: Replay, from: int, to: int)
    requires
        s.wf(),
        0 <= from,
        to <= s.len(),
    ensures
        s.resolved(from, to).wf(),
        s.evolves_to(s.resolved(from, to)),
        s.resolved(from, to).cursor == s.cursor,
        s.resolved(from, to).out_of_order == s.out_of_order,
        s.resolved(from, to).pending_signals == s.pending_signals,
        s.resolved(from, to).late == s.late,
        s.resolved(from, to).deprecated == s.deprecated,
        s.resolved(from, to).latched == s.latched,
        s.resolved(from, to).scan_stopped == s.scan_stopped,
        forall|j: int|
            #![trigger s.resolved(from, to).consumed(j)]
            s.resolved(from, to).consumed(j) == s.consumed(j) || (from <= j < to && is_stashable(
                s.events[j],
            ) && !(s.events[j] is SignalReceived)),
    decreases to - from,
{
    if from < to {
        let b = s.resolved(from, to - 1);
        lemma_resolved(s, from, to - 1);
        if !b.consumed(to - 1) && b.awaits_outcome(s.events[to - 1]) {
            lemma_absorbed(b, to - 1);
            lemma_absorbed_frame(b, to - 1);
            lemma_evolves_transitive(s, b, s.resolved(from, to));
        }
    }
}

/// With no request taken out, no outcome is awaited.
pub proof fn lemma_nothing_to_await(s: Replay, e: WorkflowEvent)
    requires
        s.external_signals.len() == 0,
        s.external_cancels.len() == 0,
    ensures
        !s.awaits_outcome(e),
{
}

/// Where no outcome is awaited, nothing is noted.
pub proof fn lemma_resolved_idle(s: Replay, from: int, to: int)
    requires
        forall|j: int|
            from <= j < to && !#[trigger] s.consumed(j) ==> !s.awaits_outcome(s.events[j]),
    ensures
        s.resolved(from, to) == s,
    decreases to - from,
{
    if from < to {
        lemma_resolved_idle(s, from, to - 1);
    }
}

/// The state in which a command is matched: the invariant holds, and the cursor
/// stands at an event that is still to be claimed and is not kept aside, or at
/// the end.
pub proof fn lemma_prepared(s: Replay)
    requires
        s.wf(),
    ensures
        s.prepared().wf(),
        s.evolves_to(s.prepared()),
        s.prepared().replaying() == (s.prepared().cursor < s.len()),
        s.prepared().cursor < s.len() ==> s.prepared().open_at(s.prepared().cursor)
            && !is_stashable(s.events[s.prepared().cursor]) && !is_update(
            s.events[s.prepared().cursor],
        ),
        s.prepared().scan_stopped == s.scan_stopped,
{
    let a = s.advanced();
    lemma_moved_to(s, s.cursor);
    let d = a.drained();
    lemma_drained(a);
    lemma_stashed_frame(a, ScanView::Drain, a.cursor, a.scan_stop(ScanView::Drain, a.cursor, a.len()));
    lemma_evolves_transitive(s, a, d);
    let r = s.prepared();
    lemma_resolved(d, d.cursor, d.len());
    lemma_evolves_transitive(s, d, r);
    if r.cursor < s.len() {
        assert(r.consumed(r.cursor) == d.consumed(r.cursor));
        lemma_next_open_here(r, r.cursor);
    } else {
        lemma_next_open_here(r, r.cursor);
    }
}

// ── After every scan ────────────────────────────────────────────────────────
/// Returning to a crossed command keeps the invariant.
pub proof fn lemma_rewound(s: Replay, command: Option<int>)
    requires
        s.wf(),
        command matches Some(c) ==> s.cursor <= c <= s.len(),
    ensures
        s.rewound(command).wf(),
        s.evolves_to(s.rewound(command)),
{
    match command {
        Some(c) => lemma_moved_to(s, c),
        None => lemma_evolves_reflexive(s),
    }
}

/// Settling an event keeps the invariant.
pub proof fn lemma_settled(s: Replay, t: int, command: Option<int>)
    requires
        s.wf(),
        s.cursor <= t < s.len(),
        command matches Some(c) ==> s.cursor <= c <= s.len(),
    ensures
        s.settled(t, command).wf(),
        s.evolves_to(s.settled(t, command)),
{
    match command {
        Some(c) => {
            lemma_claimed(s, t);
            lemma_moved_to(s.claimed(t), c);
            lemma_evolves_transitive(s, s.claimed(t), s.settled(t, command));
        },
        None => lemma_moved_to(s, t + 1),
    }
}

/// Settling an outcome keeps the invariant.
pub proof fn lemma_settled_outcome(s: Replay, t: int, command: Option<int>)
    requires
        s.wf(),
        s.cursor <= t < s.len(),
        command matches Some(c) ==> s.cursor <= c <= s.len(),
    ensures
        s.settled_outcome(t, command).wf(),
        s.evolves_to(s.settled_outcome(t, command)),
{
    match command {
        Some(c) => {
            let more = set![t].union(s.progress_before(c, t));
            lemma_claims(s, more);
            let m = Replay { out_of_order: s.out_of_order.union(more), ..s };
            assert(s.out_of_order.union(more) =~= s.out_of_order.insert(t).union(
                s.progress_before(c, t),
            ));
            lemma_moved_to(m, c);
            lemma_evolves_transitive(s, m, s.settled_outcome(t, command));
        },
        None => lemma_moved_to(s, t + 1),
    }
}

/// Whatever a command makes of its scan keeps the invariant.
pub proof fn lemma_scan_end(s: Replay, scan: ScanView, from: int, end: int)
    requires
        s.wf(),
        s.cursor <= from <= end <= s.len(),
        forall|i: int| s.cursor <= i < from ==> !#[trigger] s.open_signal(i),
    ensures
        ({
            let t = s.scanned(scan, from, end);
            let stop = s.scan_stop(scan, from, end);
            let command = s.scan_command(scan, from, end);
            &&& t.wf()
            &&& s.evolves_to(t)
            &&& t.rewound(command).wf()
            &&& s.evolves_to(t.rewound(command))
            &&& stop < end ==> {
                &&& t.settled(stop, command).wf()
                &&& s.evolves_to(t.settled(stop, command))
                &&& t.settled_outcome(stop, command).wf()
                &&& s.evolves_to(t.settled_outcome(stop, command))
            }
        }),
{
    let t = s.scanned(scan, from, end);
    let stop = s.scan_stop(scan, from, end);
    let command = s.scan_command(scan, from, end);
    lemma_scanned(s, scan, from, end);
    lemma_rewound(t, command);
    lemma_evolves_transitive(s, t, t.rewound(command));
    if stop < end {
        lemma_settled(t, stop, command);
        lemma_evolves_transitive(s, t, t.settled(stop, command));
        lemma_settled_outcome(t, stop, command);
        lemma_evolves_transitive(s, t, t.settled_outcome(stop, command));
    }
}

} // verus!
