//! What holds of signals to, cancels of and awaits of other workflows.
use crate::event::WorkflowEvent;
use crate::laws::{lemma_nothing_awaited_when_prepared, lemma_prepared_stays};
use crate::moves::lemma_prepared;
use crate::outcome::HistoryMatchView;
use crate::replay::Replay;
use crate::search::{first_index, lemma_first_index, lemma_first_index_is};
use crate::stash::{await_of, cancel_position, cancel_to, signal_position, signal_to};
use crate::types::{ExecutionId, ExternalCancelId, ExternalSignalId, ExternalTarget};
use vstd::prelude::*;

verus! {

/// Where `p` holds in a list from which an entry was taken at which `p` does not
/// hold: at the place of the same entry.
proof fn lemma_first_after_removal<T>(
    list: Seq<T>,
    p: spec_fn(int) -> bool,
    q: spec_fn(int) -> bool,
    gone: int,
)
    requires
        0 <= gone < list.len(),
        !p(gone),
        first_index(p, 0, list.len() as int) < list.len(),
        forall|k: int|
            0 <= k < list.len() - 1 ==> #[trigger] q(k) == p(
                if k < gone {
                    k
                } else {
                    k + 1
                },
            ),
    ensures
        ({
            let k = first_index(p, 0, list.len() as int);
            first_index(q, 0, list.len() - 1) == if k < gone {
                k
            } else {
                k - 1
            }
        }),
{
    let k = first_index(p, 0, list.len() as int);
    lemma_first_index(p, 0, list.len() as int);
    let n = if k < gone {
        k
    } else {
        k - 1
    };
    assert(k != gone);
    assert(q(n));
    assert forall|j: int| 0 <= j < n implies !#[trigger] q(j) by {
        let o = if j < gone {
            j
        } else {
            j + 1
        };
        assert(!p(o));
    }
    lemma_first_index_is(q, 0, list.len() - 1, n);
}

/// Taking a signal out of the list leaves no new outcome awaited.
proof fn lemma_fewer_signals_await(s: Replay, k: int)
    requires
        0 <= k < s.external_signals.len(),
    ensures
        ({
            let t = Replay { external_signals: s.external_signals.remove(k), ..s };
            forall|e: WorkflowEvent| #[trigger] t.awaits_outcome(e) ==> s.awaits_outcome(e)
        }),
{
    let t = Replay { external_signals: s.external_signals.remove(k), ..s };
    let a = s.external_signals;
    let b = t.external_signals;
    assert forall|id: ExternalSignalId| #[trigger] signal_position(b, id) < b.len() implies
        signal_position(a, id) < a.len() by {
        lemma_first_index(|k: int| a[k].signal_id == id, 0, a.len() as int);
        lemma_first_index(|k: int| b[k].signal_id == id, 0, b.len() as int);
        let n = signal_position(b, id);
        let o = if n < k {
            n
        } else {
            n + 1
        };
        assert(b[n].signal_id == id);
        assert(a[o].signal_id == id);
        let p = |k: int| a[k].signal_id == id;
        assert(p(o));
    }
}

/// Taking a cancel out of the list leaves no new outcome awaited.
proof fn lemma_fewer_cancels_await(s: Replay, k: int)
    requires
        0 <= k < s.external_cancels.len(),
    ensures
        ({
            let t = Replay { external_cancels: s.external_cancels.remove(k), ..s };
            forall|e: WorkflowEvent| #[trigger] t.awaits_outcome(e) ==> s.awaits_outcome(e)
        }),
{
    let t = Replay { external_cancels: s.external_cancels.remove(k), ..s };
    let a = s.external_cancels;
    let b = t.external_cancels;
    assert forall|id: ExternalCancelId| #[trigger] cancel_position(b, id) < b.len() implies
        cancel_position(a, id) < a.len() by {
        lemma_first_index(|k: int| a[k].cancel_id == id, 0, a.len() as int);
        lemma_first_index(|k: int| b[k].cancel_id == id, 0, b.len() as int);
        let n = cancel_position(b, id);
        let o = if n < k {
            n
        } else {
            n + 1
        };
        assert(b[n].cancel_id == id);
        assert(a[o].cancel_id == id);
        let p = |k: int| a[k].cancel_id == id;
        assert(p(o));
    }
}

/// One step of claiming two recorded signals one after the other.
proof fn lemma_signal_claimed_second(
    s: Replay,
    target: ExternalTarget,
    name: Seq<char>,
    other: ExternalTarget,
    other_name: Seq<char>,
)
    requires
        s.wf(),
        target != other || name != other_name,
        signal_to(s.prepared().external_signals, target, name)
            < s.prepared().external_signals.len(),
        signal_to(s.prepared().external_signals, other, other_name)
            < s.prepared().external_signals.len(),
    ensures
        ({
            let p = s.prepared();
            let list = p.external_signals;
            let k = signal_to(list, target, name);
            let o = signal_to(list, other, other_name);
            let n = if o < k {
                o
            } else {
                o - 1
            };
            let after = s.external_signal(target, name).0;
            &&& 0 <= k < list.len()
            &&& 0 <= o < list.len()
            &&& k != o
            &&& after.external_signal(other, other_name).1 == s.external_signal(
                other,
                other_name,
            ).1
            &&& after.external_signal(other, other_name).0 == (Replay {
                external_signals: list.remove(k).remove(n),
                ..p
            })
        }),
{
    let p = s.prepared();
    let list = p.external_signals;
    let first = |k: int| list[k].target == target && list[k].signal_name == name;
    let second = |k: int| list[k].target == other && list[k].signal_name == other_name;
    lemma_first_index(first, 0, list.len() as int);
    lemma_first_index(second, 0, list.len() as int);
    let k = signal_to(list, target, name);
    let o = signal_to(list, other, other_name);
    assert(first(k) && second(o));
    let after = s.external_signal(target, name).0;
    let rest = list.remove(k);
    assert(after.external_signals == rest);
    lemma_fewer_signals_await(p, k);
    lemma_prepared_stays(s, after);
    let again = |k: int| rest[k].target == other && rest[k].signal_name == other_name;
    assert forall|j: int| 0 <= j < list.len() - 1 implies #[trigger] again(j) == second(
        if j < k {
            j
        } else {
            j + 1
        },
    ) by {}
    lemma_first_after_removal(list, second, again, k);
}

/// Signals to other workflows have no order of their own: of two that differ in
/// target or name, both recorded, each gives back the same whichever is matched
/// first, and both orders lead to the same state.
pub proof fn law_external_signals_commute(
    s: Replay,
    a: ExternalTarget,
    a_name: Seq<char>,
    b: ExternalTarget,
    b_name: Seq<char>,
)
    requires
        s.wf(),
        a != b || a_name != b_name,
        signal_to(s.prepared().external_signals, a, a_name) < s.prepared().external_signals.len(),
        signal_to(s.prepared().external_signals, b, b_name) < s.prepared().external_signals.len(),
    ensures
        ({
            let (ab, second_b) = s.external_signal(a, a_name).0.external_signal(b, b_name);
            let (ba, second_a) = s.external_signal(b, b_name).0.external_signal(a, a_name);
            &&& second_a == s.external_signal(a, a_name).1
            &&& second_b == s.external_signal(b, b_name).1
            &&& ab == ba
        }),
{
    lemma_signal_claimed_second(s, a, a_name, b, b_name);
    lemma_signal_claimed_second(s, b, b_name, a, a_name);
    let list = s.prepared().external_signals;
    let i = signal_to(list, a, a_name);
    let j = signal_to(list, b, b_name);
    if i < j {
        assert(list.remove(i).remove(j - 1) =~= list.remove(j).remove(i));
    } else {
        assert(list.remove(i).remove(j) =~= list.remove(j).remove(i - 1));
    }
}

/// One step of claiming two recorded cancels one after the other.
proof fn lemma_cancel_claimed_second(s: Replay, target: ExternalTarget, other: ExternalTarget)
    requires
        s.wf(),
        target != other,
        cancel_to(s.prepared().external_cancels, target) < s.prepared().external_cancels.len(),
        cancel_to(s.prepared().external_cancels, other) < s.prepared().external_cancels.len(),
    ensures
        ({
            let p = s.prepared();
            let list = p.external_cancels;
            let k = cancel_to(list, target);
            let o = cancel_to(list, other);
            let n = if o < k {
                o
            } else {
                o - 1
            };
            let after = s.external_cancel(target).0;
            &&& 0 <= k < list.len()
            &&& 0 <= o < list.len()
            &&& k != o
            &&& after.external_cancel(other).1 == s.external_cancel(other).1
            &&& after.external_cancel(other).0 == (Replay {
                external_cancels: list.remove(k).remove(n),
                ..p
            })
        }),
{
    let p = s.prepared();
    let list = p.external_cancels;
    let first = |k: int| list[k].target == target;
    let second = |k: int| list[k].target == other;
    lemma_first_index(first, 0, list.len() as int);
    lemma_first_index(second, 0, list.len() as int);
    let k = cancel_to(list, target);
    let o = cancel_to(list, other);
    assert(first(k) && second(o));
    let after = s.external_cancel(target).0;
    let rest = list.remove(k);
    assert(after.external_cancels == rest);
    lemma_fewer_cancels_await(p, k);
    lemma_prepared_stays(s, after);
    let again = |k: int| rest[k].target == other;
    assert forall|j: int| 0 <= j < list.len() - 1 implies #[trigger] again(j) == second(
        if j < k {
            j
        } else {
            j + 1
        },
    ) by {}
    lemma_first_after_removal(list, second, again, k);
}

/// Cancels of other workflows have no order of their own: of two that differ in
/// target, both recorded, each gives back the same whichever is matched first,
/// and both orders lead to the same state.
pub proof fn law_external_cancels_commute(s: Replay, a: ExternalTarget, b: ExternalTarget)
    requires
        s.wf(),
        a != b,
        cancel_to(s.prepared().external_cancels, a) < s.prepared().external_cancels.len(),
        cancel_to(s.prepared().external_cancels, b) < s.prepared().external_cancels.len(),
    ensures
        ({
            let (ab, second_b) = s.external_cancel(a).0.external_cancel(b);
            let (ba, second_a) = s.external_cancel(b).0.external_cancel(a);
            &&& second_a == s.external_cancel(a).1
            &&& second_b == s.external_cancel(b).1
            &&& ab == ba
        }),
{
    lemma_cancel_claimed_second(s, a, b);
    lemma_cancel_claimed_second(s, b, a);
    let list = s.prepared().external_cancels;
    let i = cancel_to(list, a);
    let j = cancel_to(list, b);
    if i < j {
        assert(list.remove(i).remove(j - 1) =~= list.remove(j).remove(i));
    } else {
        assert(list.remove(i).remove(j) =~= list.remove(j).remove(i - 1));
    }
}

/// One step of claiming two recorded awaits one after the other.
proof fn lemma_await_claimed_second(s: Replay, target: ExecutionId, other: ExecutionId)
    requires
        s.wf(),
        target != other,
        await_of(s.prepared().external_awaits, target) < s.prepared().external_awaits.len(),
        await_of(s.prepared().external_awaits, other) < s.prepared().external_awaits.len(),
    ensures
        ({
            let p = s.prepared();
            let list = p.external_awaits;
            let k = await_of(list, target);
            let o = await_of(list, other);
            let n = if o < k {
                o
            } else {
                o - 1
            };
            let after = s.external_await(target).0;
            &&& 0 <= k < list.len()
            &&& 0 <= o < list.len()
            &&& k != o
            &&& after.external_await(other).1 == s.external_await(other).1
            &&& after.external_await(other).0 == (Replay {
                external_awaits: list.remove(k).remove(n),
                ..p
            })
        }),
{
    let p = s.prepared();
    let list = p.external_awaits;
    let first = |k: int| list[k].target == target;
    let second = |k: int| list[k].target == other;
    lemma_first_index(first, 0, list.len() as int);
    lemma_first_index(second, 0, list.len() as int);
    let k = await_of(list, target);
    let o = await_of(list, other);
    assert(first(k) && second(o));
    let after = s.external_await(target).0;
    let rest = list.remove(k);
    assert(after.external_awaits == rest);
    lemma_prepared_stays(s, after);
    let again = |k: int| rest[k].target == other;
    assert forall|j: int| 0 <= j < list.len() - 1 implies #[trigger] again(j) == second(
        if j < k {
            j
        } else {
            j + 1
        },
    ) by {}
    lemma_first_after_removal(list, second, again, k);
}

/// Awaits of other workflows have no order of their own: of two that differ in
/// target, both recorded, each gives back the same whichever is matched first,
/// and both orders lead to the same state.
pub proof fn law_external_awaits_commute(s: Replay, a: ExecutionId, b: ExecutionId)
    requires
        s.wf(),
        a != b,
        await_of(s.prepared().external_awaits, a) < s.prepared().external_awaits.len(),
        await_of(s.prepared().external_awaits, b) < s.prepared().external_awaits.len(),
    ensures
        ({
            let (ab, second_b) = s.external_await(a).0.external_await(b);
            let (ba, second_a) = s.external_await(b).0.external_await(a);
            &&& second_a == s.external_await(a).1
            &&& second_b == s.external_await(b).1
            &&& ab == ba
        }),
{
    lemma_await_claimed_second(s, a, b);
    lemma_await_claimed_second(s, b, a);
    let list = s.prepared().external_awaits;
    let i = await_of(list, a);
    let j = await_of(list, b);
    if i < j {
        assert(list.remove(i).remove(j - 1) =~= list.remove(j).remove(i));
    } else {
        assert(list.remove(i).remove(j) =~= list.remove(j).remove(i - 1));
    }
}

/// A recorded signal to another workflow is reported as still in progress only
/// where no outcome of it is left ahead.
pub proof fn law_signal_in_progress_has_no_outcome_ahead(
    s: Replay,
    target: ExternalTarget,
    name: Seq<char>,
    j: int,
)
    requires
        s.wf(),
        s.prepared().cursor <= j,
        s.prepared().open_at(j),
        signal_to(s.prepared().external_signals, target, name)
            < s.prepared().external_signals.len(),
    ensures
        match s.external_signal(target, name).1 {
            HistoryMatchView::ExternalSignalInProgress { signal_id, .. } => match s.events[j] {
                WorkflowEvent::ExternalSignalDelivered { signal_id: other } => other != signal_id,
                WorkflowEvent::ExternalSignalFailed { signal_id: other, .. } => other != signal_id,
                _ => true,
            },
            _ => true,
        },
{
    lemma_nothing_awaited_when_prepared(s);
    lemma_prepared(s);
    let p = s.prepared();
    let list = p.external_signals;
    let k = signal_to(list, target, name);
    lemma_first_index(
        |k: int| list[k].target == target && list[k].signal_name == name,
        0,
        list.len() as int,
    );
    let id = list[k].signal_id;
    let same = |k: int| list[k].signal_id == id;
    lemma_first_index(same, 0, list.len() as int);
    assert(same(k));
    assert(!p.consumed(j));
    assert(!p.awaits_outcome(s.events[j]));
}

/// A recorded cancel of another workflow is reported as still in progress only
/// where no outcome of it is left ahead.
pub proof fn law_cancel_in_progress_has_no_outcome_ahead(
    s: Replay,
    target: ExternalTarget,
    j: int,
)
    requires
        s.wf(),
        s.prepared().cursor <= j,
        s.prepared().open_at(j),
        cancel_to(s.prepared().external_cancels, target) < s.prepared().external_cancels.len(),
    ensures
        match s.external_cancel(target).1 {
            HistoryMatchView::ExternalCancelInProgress { cancel_id } => match s.events[j] {
                WorkflowEvent::ExternalCancelDelivered { cancel_id: other } => other != cancel_id,
                WorkflowEvent::ExternalCancelFailed { cancel_id: other, .. } => other != cancel_id,
                _ => true,
            },
            _ => true,
        },
{
    lemma_nothing_awaited_when_prepared(s);
    lemma_prepared(s);
    let p = s.prepared();
    let list = p.external_cancels;
    let k = cancel_to(list, target);
    lemma_first_index(|k: int| list[k].target == target, 0, list.len() as int);
    let id = list[k].cancel_id;
    let same = |k: int| list[k].cancel_id == id;
    lemma_first_index(same, 0, list.len() as int);
    assert(same(k));
    assert(!p.consumed(j));
    assert(!p.awaits_outcome(s.events[j]));
}

} // verus!
