//! What updates give back and which are in flight, told by what is recorded of
//! them.
use crate::event::WorkflowEvent;
use crate::json::json_view;
use crate::outcome::HistoryMatchView;
use crate::replay::Replay;
use crate::search::lemma_first_index_is;
use crate::types::UpdateId;
use crate::update::{admits, resolves};
use vstd::prelude::*;

verus! {

/// Whether the update was admitted.
pub open spec fn update_begins(e: WorkflowEvent, id: UpdateId) -> bool {
    match e {
        WorkflowEvent::UpdateAdmitted { update_id, .. } => update_id == id,
        _ => false,
    }
}

/// Whether the update was answered.
pub open spec fn update_ends(e: WorkflowEvent, id: UpdateId) -> bool {
    match e {
        WorkflowEvent::UpdateCompleted { update_id, .. } => update_id == id,
        WorkflowEvent::UpdateFailed { update_id, .. } => update_id == id,
        _ => false,
    }
}

/// An update gets its own first recorded answer, wherever it stands: the result
/// as it was returned, or the message as an untyped failure of the first attempt.
/// Without an answer of its own it gets none.
pub proof fn law_update_gets_its_own_answer(s: Replay, id: UpdateId, t: int)
    requires
        0 <= t <= s.len(),
        t < s.len() ==> update_ends(s.events[t], id),
        forall|j: int| 0 <= j < t ==> !update_ends(#[trigger] s.events[j], id),
    ensures
        t == s.len() ==> s.update(id) is NoMatch,
        t < s.len() ==> {
            &&& s.events[t] matches WorkflowEvent::UpdateCompleted { output, .. } ==> s.update(id)
                == (HistoryMatchView::Matched { output: json_view(output) })
            &&& s.events[t] matches WorkflowEvent::UpdateFailed { error, .. } ==> s.update(id) == (
            HistoryMatchView::Failed {
                error: error@,
                attempt: 1,
                error_type: "Error"@,
                details: None,
                non_retryable: false,
            })
        },
{
    let p = |i: int| resolves(s.events[i], id);
    assert forall|j: int| 0 <= j < t implies !#[trigger] p(j) by {
        assert(!update_ends(s.events[j], id));
    }
    lemma_first_index_is(p, 0, s.len(), t);
}

/// Where among the first `n` events each update in flight was admitted.
proof fn lemma_in_flight(s: Replay, n: int) -> (at: Seq<int>)
    requires
        0 <= n <= s.len(),
    ensures
        at.len() == s.admitted(n).len(),
        forall|k: int|
            0 <= k < at.len() ==> 0 <= #[trigger] at[k] < n && (s.events[at[k]]
                matches WorkflowEvent::UpdateAdmitted { update_id, name, input } && {
                &&& s.admitted(n)[k].id == update_id
                &&& s.admitted(n)[k].name == name@
                &&& s.admitted(n)[k].input == json_view(input)
                &&& !s.update_resolved(update_id)
            }),
        forall|j: int, k: int| 0 <= j < k < at.len() ==> #[trigger] at[j] < #[trigger] at[k],
        forall|i: int|
            0 <= i < n && (#[trigger] s.events[i] matches WorkflowEvent::UpdateAdmitted {
                update_id,
                ..
            } && !s.update_resolved(update_id)) ==> at.contains(i),
    decreases n,
{
    if n <= 0 {
        Seq::empty()
    } else {
        let front = lemma_in_flight(s, n - 1);
        let taken = match s.events[n - 1] {
            WorkflowEvent::UpdateAdmitted { update_id, .. } => !s.update_resolved(update_id),
            _ => false,
        };
        let at = if taken {
            front.push(n - 1)
        } else {
            front
        };
        assert forall|i: int|
            0 <= i < n && (#[trigger] s.events[i] matches WorkflowEvent::UpdateAdmitted {
                update_id,
                ..
            } && !s.update_resolved(update_id)) implies at.contains(i) by {
            if i < n - 1 {
                assert(front.contains(i));
                let k = choose|k: int| 0 <= k < front.len() && front[k] == i;
                assert(at[k] == i);
            } else {
                assert(at[at.len() - 1] == i);
            }
        }
        at
    }
}

/// Each update in flight is handed to its own handler with its own input.
///
/// The updates that are handed out stand one for one for the admissions without an
/// answer anywhere in history, in the order in which they were admitted: `at` says
/// where each was admitted, and each bears the id, the handler's name and the
/// input that were recorded there. None is left out.
pub proof fn law_each_update_in_flight_is_handed_out(s: Replay) -> (at: Seq<int>)
    ensures
        at.len() == s.admitted(s.len()).len(),
        forall|j: int, k: int| 0 <= j < k < at.len() ==> #[trigger] at[j] < #[trigger] at[k],
        forall|k: int|
            0 <= k < at.len() ==> 0 <= #[trigger] at[k] < s.len() && (s.events[at[k]]
                matches WorkflowEvent::UpdateAdmitted { update_id, name, input } && {
                &&& s.admitted(s.len())[k].id == update_id
                &&& s.admitted(s.len())[k].name == name@
                &&& s.admitted(s.len())[k].input == json_view(input)
                &&& forall|j: int|
                    0 <= j < s.len() ==> !update_ends(#[trigger] s.events[j], update_id)
            }),
        forall|i: int|
            0 <= i < s.len() && (#[trigger] s.events[i] matches WorkflowEvent::UpdateAdmitted {
                update_id,
                ..
            } && forall|j: int|
                0 <= j < s.len() ==> !update_ends(#[trigger] s.events[j], update_id))
                ==> at.contains(i),
{
    let at = lemma_in_flight(s, s.len());
    assert forall|k: int| 0 <= k < at.len() implies 0 <= #[trigger] at[k] < s.len() && (
    s.events[at[k]] matches WorkflowEvent::UpdateAdmitted { update_id, name, input } && {
        &&& s.admitted(s.len())[k].id == update_id
        &&& s.admitted(s.len())[k].name == name@
        &&& s.admitted(s.len())[k].input == json_view(input)
        &&& forall|j: int| 0 <= j < s.len() ==> !update_ends(#[trigger] s.events[j], update_id)
    }) by {
        match s.events[at[k]] {
            WorkflowEvent::UpdateAdmitted { update_id, .. } => {
                assert forall|j: int| 0 <= j < s.len() implies !update_ends(
                    #[trigger] s.events[j],
                    update_id,
                ) by {
                    assert(!resolves(s.events[j], update_id));
                }
            },
            _ => {},
        }
    }
    assert forall|i: int|
        0 <= i < s.len() && (#[trigger] s.events[i] matches WorkflowEvent::UpdateAdmitted {
            update_id,
            ..
        } && forall|j: int|
            0 <= j < s.len() ==> !update_ends(
                #[trigger] s.events[j],
                update_id,
            )) implies at.contains(i) by {
        match s.events[i] {
            WorkflowEvent::UpdateAdmitted { update_id, .. } => {
                if s.update_resolved(update_id) {
                    let j = choose|j: int|
                        0 <= j < s.len() && resolves(#[trigger] s.events[j], update_id);
                    assert(!update_ends(s.events[j], update_id));
                }
            },
            _ => {},
        }
    }
    at
}

/// An update is unfinished after the first `n` events exactly where it was admitted
/// among them and not answered since.
pub proof fn law_unfinished_updates_are_the_unanswered(s: Replay, id: UpdateId, n: int)
    requires
        0 <= n <= s.len(),
    ensures
        s.open_updates(n).contains(id) <==> exists|i: int|
            0 <= i < n && update_begins(#[trigger] s.events[i], id) && forall|j: int|
                i < j < n ==> !update_ends(#[trigger] s.events[j], id),
{
    if s.update_open(id, n) {
        let i = choose|i: int|
            0 <= i < n && admits(#[trigger] s.events[i], id) && forall|j: int|
                i < j < n ==> !resolves(#[trigger] s.events[j], id);
        assert(update_begins(s.events[i], id));
        assert forall|j: int| i < j < n implies !update_ends(#[trigger] s.events[j], id) by {
            assert(!resolves(s.events[j], id));
        }
    }
    if exists|i: int|
        0 <= i < n && update_begins(#[trigger] s.events[i], id) && forall|j: int|
            i < j < n ==> !update_ends(#[trigger] s.events[j], id) {
        let i = choose|i: int|
            0 <= i < n && update_begins(#[trigger] s.events[i], id) && forall|j: int|
                i < j < n ==> !update_ends(#[trigger] s.events[j], id);
        assert(admits(s.events[i], id));
        assert forall|j: int| i < j < n implies !resolves(#[trigger] s.events[j], id) by {
            assert(!update_ends(s.events[j], id));
        }
    }
}

} // verus!
