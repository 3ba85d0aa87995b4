//! Updates, which run next to the commands of the workflow body.
use crate::activity::{fail_untyped, untyped_failure};
use crate::event::WorkflowEvent;
use crate::json::{json_view, JsonView};
use crate::matcher::HistoryMatcher;
use crate::outcome::{HistoryMatch, HistoryMatchView};
use crate::replay::Replay;
use crate::search::{first_index, lemma_first_index_is};
use crate::types::UpdateId;
use serde_json::Value;
use vstd::prelude::*;

verus! {

/// Whether `e` admits the update.
pub open spec fn admits(e: WorkflowEvent, id: UpdateId) -> bool {
    match e {
        WorkflowEvent::UpdateAdmitted { update_id, .. } => update_id == id,
        _ => false,
    }
}

/// Whether `e` is the outcome of the update.
pub open spec fn resolves(e: WorkflowEvent, id: UpdateId) -> bool {
    match e {
        WorkflowEvent::UpdateCompleted { update_id, .. } => update_id == id,
        WorkflowEvent::UpdateFailed { update_id, .. } => update_id == id,
        _ => false,
    }
}

/// What the recorded outcome of an update gives back.
pub open spec fn update_result(e: WorkflowEvent) -> HistoryMatchView {
    match e {
        WorkflowEvent::UpdateCompleted { output, .. } => HistoryMatchView::Matched {
            output: json_view(output),
        },
        WorkflowEvent::UpdateFailed { error, .. } => untyped_failure(error@, 1),
        _ => HistoryMatchView::NoMatch,
    }
}

/// An admitted update, as it is handed to its handler.
pub struct AdmittedView {
    pub id: UpdateId,
    pub name: Seq<char>,
    pub input: JsonView,
}

/// What a list of admitted updates holds.
pub open spec fn admitted_view(list: Seq<(UpdateId, String, Value)>) -> Seq<AdmittedView> {
    list.map_values(
        |u: (UpdateId, String, Value)|
            AdmittedView { id: u.0, name: u.1@, input: json_view(u.2) },
    )
}

impl Replay {
    /// Whether the update was admitted among the first `n` events, and no outcome
    /// of it follows there.
    pub open spec fn update_open(self, id: UpdateId, n: int) -> bool {
        exists|i: int|
            0 <= i < n && admits(#[trigger] self.events[i], id) && forall|j: int|
                i < j < n ==> !resolves(#[trigger] self.events[j], id)
    }

    /// The updates that are open after the first `n` events.
    pub open spec fn open_updates(self, n: int) -> Set<UpdateId> {
        Set::new(|id: UpdateId| self.update_open(id, n))
    }

    /// The outcome of the update, wherever it is recorded.
    pub open spec fn update(self, id: UpdateId) -> HistoryMatchView {
        let k = first_index(|i: int| resolves(self.events[i], id), 0, self.len());
        if k < self.len() {
            update_result(self.events[k])
        } else {
            HistoryMatchView::NoMatch
        }
    }

    /// Whether an outcome of the update is recorded.
    pub open spec fn update_resolved(self, id: UpdateId) -> bool {
        exists|j: int| 0 <= j < self.len() && resolves(#[trigger] self.events[j], id)
    }

    /// The updates admitted among the first `n` events for which no outcome is
    /// recorded, in the order in which they were admitted.
    pub open spec fn admitted(self, n: int) -> Seq<AdmittedView>
        decreases n,
    {
        if n <= 0 {
            Seq::empty()
        } else {
            match self.events[n - 1] {
                WorkflowEvent::UpdateAdmitted { update_id, name, input } =>
                    if self.update_resolved(update_id) {
                        self.admitted(n - 1)
                    } else {
                        self.admitted(n - 1).push(
                            AdmittedView { id: update_id, name: name@, input: json_view(input) },
                        )
                    },
                _ => self.admitted(n - 1),
            }
        }
    }
}

/// How one more event changes which updates are open.
proof fn lemma_update_open_step(s: Replay, id: UpdateId, n: int)
    requires
        0 <= n < s.len(),
    ensures
        s.update_open(id, n + 1) == (admits(s.events[n], id) || (s.update_open(id, n) && !resolves(
            s.events[n],
            id,
        ))),
{
    if admits(s.events[n], id) {
        assert(s.update_open(id, n + 1));
    }
    if s.update_open(id, n) && !resolves(s.events[n], id) {
        let i = choose|i: int|
            0 <= i < n && admits(#[trigger] s.events[i], id) && forall|j: int|
                i < j < n ==> !resolves(#[trigger] s.events[j], id);
        assert(admits(s.events[i], id));
        assert(s.update_open(id, n + 1));
    }
    if s.update_open(id, n + 1) {
        let i = choose|i: int|
            0 <= i < n + 1 && admits(#[trigger] s.events[i], id) && forall|j: int|
                i < j < n + 1 ==> !resolves(#[trigger] s.events[j], id);
        if i < n {
            assert(!resolves(s.events[n], id));
            assert(admits(s.events[i], id));
        }
    }
}

/// Where the list holds the update; its length when nowhere.
fn position_of(list: &Vec<UpdateId>, id: UpdateId) -> (r: usize)
    ensures
        r <= list@.len(),
        r < list@.len() ==> list@[r as int] == id,
        r == list@.len() ==> !list@.contains(id),
{
    let mut k: usize = 0;
    while k < list.len()
        invariant
            k <= list@.len(),
            forall|j: int| 0 <= j < k ==> list@[j] != id,
        decreases list@.len() - k,
    {
        if list[k] == id {
            return k;
        }
        k += 1;
    }
    k
}

impl HistoryMatcher {
    /// The updates that are open after the first `index` events, each once.
    fn collect_open_updates(&self, index: usize) -> (r: Vec<UpdateId>)
        requires
            index <= self@.len(),
        ensures
            r@.no_duplicates(),
            forall|id: UpdateId| r@.contains(id) == #[trigger] self@.update_open(id, index as int),
    {
        let ghost s = self@;
        let mut active: Vec<UpdateId> = Vec::new();
        let mut i: usize = 0;
        while i < index
            invariant
                s == self@,
                i <= index <= s.len(),
                active@.no_duplicates(),
                forall|id: UpdateId| active@.contains(id) == #[trigger] s.update_open(id, i as int),
            decreases index - i,
        {
            let ghost before = active@;
            match &self.events[i] {
                WorkflowEvent::UpdateAdmitted { update_id, .. } => {
                    let k = position_of(&active, *update_id);
                    if k == active.len() {
                        active.push(*update_id);
                    }
                    proof {
                        assert forall|id: UpdateId| active@.contains(id)
                            == #[trigger] s.update_open(id, i + 1) by {
                            lemma_update_open_step(s, id, i as int);
                            assert(before.contains(id) == s.update_open(id, i as int));
                            if k == before.len() {
                                assert(active@ == before.push(*update_id));
                                if before.contains(id) {
                                    let j = before.index_of(id);
                                    assert(active@[j] == id);
                                }
                                if id == *update_id {
                                    assert(active@[before.len() as int] == id);
                                }
                            } else {
                                assert(before[k as int] == *update_id);
                            }
                        }
                    }
                },
                WorkflowEvent::UpdateCompleted { update_id, .. }
                | WorkflowEvent::UpdateFailed { update_id, .. } => {
                    let k = position_of(&active, *update_id);
                    if k < active.len() {
                        active.remove(k);
                    }
                    proof {
                        assert forall|id: UpdateId| active@.contains(id)
                            == #[trigger] s.update_open(id, i + 1) by {
                            lemma_update_open_step(s, id, i as int);
                            assert(before.contains(id) == s.update_open(id, i as int));
                            if k < before.len() {
                                lemma_removed(before, k as int, id);
                            }
                        }
                        if k < before.len() {
                            assert forall|a: int, b: int|
                                0 <= a < active@.len() && 0 <= b < active@.len() && a
                                    != b implies active@[a] != active@[b] by {
                                let oa = if a < k {
                                    a
                                } else {
                                    a + 1
                                };
                                let ob = if b < k {
                                    b
                                } else {
                                    b + 1
                                };
                                assert(before[oa] != before[ob]);
                            }
                        }
                    }
                },
                _ => {
                    proof {
                        assert forall|id: UpdateId| active@.contains(id)
                            == #[trigger] s.update_open(id, i + 1) by {
                            lemma_update_open_step(s, id, i as int);
                            assert(before.contains(id) == s.update_open(id, i as int));
                        }
                    }
                },
            }
            i += 1;
        }
        active
    }

    /// The updates that were admitted and have no outcome yet among the first
    /// `index` events, in no particular order.
    pub fn unfinished_update_handlers_at_index(&self, index: usize) -> (r: Vec<UpdateId>)
        requires
            index <= self@.len(),
        ensures
            r@.no_duplicates(),
            r@.to_set() == self@.open_updates(index as int),
    {
        let r = self.collect_open_updates(index);
        assert(r@.to_set() =~= self@.open_updates(index as int));
        r
    }

    /// The updates that were admitted and have no outcome yet before the cursor,
    /// in no particular order.
    pub fn unfinished_update_handlers(&self) -> (r: Vec<UpdateId>)
        requires
            self.wf(),
        ensures
            r@.no_duplicates(),
            r@.to_set() == self@.open_updates(self@.cursor),
    {
        self.unfinished_update_handlers_at_index(self.cursor)
    }

    /// The updates that were admitted and have no outcome in the whole history,
    /// in no particular order.
    pub fn unfinished_update_handlers_at_end(&self) -> (r: Vec<UpdateId>)
        ensures
            r@.no_duplicates(),
            r@.to_set() == self@.open_updates(self@.len()),
    {
        self.unfinished_update_handlers_at_index(self.events.len())
    }

    /// How many updates are open after the first `index` events.
    pub fn unfinished_update_handler_count_at_index(&self, index: usize) -> (r: usize)
        requires
            index <= self@.len(),
        ensures
            r == self@.open_updates(index as int).len(),
    {
        let open = self.unfinished_update_handlers_at_index(index);
        proof {
            open@.unique_seq_to_set();
        }
        open.len()
    }

    /// How many updates are open before the cursor.
    pub fn unfinished_update_handler_count(&self) -> (r: usize)
        requires
            self.wf(),
        ensures
            r == self@.open_updates(self@.cursor).len(),
    {
        self.unfinished_update_handler_count_at_index(self.cursor)
    }

    /// How many updates are open in the whole history.
    pub fn unfinished_update_handler_count_at_end(&self) -> (r: usize)
        ensures
            r == self@.open_updates(self@.len()).len(),
    {
        self.unfinished_update_handler_count_at_index(self.events.len())
    }

    /// Whether every update admitted among the first `index` events has an
    /// outcome there.
    pub fn all_handlers_finished_at_index(&self, index: usize) -> (r: bool)
        requires
            index <= self@.len(),
        ensures
            r == (self@.open_updates(index as int) == Set::<UpdateId>::empty()),
    {
        let open = self.unfinished_update_handlers_at_index(index);
        proof {
            if open@.len() == 0 {
                assert(open@.to_set() =~= Set::<UpdateId>::empty());
            } else {
                assert(open@.to_set().contains(open@[0]));
            }
        }
        open.len() == 0
    }

    /// Whether every update admitted before the cursor has an outcome there.
    pub fn all_handlers_finished(&self) -> (r: bool)
        requires
            self.wf(),
        ensures
            r == (self@.open_updates(self@.cursor) == Set::<UpdateId>::empty()),
    {
        self.all_handlers_finished_at_index(self.cursor)
    }

    /// Whether every admitted update has an outcome in the whole history.
    pub fn all_handlers_finished_at_end(&self) -> (r: bool)
        ensures
            r == (self@.open_updates(self@.len()) == Set::<UpdateId>::empty()),
    {
        self.all_handlers_finished_at_index(self.events.len())
    }

    /// The recorded outcome of an update, wherever it stands. The cursor has no
    /// part in it.
    pub fn match_update(&self, update_id: UpdateId) -> (r: HistoryMatch)
        ensures
            r@ == self@.update(update_id),
    {
        let ghost s = self@;
        let ghost p = |i: int| resolves(s.events[i], update_id);
        let mut i: usize = 0;
        while i < self.events.len()
            invariant
                s == self@,
                i <= s.len(),
                p == (|i: int| resolves(s.events[i], update_id)),
                forall|j: int| 0 <= j < i ==> !#[trigger] p(j),
            decreases s.len() - i,
        {
            match &self.events[i] {
                WorkflowEvent::UpdateCompleted { update_id: id, output } if *id == update_id => {
                    proof {
                        lemma_first_index_is(p, 0, s.len(), i as int);
                    }
                    return HistoryMatch::Matched { output: output.clone() };
                },
                WorkflowEvent::UpdateFailed { update_id: id, error } if *id == update_id => {
                    proof {
                        lemma_first_index_is(p, 0, s.len(), i as int);
                    }
                    return fail_untyped(error.clone(), 1);
                },
                _ => {},
            }
            assert(!p(i as int));
            i += 1;
        }
        proof {
            lemma_first_index_is(p, 0, s.len(), i as int);
        }
        HistoryMatch::NoMatch
    }

    /// Whether an outcome of the update is recorded.
    fn is_update_resolved(&self, update_id: UpdateId) -> (r: bool)
        ensures
            r == self@.update_resolved(update_id),
    {
        let mut i: usize = 0;
        while i < self.events.len()
            invariant
                i <= self@.len(),
                forall|j: int| 0 <= j < i ==> !resolves(#[trigger] self@.events[j], update_id),
            decreases self@.len() - i,
        {
            let found = match &self.events[i] {
                WorkflowEvent::UpdateCompleted { update_id: id, .. } => *id == update_id,
                WorkflowEvent::UpdateFailed { update_id: id, .. } => *id == update_id,
                _ => false,
            };
            if found {
                assert(resolves(self@.events[i as int], update_id));
                return true;
            }
            i += 1;
        }
        false
    }

    /// The admitted updates for which no outcome is recorded anywhere, with their
    /// handler's name and their input, in the order in which they were admitted.
    pub fn drain_admitted_updates(&self) -> (r: Vec<(UpdateId, String, Value)>)
        ensures
            admitted_view(r@) == self@.admitted(self@.len()),
    {
        let ghost s = self@;
        let mut r: Vec<(UpdateId, String, Value)> = Vec::new();
        let mut i: usize = 0;
        assert(admitted_view(r@) =~= Seq::<AdmittedView>::empty());
        while i < self.events.len()
            invariant
                s == self@,
                i <= s.len(),
                admitted_view(r@) == s.admitted(i as int),
            decreases s.len() - i,
        {
            if let WorkflowEvent::UpdateAdmitted { update_id, name, input } = &self.events[i] {
                if !self.is_update_resolved(*update_id) {
                    let ghost before = admitted_view(r@);
                    r.push((*update_id, name.clone(), input.clone()));
                    assert(admitted_view(r@) =~= before.push(
                        AdmittedView { id: *update_id, name: name@, input: json_view(*input) },
                    ));
                }
            }
            i += 1;
        }
        r
    }
}

/// What is left of a list without duplicates when one item is removed.
proof fn lemma_removed(list: Seq<UpdateId>, k: int, id: UpdateId)
    requires
        list.no_duplicates(),
        0 <= k < list.len(),
    ensures
        list.remove(k).contains(id) == (list.contains(id) && id != list[k]),
{
    let rest = list.remove(k);
    if list.contains(id) && id != list[k] {
        let j = list.index_of(id);
        if j < k {
            assert(rest[j] == id);
        } else {
            assert(rest[j - 1] == id);
        }
    }
    if rest.contains(id) {
        let j = rest.index_of(id);
        let o = if j < k {
            j
        } else {
            j + 1
        };
        assert(list[o] == id);
        assert(list[o] != list[k]);
    }
}

} // verus!
