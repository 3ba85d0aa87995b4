//! Sets of positions in a history.
use std::collections::HashSet;
use vstd::prelude::*;

verus! {

broadcast use vstd::std_specs::hash::group_hash_axioms;

/// A set of positions in a history.
#[derive(Debug)]
pub struct IndexSet {
    items: HashSet<usize>,
}

impl View for IndexSet {
    type V = Set<int>;

    closed spec fn view(&self) -> Set<int> {
        Set::new(|i: int| 0 <= i <= usize::MAX && self.items@.contains(i as usize))
    }
}

impl IndexSet {
    /// The empty set.
    pub(crate) fn new() -> (r: IndexSet)
        ensures
            r@ == Set::<int>::empty(),
    {
        let r = IndexSet { items: HashSet::new() };
        assert(r@ =~= Set::<int>::empty());
        r
    }

    /// Whether the set holds `index`.
    pub(crate) fn contains(&self, index: usize) -> (r: bool)
        ensures
            r == self@.contains(index as int),
    {
        self.items.contains(&index)
    }

    /// Adds `index`.
    pub(crate) fn insert(&mut self, index: usize)
        ensures
            final(self)@ == old(self)@.insert(index as int),
    {
        self.items.insert(index);
        assert(self@ =~= old(self)@.insert(index as int));
    }
}

} // verus!
