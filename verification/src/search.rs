//! The first position of a range at which something holds.
use vstd::prelude::*;

verus! {

/// The least index in `from..end` at which `p` holds, and `end` when there is
/// none.
pub open spec fn first_index(p: spec_fn(int) -> bool, from: int, end: int) -> int
    decreases end - from,
{
    if from >= end {
        end
    } else if p(from) {
        from
    } else {
        first_index(p, from + 1, end)
    }
}

/// [`first_index`] lies in its range, `p` holds there unless it is the end, and
/// nowhere before it.
pub proof fn lemma_first_index(p: spec_fn(int) -> bool, from: int, end: int)
    requires
        from <= end,
    ensures
        from <= first_index(p, from, end) <= end,
        first_index(p, from, end) < end ==> p(first_index(p, from, end)),
        forall|i: int| from <= i < first_index(p, from, end) ==> !#[trigger] p(i),
    decreases end - from,
{
    if from < end && !p(from) {
        lemma_first_index(p, from + 1, end);
    }
}

/// An index with the properties of [`first_index`] is it.
pub proof fn lemma_first_index_is(p: spec_fn(int) -> bool, from: int, end: int, r: int)
    requires
        from <= r <= end,
        r < end ==> p(r),
        forall|i: int| from <= i < r ==> !#[trigger] p(i),
    ensures
        first_index(p, from, end) == r,
    decreases end - from,
{
    if from < end && from < r {
        lemma_first_index_is(p, from + 1, end, r);
    }
}

/// Predicates that agree on a range have the same first index in it.
pub proof fn lemma_first_index_same(
    p: spec_fn(int) -> bool,
    q: spec_fn(int) -> bool,
    from: int,
    end: int,
)
    requires
        forall|i: int| from <= i < end ==> #[trigger] p(i) == q(i),
    ensures
        first_index(p, from, end) == first_index(q, from, end),
    decreases end - from,
{
    if from < end {
        assert(p(from) == q(from));
        lemma_first_index_same(p, q, from + 1, end);
    }
}

/// The greatest index below `end` at which `p` holds, and -1 when there is none.
pub open spec fn last_index(p: spec_fn(int) -> bool, end: int) -> int
    decreases end,
{
    if end <= 0 {
        -1
    } else if p(end - 1) {
        end - 1
    } else {
        last_index(p, end - 1)
    }
}

/// [`last_index`] lies below its end, `p` holds there unless it is -1, and
/// nowhere above it.
pub proof fn lemma_last_index(p: spec_fn(int) -> bool, end: int)
    requires
        0 <= end,
    ensures
        -1 <= last_index(p, end) < end,
        last_index(p, end) >= 0 ==> p(last_index(p, end)),
        forall|i: int| last_index(p, end) < i < end ==> !#[trigger] p(i),
    decreases end,
{
    if end > 0 && !p(end - 1) {
        lemma_last_index(p, end - 1);
    }
}

/// An index with the properties of [`last_index`] is it.
pub proof fn lemma_last_index_is(p: spec_fn(int) -> bool, end: int, r: int)
    requires
        -1 <= r < end || (r == -1 && end == 0),
        r >= 0 ==> p(r),
        forall|i: int| r < i < end ==> !#[trigger] p(i),
    ensures
        last_index(p, end) == r,
    decreases end,
{
    if end > 0 && r < end - 1 {
        lemma_last_index_is(p, end - 1, r);
    }
}

} // verus!
