//! Where a replay stands.
use crate::event::WorkflowEvent;
use crate::kinds::{is_update, is_update_event};
use crate::matcher::HistoryMatcher;
use crate::moves::lemma_evolves_reflexive;
use crate::replay::Replay;
use crate::scan::signal_named;
use crate::search::{first_index, lemma_first_index, lemma_first_index_is};
use crate::stash::{awaits_view, cancels_view, StashedExternalAwait, StashedExternalCancel};
use crate::text::{precedes, str_before, str_eq};
use vstd::prelude::*;

verus! {

// ── The cursor ──────────────────────────────────────────────────────────────
impl Replay {
    /// Whether recorded history lies ahead, or was taken out and not claimed.
    pub open spec fn buffered(self) -> bool {
        ||| self.replaying()
        ||| self.pending_signals.len() > 0
        ||| self.external_signals.len() > 0
        ||| self.external_cancels.len() > 0
        ||| self.external_awaits.len() > 0
    }

    /// Whether the event at `i` should have been claimed by the time the workflow
    /// ends: it is ahead of the cursor and not taken, does not close the run, is
    /// no update, and is no signal that lost a race.
    pub open spec fn unclaimed_command(self, i: int) -> bool {
        &&& self.cursor <= i
        &&& self.open_at(i)
        &&& !self.events[i].closes_run()
        &&& !is_update(self.events[i])
        &&& !self.late.contains(i)
    }

    /// Whether anything is left of the history that the workflow should have
    /// claimed.
    pub open spec fn unconsumed(self) -> bool {
        ||| exists|i: int| #[trigger] self.unclaimed_command(i)
        ||| exists|k: int|
            0 <= k < self.pending_signals.len() && !self.late.contains(
                (#[trigger] self.pending_signals[k]).index,
            )
        ||| self.external_signals.len() > 0
        ||| self.external_cancels.len() > 0
        ||| self.external_awaits.len() > 0
    }

    /// Whether everything before the tail of a failed run was claimed.
    pub open spec fn at_failure_frontier(self) -> bool {
        self.failure_tail is Some && !self.replaying()
    }

    /// The event at the cursor skipped, where there is one.
    pub open spec fn skipped(self) -> Replay {
        if self.cursor < self.len() {
            self.moved_to(self.cursor + 1)
        } else {
            self
        }
    }
}

impl HistoryMatcher {
    /// Whether any recorded history is left: ahead of the cursor, or taken out
    /// and not claimed.
    pub fn has_buffered_history(&self) -> (r: bool)
        requires
            self.wf(),
        ensures
            r == self@.buffered(),
    {
        self.is_replaying() || self.pending_signals.len() > 0 || self.pending_external_signals.len()
            > 0 || self.pending_external_cancels.len() > 0 || self.pending_external_awaits.len() > 0
    }

    /// The number of recorded events.
    pub fn event_count(&self) -> (r: u64)
        ensures
            r == self@.len(),
    {
        self.events.len() as u64
    }

    /// The number of recorded events.
    pub fn len(&self) -> (r: usize)
        ensures
            r == self@.len(),
    {
        self.events.len()
    }

    /// Whether nothing was recorded.
    pub fn is_empty(&self) -> (r: bool)
        ensures
            r == (self@.len() == 0),
    {
        self.events.len() == 0
    }

    /// Where the cursor stands.
    pub fn position(&self) -> (r: usize)
        ensures
            r == self@.cursor,
    {
        self.cursor
    }

    /// Skips the event at the cursor, such as the start of the run, to which no
    /// command corresponds.
    pub fn advance(&mut self)
        requires
            old(self).wf(),
        ensures
            final(self).wf(),
            old(self)@.evolves_to(final(self)@),
            final(self)@ == old(self)@.skipped(),
    {
        if self.cursor < self.events.len() {
            self.claim_at_cursor();
        } else {
            proof {
                lemma_evolves_reflexive(self@);
            }
        }
    }

    /// Whether anything is left of the history that the workflow should have
    /// claimed by its end.
    ///
    /// Events that close the run, updates, and signals that lost a race are not
    /// counted.
    pub fn has_non_lifecycle_unconsumed(&self) -> (r: bool)
        requires
            self.wf(),
        ensures
            r == self@.unconsumed(),
    {
        let ghost s = self@;
        let mut i: usize = self.cursor;
        while i < self.events.len()
            invariant
                s == self@,
                s.cursor <= i <= s.len(),
                forall|j: int| j < i ==> !#[trigger] s.unclaimed_command(j),
            decreases s.len() - i,
        {
            if !self.is_consumed(i) && !self.events[i].is_terminal_lifecycle() && !is_update_event(
                &self.events[i],
            ) && !self.late_race_signal_events.contains(i) {
                assert(s.unclaimed_command(i as int));
                return true;
            }
            assert(!s.unclaimed_command(i as int));
            i += 1;
        }
        let mut k: usize = 0;
        while k < self.pending_signals.len()
            invariant
                s == self@,
                k <= s.pending_signals.len(),
                forall|j: int| !#[trigger] s.unclaimed_command(j),
                forall|j: int|
                    0 <= j < k ==> s.late.contains((#[trigger] s.pending_signals[j]).index),
            decreases s.pending_signals.len() - k,
        {
            if !self.late_race_signal_events.contains(self.pending_signals[k].index) {
                assert(!s.late.contains(s.pending_signals[k as int].index));
                return true;
            }
            k += 1;
        }
        self.pending_external_signals.len() > 0 || self.pending_external_cancels.len() > 0
            || self.pending_external_awaits.len() > 0
    }

    /// Whether the history ends in the failure of the run.
    pub fn has_terminal_failure_tail(&self) -> (r: bool)
        ensures
            r == (self@.failure_tail is Some),
    {
        self.terminal_failure_tail.is_some()
    }

    /// Whether everything before the tail of a failed run was claimed.
    ///
    /// What follows was never recorded, so a new command there is no divergence.
    pub fn at_terminal_failure_frontier(&self) -> (r: bool)
        requires
            self.wf(),
        ensures
            r == self@.at_failure_frontier(),
    {
        self.has_terminal_failure_tail() && !self.is_replaying()
    }

    /// The external cancels that were taken out of history and not claimed yet.
    pub fn stashed_external_cancels(&self) -> (r: &Vec<StashedExternalCancel>)
        ensures
            cancels_view(r@) == self@.external_cancels,
    {
        &self.pending_external_cancels
    }

    /// The external awaits that were taken out of history and not claimed yet.
    pub fn stashed_external_awaits(&self) -> (r: &Vec<StashedExternalAwait>)
        ensures
            awaits_view(r@) == self@.external_awaits,
    {
        &self.pending_external_awaits
    }

    /// Whether the signal recorded at `index` arrived while a race for its name
    /// was open.
    pub fn is_race_reserved(&self, index: usize) -> (r: bool)
        ensures
            r == self@.reserved.contains(index as int),
    {
        self.race_reserved_signal_events.contains(index)
    }
}

// ── Unclaimed signals by name ───────────────────────────────────────────────
/// Whether a place of a list of counts is that of the name.
pub open spec fn at_name(counts: Seq<(String, u64)>, name: Seq<char>) -> spec_fn(int) -> bool {
    |k: int| counts[k].0@ == name
}

/// How often a list of counts has counted the name.
pub open spec fn tally(counts: Seq<(String, u64)>, name: Seq<char>) -> nat {
    let k = first_index(at_name(counts, name), 0, counts.len() as int);
    if k < counts.len() {
        counts[k].1 as nat
    } else {
        0
    }
}

/// Whether a list of counts is in strictly ascending order of the names, and
/// holds no zero.
pub open spec fn ascending(counts: Seq<(String, u64)>) -> bool {
    &&& forall|j: int, k: int|
        0 <= j < k < counts.len() ==> precedes((#[trigger] counts[j]).0@, (#[trigger] counts[k]).0@)
    &&& forall|k: int| 0 <= k < counts.len() ==> (#[trigger] counts[k]).1 > 0
}

impl Replay {
    /// Whether a signal of that name stands at `i`, ahead of the cursor and not
    /// taken, that has not lost a race.
    pub open spec fn unclaimed_signal(self, name: Seq<char>, i: int) -> bool {
        &&& self.open_at(i)
        &&& signal_named(self.events[i], name)
        &&& !self.late.contains(i)
    }

    /// How many such signals stand between the cursor and `to`.
    pub open spec fn unclaimed_signals(self, name: Seq<char>, to: int) -> nat
        decreases to - self.cursor,
    {
        if to <= self.cursor {
            0
        } else if self.unclaimed_signal(name, to - 1) {
            self.unclaimed_signals(name, to - 1) + 1
        } else {
            self.unclaimed_signals(name, to - 1)
        }
    }

    /// How many of the first `n` pending signals bear that name and have not lost
    /// a race.
    pub open spec fn undelivered_signals(self, name: Seq<char>, n: int) -> nat
        decreases n,
    {
        if n <= 0 {
            0
        } else if self.pending_signals[n - 1].name == name && !self.late.contains(
            self.pending_signals[n - 1].index,
        ) {
            self.undelivered_signals(name, n - 1) + 1
        } else {
            self.undelivered_signals(name, n - 1)
        }
    }

    /// How many signals of that name nobody claimed, those that lost a race not
    /// counted.
    pub open spec fn unconsumed_signals(self, name: Seq<char>) -> nat {
        self.unclaimed_signals(name, self.len()) + self.undelivered_signals(
            name,
            self.pending_signals.len() as int,
        )
    }
}

/// No name precedes itself.
proof fn lemma_precedes_irreflexive(a: Seq<char>)
    ensures
        !precedes(a, a),
    decreases a.len(),
{
    if a.len() > 0 {
        lemma_precedes_irreflexive(a.drop_first());
    }
}

/// Precedence is transitive.
proof fn lemma_precedes_transitive(a: Seq<char>, b: Seq<char>, c: Seq<char>)
    requires
        precedes(a, b),
        precedes(b, c),
    ensures
        precedes(a, c),
    decreases a.len(),
{
    if a.len() > 0 && a[0] == b[0] && b[0] == c[0] {
        lemma_precedes_transitive(a.drop_first(), b.drop_first(), c.drop_first());
    }
}

/// Of two different names, one precedes the other.
proof fn lemma_precedes_total(a: Seq<char>, b: Seq<char>)
    ensures
        a == b || precedes(a, b) || precedes(b, a),
    decreases a.len(),
{
    if a.len() == 0 {
        if b.len() == 0 {
            assert(a =~= b);
        }
    } else if b.len() > 0 && a[0] == b[0] {
        lemma_precedes_total(a.drop_first(), b.drop_first());
        if a.drop_first() == b.drop_first() {
            assert(a =~= seq![a[0]] + a.drop_first());
            assert(b =~= seq![b[0]] + b.drop_first());
        }
    }
}

/// What a list of counts in order has counted of the name at one of its places.
proof fn lemma_tally_at(counts: Seq<(String, u64)>, k: int)
    requires
        ascending(counts),
        0 <= k < counts.len(),
    ensures
        tally(counts, counts[k].0@) == counts[k].1,
{
    let name = counts[k].0@;
    let p = at_name(counts, name);
    assert forall|j: int| 0 <= j < k implies !#[trigger] p(j) by {
        assert(precedes(counts[j].0@, counts[k].0@));
        lemma_precedes_irreflexive(name);
    }
    lemma_first_index_is(p, 0, counts.len() as int, k);
}

/// A name that stands nowhere in the list was never counted.
proof fn lemma_tally_none(counts: Seq<(String, u64)>, name: Seq<char>)
    requires
        forall|k: int| 0 <= k < counts.len() ==> (#[trigger] counts[k]).0@ != name,
    ensures
        tally(counts, name) == 0,
{
    let p = at_name(counts, name);
    assert forall|j: int| 0 <= j < counts.len() implies !#[trigger] p(j) by {
        assert(counts[j].0@ != name);
    }
    lemma_first_index_is(p, 0, counts.len() as int, counts.len() as int);
}

/// A name that was counted stands somewhere in the list.
proof fn lemma_tally_some(counts: Seq<(String, u64)>, name: Seq<char>)
    requires
        tally(counts, name) > 0,
    ensures
        exists|k: int| 0 <= k < counts.len() && (#[trigger] counts[k]).0@ == name,
{
    let p = at_name(counts, name);
    lemma_first_index(p, 0, counts.len() as int);
    let k = first_index(p, 0, counts.len() as int);
    assert(counts[k].0@ == name);
}

/// Two lists in order that agree up to one place on have counted every name the
/// same, the name at that place aside.
proof fn lemma_bumped(before: Seq<(String, u64)>, after: Seq<(String, u64)>, at: int, new: bool)
    requires
        ascending(before),
        ascending(after),
        0 <= at < after.len(),
        new ==> after.len() == before.len() + 1 && forall|k: int|
            0 <= k < before.len() ==> #[trigger] before[k] == after[if k < at {
                k
            } else {
                k + 1
            }],
        new ==> after[at].1 == 1 && forall|k: int|
            0 <= k < before.len() ==> (#[trigger] before[k]).0@ != after[at].0@,
        !new ==> after.len() == before.len() && before[at].0@ == after[at].0@ && after[at].1
            == before[at].1 + 1 && forall|k: int|
            0 <= k < before.len() && k != at ==> #[trigger] before[k] == after[k],
    ensures
        forall|name: Seq<char>| #[trigger]
            tally(after, name) == tally(before, name) + (if name == after[at].0@ {
                1nat
            } else {
                0nat
            }),
{
    assert forall|name: Seq<char>| #[trigger]
        tally(after, name) == tally(before, name) + (if name == after[at].0@ {
            1nat
        } else {
            0nat
        }) by {
        lemma_tally_at(after, at);
        if name == after[at].0@ {
            if new {
                lemma_tally_none(before, name);
            } else {
                lemma_tally_at(before, at);
            }
        } else {
            if tally(before, name) > 0 {
                lemma_tally_some(before, name);
                let k = choose|k: int| 0 <= k < before.len() && (#[trigger] before[k]).0@ == name;
                lemma_tally_at(before, k);
                let o = if new && k >= at {
                    k + 1
                } else {
                    k
                };
                assert(before[k] == after[o]);
                lemma_tally_at(after, o);
            } else if tally(after, name) > 0 {
                lemma_tally_some(after, name);
                let o = choose|o: int| 0 <= o < after.len() && (#[trigger] after[o]).0@ == name;
                let k = if new && o > at {
                    o - 1
                } else {
                    o
                };
                assert(before[k] == after[o]);
                lemma_tally_at(before, k);
            }
        }
    }
}

/// Counts one more signal of that name.
fn bump(counts: &mut Vec<(String, u64)>, name: &str)
    requires
        ascending(old(counts)@),
        tally(old(counts)@, name@) < u64::MAX,
    ensures
        ascending(final(counts)@),
        forall|n: Seq<char>| #[trigger]
            tally(final(counts)@, n) == tally(old(counts)@, n) + (if n == name@ {
                1nat
            } else {
                0nat
            }),
{
    let ghost before = counts@;
    let mut k: usize = 0;
    while k < counts.len() && str_before(counts[k].0.as_str(), name)
        invariant
            k <= before.len(),
            counts@ == before,
            forall|j: int| 0 <= j < k ==> precedes((#[trigger] before[j]).0@, name@),
        decreases before.len() - k,
    {
        k += 1;
    }
    if k < counts.len() && str_eq(counts[k].0.as_str(), name) {
        proof {
            lemma_tally_at(before, k as int);
        }
        let n = counts[k].1;
        counts[k].1 = n + 1;
        proof {
            assert forall|i: int, j: int| 0 <= i < j < counts@.len() implies precedes(
                (#[trigger] counts@[i]).0@,
                (#[trigger] counts@[j]).0@,
            ) by {
                assert(precedes(before[i].0@, before[j].0@));
            }
            lemma_bumped(before, counts@, k as int, false);
        }
        return ;
    }
    counts.insert(k, (name.to_string(), 1));
    proof {
        let after = counts@;
        assert forall|j: int| k <= j < before.len() implies precedes(
            name@,
            (#[trigger] before[j]).0@,
        ) by {
            lemma_precedes_total(before[k as int].0@, name@);
            if j > k {
                assert(precedes(before[k as int].0@, before[j].0@));
                lemma_precedes_transitive(name@, before[k as int].0@, before[j].0@);
            }
        }
        assert forall|j: int| 0 <= j < before.len() implies #[trigger] before[j] == after[if j < k {
            j
        } else {
            j + 1
        }] by {}
        assert forall|j: int| 0 <= j < before.len() implies (#[trigger] before[j]).0@
            != after[k as int].0@ by {
            lemma_precedes_irreflexive(name@);
        }
        assert forall|i: int, j: int| 0 <= i < j < after.len() implies precedes(
            (#[trigger] after[i]).0@,
            (#[trigger] after[j]).0@,
        ) by {
            let oi = if i < k {
                i
            } else {
                i - 1
            };
            let oj = if j < k {
                j
            } else {
                j - 1
            };
            if i == k {
                assert(after[j] == before[oj]);
            } else if j == k {
                assert(after[i] == before[oi]);
            } else {
                assert(after[i] == before[oi]);
                assert(after[j] == before[oj]);
                assert(precedes(before[oi].0@, before[oj].0@));
            }
        }
        lemma_bumped(before, after, k as int, true);
    }
}

/// Pending signals are recorded at ever later places.
proof fn lemma_pending_spread(s: Replay, k: int)
    requires
        s.wf(),
        0 <= k < s.pending_signals.len(),
    ensures
        k <= s.pending_signals[k].index,
    decreases k,
{
    assert(s.pending_entry_wf(s.pending_signals[k]));
    if k > 0 {
        lemma_pending_spread(s, k - 1);
        assert(s.pending_signals[k - 1].index < s.pending_signals[k].index);
    }
}

/// A range counts no more signals than it has places from the first signal on.
proof fn lemma_unclaimed_bound(s: Replay, name: Seq<char>, first: int, to: int)
    requires
        s.cursor <= to,
        s.cursor <= first,
        forall|i: int| s.cursor <= i < first ==> !#[trigger] s.open_signal(i),
    ensures
        s.unclaimed_signals(name, to) <= if first < to {
            to - first
        } else {
            0
        },
    decreases to - s.cursor,
{
    if s.cursor < to {
        lemma_unclaimed_bound(s, name, first, to - 1);
        if s.unclaimed_signal(name, to - 1) {
            assert(s.open_signal(to - 1));
        }
    }
}

/// Of the first pending signals no more are counted than there are.
proof fn lemma_undelivered_bound(s: Replay, name: Seq<char>, n: int)
    requires
        0 <= n,
    ensures
        s.undelivered_signals(name, n) <= n,
    decreases n,
{
    if n > 0 {
        lemma_undelivered_bound(s, name, n - 1);
    }
}

/// No more signals are counted than the history has events.
proof fn lemma_counts_fit(s: Replay, name: Seq<char>, n: int)
    requires
        s.wf(),
        0 <= n <= s.pending_signals.len(),
    ensures
        s.unclaimed_signals(name, s.len()) + s.undelivered_signals(name, n) <= s.len(),
{
    let p = |i: int| s.open_signal(i);
    let first = first_index(p, s.cursor, s.len());
    lemma_first_index(p, s.cursor, s.len());
    assert forall|i: int| s.cursor <= i < first implies !#[trigger] s.open_signal(i) by {
        assert(!p(i));
    }
    lemma_unclaimed_bound(s, name, first, s.len());
    lemma_undelivered_bound(s, name, n);
    if n > 0 {
        lemma_pending_spread(s, n - 1);
        assert(s.pending_entry_wf(s.pending_signals[n - 1]));
        if first < s.len() {
            assert(s.open_signal(first));
            assert(s.pending_signals[n - 1].index < first);
        }
    }
}

impl HistoryMatcher {
    /// How many signals of each name nobody claimed, in ascending order of the
    /// names; names without any are left out, and signals that lost a race are
    /// not counted.
    pub fn unconsumed_signals_by_name(&self) -> (r: Vec<(String, u64)>)
        requires
            self.wf(),
        ensures
            ascending(r@),
            forall|name: Seq<char>| #[trigger]
                tally(r@, name) == self@.unconsumed_signals(name),
    {
        let ghost s = self@;
        let mut counts: Vec<(String, u64)> = Vec::new();
        assert forall|name: Seq<char>| #[trigger] tally(counts@, name) == 0 by {
            lemma_tally_none(counts@, name);
        }
        let mut i: usize = self.cursor;
        while i < self.events.len()
            invariant
                s == self@,
                s.wf(),
                s.cursor <= i <= s.len(),
                ascending(counts@),
                forall|name: Seq<char>| #[trigger]
                    tally(counts@, name) == s.unclaimed_signals(name, i as int),
            decreases s.len() - i,
        {
            let ghost before = counts@;
            if let WorkflowEvent::SignalReceived { signal_name, .. } = &self.events[i] {
                if !self.is_consumed(i) && !self.late_race_signal_events.contains(i) {
                    proof {
                        lemma_unclaimed_bound(s, signal_name@, s.cursor, i as int);
                    }
                    bump(&mut counts, signal_name.as_str());
                }
            }
            assert forall|name: Seq<char>| #[trigger]
                tally(counts@, name) == s.unclaimed_signals(name, i + 1) by {
                assert(tally(before, name) == s.unclaimed_signals(name, i as int));
            }
            i += 1;
        }
        let mut k: usize = 0;
        while k < self.pending_signals.len()
            invariant
                s == self@,
                s.wf(),
                s.len() <= usize::MAX,
                k <= s.pending_signals.len(),
                ascending(counts@),
                forall|name: Seq<char>| #[trigger]
                    tally(counts@, name) == s.unclaimed_signals(name, s.len())
                        + s.undelivered_signals(name, k as int),
            decreases s.pending_signals.len() - k,
        {
            let ghost before = counts@;
            if !self.late_race_signal_events.contains(self.pending_signals[k].index) {
                proof {
                    lemma_counts_fit(s, s.pending_signals[k as int].name, k + 1);
                }
                bump(&mut counts, self.pending_signals[k].name.as_str());
            }
            assert forall|name: Seq<char>| #[trigger]
                tally(counts@, name) == s.unclaimed_signals(name, s.len())
                    + s.undelivered_signals(name, k + 1) by {
                assert(tally(before, name) == s.unclaimed_signals(name, s.len())
                    + s.undelivered_signals(name, k as int));
            }
            k += 1;
        }
        counts
    }
}

} // verus!
