//! What holds of patch gates, versions, other markers and updates.
use crate::event::WorkflowEvent;
use crate::json::JsonView;
use crate::marker::{marker_details, marks_patch, version_marker};
use crate::moves::{
    lemma_drained, lemma_moved_to, lemma_next_open, lemma_next_open_here, lemma_prepared,
    lemma_scan_stop,
};
use crate::outcome::{PatchMarkerMatch, SagaMarkerMatch};
use crate::replay::Replay;
use crate::scan::{marker_named, ScanView};
use crate::search::{first_index, lemma_first_index, lemma_first_index_same};
use crate::types::UpdateId;
use crate::update::{admits, resolves};
use vstd::prelude::*;

verus! {

// ── Patches ─────────────────────────────────────────────────────────────────
/// Deprecating a patch twice is deprecating it once, and from then on asking
/// for the patch answers what the deprecation found.
pub proof fn law_deprecation_is_idempotent(s: Replay, id: Seq<char>)
    ensures
        ({
            let (t, present) = s.patch_deprecated(id);
            &&& t.patch_deprecated(id) == (t, present)
            &&& t.patch(id) == (
                t,
                if present {
                    PatchMarkerMatch::Recorded
                } else {
                    PatchMarkerMatch::Absent
                },
            )
        }),
{
}

/// On a fresh replay, deprecating a patch finds it exactly where the history holds
/// a marker of it; an empty history holds none.
pub proof fn law_deprecation_finds_recorded_markers(events: Seq<WorkflowEvent>, id: Seq<char>)
    ensures
        Replay::start(events).patch_deprecated(id).1 <==> exists|i: int|
            0 <= i < events.len() && marks_patch(#[trigger] events[i], id),
{
}

/// What was decided of a deprecated patch stays decided in every later state.
pub proof fn law_deprecation_stays_decided(s: Replay, later: Replay, id: Seq<char>)
    requires
        s.patch_deprecated(id).0.evolves_to(later),
    ensures
        later.patch_deprecated(id) == (later, s.patch_deprecated(id).1),
        later.patch(id).1 == s.patch_deprecated(id).0.patch(id).1,
{
    let t = s.patch_deprecated(id).0;
    assert(t.deprecated.contains_key(id));
}

/// Deprecating a patch claims every marker of it, wherever it stands, and no
/// other event.
pub proof fn law_deprecation_claims_the_markers(s: Replay, id: Seq<char>, i: int)
    requires
        s.wf(),
        0 <= i < s.len(),
        !s.deprecated.contains_key(id),
    ensures
        s.patch_deprecated(id).0.consumed(i) == (s.consumed(i) || marks_patch(s.events[i], id)),
{
}

/// A patch that this run has just introduced counts as present when it is
/// deprecated later in the same run; so does a version that it has just drawn.
pub proof fn law_new_patch_counts_as_present(
    s: Replay,
    later: Replay,
    id: Seq<char>,
    min: u32,
    max: u32,
)
    requires
        s.wf(),
        !later.deprecated.contains_key(id),
        ({
            ||| s.patch(id).1 is NewlyPatched && s.patch(id).0.evolves_to(later)
            ||| !s.replaying() && s.version(id, min, max).0.evolves_to(later)
        }),
    ensures
        later.patch_deprecated(id).1,
{
    if s.patch(id).1 is NewlyPatched && s.patch(id).0.evolves_to(later) {
        assert(s.patch(id).0.latched.contains(id));
    } else {
        lemma_next_open(s, s.cursor);
        lemma_next_open_here(s.advanced(), s.advanced().cursor);
        assert(s.version(id, min, max).0.latched.contains(id));
    }
}

/// A recorded version of a change answers a patch gate of the same name, and a
/// version gate with the number that was recorded.
pub proof fn law_recorded_version_answers_both_gates(
    s: Replay,
    id: Seq<char>,
    min: u32,
    max: u32,
    version: u32,
)
    requires
        s.wf(),
        !s.deprecated.contains_key(id),
        s.advanced().drained().replaying(),
        marker_named(s.events[s.advanced().drained().cursor], version_marker(id)),
        marker_details(s.events[s.advanced().drained().cursor]) == JsonView::Unsigned(
            version as u64,
        ),
    ensures
        s.patch(id).1 is Recorded,
        s.version(id, min, max).1 == version,
        s.version(id, min, max).0 == s.patch(id).0,
{
    let a = s.advanced();
    lemma_moved_to(s, s.cursor);
    lemma_drained(a);
    lemma_next_open_here(a, a.cursor);
    let d = a.drained();
    lemma_next_open(d, d.cursor);
}

/// A patch gate that finds no marker leaves everything but what is kept aside
/// where it is: the event that it looked at is still to be matched.
pub proof fn law_absent_patch_takes_nothing(s: Replay, id: Seq<char>)
    requires
        s.wf(),
        !s.deprecated.contains_key(id),
        s.patch(id).1 is Absent,
    ensures
        s.patch(id).0 == s.advanced().drained(),
{
}

// ── Saga markers ────────────────────────────────────────────────────────────
/// Looking for a saga marker never fails, and takes at most that one marker:
/// whatever else it meets stays where it is.
pub proof fn law_saga_marker_takes_only_itself(s: Replay, marker: Seq<char>, i: int)
    requires
        s.wf(),
        0 <= i < s.len(),
        !marker_named(s.events[i], marker),
    ensures
        s.saga_marker(marker).0.consumed(i) == s.advanced().drained().consumed(i)
            || s.saga_marker(marker).0.consumed(i) == s.consumed(i),
        !(s.saga_marker(marker).1 is Recorded) ==> s.saga_marker(marker).0 == s.advanced()
            || s.saga_marker(marker).0 == s.advanced().drained(),
{
    let a = s.advanced();
    lemma_moved_to(s, s.cursor);
    lemma_drained(a);
    let d = a.drained();
    lemma_scan_stop(d, ScanView::SagaMarker(marker), d.cursor, d.len());
}

/// A saga marker is looked for behind cancels of the run and signals only: any
/// other event that is still to be claimed hides the markers behind it, and the
/// unwind is then one that was not recorded.
pub proof fn law_saga_marker_is_hidden_by_other_events(s: Replay, marker: Seq<char>, i: int)
    requires
        s.wf(),
        s.advanced().drained().cursor <= i < s.len(),
        s.advanced().drained().open_at(i),
        !(s.events[i] is WorkflowCancelled),
        !(s.events[i] is SignalReceived),
        forall|j: int|
            s.advanced().drained().cursor <= j <= i && s.advanced().drained().open_at(j)
                ==> !marker_named(#[trigger] s.events[j], marker),
    ensures
        s.saga_marker(marker) == (s.advanced().drained(), SagaMarkerMatch::Absent),
{
    let a = s.advanced();
    lemma_moved_to(s, s.cursor);
    lemma_drained(a);
    let d = a.drained();
    let scan = ScanView::SagaMarker(marker);
    let stop = d.scan_stop(scan, d.cursor, d.len());
    lemma_scan_stop(d, scan, d.cursor, d.len());
    assert(d.step_at(scan, i) is Halt);
    assert(stop <= i);
    assert(d.step_at(scan, stop) is Halt) by {
        assert(!marker_named(s.events[stop], marker));
    }
    lemma_next_open(d, d.cursor);
    lemma_next_open(a, a.cursor);
}

/// A marker that is not left ahead is not found.
pub proof fn law_no_marker_no_value(s: Replay, marker: Seq<char>)
    requires
        s.wf(),
        s.peeked_marker(marker).1 is Some,
    ensures
        s.has_marker(marker),
{
    let p = s.prepared();
    lemma_prepared(s);
    let scan = ScanView::Marker(marker);
    let stop = p.scan_stop(scan, p.cursor, p.len());
    lemma_scan_stop(p, scan, p.cursor, p.len());
    assert(marker_named(s.events[stop], marker));
    assert(!s.consumed(stop));
    assert(s.open_at(stop));
}

// ── Updates ─────────────────────────────────────────────────────────────────
/// An update has no recorded answer exactly where no outcome of it is recorded.
pub proof fn law_unanswered_update_is_unresolved(s: Replay, id: UpdateId)
    ensures
        s.update(id) is NoMatch <==> !s.update_resolved(id),
{
    let p = |i: int| resolves(s.events[i], id);
    lemma_first_index(p, 0, s.len());
    let k = first_index(p, 0, s.len());
    if k < s.len() {
        assert(p(k));
        assert(resolves(s.events[k], id));
    }
    if s.update_resolved(id) {
        let j = choose|j: int| 0 <= j < s.len() && resolves(#[trigger] s.events[j], id);
        assert(p(j));
    }
}

/// Which updates are handed to handlers among the first `n` events.
proof fn lemma_admitted(s: Replay, id: UpdateId, n: int)
    requires
        0 <= n <= s.len(),
    ensures
        (exists|k: int| 0 <= k < s.admitted(n).len() && #[trigger] s.admitted(n)[k].id == id) <==> (
        !s.update_resolved(id) && exists|i: int| 0 <= i < n && admits(#[trigger] s.events[i], id)),
    decreases n,
{
    if n > 0 {
        lemma_admitted(s, id, n - 1);
        let front = s.admitted(n - 1);
        let all = s.admitted(n);
        if exists|k: int| 0 <= k < front.len() && #[trigger] front[k].id == id {
            let k = choose|k: int| 0 <= k < front.len() && #[trigger] front[k].id == id;
            assert(all[k].id == id);
        }
        if admits(s.events[n - 1], id) && !s.update_resolved(id) {
            assert(all[front.len() as int].id == id);
        }
        if exists|k: int| 0 <= k < all.len() && #[trigger] all[k].id == id {
            let k = choose|k: int| 0 <= k < all.len() && #[trigger] all[k].id == id;
            if k < front.len() {
                assert(front[k].id == id);
            } else {
                assert(admits(s.events[n - 1], id));
            }
        }
    }
}

/// The updates that are handed to handlers are those that were admitted and have
/// no recorded answer.
pub proof fn law_admitted_updates_are_the_unanswered(s: Replay, id: UpdateId)
    ensures
        (exists|k: int|
            0 <= k < s.admitted(s.len()).len() && #[trigger] s.admitted(s.len())[k].id == id) <==> (
        s.update(id) is NoMatch && exists|i: int|
            0 <= i < s.len() && admits(#[trigger] s.events[i], id)),
{
    lemma_admitted(s, id, s.len());
    law_unanswered_update_is_unresolved(s, id);
}

/// What is answered to an update, which updates are open and which are handed to
/// handlers does not depend on how far the replay has come.
pub proof fn law_updates_do_not_depend_on_progress(s: Replay, later: Replay, id: UpdateId, n: int)
    requires
        s.evolves_to(later),
    ensures
        later.update(id) == s.update(id),
        later.open_updates(n) == s.open_updates(n),
        later.admitted(n) == s.admitted(n),
{
    lemma_first_index_same(
        |i: int| resolves(s.events[i], id),
        |i: int| resolves(later.events[i], id),
        0,
        s.len(),
    );
    assert forall|other: UpdateId| later.update_open(other, n) == s.update_open(other, n) by {}
    assert(later.open_updates(n) =~= s.open_updates(n));
    lemma_same_admitted(s, later, n);
}

/// Which updates are handed to handlers depends on the history alone.
proof fn lemma_same_admitted(s: Replay, t: Replay, n: int)
    requires
        s.events == t.events,
    ensures
        s.admitted(n) == t.admitted(n),
    decreases n,
{
    if n > 0 {
        lemma_same_admitted(s, t, n - 1);
        assert forall|id: UpdateId| s.update_resolved(id) == t.update_resolved(id) by {}
    }
}

/// A closed history leaves no update open exactly where every admission is
/// followed by an outcome.
pub proof fn law_all_finished_means_all_resolved(s: Replay, n: int)
    ensures
        s.open_updates(n) == Set::<UpdateId>::empty() <==> forall|i: int, id: UpdateId|
            0 <= i < n && #[trigger] admits(s.events[i], id) ==> exists|j: int|
                i < j < n && resolves(#[trigger] s.events[j], id),
{
    if s.open_updates(n) == Set::<UpdateId>::empty() {
        assert forall|i: int, id: UpdateId|
            0 <= i < n && #[trigger] admits(s.events[i], id) implies exists|j: int|
            i < j < n && resolves(#[trigger] s.events[j], id) by {
            assert(!s.open_updates(n).contains(id));
            assert(!s.update_open(id, n));
        }
    } else {
        if forall|i: int, id: UpdateId|
            0 <= i < n && #[trigger] admits(s.events[i], id) ==> exists|j: int|
                i < j < n && resolves(#[trigger] s.events[j], id) {
            assert forall|id: UpdateId| !s.open_updates(n).contains(id) by {
                if s.update_open(id, n) {
                    let i = choose|i: int|
                        0 <= i < n && admits(#[trigger] s.events[i], id) && forall|j: int|
                            i < j < n ==> !resolves(#[trigger] s.events[j], id);
                    assert(admits(s.events[i], id));
                }
            }
            assert(s.open_updates(n) =~= Set::<UpdateId>::empty());
        }
    }
}

} // verus!
