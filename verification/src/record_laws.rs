//! What side effects, markers and gates give back, told by what is recorded.
use crate::activity_laws::lemma_search_ends;
use crate::event::WorkflowEvent;
use crate::ids::{hyphenated, parsed_id};
use crate::json::{json_member, json_view, JsonView};
use crate::marker::{marks_patch, numbers_in, recorded_task};
use crate::moves::{
    lemma_drained, lemma_moved_to, lemma_next_open, lemma_next_open_here, lemma_prepared,
    lemma_scan_stop, lemma_stashed_frame,
};
use crate::outcome::{HistoryMatchView, PatchMarkerMatch, SideEffectNowMatch};
use crate::replay::Replay;
use crate::scan::{marker_named, ScanView};
use crate::search::lemma_first_index;
use crate::text::decimal;
use crate::types::{opt_text, SideEffectKind};
use crate::vocabulary::{issues_command, reports_progress};
use vstd::prelude::*;

verus! {

/// Whether the result is a divergence that points at the event `i`.
pub open spec fn points_at(r: HistoryMatchView, i: int) -> bool {
    r matches HistoryMatchView::Diverged { event_index, .. } && (if i <= i32::MAX {
        event_index == Some(i as i32)
    } else {
        event_index is None
    })
}

/// Whether the cursor moved past the event at which it stood, and nothing else
/// changed.
pub open spec fn passes_one(before: Replay, after: Replay) -> bool {
    &&& after == (Replay { cursor: after.cursor, ..before })
    &&& before.cursor < after.cursor <= before.len()
    &&& forall|i: int| before.cursor < i < after.cursor ==> #[trigger] before.consumed(i)
    &&& after.cursor < before.len() ==> !before.consumed(after.cursor)
}

/// Moving one event ahead passes it and nothing else.
pub(crate) proof fn lemma_passes_one(s: Replay)
    requires
        0 <= s.cursor < s.len(),
    ensures
        passes_one(s, s.moved_to(s.cursor + 1)),
{
    lemma_next_open(s, s.cursor + 1);
}

// ── Side effects ────────────────────────────────────────────────────────────
/// A side effect is answered with a captured value only where that value was
/// captured for it: by a side effect of the same kind and the same name, or, for a
/// named one of the author's, by the marker `side_effect:{name}`. It then gets the
/// value as it was recorded, and exactly that event is claimed. Held against
/// anything else it diverges there, and nothing is claimed.
pub proof fn law_side_effect_gets_its_own_value(
    s: Replay,
    kind: SideEffectKind,
    name: Option<Seq<char>>,
)
    requires
        s.wf(),
        s.prepared().cursor < s.len(),
    ensures
        ({
            let p = s.prepared();
            let (after, r) = s.side_effect(kind, name);
            match s.events[p.cursor] {
                WorkflowEvent::SideEffectRecorded { kind: recorded, name: n, value } => if recorded
                    == kind && opt_text(n) == name {
                    r == (HistoryMatchView::Matched { output: json_view(value) }) && passes_one(
                        p,
                        after,
                    )
                } else {
                    points_at(r, p.cursor) && after == p
                },
                WorkflowEvent::MarkerRecorded { name: marker, details } => if kind
                    == SideEffectKind::Custom && name is Some && marker@ == "side_effect:"@
                    + name.unwrap() {
                    r == (HistoryMatchView::Matched { output: json_view(details) }) && passes_one(
                        p,
                        after,
                    )
                } else {
                    points_at(r, p.cursor) && after == p
                },
                _ => points_at(r, p.cursor) && after == p,
            }
        }),
{
    lemma_prepared(s);
    lemma_passes_one(s.prepared());
}

/// The deadline probe reads only its own recorded clock: a clock read under the
/// probe's reserved name that holds an integer. Anything else, a clock read of the
/// author's included, is left in place, and is no divergence.
pub proof fn law_probe_reads_only_its_own_clock(s: Replay)
    requires
        s.wf(),
        s.prepared().cursor < s.len(),
    ensures
        ({
            let p = s.prepared();
            let (after, r) = s.side_effect_now();
            let own = s.events[p.cursor] matches WorkflowEvent::SideEffectRecorded {
                kind,
                name,
                ..
            } && kind == SideEffectKind::Now && opt_text(name) == Some("__harvest_deadline_probe"@);
            match s.events[p.cursor] {
                WorkflowEvent::SideEffectRecorded { value, .. } => match json_view(value) {
                    JsonView::Unsigned(n) => if own && n <= i64::MAX {
                        r == (SideEffectNowMatch::Matched { millis: n as i64 }) && passes_one(
                            p,
                            after,
                        )
                    } else {
                        r is NotRecorded && after == p
                    },
                    JsonView::Negative(n) => if own {
                        r == (SideEffectNowMatch::Matched { millis: n }) && passes_one(p, after)
                    } else {
                        r is NotRecorded && after == p
                    },
                    _ => r is NotRecorded && after == p,
                },
                _ => r is NotRecorded && after == p,
            }
        }),
{
    lemma_prepared(s);
    lemma_passes_one(s.prepared());
}

// ── Markers at the cursor ───────────────────────────────────────────────────
/// The marker of a fan-out is found only under its own number, written out in
/// decimal, and only with the same count; it then gives back the count and is
/// claimed. A count that was not recorded as a number that fits counts as zero.
/// Anything else diverges there, and nothing is claimed.
pub proof fn law_fan_out_gets_its_own_count(s: Replay, seq: u32, count: usize)
    requires
        s.wf(),
        s.prepared().cursor < s.len(),
    ensures
        ({
            let p = s.prepared();
            let (after, r) = s.fan_out_marker(seq, count);
            let own = s.events[p.cursor] matches WorkflowEvent::MarkerRecorded { name, details }
                && name@ == "fan_out:"@ + decimal(seq as nat) && (match json_view(details) {
                JsonView::Unsigned(n) => n == count || (n > usize::MAX && count == 0),
                _ => count == 0,
            });
            if own {
                r == (HistoryMatchView::Matched { output: JsonView::Unsigned(count as u64) })
                    && passes_one(p, after)
            } else {
                points_at(r, p.cursor) && after == p
            }
        }),
{
    lemma_prepared(s);
    lemma_passes_one(s.prepared());
}

/// A marker with a number is found only under its own name and only with that very
/// number; it then gives back the number and is claimed. Anything else diverges
/// there, and nothing is claimed.
pub proof fn law_numbered_marker_gets_its_own_number(s: Replay, marker: Seq<char>, number: u64)
    requires
        s.wf(),
        s.prepared().cursor < s.len(),
    ensures
        ({
            let p = s.prepared();
            let (after, r) = s.u64_marker(marker, number);
            let own = s.events[p.cursor] matches WorkflowEvent::MarkerRecorded { name, details }
                && name@ == marker && json_view(details) == JsonView::Unsigned(number);
            if own {
                r == (HistoryMatchView::Matched { output: JsonView::Unsigned(number) })
                    && passes_one(p, after)
            } else {
                points_at(r, p.cursor) && after == p
            }
        }),
{
    lemma_prepared(s);
    lemma_passes_one(s.prepared());
}

/// A worker session is found only under its own number, and only where its marker
/// holds a text that denotes an id: that id is given back in its hyphenated form,
/// and the marker is claimed. Anything else diverges there, and nothing is claimed.
pub proof fn law_session_gets_its_own_id(s: Replay, seq: u32)
    requires
        s.wf(),
        s.prepared().cursor < s.len(),
    ensures
        ({
            let p = s.prepared();
            let (after, r) = s.session_marker(seq);
            match s.events[p.cursor] {
                WorkflowEvent::MarkerRecorded { name, details } => match json_view(details) {
                    JsonView::Text(text) => if name@ == "session:"@ + decimal(seq as nat)
                        && parsed_id(text) is Some {
                        r == (HistoryMatchView::Matched {
                            output: JsonView::Text(hyphenated(parsed_id(text).unwrap())),
                        }) && passes_one(p, after)
                    } else {
                        points_at(r, p.cursor) && after == p
                    },
                    _ => points_at(r, p.cursor) && after == p,
                },
                _ => points_at(r, p.cursor) && after == p,
            }
        }),
{
    lemma_prepared(s);
    lemma_passes_one(s.prepared());
}

/// Whether the details of a skip marker name the task; a marker that names none
/// names the empty one.
pub open spec fn names_task(details: JsonView, task: Seq<char>) -> bool {
    match details {
        JsonView::Record(members) => if members.contains_key("task"@) {
            match members["task"@] {
                JsonView::Text(text) => text == task,
                _ => task.len() == 0,
            }
        } else {
            task.len() == 0
        },
        _ => task.len() == 0,
    }
}

/// A skip marker is found only under its own name and only for its own task; where
/// it lists upstreams that are all numbers, they have to be the same in the same
/// order. It is then claimed. Under another name, or for another task, it diverges
/// there, and nothing is claimed.
pub proof fn law_skip_marker_is_its_own_task(
    s: Replay,
    marker: Seq<char>,
    task: Seq<char>,
    upstreams: Seq<usize>,
)
    requires
        s.wf(),
        s.prepared().cursor < s.len(),
    ensures
        ({
            let p = s.prepared();
            let (after, r) = s.named_marker(marker, task, upstreams);
            match s.events[p.cursor] {
                WorkflowEvent::MarkerRecorded { name, details } => {
                    &&& name@ != marker || !names_task(json_view(details), task) ==> points_at(
                        r,
                        p.cursor,
                    ) && after == p
                    &&& r is Matched ==> passes_one(p, after) && r == (HistoryMatchView::Matched {
                        output: JsonView::Null,
                    })
                    &&& !(r is Matched) ==> points_at(r, p.cursor) && after == p
                    &&& name@ == marker && names_task(json_view(details), task) ==> (match json_view(
                        details,
                    ) {
                        JsonView::Record(members) => if members.contains_key("upstreams"@) {
                            match members["upstreams"@] {
                                JsonView::List(items) => (forall|i: int|
                                    0 <= i < items.len() ==> (#[trigger] items[i]
                                        matches JsonView::Unsigned(n) && n <= usize::MAX)) ==> (
                                r is Matched <==> (items.len() == upstreams.len() && forall|i: int|
                                    0 <= i < items.len() ==> #[trigger] items[i]
                                        == JsonView::Unsigned(upstreams[i] as u64))),
                                _ => r is Matched,
                            }
                        } else {
                            r is Matched
                        },
                        _ => r is Matched,
                    })
                },
                _ => points_at(r, p.cursor) && after == p,
            }
        }),
{
    reveal_strlit("");
    let p = s.prepared();
    lemma_prepared(s);
    lemma_passes_one(p);
    match s.events[p.cursor] {
        WorkflowEvent::MarkerRecorded { details, .. } => {
            let details = json_view(details);
            assert(recorded_task(details) == task <==> names_task(details, task)) by {
                if task.len() == 0 {
                    assert(task =~= ""@);
                }
            }
            match json_member(details, "upstreams"@) {
                Some(JsonView::List(items)) => {
                    if forall|i: int|
                        0 <= i < items.len() ==> (#[trigger] items[i] matches JsonView::Unsigned(n)
                            && n <= usize::MAX) {
                        lemma_all_numbers(items);
                        let numbers = numbers_in(items);
                        if numbers == upstreams {
                            assert forall|i: int| 0 <= i < items.len() implies #[trigger] items[i]
                                == JsonView::Unsigned(upstreams[i] as u64) by {}
                        } else if items.len() == upstreams.len() && forall|i: int|
                            0 <= i < items.len() ==> #[trigger] items[i] == JsonView::Unsigned(
                                upstreams[i] as u64,
                            ) {
                            assert forall|i: int| 0 <= i < items.len() implies numbers[i]
                                == upstreams[i] by {
                                assert(items[i] == JsonView::Unsigned(upstreams[i] as u64));
                            }
                            assert(numbers =~= upstreams);
                        }
                    }
                },
                _ => {},
            }
        },
        _ => {},
    }
}

/// A list of numbers that fit is read number by number.
proof fn lemma_all_numbers(items: Seq<JsonView>)
    requires
        forall|i: int|
            0 <= i < items.len() ==> (#[trigger] items[i] matches JsonView::Unsigned(n) && n
                <= usize::MAX),
    ensures
        numbers_in(items).len() == items.len(),
        forall|i: int|
            0 <= i < items.len() ==> #[trigger] items[i] == JsonView::Unsigned(
                numbers_in(items)[i] as u64,
            ),
    decreases items.len(),
{
    if items.len() > 0 {
        let front = items.drop_last();
        assert forall|i: int| 0 <= i < front.len() implies (
        #[trigger] front[i] matches JsonView::Unsigned(n) && n <= usize::MAX) by {
            assert(items[i] == front[i]);
        }
        lemma_all_numbers(front);
        let last = items.len() - 1;
        assert(items[last] matches JsonView::Unsigned(n) && n <= usize::MAX);
        assert forall|i: int| 0 <= i < items.len() implies #[trigger] items[i]
            == JsonView::Unsigned(numbers_in(items)[i] as u64) by {
            if i < last {
                assert(front[i] == items[i]);
            }
        }
    }
}

// ── Gates ───────────────────────────────────────────────────────────────────
/// Whether `e` is a marker of that name.
pub open spec fn is_marker(e: WorkflowEvent, marker: Seq<char>) -> bool {
    e matches WorkflowEvent::MarkerRecorded { name, .. } && name@ == marker
}

/// A version gate yields the version that was recorded for its own change: the
/// number in the marker `version:{change}`, which is claimed. A history recorded
/// without that marker yields the lowest version and keeps everything in place;
/// past the end of history the highest one is yielded.
pub proof fn law_version_gate_yields_the_recorded_version(
    s: Replay,
    change: Seq<char>,
    min: u32,
    max: u32,
)
    requires
        s.wf(),
    ensures
        ({
            let d = s.advanced().drained();
            let (after, r) = s.version(change, min, max);
            if !s.replaying() {
                r == max && after.latched == s.latched.insert(change) && after.cursor == s.len()
            } else if d.cursor < s.len() && is_marker(s.events[d.cursor], "version:"@ + change) {
                &&& passes_one(d, after)
                &&& s.events[d.cursor] matches WorkflowEvent::MarkerRecorded { details, .. }
                    && match json_view(details) {
                    JsonView::Unsigned(n) => r == if n <= u32::MAX {
                        n as u32
                    } else {
                        min
                    },
                    _ => r == min,
                }
            } else {
                r == min && after == d
            }
        }),
{
    let a = s.advanced();
    lemma_moved_to(s, s.cursor);
    lemma_next_open(s, s.cursor);
    lemma_next_open_here(a, a.cursor);
    lemma_drained(a);
    let d = a.drained();
    lemma_next_open_here(d, d.cursor);
    if d.cursor < d.len() {
        lemma_passes_one(d);
    }
}

/// A patch gate takes the new branch exactly where the history says so: past its
/// end, or where a marker `patch:{id}` or `version:{id}` of that very patch stands
/// where it is looked for, which is then claimed. Any other history is from before
/// the patch, and keeps everything in place. Of a deprecated patch, what its
/// deprecation found decides.
pub proof fn law_patch_gate_follows_its_own_marker(s: Replay, id: Seq<char>)
    requires
        s.wf(),
    ensures
        ({
            let d = s.advanced().drained();
            let (after, r) = s.patch(id);
            if s.deprecated.contains_key(id) {
                after == s && r == if s.deprecated[id] {
                    PatchMarkerMatch::Recorded
                } else {
                    PatchMarkerMatch::Absent
                }
            } else if !s.replaying() {
                r is NewlyPatched && after.latched == s.latched.insert(id)
            } else if d.cursor < s.len() && (is_marker(s.events[d.cursor], "patch:"@ + id)
                || is_marker(s.events[d.cursor], "version:"@ + id)) {
                r is Recorded && passes_one(d, after)
            } else {
                r is Absent && after == d
            }
        }),
{
    let a = s.advanced();
    lemma_moved_to(s, s.cursor);
    lemma_next_open(s, s.cursor);
    lemma_next_open_here(a, a.cursor);
    lemma_drained(a);
    let d = a.drained();
    lemma_next_open_here(d, d.cursor);
    if d.cursor < d.len() {
        lemma_passes_one(d);
    }
}

/// Deprecating a patch finds it exactly where a marker `patch:{id}` or
/// `version:{id}` is recorded anywhere, or about to be; every such marker, and
/// nothing else, is claimed, and what was found is kept.
pub proof fn law_deprecation_finds_its_own_markers(s: Replay, id: Seq<char>)
    requires
        s.wf(),
        !s.deprecated.contains_key(id),
    ensures
        ({
            let (after, found) = s.patch_deprecated(id);
            &&& found <==> s.latched.contains(id) || exists|i: int|
                0 <= i < s.len() && (is_marker(#[trigger] s.events[i], "patch:"@ + id) || is_marker(
                    s.events[i],
                    "version:"@ + id,
                ))
            &&& forall|i: int|
                0 <= i < s.len() ==> after.consumed(i) == (s.consumed(i) || is_marker(
                    #[trigger] s.events[i],
                    "patch:"@ + id,
                ) || is_marker(s.events[i], "version:"@ + id))
            &&& after.deprecated == s.deprecated.insert(id, found)
            &&& after == (Replay {
                out_of_order: after.out_of_order,
                deprecated: after.deprecated,
                ..s
            })
        }),
{
    let (after, found) = s.patch_deprecated(id);
    if s.patch_present(id) && !s.latched.contains(id) {
        let i = choose|i: int| 0 <= i < s.len() && marks_patch(#[trigger] s.events[i], id);
        assert(is_marker(s.events[i], "patch:"@ + id) || is_marker(s.events[i], "version:"@ + id));
    }
    if exists|i: int|
        0 <= i < s.len() && (is_marker(#[trigger] s.events[i], "patch:"@ + id) || is_marker(
            s.events[i],
            "version:"@ + id,
        )) {
        let i = choose|i: int|
            0 <= i < s.len() && (is_marker(#[trigger] s.events[i], "patch:"@ + id) || is_marker(
                s.events[i],
                "version:"@ + id,
            ));
        assert(marks_patch(s.events[i], id));
    }
}

// ── Markers further ahead ───────────────────────────────────────────────────
/// Recorded by or for a command, with no local activity involved: what looking
/// ahead for a marker may cross.
pub open spec fn crossed_for_marker(e: WorkflowEvent) -> bool {
    &&& issues_command(e) || reports_progress(e)
    &&& !(e is LocalActivityScheduled)
    &&& !(e is LocalActivityCompleted)
    &&& !(e is LocalActivityFailed)
}

/// Looking ahead for a marker with a number finds the first one of that name, as
/// long as only events of concurrent commands stand before it: it gives back the
/// number that was recorded, and claims the marker alone. What was crossed is still
/// to be claimed, and the cursor returns in front of it.
///
/// `t` is the first event, still to be claimed, that is such a marker or must not be
/// crossed. Where it is no such marker, or where there is none, nothing is found.
pub proof fn law_marker_ahead_is_found(s: Replay, marker: Seq<char>, t: int)
    requires
        s.wf(),
        s.prepared().cursor <= t <= s.len(),
        t < s.len() ==> s.prepared().open_at(t) && (is_marker(s.events[t], marker)
            || !crossed_for_marker(s.events[t])),
        forall|j: int|
            s.prepared().cursor <= j < t && s.prepared().open_at(j) ==> crossed_for_marker(
                #[trigger] s.events[j],
            ) && !is_marker(s.events[j], marker),
    ensures
        ({
            let p = s.prepared();
            let (after, r) = s.peeked_marker(marker);
            let found = t < s.len() && is_marker(s.events[t], marker);
            &&& !found ==> r is None
            &&& found ==> {
                &&& s.events[t] matches WorkflowEvent::MarkerRecorded { details, .. }
                    && match json_view(details) {
                    JsonView::Unsigned(n) => r == Some(n),
                    _ => r is None,
                }
                &&& after.consumed(t) || t < after.cursor
            }
            &&& forall|j: int|
                p.cursor <= j && j != t && #[trigger] p.open_at(j) ==> !after.consumed(j)
            &&& forall|j: int|
                p.cursor <= j < t && #[trigger] p.open_at(j) ==> after.cursor <= j
        }),
{
    let p = s.prepared();
    lemma_prepared(s);
    let scan = ScanView::Marker(marker);
    assert forall|j: int| p.cursor <= j < t implies !(#[trigger] p.step_at(scan, j) is Hit) && !(
    p.step_at(scan, j) is Halt) && (p.step_at(scan, j) is Command) == p.open_at(j) && !(p.step_at(
        scan,
        j,
    ) is Stash) by {
        assert(p.open_at(j) ==> crossed_for_marker(s.events[j]) && !is_marker(s.events[j], marker));
    }
    lemma_search_ends(p, scan, p.cursor, p.len(), t);
    lemma_scan_stop(p, scan, p.cursor, p.len());
    lemma_stashed_frame(p, scan, p.cursor, t);
    let w = p.scanned(scan, p.cursor, p.len());
    let command = p.scan_command(scan, p.cursor, p.len());
    let commands = |i: int| p.step_at(scan, i) is Command;
    lemma_first_index(commands, p.cursor, t);
    let after = s.peeked_marker(marker).0;
    assert forall|j: int| #[trigger] w.consumed(j) == p.consumed(j) by {
        if p.cursor <= j < t {
            assert(!(p.step_at(scan, j) is Stash));
        }
    }
    assert forall|j: int| p.cursor <= j < t && #[trigger] p.open_at(j) implies after.cursor <= j by {
        assert(commands(j));
        let c = command.unwrap();
        assert(commands(c));
        assert(c <= j);
        if t < s.len() && is_marker(s.events[t], marker) {
            lemma_next_open_here(w.claimed(t), c);
        } else {
            lemma_next_open_here(w, c);
        }
    }
    if t < s.len() && command is None {
        lemma_next_open(w, t + 1);
    }
    assert forall|j: int| p.cursor <= j && j != t && #[trigger] p.open_at(
        j,
    ) implies !after.consumed(j) by {
        assert(w.consumed(j) == p.consumed(j));
    }
}

/// A marker is reported as left exactly where one of that name stands ahead of the
/// cursor and was not claimed.
pub proof fn law_left_marker_is_reported(s: Replay, marker: Seq<char>)
    requires
        s.wf(),
    ensures
        s.has_marker(marker) <==> exists|i: int|
            s.cursor <= i < s.len() && !s.consumed(i) && is_marker(#[trigger] s.events[i], marker),
{
    if s.has_marker(marker) {
        let i = choose|i: int|
            s.cursor <= i < s.len() && s.open_at(i) && marker_named(
                #[trigger] s.events[i],
                marker,
            );
        assert(is_marker(s.events[i], marker));
    }
    if exists|i: int|
        s.cursor <= i < s.len() && !s.consumed(i) && is_marker(#[trigger] s.events[i], marker) {
        let i = choose|i: int|
            s.cursor <= i < s.len() && !s.consumed(i) && is_marker(#[trigger] s.events[i], marker);
        assert(s.open_at(i) && marker_named(s.events[i], marker));
    }
}

/// A saga's marker is found behind nothing but cancels of the run and signals, and
/// then claimed alone. At any other event the history holds none; where the end is
/// reached, the unwind is live, or, with signals crossed or taken out on the way,
/// at a frontier of signals that nobody awaited.
///
/// `t` is the first event, still to be claimed, that is neither a cancel of the run
/// nor a signal.
pub proof fn law_saga_marker_is_found(s: Replay, marker: Seq<char>, t: int)
    requires
        s.wf(),
        s.advanced().drained().cursor <= t <= s.len(),
        t < s.len() ==> s.advanced().drained().open_at(t) && !(s.events[t] is WorkflowCancelled)
            && !(s.events[t] is SignalReceived),
        forall|j: int|
            s.advanced().drained().cursor <= j < t && s.advanced().drained().open_at(j) ==> (
            #[trigger] s.events[j] is WorkflowCancelled || s.events[j] is SignalReceived),
    ensures
        ({
            let d = s.advanced().drained();
            let (after, r) = s.saga_marker(marker);
            if t < s.len() {
                if is_marker(s.events[t], marker) {
                    &&& r is Recorded
                    &&& after.consumed(t) || t < after.cursor
                    &&& forall|j: int|
                        d.cursor <= j && j != t && #[trigger] d.open_at(j) ==> !after.consumed(j)
                    &&& t > d.cursor ==> after.cursor == d.cursor
                } else {
                    r is Absent && after == d
                }
            } else if !s.replaying() {
                r is LiveFrontier
            } else if d.cursor == s.len() || exists|j: int|
                d.cursor <= j < s.len() && #[trigger] d.open_at(j)
                    && s.events[j] is SignalReceived {
                r is DrainedSignalFrontier && after == d
            } else {
                r is LiveFrontier && after == d
            }
        }),
{
    let a = s.advanced();
    lemma_moved_to(s, s.cursor);
    lemma_next_open(s, s.cursor);
    lemma_next_open_here(a, a.cursor);
    lemma_drained(a);
    let d = a.drained();
    lemma_next_open_here(d, d.cursor);
    let scan = ScanView::SagaMarker(marker);
    assert forall|j: int| d.cursor <= j < t implies !(#[trigger] d.step_at(scan, j) is Hit) && !(
    d.step_at(scan, j) is Halt) by {
        assert(d.open_at(j) ==> s.events[j] is WorkflowCancelled || s.events[j] is SignalReceived);
    }
    lemma_search_ends(d, scan, d.cursor, d.len(), t);
    if d.cursor < d.len() {
        lemma_passes_one(d);
    }
    if exists|j: int|
        d.cursor <= j < s.len() && #[trigger] d.open_at(j) && s.events[j] is SignalReceived {
        let j = choose|j: int|
            d.cursor <= j < s.len() && #[trigger] d.open_at(j) && s.events[j] is SignalReceived;
        assert(d.open_signal(j));
    }
    if exists|i: int| d.cursor <= i < d.len() && #[trigger] d.open_signal(i) {
        let i = choose|i: int| d.cursor <= i < d.len() && #[trigger] d.open_signal(i);
        assert(d.open_at(i));
    }
}

} // verus!
