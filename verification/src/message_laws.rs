//! What divergences show, told by what is requested and what is recorded.
use crate::divergence_laws::{called, law_events_are_known_by_their_kind, shown_as};
use crate::event::WorkflowEvent;
use crate::json::{json_debug_text, json_same, json_text, json_view, JsonView};
use crate::marker::numbers_in;
use crate::moves::{lemma_moved_to, lemma_prepared, lemma_scan_stop};
use crate::outcome::{ChildOrTimerView, HistoryMatchView, MutexGrantView, SignalOrTimerView};
use crate::replay::Replay;
use crate::scan::ScanView;
use crate::text::{decimal, digit, listed, shown_list};
use crate::types::{opt_text, ParentClosePolicy, SideEffectKind};
use vstd::prelude::*;

verus! {

// ── Numbers ─────────────────────────────────────────────────────────────────
/// The number that a row of decimal digits denotes.
pub open spec fn denotes(digits: Seq<char>) -> int
    decreases digits.len(),
{
    if digits.len() == 0 {
        0
    } else {
        denotes(digits.drop_last()) * 10 + (digits.last() as int - '0' as int)
    }
}

/// A number is written out so that it can be read back: in decimal digits that
/// denote it, without a leading zero.
pub proof fn law_written_numbers_read_back(n: nat)
    ensures
        denotes(decimal(n)) == n,
        decimal(n).len() > 0,
        forall|k: int| 0 <= k < decimal(n).len() ==> '0' <= #[trigger] decimal(n)[k] <= '9',
        decimal(n).len() > 1 ==> decimal(n)[0] != '0',
    decreases n,
{
    reveal_with_fuel(denotes, 2);
    if n < 10 {
        assert(decimal(n).drop_last() =~= Seq::<char>::empty());
        assert(decimal(n).last() == digit(n));
    } else {
        let front = decimal(n / 10);
        law_written_numbers_read_back(n / 10);
        assert(decimal(n).drop_last() =~= front);
        assert(decimal(n).last() == digit(n % 10));
        assert(decimal(n)[0] == front[0]);
        if front.len() == 1 {
            assert(n / 10 < 10) by {
                if n / 10 >= 10 {
                    law_written_numbers_read_back(n / 100);
                    assert(n / 10 / 10 == n / 100);
                    assert(front.len() == decimal(n / 10 / 10).len() + 1);
                }
            }
            assert(front =~= seq![digit(n / 10)]);
        }
    }
}

/// A list of numbers: each written out, with a comma and a space in between.
pub open spec fn spelled(items: Seq<usize>) -> Seq<char>
    decreases items.len(),
{
    if items.len() == 0 {
        Seq::empty()
    } else if items.len() == 1 {
        decimal(items[0] as nat)
    } else {
        decimal(items[0] as nat) + ", "@ + spelled(items.drop_first())
    }
}

/// The last item of a list is spelled last.
proof fn lemma_spelled_last(items: Seq<usize>)
    requires
        items.len() > 1,
    ensures
        spelled(items) == spelled(items.drop_last()) + ", "@ + decimal(items.last() as nat),
    decreases items.len(),
{
    let rest = items.drop_first();
    let front = items.drop_last();
    if items.len() == 2 {
        assert(rest[0] == items.last());
        assert(spelled(rest) == decimal(items.last() as nat));
        assert(spelled(front) == decimal(items[0] as nat));
    } else {
        lemma_spelled_last(rest);
        assert(rest.drop_last() =~= front.drop_first());
        assert(front[0] == items[0]);
        assert(spelled(items) =~= decimal(items[0] as nat) + ", "@ + spelled(rest.drop_last())
            + ", "@ + decimal(items.last() as nat));
    }
}

/// A list of numbers is shown item by item from the first to the last, in
/// brackets.
pub proof fn law_lists_show_every_item(items: Seq<usize>)
    ensures
        shown_list(items) == "["@ + spelled(items) + "]"@,
    decreases items.len(),
{
    if items.len() > 1 {
        law_lists_show_every_item(items.drop_last());
        lemma_listed(items);
    }
}

/// Lists are spelled the same way from either end.
proof fn lemma_listed(items: Seq<usize>)
    ensures
        listed(items) == spelled(items),
    decreases items.len(),
{
    if items.len() > 1 {
        lemma_listed(items.drop_last());
        lemma_spelled_last(items);
    }
}

// ── Timers ──────────────────────────────────────────────────────────────────
/// What a timer that was armed with that duration is called.
pub open spec fn armed_for(timer: Seq<char>, secs: u64) -> Seq<char> {
    called("TimerStarted"@, timer + ", duration="@ + decimal(secs as nat) + "s"@)
}

/// Whether a divergence shows the timer that was requested, and what is recorded
/// instead: with the durations where only these differ.
pub open spec fn shows_timer(
    e: WorkflowEvent,
    timer: Seq<char>,
    duration: Option<u64>,
    expected: Seq<char>,
    actual: Seq<char>,
) -> bool {
    match e {
        WorkflowEvent::TimerStarted { timer_id, duration_secs } => if timer_id.0@ != timer {
            &&& expected == called("TimerStarted"@, timer)
            &&& actual == called("TimerStarted"@, timer_id.0@)
        } else {
            &&& duration matches Some(secs)
            &&& secs != duration_secs
            &&& expected == armed_for(timer, secs)
            &&& actual == armed_for(timer, duration_secs)
        },
        other => {
            &&& expected == called("TimerStarted"@, timer)
            &&& actual == shown_as(other)
        },
    }
}

/// A timer that diverges shows what was requested, and what is recorded in its
/// place.
pub proof fn law_timer_divergence_shows_both_sides(
    s: Replay,
    timer: Seq<char>,
    duration: Option<u64>,
    secs: u64,
    name: Seq<char>,
)
    requires
        s.wf(),
    ensures
        ({
            let e = s.events[s.prepared().cursor];
            &&& s.timer(timer, duration).1 matches HistoryMatchView::Diverged {
                expected,
                actual,
                ..
            } ==> shows_timer(e, timer, duration, expected, actual)
            &&& s.timer_arm(timer, secs).1 matches HistoryMatchView::Diverged {
                expected,
                actual,
                ..
            } ==> shows_timer(e, timer, Some(secs), expected, actual)
            &&& s.signal_or_timer(name, timer, duration).1 matches SignalOrTimerView::Diverged {
                expected,
                actual,
                ..
            } ==> shows_timer(e, timer, duration, expected, actual)
            &&& !(s.timer_cancel(timer).1 is Diverged)
        }),
{
    lemma_prepared(s);
    let p = s.prepared();
    law_events_are_known_by_their_kind(p.events[p.cursor]);
}

/// A lock that diverges shows the key that was requested, and what is recorded in
/// its place.
pub proof fn law_lock_divergence_shows_both_sides(s: Replay, key: Seq<char>)
    requires
        s.wf(),
    ensures
        s.mutex_granted(key).1 matches MutexGrantView::Diverged { expected, actual, .. } ==> {
            &&& expected == called("MutexGranted"@, key)
            &&& actual == (match s.events[s.prepared().cursor] {
                WorkflowEvent::MutexGranted { key: other, .. } => called("MutexGranted"@, other@),
                other => shown_as(other),
            })
        },
{
    lemma_prepared(s);
    let p = s.prepared();
    law_events_are_known_by_their_kind(p.events[p.cursor]);
}

// ── Children ────────────────────────────────────────────────────────────────
/// Whether a divergence shows the child that was requested, and what is recorded
/// instead: the inputs where only these differ.
pub open spec fn shows_child(
    e: WorkflowEvent,
    name: Seq<char>,
    input: JsonView,
    expected: Seq<char>,
    actual: Seq<char>,
) -> bool {
    match e {
        WorkflowEvent::ChildWorkflowStarted { workflow_name, input: other, .. } => {
            if workflow_name@ != name {
                &&& expected == called("ChildWorkflowStarted"@, name)
                &&& actual == called("ChildWorkflowStarted"@, workflow_name@)
            } else {
                &&& !json_same(json_view(other), input)
                &&& expected == called("ChildWorkflowInput"@, json_text(input))
                &&& actual == called("ChildWorkflowInput"@, json_text(json_view(other)))
            }
        },
        other => {
            &&& expected == called("ChildWorkflowStarted"@, name)
            &&& actual == shown_as(other)
        },
    }
}

/// The word for what becomes of a child when its parent closes.
pub open spec fn word_for(policy: ParentClosePolicy) -> Seq<char> {
    match policy {
        ParentClosePolicy::Abandon => "abandon"@,
        ParentClosePolicy::RequestCancel => "request_cancel"@,
        ParentClosePolicy::Terminate => "terminate"@,
    }
}

/// A child that diverges shows what was requested, and what is recorded in its
/// place; a race of a child against a deadline shows the child or the deadline,
/// whichever differs.
pub proof fn law_child_divergence_shows_both_sides(
    s: Replay,
    name: Seq<char>,
    input: JsonView,
    timer: Seq<char>,
    duration: Option<u64>,
)
    requires
        s.wf(),
    ensures
        ({
            let p = s.prepared();
            let e = s.events[p.cursor];
            let fits = e matches WorkflowEvent::ChildWorkflowStarted {
                workflow_name,
                input: other,
                ..
            } && workflow_name@ == name && json_same(json_view(other), input);
            &&& s.child_workflow(name, input).1 matches HistoryMatchView::Diverged {
                expected,
                actual,
                ..
            } ==> shows_child(e, name, input, expected, actual)
            &&& s.child_or_timer(name, input, timer, duration).1
                matches ChildOrTimerView::Diverged { expected, actual, .. } ==> {
                if !fits {
                    shows_child(e, name, input, expected, actual)
                } else if p.cursor + 1 < s.len() {
                    shows_timer(s.events[p.cursor + 1], timer, duration, expected, actual)
                } else {
                    &&& expected == called("TimerStarted"@, timer)
                    &&& actual == "<end of history>"@
                }
            }
        }),
{
    lemma_prepared(s);
    let p = s.prepared();
    law_events_are_known_by_their_kind(p.events[p.cursor]);
    law_events_are_known_by_their_kind(p.events[p.cursor + 1]);
}

/// A detached child that diverges shows what was requested, and what is recorded
/// in its place: the names, else the inputs, else what becomes of the child when
/// its parent closes.
pub proof fn law_detached_child_divergence_shows_both_sides(
    s: Replay,
    name: Seq<char>,
    input: JsonView,
    policy: ParentClosePolicy,
)
    requires
        s.wf(),
    ensures
        s.detached_child(name, input, policy).1 matches HistoryMatchView::Diverged {
            expected,
            actual,
            ..
        } ==> (match s.events[s.prepared().cursor] {
            WorkflowEvent::ChildWorkflowSpawnedDetached {
                workflow_name,
                input: other,
                parent_close_policy,
                ..
            } => {
                if workflow_name@ != name {
                    &&& expected == called("ChildWorkflowSpawnedDetached"@, name)
                    &&& actual == called("ChildWorkflowSpawnedDetached"@, workflow_name@)
                } else if !json_same(json_view(other), input) {
                    &&& expected == called("DetachedChildWorkflowInput"@, json_text(input))
                    &&& actual == called(
                        "DetachedChildWorkflowInput"@,
                        json_text(json_view(other)),
                    )
                } else {
                    &&& expected == called("DetachedChildWorkflowPolicy"@, word_for(policy))
                    &&& actual == called(
                        "DetachedChildWorkflowPolicy"@,
                        word_for(parent_close_policy),
                    )
                }
            },
            other => {
                &&& expected == called("ChildWorkflowSpawnedDetached"@, name)
                &&& actual == shown_as(other)
            },
        }),
{
    lemma_prepared(s);
    let p = s.prepared();
    law_events_are_known_by_their_kind(p.events[p.cursor]);
}

/// How the workflow type of a successor is shown: by its name, or as the same type.
pub open spec fn type_word(t: Option<Seq<char>>) -> Seq<char> {
    match t {
        Some(name) => name,
        None => "<same type>"@,
    }
}

/// A hand-over to a successor that diverges shows what was requested, and what is
/// recorded in its place: the types, else the inputs.
pub proof fn law_hand_over_divergence_shows_both_sides(
    s: Replay,
    input: JsonView,
    new_type: Option<Seq<char>>,
)
    requires
        s.wf(),
    ensures
        s.continue_as_new(input, new_type).1 matches HistoryMatchView::Diverged {
            expected,
            actual,
            ..
        } ==> (match s.events[s.prepared().cursor] {
            WorkflowEvent::WorkflowContinuedAsNew { input: other, new_workflow_type, .. } => {
                if opt_text(new_workflow_type) != new_type {
                    &&& expected == called("WorkflowContinuedAsNewType"@, type_word(new_type))
                    &&& actual == called(
                        "WorkflowContinuedAsNewType"@,
                        type_word(opt_text(new_workflow_type)),
                    )
                } else {
                    &&& expected == called("WorkflowContinuedAsNewInput"@, json_text(input))
                    &&& actual == called(
                        "WorkflowContinuedAsNewInput"@,
                        json_text(json_view(other)),
                    )
                }
            },
            other => {
                &&& expected == called("WorkflowContinuedAsNew"@, json_text(input))
                &&& actual == shown_as(other)
            },
        }),
{
    lemma_prepared(s);
    let p = s.prepared();
    law_events_are_known_by_their_kind(p.events[p.cursor]);
}

// ── Signals ─────────────────────────────────────────────────────────────────
/// A wait that diverges shows the signal that was waited for, and the event that
/// it points at.
pub proof fn law_wait_divergence_shows_both_sides(s: Replay, name: Seq<char>)
    requires
        s.wf(),
    ensures
        s.signal(name, None).1 matches HistoryMatchView::Diverged {
            expected,
            actual,
            event_index,
        } ==> {
            &&& expected == called("SignalReceived"@, name)
            &&& event_index matches Some(i) ==> actual == shown_as(s.events[i as int])
        },
{
    let a = s.advanced();
    lemma_moved_to(s, s.cursor);
    let scan = ScanView::Signal { name, race: false };
    let end = s.race_end(None);
    let stop = a.scan_stop(scan, a.cursor, end);
    if a.cursor <= end {
        lemma_scan_stop(a, scan, a.cursor, end);
    }
    law_events_are_known_by_their_kind(a.events[stop]);
}

// ── Side effects and markers ────────────────────────────────────────────────
/// A side effect that diverges shows its kind and name, where it has one, and what
/// is recorded in its place.
pub proof fn law_side_effect_divergence_shows_both_sides(
    s: Replay,
    kind: SideEffectKind,
    name: Option<Seq<char>>,
)
    requires
        s.wf(),
    ensures
        s.side_effect(kind, name).1 matches HistoryMatchView::Diverged { expected, actual, .. }
            ==> {
            let word = match kind {
                SideEffectKind::Custom => "custom"@,
                SideEffectKind::Now => "now"@,
                SideEffectKind::Random => "random"@,
                SideEffectKind::Uuid => "uuid"@,
            };
            &&& expected == (match name {
                Some(name) => called("SideEffectRecorded"@, word + ":"@ + name),
                None => called("SideEffectRecorded"@, word),
            })
            &&& actual == shown_as(s.events[s.prepared().cursor])
        },
{
    lemma_prepared(s);
    let p = s.prepared();
    law_events_are_known_by_their_kind(p.events[p.cursor]);
}

/// What a marker with an item of its details is called.
pub open spec fn marker_with(marker: Seq<char>, item: Seq<char>) -> Seq<char> {
    called("MarkerRecorded"@, marker + ", "@ + item)
}

/// Whether the event is not the marker, and the divergence shows both.
pub open spec fn shows_other_marker(
    e: WorkflowEvent,
    marker: Seq<char>,
    expected: Seq<char>,
    actual: Seq<char>,
) -> bool {
    &&& expected == called("MarkerRecorded"@, marker)
    &&& actual == shown_as(e)
}

/// A numbered marker that diverges shows the marker that was requested, and what is
/// recorded in its place; of the marker itself, the recorded number. Of a fan-out,
/// the recorded count is shown as what was expected, and the requested one as what
/// came.
pub proof fn law_number_divergence_shows_both_sides(
    s: Replay,
    marker: Seq<char>,
    number: u64,
    seq: u32,
    count: usize,
)
    requires
        s.wf(),
    ensures
        ({
            let e = s.events[s.prepared().cursor];
            let fan_out = "fan_out:"@ + decimal(seq as nat);
            &&& s.u64_marker(marker, number).1 matches HistoryMatchView::Diverged {
                expected,
                actual,
                ..
            } ==> (match e {
                WorkflowEvent::MarkerRecorded { name, details } => if name@ == marker {
                    &&& expected == marker_with(marker, decimal(number as nat))
                    &&& actual == marker_with(
                        marker,
                        match json_view(details) {
                            JsonView::Unsigned(n) => "Some("@ + decimal(n as nat) + ")"@,
                            _ => "None"@,
                        },
                    )
                } else {
                    shows_other_marker(e, marker, expected, actual)
                },
                _ => shows_other_marker(e, marker, expected, actual),
            })
            &&& s.fan_out_marker(seq, count).1 matches HistoryMatchView::Diverged {
                expected,
                actual,
                ..
            } ==> (match e {
                WorkflowEvent::MarkerRecorded { name, details } => if name@ == fan_out {
                    &&& expected == called(
                        fan_out,
                        "count="@ + decimal(
                            match json_view(details) {
                                JsonView::Unsigned(n) => if n <= usize::MAX {
                                    n as nat
                                } else {
                                    0
                                },
                                _ => 0,
                            },
                        ),
                    )
                    &&& actual == called(fan_out, "count="@ + decimal(count as nat))
                } else {
                    shows_other_marker(e, fan_out, expected, actual)
                },
                _ => shows_other_marker(e, fan_out, expected, actual),
            })
        }),
{
    lemma_prepared(s);
    let p = s.prepared();
    law_events_are_known_by_their_kind(p.events[p.cursor]);
}

/// A session marker that diverges shows the marker that was requested, and what is
/// recorded in its place; of the marker itself, that an id was expected and what
/// the details are.
pub proof fn law_session_divergence_shows_both_sides(s: Replay, seq: u32)
    requires
        s.wf(),
    ensures
        ({
            let e = s.events[s.prepared().cursor];
            let marker = "session:"@ + decimal(seq as nat);
            s.session_marker(seq).1 matches HistoryMatchView::Diverged { expected, actual, .. }
                ==> (match e {
                WorkflowEvent::MarkerRecorded { name, details } => if name@ == marker {
                    &&& expected == marker_with(marker, "<uuid>"@)
                    &&& actual == marker_with(marker, json_debug_text(json_view(details)))
                } else {
                    shows_other_marker(e, marker, expected, actual)
                },
                _ => shows_other_marker(e, marker, expected, actual),
            })
        }),
{
    lemma_prepared(s);
    let p = s.prepared();
    law_events_are_known_by_their_kind(p.events[p.cursor]);
}

/// Whether the item is a number that fits.
pub open spec fn is_place(item: JsonView) -> bool {
    item matches JsonView::Unsigned(n) && n <= usize::MAX
}

/// The number that the item is.
pub open spec fn place_of(item: JsonView) -> usize {
    match item {
        JsonView::Unsigned(n) => n as usize,
        _ => 0,
    }
}

/// The upstreams of a skip marker are the numbers that it lists, in order; whatever
/// else it lists is passed over.
pub proof fn law_upstreams_are_the_numbers_listed(items: Seq<JsonView>)
    ensures
        numbers_in(items) == items.filter(|item: JsonView| is_place(item)).map_values(
            |item: JsonView| place_of(item),
        ),
    decreases items.len(),
{
    reveal(Seq::filter);
    let keep = |item: JsonView| is_place(item);
    let read = |item: JsonView| place_of(item);
    if items.len() > 0 {
        law_upstreams_are_the_numbers_listed(items.drop_last());
        let front = items.drop_last().filter(keep);
        assert(front.push(items.last()).map_values(read) =~= front.map_values(read).push(
            read(items.last()),
        ));
    } else {
        assert(items.filter(keep).map_values(read) =~= Seq::empty());
    }
}

/// A skip marker that diverges shows the marker that was requested, and what is
/// recorded in its place; of the marker itself the tasks, else the tasks and the
/// upstreams. It diverges over its upstreams exactly where it lists some that read
/// otherwise.
pub proof fn law_skip_divergence_shows_both_sides(
    s: Replay,
    marker: Seq<char>,
    task: Seq<char>,
    upstreams: Seq<usize>,
)
    requires
        s.wf(),
        s.prepared().cursor < s.len(),
    ensures
        ({
            let e = s.events[s.prepared().cursor];
            let r = s.named_marker(marker, task, upstreams).1;
            match e {
                WorkflowEvent::MarkerRecorded { name, details } => {
                    if name@ != marker {
                        r matches HistoryMatchView::Diverged { expected, actual, .. }
                            && shows_other_marker(e, marker, expected, actual)
                    } else if task_in(json_view(details)) != task {
                        r matches HistoryMatchView::Diverged { expected, actual, .. } && {
                            &&& expected == marker_with(marker, "task="@ + task)
                            &&& actual == marker_with(
                                marker,
                                "task="@ + task_in(json_view(details)),
                            )
                        }
                    } else if other_upstreams(json_view(details), upstreams) {
                        r matches HistoryMatchView::Diverged { expected, actual, .. } && {
                            &&& expected == marker_with(
                                marker,
                                "task="@ + task + ", upstreams="@ + shown_list(upstreams),
                            )
                            &&& actual == marker_with(
                                marker,
                                "task="@ + task + ", upstreams="@ + shown_list(
                                    upstreams_in(json_view(details)),
                                ),
                            )
                        }
                    } else {
                        r is Matched
                    }
                },
                _ => r matches HistoryMatchView::Diverged { expected, actual, .. }
                    && shows_other_marker(e, marker, expected, actual),
            }
        }),
{
    lemma_prepared(s);
    let p = s.prepared();
    law_events_are_known_by_their_kind(p.events[p.cursor]);
    match s.events[p.cursor] {
        WorkflowEvent::MarkerRecorded { details, .. } => match json_view(details) {
            JsonView::Record(members) => match members["upstreams"@] {
                JsonView::List(items) => law_upstreams_are_the_numbers_listed(items),
                _ => {},
            },
            _ => {},
        },
        _ => {},
    }
}

/// The task that the details of a skip marker name; empty where they name none.
pub open spec fn task_in(details: JsonView) -> Seq<char> {
    match details {
        JsonView::Record(members) => if members.contains_key("task"@) {
            match members["task"@] {
                JsonView::Text(text) => text,
                _ => ""@,
            }
        } else {
            ""@
        },
        _ => ""@,
    }
}

/// The upstreams that the details of a skip marker list; none where they list none.
pub open spec fn upstreams_in(details: JsonView) -> Seq<usize> {
    match details {
        JsonView::Record(members) => match members["upstreams"@] {
            JsonView::List(items) => items.filter(|item: JsonView| is_place(item)).map_values(
                |item: JsonView| place_of(item),
            ),
            _ => Seq::empty(),
        },
        _ => Seq::empty(),
    }
}

/// Whether the details of a skip marker list upstreams, and other ones.
pub open spec fn other_upstreams(details: JsonView, upstreams: Seq<usize>) -> bool {
    &&& details matches JsonView::Record(members)
    &&& members.contains_key("upstreams"@)
    &&& members["upstreams"@] is List
    &&& upstreams_in(details) != upstreams
}

} // verus!
