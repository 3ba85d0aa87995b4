//! What children and successor runs give back, told by what is recorded of them.
use crate::activity_laws::lemma_search_ends;
use crate::child::started_child;
use crate::event::WorkflowEvent;
use crate::json::{json_same, json_same_reflexive, json_view, opt_json, JsonView};
use crate::kinds::{is_stashable, is_update};
use crate::moves::{
    lemma_next_open, lemma_next_open_here, lemma_prepared, lemma_scan_stop, lemma_stashed_frame,
};
use crate::outcome::{ChildOrTimerView, HistoryMatchView};
use crate::record_laws::{lemma_passes_one, passes_one, points_at};
use crate::replay::Replay;
use crate::scan::{child_outcome, timer_fired, ScanView};
use crate::search::{lemma_first_index, lemma_first_index_is};
use crate::timer_laws::{arms, fires};
use crate::types::{opt_text, ActivityExecId, ExecutionId, ParentClosePolicy};
use crate::vocabulary::{belongs_to_update, issues_command, runs_beside, waits_for_claim};
use vstd::prelude::*;

verus! {

/// Whether the child ended.
pub open spec fn child_ends(e: WorkflowEvent, id: ExecutionId) -> bool {
    match e {
        WorkflowEvent::ChildWorkflowCompleted { child_id, .. } => child_id == id,
        WorkflowEvent::ChildWorkflowFailed { child_id, .. } => child_id == id,
        _ => false,
    }
}

/// The class of a failure, `"Error"` where none was recorded.
pub open spec fn failure_class(error_type: Option<String>) -> Seq<char> {
    match error_type {
        Some(class) => class@,
        None => "Error"@,
    }
}

// ── Children that are waited for ────────────────────────────────────────────
/// A child that was started gets its own first recorded end, whatever stands in
/// between: a result as it was returned, or a failure with its message, class,
/// details and permanence, as the first attempt. That end alone is claimed, and
/// the cursor stays in front of everything else behind the start. `t` is where that
/// end stands; where there is none, the child is still in progress.
pub proof fn law_child_gets_its_own_end(s: Replay, id: ExecutionId, t: int)
    requires
        s.wf(),
        s.prepared().cursor < t <= s.len(),
        s.events[s.prepared().cursor] matches WorkflowEvent::ChildWorkflowStarted { child_id, .. }
            && child_id == id,
        t < s.len() ==> child_ends(s.events[t], id),
        forall|j: int| s.prepared().cursor < j < t ==> !child_ends(#[trigger] s.events[j], id),
    ensures
        s.events[s.prepared().cursor] matches WorkflowEvent::ChildWorkflowStarted {
            workflow_name,
            input,
            ..
        } && {
            let p = s.prepared();
            let (after, r) = s.child_workflow(workflow_name@, json_view(input));
            &&& t == s.len() ==> r == (HistoryMatchView::ChildInProgress { child_id: id })
            &&& t < s.len() ==> {
                &&& s.events[t] matches WorkflowEvent::ChildWorkflowCompleted { output, .. } ==> r
                    == (HistoryMatchView::Matched { output: json_view(output) })
                &&& s.events[t] matches WorkflowEvent::ChildWorkflowFailed {
                    error,
                    error_type,
                    details,
                    non_retryable,
                    ..
                } ==> r == (HistoryMatchView::Failed {
                    error: error@,
                    attempt: 1,
                    error_type: failure_class(error_type),
                    details: opt_json(details),
                    non_retryable: non_retryable == Some(true),
                })
                &&& after.consumed(t)
            }
            &&& forall|j: int| j != t ==> #[trigger] after.consumed(j) == p.consumed(j)
            &&& p.cursor < after.cursor
            &&& forall|j: int|
                p.cursor < j && j != t && #[trigger] p.open_at(j) ==> after.cursor <= j
        },
{
    let p = s.prepared();
    lemma_prepared(s);
    let ends = |i: int| child_outcome(p.events[i], id);
    assert forall|j: int| p.cursor + 1 <= j < t implies !#[trigger] ends(j) by {
        assert(!child_ends(s.events[j], id));
    }
    lemma_first_index_is(ends, p.cursor + 1, p.len(), t);
    match s.events[p.cursor] {
        WorkflowEvent::ChildWorkflowStarted { workflow_name, input, .. } => {
            json_same_reflexive(json_view(input));
            let c = if t < s.len() {
                p.claimed(t)
            } else {
                p
            };
            let after = s.child_workflow(workflow_name@, json_view(input)).0;
            lemma_next_open(c, p.cursor + 1);
            assert forall|j: int| p.cursor < j && j != t && #[trigger] p.open_at(
                j,
            ) implies after.cursor <= j by {
                if j < after.cursor {
                    assert(c.consumed(j));
                }
            }
        },
        _ => {},
    }
}

/// A child is held against the recorded start: another event, another name or
/// another input diverges there, and nothing is claimed.
pub proof fn law_child_is_held_against_its_own_start(
    s: Replay,
    name: Seq<char>,
    input: JsonView,
    timer: Seq<char>,
    duration: Option<u64>,
)
    requires
        s.wf(),
        s.prepared().cursor < s.len(),
    ensures
        ({
            let p = s.prepared();
            let same = s.events[p.cursor] matches WorkflowEvent::ChildWorkflowStarted {
                workflow_name,
                input: recorded,
                ..
            } && workflow_name@ == name && json_same(json_view(recorded), input);
            let armed = p.cursor + 1 < s.len() && (s.events[p.cursor + 1]
                matches WorkflowEvent::TimerStarted { timer_id, duration_secs } && timer_id.0@
                == timer && (duration matches Some(d) ==> d == duration_secs));
            let (waited, w) = s.child_workflow(name, input);
            let (raced, r) = s.child_or_timer(name, input, timer, duration);
            &&& w is Diverged <==> !same
            &&& w is Diverged ==> points_at(w, p.cursor) && waited == p
            &&& r is Diverged <==> !(same && armed)
            &&& r is Diverged ==> raced == p
            &&& r matches ChildOrTimerView::Diverged { event_index, .. } ==> (p.cursor + 1
                <= i32::MAX ==> event_index == Some(
                (if same {
                    p.cursor + 1
                } else {
                    p.cursor
                }) as i32,
            ))
        }),
{
    let p = s.prepared();
    lemma_prepared(s);
    if p.cursor + 1 < s.len() {
        let scan = ScanView::ChildOrTimer { child: started_child(p.events[p.cursor]), timer };
        lemma_scan_stop(p, scan, p.cursor + 2, p.len());
    }
}

/// A race between a child and its deadline is decided by whichever of the child's
/// own end and the timer's own fire stands first, whatever commands ran next to
/// it: the child's result or failure as it was recorded, or the fire, with whether
/// the child's end is recorded behind it. What decided is settled; the commands
/// that were crossed are still to be claimed, and the cursor returns in front of
/// them.
///
/// `t` is the first event behind the start of child and timer, still to be claimed,
/// that decides or was not recorded next to the race. Where it does not decide, or
/// where there is none, the race is still in progress.
pub proof fn law_child_race_is_decided_by_the_first(
    s: Replay,
    id: ExecutionId,
    timer: Seq<char>,
    t: int,
)
    requires
        s.wf(),
        s.prepared().cursor + 2 <= t <= s.len(),
        s.events[s.prepared().cursor] matches WorkflowEvent::ChildWorkflowStarted { child_id, .. }
            && child_id == id,
        arms(s.events[s.prepared().cursor + 1], timer),
        t < s.len() ==> s.prepared().open_at(t) && (child_ends(s.events[t], id) || fires(
            s.events[t],
            timer,
        ) || !runs_beside(s.events[t])),
        forall|j: int|
            s.prepared().cursor + 2 <= j < t && s.prepared().open_at(j) ==> runs_beside(
                #[trigger] s.events[j],
            ) && !child_ends(s.events[j], id) && !fires(s.events[j], timer),
    ensures
        s.events[s.prepared().cursor] matches WorkflowEvent::ChildWorkflowStarted {
            workflow_name,
            input,
            ..
        } && {
            let p = s.prepared();
            let (after, r) = s.child_or_timer(workflow_name@, json_view(input), timer, None);
            &&& if t < s.len() && child_ends(s.events[t], id) {
                &&& s.events[t] matches WorkflowEvent::ChildWorkflowCompleted { output, .. } ==> r
                    == (ChildOrTimerView::ChildCompleted { output: json_view(output) })
                &&& s.events[t] matches WorkflowEvent::ChildWorkflowFailed {
                    error,
                    error_type,
                    details,
                    non_retryable,
                    ..
                } ==> r == (ChildOrTimerView::ChildFailed {
                    error: error@,
                    error_type: failure_class(error_type),
                    details: opt_json(details),
                    non_retryable: non_retryable == Some(true),
                })
                &&& after.consumed(t)
            } else if t < s.len() && fires(s.events[t], timer) {
                &&& r == (ChildOrTimerView::TimerFired {
                    child_id: id,
                    child_already_terminal: exists|j: int|
                        t < j && #[trigger] p.open_at(j) && child_ends(s.events[j], id),
                })
                &&& after.consumed(t) || t < after.cursor
            } else {
                r == (ChildOrTimerView::InProgress { child_id: id })
            }
            &&& forall|j: int|
                p.cursor + 2 <= j < t && p.open_at(j) && issues_command(#[trigger] s.events[j])
                    ==> !after.consumed(j) && after.cursor <= j
        },
{
    let p = s.prepared();
    lemma_prepared(s);
    let resume = p.cursor + 2;
    let scan = ScanView::ChildOrTimer { child: id, timer };
    assert forall|j: int| resume <= j < t implies !(#[trigger] p.step_at(scan, j) is Hit) && !(
    p.step_at(scan, j) is Halt) && (p.step_at(scan, j) is Command) == (p.open_at(j)
        && issues_command(s.events[j])) by {
        assert(p.open_at(j) ==> runs_beside(s.events[j]) && !child_ends(s.events[j], id) && !fires(
            s.events[j],
            timer,
        ));
    }
    lemma_search_ends(p, scan, resume, p.len(), t);
    lemma_scan_stop(p, scan, resume, p.len());
    lemma_stashed_frame(p, scan, resume, t);
    let w = p.scanned(scan, resume, p.len());
    let command = p.scan_command(scan, resume, p.len());
    let commands = |i: int| p.step_at(scan, i) is Command;
    lemma_first_index(commands, resume, t);
    let ends = |i: int| !w.consumed(i) && child_outcome(w.events[i], id);
    let k = w.open_child_outcome(id, t + 1);
    if t < s.len() {
        lemma_first_index(ends, t + 1, w.len());
        if k < w.len() {
            assert(ends(k));
            assert(w.consumed(k) == p.consumed(k));
            assert(p.open_at(k) && child_ends(s.events[k], id));
        }
        assert forall|j: int| t < j && #[trigger] p.open_at(j) && child_ends(
            s.events[j],
            id,
        ) implies k < w.len() by {
            assert(w.consumed(j) == p.consumed(j));
            assert(ends(j));
        }
    }
    match s.events[p.cursor] {
        WorkflowEvent::ChildWorkflowStarted { workflow_name, input, .. } => {
            json_same_reflexive(json_view(input));
            let after = s.child_or_timer(workflow_name@, json_view(input), timer, None).0;
            let c = w.claimed(t);
            let fire = |i: int| !c.consumed(i) && timer_fired(c.events[i], timer);
            if t < s.len() {
                lemma_first_index(fire, t + 1, c.len());
            }
            let won = c.stray_fire_claimed(timer, t);
            let lost = w.losing_child_claimed(id, t);
            if t < s.len() {
                lemma_next_open(lost, t + 1);
            }
            assert forall|j: int|
                resume <= j < t && p.open_at(j) && issues_command(
                    #[trigger] s.events[j],
                ) implies !after.consumed(j) && after.cursor <= j by {
                assert(commands(j));
                let first = command.unwrap();
                assert(commands(first) && first <= j);
                assert(w.consumed(j) == p.consumed(j));
                assert(w.consumed(first) == p.consumed(first));
                if t < s.len() && child_ends(s.events[t], id) {
                    lemma_next_open_here(won, first);
                } else if t < s.len() && fires(s.events[t], timer) {
                    lemma_next_open_here(lost.claimed(t), first);
                } else {
                    lemma_next_open_here(w, first);
                }
            }
        },
        _ => {},
    }
}

// ── Children that nobody waits for ──────────────────────────────────────────
/// A detached child is found only where the spawn of a child of that name, with
/// that input and that policy, is recorded: its recorded id is given back, and the
/// spawn is claimed. Anything else diverges there, and nothing is claimed.
pub proof fn law_detached_child_gets_its_own_id(
    s: Replay,
    name: Seq<char>,
    input: JsonView,
    policy: ParentClosePolicy,
)
    requires
        s.wf(),
        s.prepared().cursor < s.len(),
    ensures
        ({
            let p = s.prepared();
            let (after, r) = s.detached_child(name, input, policy);
            match s.events[p.cursor] {
                WorkflowEvent::ChildWorkflowSpawnedDetached {
                    child_id,
                    workflow_name,
                    input: recorded,
                    parent_close_policy,
                } => if workflow_name@ == name && json_same(json_view(recorded), input)
                    && parent_close_policy == policy {
                    r == (HistoryMatchView::DetachedChildSpawned { child_id }) && passes_one(
                        p,
                        after,
                    )
                } else {
                    points_at(r, p.cursor) && after == p
                },
                _ => points_at(r, p.cursor) && after == p,
            }
        }),
{
    lemma_prepared(s);
    lemma_passes_one(s.prepared());
}

// ── Successor runs ──────────────────────────────────────────────────────────
/// A hand-over is found only where one to a run of the same type, the run's own
/// type being none, with the same input is recorded: the recorded input is given
/// back, and the hand-over is claimed. Anything else diverges there, and nothing
/// is claimed.
pub proof fn law_hand_over_gets_its_own_input(
    s: Replay,
    input: JsonView,
    new_type: Option<Seq<char>>,
)
    requires
        s.wf(),
        s.prepared().cursor < s.len(),
    ensures
        ({
            let p = s.prepared();
            let (after, r) = s.continue_as_new(input, new_type);
            match s.events[p.cursor] {
                WorkflowEvent::WorkflowContinuedAsNew {
                    input: recorded,
                    new_workflow_type,
                    ..
                } => if opt_text(new_workflow_type) == new_type && json_same(
                    json_view(recorded),
                    input,
                ) {
                    r == (HistoryMatchView::Matched { output: json_view(recorded) }) && passes_one(
                        p,
                        after,
                    )
                } else {
                    points_at(r, p.cursor) && after == p
                },
                _ => points_at(r, p.cursor) && after == p,
            }
        }),
{
    lemma_prepared(s);
    lemma_passes_one(s.prepared());
}

/// The successor type agrees with the history exactly where the first recorded
/// hand-over, at `t`, is to that type, or where none is recorded.
pub proof fn law_successor_type_is_that_of_the_first_hand_over(
    s: Replay,
    new_type: Option<Seq<char>>,
    t: int,
)
    requires
        0 <= t <= s.len(),
        t < s.len() ==> s.events[t] is WorkflowContinuedAsNew,
        forall|j: int| 0 <= j < t ==> !(#[trigger] s.events[j] is WorkflowContinuedAsNew),
    ensures
        t == s.len() ==> s.continues_as(new_type),
        t < s.len() ==> (s.events[t] matches WorkflowEvent::WorkflowContinuedAsNew {
            new_workflow_type,
            ..
        } && s.continues_as(new_type) == (opt_text(new_workflow_type) == new_type)),
{
    let p = |i: int| s.events[i] is WorkflowContinuedAsNew;
    assert forall|j: int| 0 <= j < t implies !#[trigger] p(j) by {
        assert(!(s.events[j] is WorkflowContinuedAsNew));
    }
    lemma_first_index_is(p, 0, s.len(), t);
}

// ── Branches that lost a race ───────────────────────────────────────────────
/// Claiming what losing branches left takes exactly, of the events ahead, what was
/// heard of their activities and the starts of their children; everything else
/// stays as it was, and the cursor moves past what is taken.
pub proof fn law_losers_leave_nothing_of_their_own(
    s: Replay,
    activities: Seq<ActivityExecId>,
    children: Seq<ExecutionId>,
)
    requires
        s.wf(),
        activities.len() > 0 || children.len() > 0,
    ensures
        ({
            let after = s.losers_claimed(activities, children);
            &&& forall|i: int|
                0 <= i < s.len() ==> after.consumed(i) == (s.consumed(i) || (s.cursor <= i && (
                match #[trigger] s.events[i] {
                    WorkflowEvent::ActivityStarted { activity_id, .. } => activities.contains(
                        activity_id,
                    ),
                    WorkflowEvent::ActivityHeartbeat { activity_id, .. } => activities.contains(
                        activity_id,
                    ),
                    WorkflowEvent::ChildWorkflowStarted { child_id, .. } => children.contains(
                        child_id,
                    ),
                    _ => false,
                })))
            &&& after == (Replay { out_of_order: after.out_of_order, cursor: after.cursor, ..s })
            &&& s.cursor <= after.cursor
            &&& forall|i: int| s.cursor <= i < after.cursor ==> #[trigger] after.consumed(i)
            &&& after.cursor < s.len() ==> !after.consumed(after.cursor)
        }),
{
    let c = Replay {
        out_of_order: s.out_of_order.union(s.loser_frontier(activities, children)),
        ..s
    };
    let after = s.losers_claimed(activities, children);
    lemma_next_open(c, c.cursor);
    assert forall|i: int| s.cursor <= i < after.cursor implies #[trigger] after.consumed(i) by {
        assert(c.consumed(i));
    }
}

// ── Looking ahead for a race ────────────────────────────────────────────────
/// A race of a child against a deadline is next exactly where the first event ahead
/// that a command is looked for at, `child`, is the start of a child, and the one
/// after it, `deadline`, the arming of that timer. A command is looked for at no
/// event that is taken, belongs to an update or waits for its own command.
pub proof fn law_next_child_race_is_the_first_in_line(
    s: Replay,
    timer: Seq<char>,
    child: int,
    deadline: int,
)
    requires
        s.wf(),
        s.cursor <= child < deadline <= s.len(),
        s.open_at(child) && !belongs_to_update(s.events[child]) && !waits_for_claim(
            s.events[child],
        ),
        deadline < s.len() ==> s.open_at(deadline) && !belongs_to_update(s.events[deadline])
            && !waits_for_claim(s.events[deadline]),
        forall|j: int|
            s.cursor <= j < deadline && j != child && s.open_at(j) ==> (belongs_to_update(
                #[trigger] s.events[j],
            ) || waits_for_claim(s.events[j])),
    ensures
        s.child_race_next(timer) == (s.events[child] is ChildWorkflowStarted && deadline < s.len()
            && arms(s.events[deadline], timer)),
{
    let p = |i: int| !s.consumed(i) && !is_stashable(s.events[i]) && !is_update(s.events[i]);
    assert forall|j: int| s.cursor <= j < deadline && j != child implies !#[trigger] p(j) by {
        assert(s.open_at(j) ==> belongs_to_update(s.events[j]) || waits_for_claim(s.events[j]));
    }
    lemma_first_index_is(p, s.cursor, s.len(), child);
    lemma_first_index_is(p, child + 1, s.len(), deadline);
}

} // verus!
