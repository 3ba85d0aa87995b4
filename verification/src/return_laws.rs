//! Where the cursor stands once a command found, or did not find, what it looked
//! for.
use crate::activity_laws::lemma_search_ends;
use crate::child_laws::child_ends;
use crate::event::WorkflowEvent;
use crate::json::{json_same_reflexive, json_view};
use crate::moves::{
    lemma_at, lemma_moved_to, lemma_next_open, lemma_next_open_here, lemma_prepared,
    lemma_stashed_frame,
};
use crate::record_laws::{crossed_for_marker, is_marker};
use crate::replay::Replay;
use crate::scan::{child_outcome, timer_fired, ScanView};
use crate::search::{lemma_first_index, lemma_first_index_is};
use crate::timer_laws::{arms, fires};
use crate::types::{ActivityExecId, ExecutionId};
use crate::vocabulary::{
    activity_ends, beside_activity, beside_external_activity, beside_local_activity,
    external_activity_ends, issues_command, local_activity_ends, local_attempt_fails, runs_beside,
};
use crate::wait_laws::{crossed_by_wait, law_deadline_timer_names_its_signal, receives};
use vstd::prelude::*;

verus! {

/// Whether the cursor stands at the first event from `from` on that is still to be
/// claimed.
pub open spec fn lands(after: Replay, from: int) -> bool {
    &&& from <= after.cursor <= after.len()
    &&& forall|j: int| from <= j < after.cursor ==> #[trigger] after.consumed(j)
    &&& after.cursor < after.len() ==> !after.consumed(after.cursor)
}

/// Whether `c` is the first command from `from` up to `t` that is still to be
/// claimed.
pub open spec fn first_crossed(p: Replay, from: int, t: int, c: int) -> bool {
    &&& from <= c < t
    &&& p.open_at(c)
    &&& issues_command(p.events[c])
    &&& forall|j: int| from <= j < c && p.open_at(j) ==> !issues_command(#[trigger] p.events[j])
}

/// Whether no command from `from` up to `t` is still to be claimed.
pub open spec fn none_crossed(p: Replay, from: int, t: int) -> bool {
    forall|j: int| from <= j < t && p.open_at(j) ==> !issues_command(#[trigger] p.events[j])
}

/// Moving the cursor lands it.
proof fn lemma_moved_lands(x: Replay, from: int)
    requires
        0 <= from <= x.len(),
    ensures
        lands(x.moved_to(from), from),
{
    lemma_next_open(x, from);
    let after = x.moved_to(from);
    assert forall|j: int| from <= j < after.cursor implies #[trigger] after.consumed(j) by {
        assert(x.consumed(j));
    }
}

/// Where a search that crosses commands leaves the cursor.
proof fn lemma_returns(q: Replay, scan: ScanView, t: int)
    requires
        q.wf(),
        q.cursor <= t <= q.len(),
        q.scan_stop(scan, q.cursor, q.len()) == t,
        forall|j: int|
            q.cursor <= j < t ==> (#[trigger] q.step_at(scan, j) is Command) == (q.open_at(j)
                && issues_command(q.events[j])),
    ensures
        ({
            let command = q.scan_command(scan, q.cursor, q.len());
            let w = q.scanned(scan, q.cursor, q.len());
            let hit = w.settled_outcome(t, command);
            let settled = w.settled(t, command);
            let miss = w.rewound(command);
            &&& forall|j: int| t < j ==> #[trigger] hit.consumed(j) == q.consumed(j)
            &&& forall|j: int| t < j ==> #[trigger] miss.consumed(j) == q.consumed(j)
            &&& forall|j: int| t < j ==> #[trigger] w.consumed(j) == q.consumed(j)
            &&& forall|c: int| #[trigger]
                first_crossed(q, q.cursor, t, c) ==> {
                    &&& command == Some(c)
                    &&& miss.cursor == c
                    &&& t < q.len() ==> hit.cursor == c && settled.cursor == c
                }
            &&& none_crossed(q, q.cursor, t) ==> {
                &&& command is None
                &&& miss.cursor == q.cursor
                &&& t < q.len() ==> lands(hit, t + 1) && lands(settled, t + 1)
            }
        }),
{
    let command = q.scan_command(scan, q.cursor, q.len());
    let w = q.scanned(scan, q.cursor, q.len());
    lemma_stashed_frame(q, scan, q.cursor, t);
    let commands = |i: int| q.step_at(scan, i) is Command;
    lemma_first_index(commands, q.cursor, t);
    let hit = w.settled_outcome(t, command);
    let miss = w.rewound(command);
    assert forall|j: int| t < j implies #[trigger] hit.consumed(j) == q.consumed(j) by {
        assert(w.consumed(j) == q.consumed(j));
    }
    assert forall|j: int| t < j implies #[trigger] miss.consumed(j) == q.consumed(j) by {
        assert(w.consumed(j) == q.consumed(j));
    }
    assert forall|c: int| #[trigger] first_crossed(q, q.cursor, t, c) implies {
        &&& command == Some(c)
        &&& w.rewound(command).cursor == c
        &&& t < q.len() ==> w.settled_outcome(t, command).cursor == c && w.settled(
            t,
            command,
        ).cursor == c
    } by {
        assert(q.step_at(scan, c) is Command);
        assert forall|j: int| q.cursor <= j < c implies !#[trigger] commands(j) by {
            assert(q.open_at(j) ==> !issues_command(q.events[j]));
            assert((q.step_at(scan, j) is Command) == (q.open_at(j) && issues_command(
                q.events[j],
            )));
        }
        assert(commands(c));
        lemma_first_index_is(commands, q.cursor, t, c);
        assert(w.consumed(c) == q.consumed(c));
        lemma_next_open_here(w, c);
        let base = Replay {
            out_of_order: w.out_of_order.insert(t).union(w.progress_before(c, t)),
            ..w
        };
        assert(!base.consumed(c));
        lemma_next_open_here(base, c);
        lemma_next_open_here(w.claimed(t), c);
    }
    if none_crossed(q, q.cursor, t) {
        assert forall|j: int| q.cursor <= j < t implies !#[trigger] commands(j) by {
            assert((q.step_at(scan, j) is Command) == (q.open_at(j) && issues_command(
                q.events[j],
            )));
        }
        lemma_first_index_is(commands, q.cursor, t, t);
        if t < q.len() {
            lemma_moved_lands(w, t + 1);
        }
    }
}

/// After an activity the cursor stands at the first command that was crossed; with
/// none, behind the activity's end, or where it has not ended, behind its
/// scheduling.
pub proof fn law_activity_returns_to_the_first_crossed(s: Replay, id: ActivityExecId, t: int)
    requires
        s.wf(),
        s.prepared().cursor < t <= s.len(),
        s.events[s.prepared().cursor] matches WorkflowEvent::ActivityScheduled {
            activity_id,
            ..
        } && activity_id == id,
        t < s.len() ==> s.prepared().open_at(t) && !beside_activity(s.events[t], id),
        forall|j: int|
            s.prepared().cursor < j < t && s.prepared().open_at(j) ==> beside_activity(
                #[trigger] s.events[j],
                id,
            ),
    ensures
        s.events[s.prepared().cursor] matches WorkflowEvent::ActivityScheduled { name, .. } && {
            let p = s.prepared();
            let after = s.activity(name@, None).0;
            &&& forall|j: int| t < j ==> #[trigger] after.consumed(j) == p.consumed(j)
            &&& forall|c: int| #[trigger]
                first_crossed(p, p.cursor + 1, t, c) ==> after.cursor == c
            &&& none_crossed(p, p.cursor + 1, t) ==> if t < s.len() && activity_ends(
                s.events[t],
                id,
            ) {
                lands(after, t + 1)
            } else {
                after.cursor == p.cursor + 1
            }
        },
{
    let p = s.prepared();
    lemma_prepared(s);
    let q = p.at(p.cursor + 1);
    lemma_at(p, p.cursor + 1);
    let scan = ScanView::Activity(id);
    assert(forall|j: int| #[trigger] q.consumed(j) == p.consumed(j));
    assert forall|j: int| q.cursor <= j < t implies !(#[trigger] q.step_at(scan, j) is Hit) && !(
    q.step_at(scan, j) is Halt) && (q.step_at(scan, j) is Command) == (q.open_at(j)
        && issues_command(q.events[j])) by {
        assert(p.open_at(j) ==> beside_activity(s.events[j], id));
    }
    lemma_search_ends(q, scan, q.cursor, q.len(), t);
    lemma_returns(q, scan, t);
    assert(forall|c: int| #[trigger]
        first_crossed(p, p.cursor + 1, t, c) ==> first_crossed(q, q.cursor, t, c));
    assert(none_crossed(p, p.cursor + 1, t) ==> none_crossed(q, q.cursor, t));
}

/// After a local activity the cursor stands at the first command that was crossed;
/// with none, behind the activity's end; or where it has not ended, behind its
/// scheduling, and behind its failed attempts, where there are some.
pub proof fn law_local_activity_returns_to_the_first_crossed(
    s: Replay,
    id: ActivityExecId,
    t: int,
)
    requires
        s.wf(),
        s.prepared().cursor < t <= s.len(),
        s.events[s.prepared().cursor] matches WorkflowEvent::LocalActivityScheduled {
            activity_id,
            ..
        } && activity_id == id,
        t < s.len() ==> s.prepared().open_at(t) && !beside_local_activity(s.events[t], id),
        forall|j: int|
            s.prepared().cursor < j < t && s.prepared().open_at(j) ==> beside_local_activity(
                #[trigger] s.events[j],
                id,
            ),
    ensures
        s.events[s.prepared().cursor] matches WorkflowEvent::LocalActivityScheduled { name, .. }
            && {
            let p = s.prepared();
            let after = s.local_activity(name@, None).0;
            let failed = exists|j: int|
                p.cursor < j < t && p.open_at(j) && local_attempt_fails(#[trigger] s.events[j], id);
            &&& forall|j: int| t < j ==> #[trigger] after.consumed(j) == p.consumed(j)
            &&& forall|c: int| #[trigger]
                first_crossed(p, p.cursor + 1, t, c) ==> after.cursor == c
            &&& none_crossed(p, p.cursor + 1, t) ==> if t < s.len() && local_activity_ends(
                s.events[t],
                id,
            ) {
                lands(after, t + 1)
            } else if failed {
                lands(after, t)
            } else {
                after.cursor == p.cursor + 1
            }
        },
{
    let p = s.prepared();
    lemma_prepared(s);
    let q = p.at(p.cursor + 1);
    lemma_at(p, p.cursor + 1);
    let scan = ScanView::LocalActivity(id);
    assert(forall|j: int| #[trigger] q.consumed(j) == p.consumed(j));
    assert forall|j: int| q.cursor <= j < t implies !(#[trigger] q.step_at(scan, j) is Hit) && !(
    q.step_at(scan, j) is Halt) && (q.step_at(scan, j) is Command) == (q.open_at(j)
        && issues_command(q.events[j])) by {
        assert(p.open_at(j) ==> beside_local_activity(s.events[j], id));
    }
    lemma_search_ends(q, scan, q.cursor, q.len(), t);
    lemma_returns(q, scan, t);
    assert(forall|c: int| #[trigger]
        first_crossed(p, p.cursor + 1, t, c) ==> first_crossed(q, q.cursor, t, c));
    assert(none_crossed(p, p.cursor + 1, t) ==> none_crossed(q, q.cursor, t));
    lemma_attempts_met(q, id, q.cursor, t);
    let w = q.scanned(scan, q.cursor, q.len());
    lemma_stashed_frame(q, scan, q.cursor, t);
    lemma_moved_lands(w, t);
    assert(forall|j: int| #[trigger] w.moved_to(t).consumed(j) == w.consumed(j));
    assert((exists|j: int|
        q.cursor <= j < t && q.open_at(j) && local_attempt_fails(#[trigger] q.events[j], id)) == (
    exists|j: int|
        p.cursor < j < t && p.open_at(j) && local_attempt_fails(#[trigger] s.events[j], id)));
}

/// Failed attempts are counted exactly where there are some.
proof fn lemma_attempts_met(q: Replay, id: ActivityExecId, from: int, to: int)
    requires
        0 <= from,
        to <= q.len(),
    ensures
        q.failed_attempts(id, from, to) > 0 <==> exists|j: int|
            from <= j < to && q.open_at(j) && local_attempt_fails(#[trigger] q.events[j], id),
    decreases to - from,
{
    if from < to {
        lemma_attempts_met(q, id, from, to - 1);
        if q.failed_attempt(id, to - 1) {
            assert(q.open_at(to - 1) && local_attempt_fails(q.events[to - 1], id));
        }
    }
}

/// After an activity that waits for an outside system the cursor stands at the
/// first command that was crossed; with none, behind the activity's end, or where
/// it still waits, behind the start of the wait.
pub proof fn law_external_activity_returns_to_the_first_crossed(
    s: Replay,
    id: ActivityExecId,
    t: int,
)
    requires
        s.wf(),
        s.prepared().cursor < t <= s.len(),
        s.events[s.prepared().cursor] matches WorkflowEvent::ActivityAwaitingExternal {
            activity_id,
            ..
        } && activity_id == id,
        t < s.len() ==> s.prepared().open_at(t) && !beside_external_activity(s.events[t], id),
        forall|j: int|
            s.prepared().cursor < j < t && s.prepared().open_at(j) ==> beside_external_activity(
                #[trigger] s.events[j],
                id,
            ),
    ensures
        s.events[s.prepared().cursor] matches WorkflowEvent::ActivityAwaitingExternal { name, .. }
            && {
            let p = s.prepared();
            let after = s.external_activity(name@).0;
            &&& forall|j: int| t < j ==> #[trigger] after.consumed(j) == p.consumed(j)
            &&& forall|c: int| #[trigger]
                first_crossed(p, p.cursor + 1, t, c) ==> after.cursor == c
            &&& none_crossed(p, p.cursor + 1, t) ==> if t < s.len() && external_activity_ends(
                s.events[t],
                id,
            ) {
                lands(after, t + 1)
            } else {
                after.cursor == p.cursor + 1
            }
        },
{
    let p = s.prepared();
    lemma_prepared(s);
    let q = p.at(p.cursor + 1);
    lemma_at(p, p.cursor + 1);
    let scan = ScanView::ExternalActivity(id);
    assert(forall|j: int| #[trigger] q.consumed(j) == p.consumed(j));
    assert forall|j: int| q.cursor <= j < t implies !(#[trigger] q.step_at(scan, j) is Hit) && !(
    q.step_at(scan, j) is Halt) && (q.step_at(scan, j) is Command) == (q.open_at(j)
        && issues_command(q.events[j])) by {
        assert(p.open_at(j) ==> beside_external_activity(s.events[j], id));
    }
    lemma_search_ends(q, scan, q.cursor, q.len(), t);
    lemma_returns(q, scan, t);
    assert(forall|c: int| #[trigger]
        first_crossed(p, p.cursor + 1, t, c) ==> first_crossed(q, q.cursor, t, c));
    assert(none_crossed(p, p.cursor + 1, t) ==> none_crossed(q, q.cursor, t));
}

/// After a timer that fired the cursor stands at the first command that was
/// crossed, and with none, behind the fire; after one that did not fire, behind its
/// arming.
pub proof fn law_timer_returns_to_the_first_crossed(s: Replay, timer: Seq<char>, t: int)
    requires
        s.wf(),
        s.prepared().cursor < t <= s.len(),
        arms(s.events[s.prepared().cursor], timer),
        t < s.len() ==> s.prepared().open_at(t) && (fires(s.events[t], timer) || !runs_beside(
            s.events[t],
        )),
        forall|j: int|
            s.prepared().cursor < j < t && s.prepared().open_at(j) ==> runs_beside(
                #[trigger] s.events[j],
            ) && !fires(s.events[j], timer),
    ensures
        ({
            let p = s.prepared();
            let after = s.timer(timer, None).0;
            &&& forall|j: int| t < j ==> #[trigger] after.consumed(j) == p.consumed(j)
            &&& if t < s.len() && fires(s.events[t], timer) {
                &&& forall|c: int| #[trigger]
                    first_crossed(p, p.cursor + 1, t, c) ==> after.cursor == c
                &&& none_crossed(p, p.cursor + 1, t) ==> lands(after, t + 1)
            } else {
                after.cursor == p.cursor + 1
            }
        }),
{
    let p = s.prepared();
    lemma_prepared(s);
    let q = p.at(p.cursor + 1);
    lemma_at(p, p.cursor + 1);
    let scan = ScanView::Timer(timer);
    assert(forall|j: int| #[trigger] q.consumed(j) == p.consumed(j));
    assert forall|j: int| q.cursor <= j < t implies !(#[trigger] q.step_at(scan, j) is Hit) && !(
    q.step_at(scan, j) is Halt) && (q.step_at(scan, j) is Command) == (q.open_at(j)
        && issues_command(q.events[j])) by {
        assert(p.open_at(j) ==> runs_beside(s.events[j]) && !fires(s.events[j], timer));
    }
    lemma_search_ends(q, scan, q.cursor, q.len(), t);
    lemma_returns(q, scan, t);
    lemma_stashed_frame(q, scan, q.cursor, t);
    assert(forall|c: int| #[trigger]
        first_crossed(p, p.cursor + 1, t, c) ==> first_crossed(q, q.cursor, t, c));
    assert(none_crossed(p, p.cursor + 1, t) ==> none_crossed(q, q.cursor, t));
}

/// After a race between a signal and its deadline the cursor stands at the first
/// command that was crossed; with none, behind what decided it, or where nothing
/// did, behind the arming.
pub proof fn law_signal_race_returns_to_the_first_crossed(
    s: Replay,
    name: Seq<char>,
    timer: Seq<char>,
    t: int,
)
    requires
        s.wf(),
        s.prepared().cursor < t <= s.len(),
        arms(s.events[s.prepared().cursor], timer),
        forall|k: int|
            0 <= k < s.prepared().pending_signals.len() ==> (
            #[trigger] s.prepared().pending_signals[k]).name != name,
        t < s.len() ==> s.prepared().open_at(t) && (receives(s.events[t], name) || fires(
            s.events[t],
            timer,
        ) || !runs_beside(s.events[t])),
        forall|j: int|
            s.prepared().cursor < j < t && s.prepared().open_at(j) ==> runs_beside(
                #[trigger] s.events[j],
            ) && !receives(s.events[j], name) && !fires(s.events[j], timer),
    ensures
        ({
            let p = s.prepared();
            let after = s.signal_or_timer(name, timer, None).0;
            &&& forall|c: int| #[trigger]
                first_crossed(p, p.cursor + 1, t, c) ==> after.cursor == c
            &&& none_crossed(p, p.cursor + 1, t) ==> if t < s.len() && (receives(s.events[t], name)
                || fires(s.events[t], timer)) {
                lands(after, t + 1)
            } else {
                after.cursor == p.cursor + 1
            }
        }),
{
    let p = s.prepared();
    lemma_prepared(s);
    let q = p.at(p.cursor + 1);
    lemma_at(p, p.cursor + 1);
    let scan = ScanView::SignalOrTimer { name, timer };
    let n = p.pending_signals.len() as int;
    let before = |m: int|
        p.pending_signals[m].name == name && p.pending_signals[m].index < p.cursor;
    let named = |m: int| q.pending_signals[m].name == name;
    assert forall|m: int| 0 <= m < n implies !#[trigger] before(m) by {
        assert(s.prepared().pending_signals[m].name != name);
    }
    assert forall|m: int| 0 <= m < n implies !#[trigger] named(m) by {
        assert(s.prepared().pending_signals[m].name != name);
    }
    lemma_first_index_is(before, 0, n, n);
    lemma_first_index_is(named, 0, n, n);
    assert forall|j: int| q.cursor <= j < t implies !(#[trigger] q.step_at(scan, j) is Hit) && !(
    q.step_at(scan, j) is Halt) && (q.step_at(scan, j) is Command) == (q.open_at(j)
        && issues_command(q.events[j])) by {
        assert(p.open_at(j) ==> runs_beside(s.events[j]) && !receives(s.events[j], name) && !fires(
            s.events[j],
            timer,
        ));
    }
    lemma_search_ends(q, scan, q.cursor, q.len(), t);
    lemma_returns(q, scan, t);
    lemma_stashed_frame(q, scan, q.cursor, t);
    let w = q.scanned(scan, q.cursor, q.len());
    let command = q.scan_command(scan, q.cursor, q.len());
    let x = w.delivered(t).stray_fire_claimed(timer, t);
    let l = w.next_loser(name, t);
    let y = if l < w.len() {
        Replay { late: w.late.insert(l), ..w }
    } else {
        w
    };
    if t < s.len() {
        let d = w.delivered(t);
        lemma_first_index(
            |i: int| !d.consumed(i) && timer_fired(d.events[i], timer),
            t + 1,
            d.len(),
        );
        lemma_moved_lands(x, t + 1);
        lemma_moved_lands(y, t + 1);
    }
    assert forall|c: int| #[trigger] first_crossed(p, p.cursor + 1, t, c) implies {
        &&& first_crossed(q, q.cursor, t, c)
        &&& t < s.len() ==> x.next_open(c) == c && y.claimed(t).next_open(c) == c
    } by {
        assert(first_crossed(q, q.cursor, t, c));
        assert(q.step_at(scan, c) is Command);
        assert(w.consumed(c) == q.consumed(c));
        if t < s.len() {
            lemma_next_open_here(x, c);
            lemma_next_open_here(y.claimed(t), c);
        }
    }
    assert(none_crossed(p, p.cursor + 1, t) ==> none_crossed(q, q.cursor, t));
}

/// After a race between a child and its deadline the cursor stands at the first
/// command that was crossed. With none, it stands behind the fire where the timer
/// won, and else behind the start of child and timer.
pub proof fn law_child_race_returns_to_the_first_crossed(
    s: Replay,
    id: ExecutionId,
    timer: Seq<char>,
    t: int,
)
    requires
        s.wf(),
        s.prepared().cursor + 2 <= t <= s.len(),
        s.events[s.prepared().cursor] matches WorkflowEvent::ChildWorkflowStarted { child_id, .. }
            && child_id == id,
        arms(s.events[s.prepared().cursor + 1], timer),
        t < s.len() ==> s.prepared().open_at(t) && (child_ends(s.events[t], id) || fires(
            s.events[t],
            timer,
        ) || !runs_beside(s.events[t])),
        forall|j: int|
            s.prepared().cursor + 2 <= j < t && s.prepared().open_at(j) ==> runs_beside(
                #[trigger] s.events[j],
            ) && !child_ends(s.events[j], id) && !fires(s.events[j], timer),
    ensures
        s.events[s.prepared().cursor] matches WorkflowEvent::ChildWorkflowStarted {
            workflow_name,
            input,
            ..
        } && {
            let p = s.prepared();
            let after = s.child_or_timer(workflow_name@, json_view(input), timer, None).0;
            &&& forall|c: int| #[trigger]
                first_crossed(p, p.cursor + 2, t, c) ==> after.cursor == c
            &&& none_crossed(p, p.cursor + 2, t) ==> if t < s.len() && fires(s.events[t], timer) {
                lands(after, t + 1)
            } else {
                lands(after, p.cursor + 2)
            }
        },
{
    let p = s.prepared();
    lemma_prepared(s);
    let resume = p.cursor + 2;
    let scan = ScanView::ChildOrTimer { child: id, timer };
    assert forall|j: int| resume <= j < t implies !(#[trigger] p.step_at(scan, j) is Hit) && !(
    p.step_at(scan, j) is Halt) && (p.step_at(scan, j) is Command) == (p.open_at(j)
        && issues_command(p.events[j])) by {
        assert(p.open_at(j) ==> runs_beside(s.events[j]) && !child_ends(s.events[j], id) && !fires(
            s.events[j],
            timer,
        ));
    }
    lemma_search_ends(p, scan, resume, p.len(), t);
    lemma_stashed_frame(p, scan, resume, t);
    let w = p.scanned(scan, resume, p.len());
    let commands = |i: int| p.step_at(scan, i) is Command;
    lemma_first_index(commands, resume, t);
    let c = w.claimed(t);
    let won = c.stray_fire_claimed(timer, t);
    let lost = w.losing_child_claimed(id, t);
    if t < s.len() {
        lemma_first_index(
            |i: int| !c.consumed(i) && timer_fired(c.events[i], timer),
            t + 1,
            c.len(),
        );
        lemma_first_index(
            |i: int| !w.consumed(i) && child_outcome(w.events[i], id),
            t + 1,
            w.len(),
        );
        lemma_moved_lands(lost, t + 1);
    }
    lemma_moved_lands(w, resume);
    lemma_moved_lands(won, resume);
    match s.events[p.cursor] {
        WorkflowEvent::ChildWorkflowStarted { input, .. } => json_same_reflexive(json_view(input)),
        _ => {},
    }
    assert forall|f: int| #[trigger] first_crossed(p, resume, t, f) implies {
        &&& p.scan_command(scan, resume, p.len()) == Some(f)
        &&& w.next_open(f) == f
        &&& t < s.len() ==> won.next_open(f) == f && lost.claimed(t).next_open(f) == f
    } by {
        assert(p.step_at(scan, f) is Command);
        assert forall|j: int| resume <= j < f implies !#[trigger] commands(j) by {
            assert(p.open_at(j) ==> !issues_command(p.events[j]));
            assert((p.step_at(scan, j) is Command) == (p.open_at(j) && issues_command(
                p.events[j],
            )));
        }
        assert(commands(f));
        lemma_first_index_is(commands, resume, t, f);
        assert(w.consumed(f) == p.consumed(f));
        lemma_next_open_here(w, f);
        if t < s.len() {
            lemma_next_open_here(won, f);
            lemma_next_open_here(lost.claimed(t), f);
        }
    }
    if none_crossed(p, resume, t) {
        assert forall|j: int| resume <= j < t implies !#[trigger] commands(j) by {
            assert((p.step_at(scan, j) is Command) == (p.open_at(j) && issues_command(
                p.events[j],
            )));
        }
        lemma_first_index_is(commands, resume, t, t);
    }
}

/// After a wait that got its signal out of history the cursor stands at the first
/// command that was crossed, and with none, behind the signal; a wait that got none
/// moves the cursor past what was taken before, and no further.
pub proof fn law_wait_returns_to_the_first_crossed(s: Replay, name: Seq<char>, t: int)
    requires
        s.wf(),
        forall|k: int|
            0 <= k < s.pending_signals.len() ==> (#[trigger] s.pending_signals[k]).name != name,
        s.cursor <= t <= s.len(),
        t < s.len() ==> s.open_at(t) && (receives(s.events[t], name) || !runs_beside(s.events[t])),
        forall|j: int|
            s.cursor <= j < t && s.open_at(j) ==> runs_beside(#[trigger] s.events[j]) && !receives(
                s.events[j],
                name,
            ),
    ensures
        ({
            let after = s.signal(name, None).0;
            if t < s.len() && receives(s.events[t], name) {
                &&& forall|c: int|
                    s.cursor <= c < t && s.open_at(c) && crossed_by_wait(
                        #[trigger] s.events[c],
                        name,
                    ) && (forall|j: int|
                        s.cursor <= j < c && s.open_at(j) ==> !crossed_by_wait(
                            #[trigger] s.events[j],
                            name,
                        )) ==> after.cursor == c
                &&& (forall|j: int|
                    s.cursor <= j < t && s.open_at(j) ==> !crossed_by_wait(
                        #[trigger] s.events[j],
                        name,
                    )) ==> lands(after, t + 1)
            } else {
                &&& s.cursor <= after.cursor <= s.len()
                &&& forall|j: int| s.cursor <= j < after.cursor ==> #[trigger] s.consumed(j)
                &&& after.cursor < s.len() ==> !s.consumed(after.cursor)
            }
        }),
{
    let eligible = |j: int|
        s.pending_signals[j].name == name && s.pending_signals[j].index < s.len();
    let queue = s.pending_signals.len() as int;
    assert forall|j: int| 0 <= j < queue implies !#[trigger] eligible(j) by {
        assert(s.pending_signals[j].name != name);
    }
    lemma_first_index_is(eligible, 0, queue, queue);
    let a = s.advanced();
    lemma_moved_to(s, s.cursor);
    lemma_next_open(s, s.cursor);
    lemma_next_open_here(a, a.cursor);
    if t < a.cursor && t < s.len() {
        assert(s.consumed(t));
    }
    assert forall|j: int| s.cursor <= j < a.cursor implies !s.open_at(j) by {
        assert(s.consumed(j));
    }
    if a.cursor < s.len() {
        let end = s.len();
        let scan = ScanView::Signal { name, race: false };
        assert forall|j: int| a.cursor <= j < t implies !(#[trigger] a.step_at(scan, j) is Hit)
            && !(a.step_at(scan, j) is Halt) && (a.step_at(scan, j) is Command) == (s.open_at(j)
            && crossed_by_wait(s.events[j], name)) by {
            assert(s.open_at(j) ==> runs_beside(s.events[j]) && !receives(s.events[j], name));
            match s.events[j] {
                WorkflowEvent::TimerStarted { timer_id, .. } => law_deadline_timer_names_its_signal(
                    timer_id.0@,
                    name,
                ),
                _ => {},
            }
        }
        lemma_search_ends(a, scan, a.cursor, end, t);
        lemma_stashed_frame(a, scan, a.cursor, t);
        let w = a.scanned(scan, a.cursor, end);
        let commands = |i: int| a.step_at(scan, i) is Command;
        lemma_first_index(commands, a.cursor, t);
        let d = w.delivered(t);
        if t < s.len() {
            lemma_moved_lands(d, t + 1);
        }
        let after = s.signal(name, None).0;
        assert forall|c: int|
            t < s.len() && receives(s.events[t], name) && s.cursor <= c < t && s.open_at(c)
                && crossed_by_wait(#[trigger] s.events[c], name) && (forall|j: int|
                s.cursor <= j < c && s.open_at(j) ==> !crossed_by_wait(
                    #[trigger] s.events[j],
                    name,
                )) implies after.cursor == c by {
            assert(a.cursor <= c);
            assert(commands(c));
            assert forall|j: int| a.cursor <= j < c implies !#[trigger] commands(j) by {
                assert(s.open_at(j) ==> !crossed_by_wait(s.events[j], name));
                assert((a.step_at(scan, j) is Command) == (s.open_at(j) && crossed_by_wait(
                    s.events[j],
                    name,
                )));
            }
            lemma_first_index_is(commands, a.cursor, t, c);
            assert(w.consumed(c) == a.consumed(c));
            lemma_next_open_here(d, c);
        }
        if t < s.len() && receives(s.events[t], name) && (forall|j: int|
            s.cursor <= j < t && s.open_at(j) ==> !crossed_by_wait(#[trigger] s.events[j], name)) {
            assert forall|j: int| a.cursor <= j < t implies !#[trigger] commands(j) by {
                assert((a.step_at(scan, j) is Command) == (s.open_at(j) && crossed_by_wait(
                    s.events[j],
                    name,
                )));
            }
            lemma_first_index_is(commands, a.cursor, t, t);
        }
    }
}

/// After a marker that was found right in its place the cursor stands behind it;
/// after one that was found further ahead, or not at all, where it stood.
pub proof fn law_marker_ahead_returns(s: Replay, marker: Seq<char>, t: int)
    requires
        s.wf(),
        s.prepared().cursor <= t <= s.len(),
        t < s.len() ==> s.prepared().open_at(t) && (is_marker(s.events[t], marker)
            || !crossed_for_marker(s.events[t])),
        forall|j: int|
            s.prepared().cursor <= j < t && s.prepared().open_at(j) ==> crossed_for_marker(
                #[trigger] s.events[j],
            ) && !is_marker(s.events[j], marker),
    ensures
        ({
            let p = s.prepared();
            let after = s.peeked_marker(marker).0;
            if t == p.cursor && t < s.len() && is_marker(s.events[t], marker) {
                lands(after, t + 1)
            } else {
                after.cursor == p.cursor
            }
        }),
{
    let p = s.prepared();
    lemma_prepared(s);
    let scan = ScanView::Marker(marker);
    assert forall|j: int| p.cursor <= j < t implies !(#[trigger] p.step_at(scan, j) is Hit) && !(
    p.step_at(scan, j) is Halt) && (p.step_at(scan, j) is Command) == p.open_at(j) by {
        assert(p.open_at(j) ==> crossed_for_marker(s.events[j]) && !is_marker(s.events[j], marker));
    }
    lemma_search_ends(p, scan, p.cursor, p.len(), t);
    lemma_stashed_frame(p, scan, p.cursor, t);
    let w = p.scanned(scan, p.cursor, p.len());
    let commands = |i: int| p.step_at(scan, i) is Command;
    if p.cursor < t {
        assert(p.step_at(scan, p.cursor) is Command);
        assert(commands(p.cursor));
        lemma_first_index_is(commands, p.cursor, t, p.cursor);
        assert(w.consumed(p.cursor) == p.consumed(p.cursor));
        lemma_next_open_here(w, p.cursor);
        lemma_next_open_here(w.claimed(t), p.cursor);
    } else if t < s.len() {
        lemma_moved_lands(w, t + 1);
    }
}

} // verus!
