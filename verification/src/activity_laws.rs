//! What activities give back, told by what is recorded of them.
use crate::event::WorkflowEvent;
use crate::json::{json_same_reflexive, json_view, opt_json};
use crate::moves::{
    lemma_at, lemma_next_open, lemma_next_open_here, lemma_prepared, lemma_scan_stop, lemma_scanned,
    lemma_stashed_frame, lemma_step_classes,
};
use crate::outcome::HistoryMatchView;
use crate::replay::Replay;
use crate::scan::ScanView;
use crate::search::{lemma_first_index, lemma_first_index_is};
use crate::types::ActivityExecId;
use crate::vocabulary::{
    activity_ends, activity_gets_on, beside_activity, beside_external_activity,
    beside_local_activity, external_activity_ends, issues_command, local_activity_ends,
    local_attempt_fails, reports_progress,
};
use vstd::prelude::*;

verus! {

// ── Searches ────────────────────────────────────────────────────────────────
/// A search ends at the first event that it must not cross.
pub(crate) proof fn lemma_search_ends(q: Replay, scan: ScanView, from: int, end: int, t: int)
    requires
        from <= t <= end,
        t < end ==> q.step_at(scan, t) is Hit || q.step_at(scan, t) is Halt,
        forall|j: int|
            from <= j < t ==> !(#[trigger] q.step_at(scan, j) is Hit) && !(q.step_at(
                scan,
                j,
            ) is Halt),
    ensures
        q.scan_stop(scan, from, end) == t,
        q.scan_hits(scan, from, end) == (t < end && q.step_at(scan, t) is Hit),
{
    let ends = |i: int| q.step_at(scan, i) is Hit || q.step_at(scan, i) is Halt;
    assert forall|j: int| from <= j < t implies !#[trigger] ends(j) by {
        assert(!(q.step_at(scan, j) is Hit));
    }
    lemma_first_index_is(ends, from, end, t);
}

/// Where a search leaves the cursor when it settles an outcome, and when it
/// returns without one: in front of the first command that it crossed.
pub(crate) proof fn lemma_search_returns(q: Replay, scan: ScanView)
    requires
        q.wf(),
    ensures
        ({
            let stop = q.scan_stop(scan, q.cursor, q.len());
            let command = q.scan_command(scan, q.cursor, q.len());
            let w = q.scanned(scan, q.cursor, q.len());
            let hit = w.settled_outcome(stop, command);
            let miss = w.rewound(command);
            &&& stop < q.len() ==> {
                &&& hit.consumed(stop) || stop < hit.cursor
                &&& (forall|j: int|
                    q.cursor <= j < stop ==> !(#[trigger] q.step_at(scan, j) is Command))
                    ==> stop < hit.cursor
            }
            &&& (forall|j: int|
                q.cursor <= j < stop ==> !(#[trigger] q.step_at(scan, j) is Command))
                ==> miss.cursor == q.cursor
            &&& forall|j: int|
                q.cursor <= j < stop && #[trigger] q.step_at(scan, j) is Command ==> {
                    &&& !miss.consumed(j) && miss.cursor <= j
                    &&& stop < q.len() && !(q.events[j] is ActivityStarted) && !(
                    q.events[j] is ActivityHeartbeat) ==> !hit.consumed(j)
                    &&& stop < q.len() && (forall|i: int|
                        q.cursor <= i < stop && #[trigger] q.step_at(scan, i) is Command ==> !(
                        q.events[i] is ActivityStarted) && !(q.events[i] is ActivityHeartbeat))
                        ==> hit.cursor <= j
                }
        }),
{
    let stop = q.scan_stop(scan, q.cursor, q.len());
    let command = q.scan_command(scan, q.cursor, q.len());
    let w = q.scanned(scan, q.cursor, q.len());
    let hit = w.settled_outcome(stop, command);
    let miss = w.rewound(command);
    lemma_scan_stop(q, scan, q.cursor, q.len());
    lemma_scanned(q, scan, q.cursor, q.len());
    lemma_stashed_frame(q, scan, q.cursor, stop);
    let commands = |i: int| q.step_at(scan, i) is Command;
    lemma_first_index(commands, q.cursor, stop);
    match command {
        Some(c) => {
            assert(commands(c));
            assert(w.consumed(c) == q.consumed(c));
            lemma_next_open_here(w, c);
            if stop < q.len() {
                let base = Replay {
                    out_of_order: w.out_of_order.insert(stop).union(w.progress_before(c, stop)),
                    ..w
                };
                lemma_next_open(base, c);
                if !(q.events[c] is ActivityStarted) && !(q.events[c] is ActivityHeartbeat) {
                    assert(!base.consumed(c));
                    lemma_next_open_here(base, c);
                }
            }
            assert forall|j: int|
                q.cursor <= j < stop && #[trigger] q.step_at(scan, j) is Command implies {
                &&& !miss.consumed(j) && miss.cursor <= j
                &&& stop < q.len() && !(q.events[j] is ActivityStarted) && !(
                q.events[j] is ActivityHeartbeat) ==> !hit.consumed(j)
                &&& stop < q.len() && (forall|i: int|
                    q.cursor <= i < stop && #[trigger] q.step_at(scan, i) is Command ==> !(
                    q.events[i] is ActivityStarted) && !(q.events[i] is ActivityHeartbeat))
                    ==> hit.cursor <= j
            } by {
                assert(commands(j));
                assert(c <= j);
                assert(w.consumed(j) == q.consumed(j));
            }
        },
        None => {
            assert forall|j: int| q.cursor <= j < stop implies !(#[trigger] q.step_at(
                scan,
                j,
            ) is Command) by {
                assert(!commands(j));
            }
            if stop < q.len() {
                lemma_next_open(w, stop + 1);
            }
        },
    }
}

// ── Activities run by a worker ──────────────────────────────────────────────
/// An activity that was scheduled gets its own recorded end, whatever commands
/// ran next to it: a result as it was returned, a failure with its message,
/// attempt, class, details and permanence, a timeout with its kind. The input
/// that was recorded with it makes no difference.
///
/// `t` is the first event behind the scheduling, still to be claimed, that was not
/// recorded next to the activity. Where that is not the activity's end, or where
/// there is none, the activity is still in progress.
pub proof fn law_activity_gets_its_own_end(s: Replay, id: ActivityExecId, t: int)
    requires
        s.wf(),
        s.prepared().cursor < t <= s.len(),
        s.events[s.prepared().cursor] matches WorkflowEvent::ActivityScheduled {
            activity_id,
            ..
        } && activity_id == id,
        t < s.len() ==> s.prepared().open_at(t) && !beside_activity(s.events[t], id),
        forall|j: int|
            s.prepared().cursor < j < t && s.prepared().open_at(j) ==> beside_activity(
                #[trigger] s.events[j],
                id,
            ),
    ensures
        s.events[s.prepared().cursor] matches WorkflowEvent::ActivityScheduled {
            name,
            input,
            ..
        } && {
            let (after, r) = s.activity(name@, None);
            &&& s.activity(name@, Some(json_view(input))) == (after, r)
            &&& if t < s.len() && activity_ends(s.events[t], id) {
                &&& s.events[t] matches WorkflowEvent::ActivityCompleted { output, .. } ==> r == (
                HistoryMatchView::Matched { output: json_view(output) })
                &&& s.events[t] matches WorkflowEvent::ActivityFailed {
                    error,
                    attempt,
                    error_type,
                    non_retryable,
                    details,
                    ..
                } ==> r == (HistoryMatchView::Failed {
                    error: error@,
                    attempt,
                    error_type: error_type@,
                    details: opt_json(details),
                    non_retryable,
                })
                &&& s.events[t] matches WorkflowEvent::ActivityTimedOut { timeout_type, .. }
                    ==> r == (HistoryMatchView::TimedOut { timeout_type })
            } else {
                r == (HistoryMatchView::ActivityInProgress { activity_id: id })
            }
        },
{
    let p = s.prepared();
    lemma_prepared(s);
    let q = p.at(p.cursor + 1);
    let scan = ScanView::Activity(id);
    assert forall|j: int| q.cursor <= j < t implies !(#[trigger] q.step_at(scan, j) is Hit) && !(
    q.step_at(scan, j) is Halt) by {
        assert(p.open_at(j) ==> beside_activity(s.events[j], id));
    }
    lemma_search_ends(q, scan, q.cursor, q.len(), t);
    match s.events[p.cursor] {
        WorkflowEvent::ActivityScheduled { input, .. } => json_same_reflexive(json_view(input)),
        _ => {},
    }
}

/// Matching an activity leaves everything that ran next to it for its own command.
///
/// The cursor returns in front of the first command that was crossed, and every
/// crossed command and every report of another one is still to be claimed. The
/// activity's own end is settled, and so is what was heard of it on the way.
pub proof fn law_activity_leaves_what_ran_beside_it(
    s: Replay,
    name: Seq<char>,
    id: ActivityExecId,
    t: int,
)
    requires
        s.wf(),
        s.prepared().cursor < t <= s.len(),
        s.events[s.prepared().cursor] matches WorkflowEvent::ActivityScheduled {
            activity_id,
            name: recorded,
            ..
        } && activity_id == id && recorded@ == name,
        t < s.len() ==> s.prepared().open_at(t) && !beside_activity(s.events[t], id),
        forall|j: int|
            s.prepared().cursor < j < t && s.prepared().open_at(j) ==> beside_activity(
                #[trigger] s.events[j],
                id,
            ),
    ensures
        ({
            let p = s.prepared();
            let after = s.activity(name, None).0;
            let ended = t < s.len() && activity_ends(s.events[t], id);
            &&& ended ==> after.consumed(t) || t < after.cursor
            &&& forall|j: int|
                p.cursor < j < t && p.open_at(j) && issues_command(#[trigger] s.events[j])
                    ==> !after.consumed(j) && after.cursor <= j
            &&& (forall|j: int|
                p.cursor < j < t && p.open_at(j) ==> !issues_command(#[trigger] s.events[j])) ==> (
            if ended {
                t < after.cursor
            } else {
                after.cursor == p.cursor + 1
            })
            &&& forall|j: int|
                p.open_at(j) && j != t && reports_progress(#[trigger] s.events[j])
                    && !activity_gets_on(s.events[j], id) ==> !after.consumed(j)
            &&& forall|j: int|
                p.cursor < j < t && ended && activity_gets_on(#[trigger] s.events[j], id)
                    ==> after.consumed(j) || j < after.cursor
        }),
{
    let p = s.prepared();
    lemma_prepared(s);
    let q = p.at(p.cursor + 1);
    lemma_at(p, p.cursor + 1);
    let scan = ScanView::Activity(id);
    assert forall|j: int| q.cursor <= j < t implies !(#[trigger] q.step_at(scan, j) is Hit) && !(
    q.step_at(scan, j) is Halt) && (q.step_at(scan, j) is Command) == (p.open_at(j)
        && issues_command(s.events[j])) by {
        assert(p.open_at(j) ==> beside_activity(s.events[j], id));
    }
    lemma_search_ends(q, scan, q.cursor, q.len(), t);
    lemma_search_returns(q, scan);
    let command = q.scan_command(scan, q.cursor, q.len());
    let w = q.scanned(scan, q.cursor, q.len());
    let after = s.activity(name, None).0;
    lemma_stashed_frame(q, scan, q.cursor, t);
    lemma_scan_stop(q, scan, q.cursor, q.len());
    assert forall|j: int|
        p.cursor < j < t && p.open_at(j) && issues_command(
            #[trigger] s.events[j],
        ) implies !after.consumed(j) && after.cursor <= j by {
        assert(q.step_at(scan, j) is Command);
    }
    assert forall|j: int|
        p.open_at(j) && j != t && reports_progress(#[trigger] s.events[j]) && !activity_gets_on(
            s.events[j],
            id,
        ) implies !after.consumed(j) by {
        lemma_step_classes(scan, s.events[j]);
        assert(w.consumed(j) == q.consumed(j));
    }
    if t < s.len() && activity_ends(s.events[t], id) {
        match command {
            Some(c) => {
                let base = Replay {
                    out_of_order: w.out_of_order.insert(t).union(w.progress_before(c, t)),
                    ..w
                };
                lemma_next_open(base, c);
                assert forall|j: int|
                    p.cursor < j < t && activity_gets_on(
                        #[trigger] s.events[j],
                        id,
                    ) implies after.consumed(j) || j < after.cursor by {
                    if c <= j {
                        assert(w.progress_before(c, t).contains(j));
                    }
                }
            },
            None => lemma_next_open(w, t + 1),
        }
    }
}

// ── Local activities ────────────────────────────────────────────────────────
impl Replay {
    /// The positions in `from..to`, still to be claimed, at which an attempt of
    /// the local activity failed.
    pub open spec fn failed_attempts_in(self, id: ActivityExecId, from: int, to: int) -> Set<int> {
        Set::new(
            |i: int| from <= i < to && self.open_at(i) && local_attempt_fails(self.events[i], id),
        )
    }
}

/// Failed attempts are counted one by one, and the last one gives the error.
proof fn lemma_attempts_are_counted(q: Replay, id: ActivityExecId, from: int, to: int)
    requires
        0 <= from <= to <= q.len(),
    ensures
        q.failed_attempts_in(id, from, to).finite(),
        q.failed_attempts(id, from, to) == q.failed_attempts_in(id, from, to).len(),
        q.failed_attempts_in(id, from, to).is_empty() ==> q.last_attempt_error(id, from, to)
            is None,
        forall|m: int| #[trigger]
            q.failed_attempts_in(id, from, to).contains(m) && (forall|i: int|
                m < i < to ==> !(q.open_at(i) && local_attempt_fails(#[trigger] q.events[i], id)))
                ==> (q.events[m] matches WorkflowEvent::LocalActivityFailed { error, .. }
                && q.last_attempt_error(id, from, to) == Some(error@)),
    decreases to - from,
{
    let all = q.failed_attempts_in(id, from, to);
    if from < to {
        lemma_attempts_are_counted(q, id, from, to - 1);
        let front = q.failed_attempts_in(id, from, to - 1);
        if q.failed_attempt(id, to - 1) {
            assert(all =~= front.insert(to - 1));
            assert(all.contains(to - 1));
        } else {
            assert(all =~= front);
        }
        assert forall|m: int| #[trigger] all.contains(m) && (forall|i: int|
            m < i < to ==> !(q.open_at(i) && local_attempt_fails(
                #[trigger] q.events[i],
                id,
            ))) implies (q.events[m] matches WorkflowEvent::LocalActivityFailed { error, .. }
            && q.last_attempt_error(id, from, to) == Some(error@)) by {
            if m < to - 1 {
                assert(!(q.open_at(to - 1) && local_attempt_fails(q.events[to - 1], id)));
                assert(front.contains(m));
            }
        }
    } else {
        assert(all =~= Set::<int>::empty());
    }
}

/// A local activity that was scheduled gets its own recorded end: a result as it
/// was returned, or, with no attempt left, the last message and attempt as an
/// untyped failure. The input that was recorded with it makes no difference.
///
/// `t` is the first event behind the scheduling, still to be claimed, that was not
/// recorded next to the activity. Where that is not the activity's end, or where
/// there is none, the activity is still in progress, with the failed attempts up
/// to there counted; one that was never attempted counts as new where the input
/// is compared.
pub proof fn law_local_activity_gets_its_own_end(s: Replay, id: ActivityExecId, t: int)
    requires
        s.wf(),
        s.len() <= u32::MAX,
        s.prepared().cursor < t <= s.len(),
        s.events[s.prepared().cursor] matches WorkflowEvent::LocalActivityScheduled {
            activity_id,
            ..
        } && activity_id == id,
        t < s.len() ==> s.prepared().open_at(t) && !beside_local_activity(s.events[t], id),
        forall|j: int|
            s.prepared().cursor < j < t && s.prepared().open_at(j) ==> beside_local_activity(
                #[trigger] s.events[j],
                id,
            ),
    ensures
        s.events[s.prepared().cursor] matches WorkflowEvent::LocalActivityScheduled {
            name,
            input,
            ..
        } && {
            let p = s.prepared();
            let attempts = p.failed_attempts_in(id, p.cursor + 1, t);
            let (after, r) = s.local_activity(name@, None);
            &&& s.local_activity(name@, Some(json_view(input))) == (after, r)
            &&& if t < s.len() && local_activity_ends(s.events[t], id) {
                &&& s.events[t] matches WorkflowEvent::LocalActivityCompleted { output, .. }
                    ==> r == (HistoryMatchView::Matched { output: json_view(output) })
                &&& s.events[t] matches WorkflowEvent::LocalActivityExhausted {
                    error,
                    attempt,
                    ..
                } ==> r == (HistoryMatchView::Failed {
                    error: error@,
                    attempt,
                    error_type: "Error"@,
                    details: None,
                    non_retryable: false,
                })
                &&& s.local_activity_strict(name@, json_view(input)) == (after, r)
                &&& after.consumed(t) || t < after.cursor
            } else {
                &&& r matches HistoryMatchView::LocalActivityInProgress {
                    activity_id,
                    failed_attempts,
                    last_error,
                } && {
                    &&& activity_id == id
                    &&& failed_attempts == attempts.len()
                    &&& attempts.is_empty() ==> last_error is None
                    &&& forall|m: int| #[trigger]
                        attempts.contains(m) && (forall|i: int|
                            m < i < t ==> !(p.open_at(i) && local_attempt_fails(
                                #[trigger] s.events[i],
                                id,
                            ))) ==> (s.events[m] matches WorkflowEvent::LocalActivityFailed {
                            error,
                            ..
                        } && last_error == Some(error@))
                }
                &&& s.local_activity_strict(name@, json_view(input)) == (
                    after,
                    if attempts.is_empty() {
                        HistoryMatchView::NoMatch
                    } else {
                        r
                    },
                )
            }
        },
{
    let p = s.prepared();
    lemma_prepared(s);
    let q = p.at(p.cursor + 1);
    lemma_at(p, p.cursor + 1);
    let scan = ScanView::LocalActivity(id);
    assert forall|j: int| q.cursor <= j < t implies !(#[trigger] q.step_at(scan, j) is Hit) && !(
    q.step_at(scan, j) is Halt) by {
        assert(p.open_at(j) ==> beside_local_activity(s.events[j], id));
    }
    lemma_search_ends(q, scan, q.cursor, q.len(), t);
    lemma_search_returns(q, scan);
    lemma_attempts_are_counted(q, id, q.cursor, t);
    let attempts = p.failed_attempts_in(id, p.cursor + 1, t);
    assert(attempts =~= q.failed_attempts_in(id, q.cursor, t));
    lemma_attempts_fit(q, id, q.cursor, t);
    if attempts.len() == 0 {
        assert(attempts =~= Set::<int>::empty());
    }
    match s.events[p.cursor] {
        WorkflowEvent::LocalActivityScheduled { input, .. } => json_same_reflexive(
            json_view(input),
        ),
        _ => {},
    }
}

/// No more attempts are counted than there are events.
proof fn lemma_attempts_fit(q: Replay, id: ActivityExecId, from: int, to: int)
    requires
        from <= to,
    ensures
        q.failed_attempts(id, from, to) <= to - from,
    decreases to - from,
{
    if from < to {
        lemma_attempts_fit(q, id, from, to - 1);
    }
}

/// The commands that were recorded next to a local activity are still to be
/// claimed after it was matched, and the cursor returns in front of them. With
/// none of them, it moves past the activity's end, or past the failed attempts.
pub proof fn law_local_activity_leaves_what_ran_beside_it(
    s: Replay,
    name: Seq<char>,
    id: ActivityExecId,
    t: int,
)
    requires
        s.wf(),
        s.prepared().cursor < t <= s.len(),
        s.events[s.prepared().cursor] matches WorkflowEvent::LocalActivityScheduled {
            activity_id,
            name: recorded,
            ..
        } && activity_id == id && recorded@ == name,
        t < s.len() ==> s.prepared().open_at(t) && !beside_local_activity(s.events[t], id),
        forall|j: int|
            s.prepared().cursor < j < t && s.prepared().open_at(j) ==> beside_local_activity(
                #[trigger] s.events[j],
                id,
            ),
    ensures
        ({
            let p = s.prepared();
            let after = s.local_activity(name, None).0;
            let ended = t < s.len() && local_activity_ends(s.events[t], id);
            &&& forall|j: int|
                p.cursor < j < t && p.open_at(j) && issues_command(#[trigger] s.events[j])
                    ==> !after.consumed(j) && after.cursor <= j
            &&& (forall|j: int|
                p.cursor < j < t && p.open_at(j) ==> !issues_command(#[trigger] s.events[j])) ==> (
            if ended {
                t < after.cursor
            } else if p.failed_attempts_in(id, p.cursor + 1, t).is_empty() {
                after.cursor == p.cursor + 1
            } else {
                t <= after.cursor
            })
        }),
{
    let p = s.prepared();
    lemma_prepared(s);
    let q = p.at(p.cursor + 1);
    lemma_at(p, p.cursor + 1);
    let scan = ScanView::LocalActivity(id);
    assert forall|j: int| q.cursor <= j < t implies !(#[trigger] q.step_at(scan, j) is Hit) && !(
    q.step_at(scan, j) is Halt) && (q.step_at(scan, j) is Command) == (p.open_at(j)
        && issues_command(s.events[j])) by {
        assert(p.open_at(j) ==> beside_local_activity(s.events[j], id));
    }
    lemma_search_ends(q, scan, q.cursor, q.len(), t);
    lemma_search_returns(q, scan);
    lemma_attempts_are_counted(q, id, q.cursor, t);
    let attempts = p.failed_attempts_in(id, p.cursor + 1, t);
    assert(attempts =~= q.failed_attempts_in(id, q.cursor, t));
    if attempts.len() == 0 {
        assert(attempts =~= Set::<int>::empty());
    }
    if attempts.is_empty() {
        assert(attempts =~= Set::<int>::empty());
    }
    let w = q.scanned(scan, q.cursor, q.len());
    lemma_scan_stop(q, scan, q.cursor, q.len());
    lemma_stashed_frame(q, scan, q.cursor, t);
    lemma_next_open(w, t);
    let after = s.local_activity(name, None).0;
    let command = q.scan_command(scan, q.cursor, q.len());
    let commands = |i: int| q.step_at(scan, i) is Command;
    lemma_first_index(commands, q.cursor, t);
    assert forall|j: int|
        p.cursor < j < t && p.open_at(j) && issues_command(
            #[trigger] s.events[j],
        ) implies !after.consumed(j) && after.cursor <= j by {
        assert(q.step_at(scan, j) is Command);
        assert(commands(j));
    }
}

// ── Activities completed by an outside system ───────────────────────────────
/// An activity that waits for an outside system gets its own recorded end: the
/// result that it was completed with, the message that it was failed with as an
/// untyped failure of the first attempt, or its timeout.
///
/// `t` is the first event behind the wait's start, still to be claimed, that was
/// not recorded next to the activity. Where that is not the activity's end, or
/// where there is none, it still waits, under the recorded id and token.
pub proof fn law_external_activity_gets_its_own_end(s: Replay, id: ActivityExecId, t: int)
    requires
        s.wf(),
        s.prepared().cursor < t <= s.len(),
        s.events[s.prepared().cursor] matches WorkflowEvent::ActivityAwaitingExternal {
            activity_id,
            ..
        } && activity_id == id,
        t < s.len() ==> s.prepared().open_at(t) && !beside_external_activity(s.events[t], id),
        forall|j: int|
            s.prepared().cursor < j < t && s.prepared().open_at(j) ==> beside_external_activity(
                #[trigger] s.events[j],
                id,
            ),
    ensures
        s.events[s.prepared().cursor] matches WorkflowEvent::ActivityAwaitingExternal {
            name,
            token,
            ..
        } && {
            let p = s.prepared();
            let (after, r) = s.external_activity(name@);
            let ended = t < s.len() && external_activity_ends(s.events[t], id);
            &&& if ended {
                &&& s.events[t] matches WorkflowEvent::ActivityCompletedExternally { output, .. }
                    ==> r == (HistoryMatchView::Matched { output: json_view(output) })
                &&& s.events[t] matches WorkflowEvent::ActivityFailedExternally { error, .. } ==> r
                    == (HistoryMatchView::Failed {
                    error: error@,
                    attempt: 1,
                    error_type: "Error"@,
                    details: None,
                    non_retryable: false,
                })
                &&& s.events[t] matches WorkflowEvent::ActivityTimedOut { timeout_type, .. }
                    ==> r == (HistoryMatchView::TimedOut { timeout_type })
                &&& after.consumed(t) || t < after.cursor
            } else {
                r == (HistoryMatchView::AwaitingExternalCompletion { activity_id: id, token })
            }
            &&& forall|j: int|
                p.cursor < j < t && p.open_at(j) && issues_command(#[trigger] s.events[j])
                    ==> !after.consumed(j) && after.cursor <= j
            &&& (forall|j: int|
                p.cursor < j < t && p.open_at(j) ==> !issues_command(#[trigger] s.events[j])) ==> (
            if ended {
                t < after.cursor
            } else {
                after.cursor == p.cursor + 1
            })
        },
{
    let p = s.prepared();
    lemma_prepared(s);
    let q = p.at(p.cursor + 1);
    lemma_at(p, p.cursor + 1);
    let scan = ScanView::ExternalActivity(id);
    assert forall|j: int| q.cursor <= j < t implies !(#[trigger] q.step_at(scan, j) is Hit) && !(
    q.step_at(scan, j) is Halt) && (q.step_at(scan, j) is Command) == (p.open_at(j)
        && issues_command(s.events[j])) by {
        assert(p.open_at(j) ==> beside_external_activity(s.events[j], id));
    }
    lemma_search_ends(q, scan, q.cursor, q.len(), t);
    lemma_search_returns(q, scan);
    match s.events[p.cursor] {
        WorkflowEvent::ActivityAwaitingExternal { name, .. } => {
            let after = s.external_activity(name@).0;
            assert forall|j: int|
                p.cursor < j < t && p.open_at(j) && issues_command(
                    #[trigger] s.events[j],
                ) implies !after.consumed(j) && after.cursor <= j by {
                assert(q.step_at(scan, j) is Command);
            }
        },
        _ => {},
    }
}

} // verus!
