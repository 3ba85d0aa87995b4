//! What timers and locks give back, told by what is recorded of them.
use crate::activity_laws::{lemma_search_ends, lemma_search_returns};
use crate::event::WorkflowEvent;
use crate::json::JsonView;
use crate::moves::{
    lemma_at, lemma_next_open, lemma_prepared, lemma_scan_stop, lemma_side_fields,
    lemma_stashed_frame, lemma_step_classes,
};
use crate::outcome::{HistoryMatchView, MutexGrantView, TimerFireMatch};
use crate::record_laws::{lemma_passes_one, passes_one, points_at};
use crate::replay::Replay;
use crate::scan::ScanView;
use crate::search::lemma_first_index_is;
use crate::text::decimal;
use crate::timer::precedes_timer;
use crate::vocabulary::{
    belongs_to_update, issues_command, reports_progress, runs_beside, waits_for_claim,
};
use vstd::prelude::*;

verus! {

/// Whether the timer was armed.
pub open spec fn arms(e: WorkflowEvent, timer: Seq<char>) -> bool {
    e matches WorkflowEvent::TimerStarted { timer_id, .. } && timer_id.0@ == timer
}

/// Whether the timer fired.
pub open spec fn fires(e: WorkflowEvent, timer: Seq<char>) -> bool {
    e matches WorkflowEvent::TimerFired { timer_id } && timer_id.0@ == timer
}

/// Whether the timer was cancelled.
pub open spec fn cancels(e: WorkflowEvent, timer: Seq<char>) -> bool {
    e matches WorkflowEvent::TimerCancelled { timer_id } && timer_id.0@ == timer
}

// ── Timers that are waited for ──────────────────────────────────────────────
/// A timer that was armed has fired exactly where its own fire is recorded, with
/// nothing but commands that ran next to it in between; the duration that was
/// recorded with it makes no difference. The fire is then settled; the commands
/// that were crossed, and what else is recorded of them, are still to be claimed,
/// and the cursor returns in front of the first of them.
///
/// `t` is the first event behind the arming, still to be claimed, that is the
/// timer's fire or was not recorded next to it. Where it is no fire of the timer,
/// or where there is none, the timer has not fired, and the cursor stays behind
/// the arming.
pub proof fn law_timer_gets_its_own_fire(s: Replay, timer: Seq<char>, t: int)
    requires
        s.wf(),
        s.prepared().cursor < t <= s.len(),
        arms(s.events[s.prepared().cursor], timer),
        t < s.len() ==> s.prepared().open_at(t) && (fires(s.events[t], timer) || !runs_beside(
            s.events[t],
        )),
        forall|j: int|
            s.prepared().cursor < j < t && s.prepared().open_at(j) ==> runs_beside(
                #[trigger] s.events[j],
            ) && !fires(s.events[j], timer),
    ensures
        s.events[s.prepared().cursor] matches WorkflowEvent::TimerStarted { duration_secs, .. } && {
            let p = s.prepared();
            let (after, r) = s.timer(timer, None);
            let fired = t < s.len() && fires(s.events[t], timer);
            &&& s.timer(timer, Some(duration_secs)) == (after, r)
            &&& fired ==> r == (HistoryMatchView::Matched { output: JsonView::Null })
            &&& fired ==> after.consumed(t) || t < after.cursor
            &&& !fired ==> r is NoMatch && after.cursor == p.cursor + 1
            &&& forall|j: int|
                p.cursor < j < t && p.open_at(j) && issues_command(#[trigger] s.events[j])
                    ==> !after.consumed(j) && after.cursor <= j
            &&& fired && (forall|j: int|
                p.cursor < j < t && p.open_at(j) ==> !issues_command(#[trigger] s.events[j]))
                ==> t < after.cursor
            &&& forall|j: int|
                p.open_at(j) && j != t && reports_progress(#[trigger] s.events[j])
                    ==> !after.consumed(j)
        },
{
    let p = s.prepared();
    lemma_prepared(s);
    let q = p.at(p.cursor + 1);
    lemma_at(p, p.cursor + 1);
    let scan = ScanView::Timer(timer);
    assert forall|j: int| q.cursor <= j < t implies !(#[trigger] q.step_at(scan, j) is Hit) && !(
    q.step_at(scan, j) is Halt) && (q.step_at(scan, j) is Command) == (p.open_at(j)
        && issues_command(s.events[j])) by {
        assert(p.open_at(j) ==> runs_beside(s.events[j]) && !fires(s.events[j], timer));
    }
    lemma_search_ends(q, scan, q.cursor, q.len(), t);
    lemma_search_returns(q, scan);
    lemma_scan_stop(q, scan, q.cursor, q.len());
    lemma_stashed_frame(q, scan, q.cursor, t);
    let w = q.scanned(scan, q.cursor, q.len());
    let after = s.timer(timer, None).0;
    assert forall|j: int|
        p.cursor < j < t && p.open_at(j) && issues_command(
            #[trigger] s.events[j],
        ) implies !after.consumed(j) && after.cursor <= j by {
        assert(q.step_at(scan, j) is Command);
        assert(w.consumed(j) == q.consumed(j));
    }
    assert forall|j: int|
        p.open_at(j) && j != t && reports_progress(#[trigger] s.events[j]) implies !after.consumed(
        j,
    ) by {
        lemma_step_classes(scan, s.events[j]);
        assert(w.consumed(j) == q.consumed(j));
    }
}

/// Waiting for or arming a timer diverges exactly where another event, another
/// timer or, where it is compared, another duration is recorded; it points at that
/// event, shows both sides, and claims nothing. An arming that was recorded as
/// requested is claimed, and nothing else.
pub proof fn law_timer_is_held_against_its_own_arming(
    s: Replay,
    timer: Seq<char>,
    duration: Option<u64>,
    secs: u64,
)
    requires
        s.wf(),
        s.prepared().cursor < s.len(),
    ensures
        ({
            let p = s.prepared();
            let e = s.events[p.cursor];
            let (waited, w) = s.timer(timer, duration);
            let (armed, a) = s.timer_arm(timer, secs);
            let same = |d: u64|
                e matches WorkflowEvent::TimerStarted { timer_id, duration_secs } && timer_id.0@
                    == timer && duration_secs == d;
            &&& w is Diverged <==> !(arms(e, timer) && (duration matches Some(d) ==> same(d)))
            &&& w is Diverged ==> points_at(w, p.cursor) && waited == p
            &&& if same(secs) {
                a == (HistoryMatchView::Matched { output: JsonView::Null }) && passes_one(p, armed)
            } else {
                points_at(a, p.cursor) && armed == p
            }
            &&& (e matches WorkflowEvent::TimerStarted { timer_id, .. } && timer_id.0@ != timer)
                ==> (e matches WorkflowEvent::TimerStarted { timer_id, .. } && w
                matches HistoryMatchView::Diverged { expected, actual, .. } && expected
                == "TimerStarted"@ + "("@ + timer + ")"@ && actual == "TimerStarted"@ + "("@
                + timer_id.0@ + ")"@)
            &&& (e matches WorkflowEvent::TimerStarted { timer_id, duration_secs } && timer_id.0@
                == timer && duration_secs != secs) ==> (e matches WorkflowEvent::TimerStarted {
                duration_secs,
                ..
            } && a matches HistoryMatchView::Diverged { expected, actual, .. } && expected
                == "TimerStarted"@ + "("@ + (timer + ", duration="@ + decimal(secs as nat) + "s"@)
                + ")"@ && actual == "TimerStarted"@ + "("@ + (timer + ", duration="@ + decimal(
                duration_secs as nat,
            ) + "s"@) + ")"@)
        }),
{
    lemma_prepared(s);
    lemma_passes_one(s.prepared());
}

// ── Cancellable timers ──────────────────────────────────────────────────────
/// What may stand between the place of a command and the outcome of a cancellable
/// timer: records that are done at once, other timers, updates, and what waits for
/// a command of its own.
pub open spec fn beside_cancellable_timer(e: WorkflowEvent, timer: Seq<char>) -> bool {
    &&& !arms(e, timer) && !fires(e, timer) && !cancels(e, timer)
    &&& match e {
        WorkflowEvent::MarkerRecorded { .. } => true,
        WorkflowEvent::SideEffectRecorded { .. } => true,
        WorkflowEvent::ChildWorkflowSpawnedDetached { .. } => true,
        WorkflowEvent::TimerStarted { .. } => true,
        WorkflowEvent::TimerCancelled { .. } => true,
        WorkflowEvent::TimerFired { .. } => true,
        _ => belongs_to_update(e) || waits_for_claim(e),
    }
}

/// What a search for a cancellable timer leaves: the event that was found claimed,
/// every other one but what waits for its own command in place.
proof fn lemma_timer_search_leaves(p: Replay, scan: ScanView, t: int)
    requires
        p.wf(),
        p.replaying(),
        scan is TimerCancel || scan is TimerOutcome,
        t == p.scan_stop(scan, p.cursor, p.len()),
    ensures
        ({
            let after = p.timer_scanned(scan);
            &&& p.scan_hits(scan, p.cursor, p.len()) ==> after.consumed(t)
            &&& !p.scan_hits(scan, p.cursor, p.len()) ==> after.scan_stopped == (t < p.len())
                && after.cursor == p.cursor
            &&& forall|j: int|
                p.cursor <= j && j != t && #[trigger] p.open_at(j) && !waits_for_claim(p.events[j])
                    ==> !after.consumed(j) && after.cursor <= j
        }),
{
    let after = p.timer_scanned(scan);
    lemma_scan_stop(p, scan, p.cursor, p.len());
    lemma_stashed_frame(p, scan, p.cursor, t);
    let w = p.scanned(scan, p.cursor, p.len());
    let c = w.claimed(t);
    lemma_next_open(c, c.cursor);
    assert forall|j: int|
        p.cursor <= j && j != t && #[trigger] p.open_at(j) && !waits_for_claim(
            p.events[j],
        ) implies !after.consumed(j) && after.cursor <= j by {
        lemma_step_classes(scan, p.events[j]);
        assert(w.consumed(j) == p.consumed(j));
        assert(!c.consumed(j));
        assert(c.cursor <= j);
        if after.cursor > j && p.scan_hits(scan, p.cursor, p.len()) {
            assert(c.consumed(j));
        }
    }
}

/// The outcome of a cancellable timer is whichever of its own fire and its own
/// cancel stands first, and that one is claimed; a cancel that is looked for is
/// found only in front of any arming or fire of the timer. Nothing else is taken
/// but what waits for its own command.
///
/// `t` is the first event, still to be claimed, that is of the timer itself or must
/// not be crossed. Where it is not what is looked for, or where there is none,
/// nothing is found, and it is told whether such an event stands in the way.
pub proof fn law_cancellable_timer_gets_its_own_outcome(s: Replay, timer: Seq<char>, t: int)
    requires
        s.wf(),
        ({
            let p = (Replay { scan_stopped: false, ..s }).prepared();
            &&& p.cursor <= t <= s.len()
            &&& t < s.len() ==> p.open_at(t) && !beside_cancellable_timer(s.events[t], timer)
            &&& forall|j: int|
                p.cursor <= j < t && p.open_at(j) ==> beside_cancellable_timer(
                    #[trigger] s.events[j],
                    timer,
                )
        }),
    ensures
        ({
            let p = (Replay { scan_stopped: false, ..s }).prepared();
            let (observed, o) = s.timer_or_cancel(timer);
            let (cancelled, c) = s.timer_cancel(timer);
            &&& o == if t < s.len() && fires(s.events[t], timer) {
                TimerFireMatch::Fired
            } else if t < s.len() && cancels(s.events[t], timer) {
                TimerFireMatch::Cancelled
            } else {
                TimerFireMatch::NoMatch
            }
            &&& c == if t < s.len() && cancels(s.events[t], timer) {
                HistoryMatchView::Matched { output: JsonView::Null }
            } else {
                HistoryMatchView::NoMatch
            }
            &&& !(o is NoMatch) ==> observed.consumed(t)
            &&& c is Matched ==> cancelled.consumed(t)
            &&& o is NoMatch ==> observed.scan_stopped == (t < s.len())
            &&& c is NoMatch ==> cancelled.scan_stopped == (t < s.len())
            &&& forall|j: int|
                p.cursor <= j && j != t && #[trigger] p.open_at(j) && !waits_for_claim(s.events[j])
                    && !belongs_to_update(s.events[j]) ==> {
                    &&& !observed.consumed(j) && observed.cursor <= j
                    &&& !cancelled.consumed(j) && cancelled.cursor <= j
                }
        }),
{
    let z = Replay { scan_stopped: false, ..s };
    lemma_side_fields(s, z);
    lemma_prepared(z);
    let p = z.prepared();
    let both = ScanView::TimerOutcome(timer);
    let one = ScanView::TimerCancel(timer);
    assert forall|j: int| p.cursor <= j < t implies {
        &&& !(#[trigger] p.step_at(both, j) is Hit) && !(p.step_at(both, j) is Halt)
    } by {
        assert(p.open_at(j) ==> beside_cancellable_timer(s.events[j], timer));
    }
    assert forall|j: int| p.cursor <= j < t implies {
        &&& !(#[trigger] p.step_at(one, j) is Hit) && !(p.step_at(one, j) is Halt)
    } by {
        assert(p.open_at(j) ==> beside_cancellable_timer(s.events[j], timer));
    }
    lemma_search_ends(p, both, p.cursor, p.len(), t);
    lemma_search_ends(p, one, p.cursor, p.len(), t);
    if p.replaying() {
        lemma_timer_search_leaves(p, both, t);
        lemma_timer_search_leaves(p, one, t);
    }
}

// ── Looking for an arming ───────────────────────────────────────────────────
/// The arming of a timer is next exactly where it is the first event ahead, still
/// to be claimed, that is no spawn of a detached child, no cancel of a timer, no
/// update and nothing that waits for its own command.
pub proof fn law_next_arming_is_the_first_in_line(s: Replay, timer: Seq<char>, t: int)
    requires
        s.wf(),
        s.cursor <= t <= s.len(),
        t < s.len() ==> s.open_at(t) && !(s.events[t] is ChildWorkflowSpawnedDetached) && !(
        s.events[t] is TimerCancelled) && !belongs_to_update(s.events[t]) && !waits_for_claim(
            s.events[t],
        ),
        forall|j: int|
            s.cursor <= j < t && s.open_at(j) ==> (#[trigger] s.events[j]
                is ChildWorkflowSpawnedDetached || s.events[j] is TimerCancelled
                || belongs_to_update(s.events[j]) || waits_for_claim(s.events[j])),
    ensures
        s.timer_started_next(timer) == (t < s.len() && arms(s.events[t], timer)),
{
    let p = |i: int| !s.consumed(i) && !precedes_timer(s.events[i]);
    assert forall|j: int| s.cursor <= j < t implies !#[trigger] p(j) by {
        assert(s.open_at(j) ==> (s.events[j] is ChildWorkflowSpawnedDetached
            || s.events[j] is TimerCancelled || belongs_to_update(s.events[j]) || waits_for_claim(
            s.events[j],
        )));
    }
    lemma_first_index_is(p, s.cursor, s.len(), t);
}

// ── Locks ───────────────────────────────────────────────────────────────────
/// A lock is granted only where the grant of that very key is recorded: it gives
/// back the recorded fencing token and instant, and claims the grant. Held against
/// anything else it diverges there, and nothing is claimed.
pub proof fn law_lock_gets_its_own_grant(s: Replay, key: Seq<char>)
    requires
        s.wf(),
        s.prepared().cursor < s.len(),
    ensures
        ({
            let p = s.prepared();
            let (after, r) = s.mutex_granted(key);
            match s.events[p.cursor] {
                WorkflowEvent::MutexGranted { key: recorded, lock_seq, acquired_at } => if recorded@
                    == key {
                    r == (MutexGrantView::Granted { lock_seq, acquired_at }) && passes_one(p, after)
                } else {
                    &&& after == p
                    &&& r matches MutexGrantView::Diverged { expected, actual, event_index } && {
                        &&& expected == "MutexGranted"@ + "("@ + key + ")"@
                        &&& actual == "MutexGranted"@ + "("@ + recorded@ + ")"@
                        &&& p.cursor <= i32::MAX ==> event_index == Some(p.cursor as i32)
                    }
                },
                _ => {
                    &&& after == p
                    &&& r matches MutexGrantView::Diverged { event_index, .. } && (p.cursor
                        <= i32::MAX ==> event_index == Some(p.cursor as i32))
                },
            }
        }),
{
    lemma_prepared(s);
    lemma_passes_one(s.prepared());
}

} // verus!
