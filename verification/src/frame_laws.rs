//! What commands leave as it was decided.
use crate::event::WorkflowEvent;
use crate::json::JsonView;
use crate::moves::{
    lemma_drained, lemma_moved_to, lemma_prepared, lemma_side_fields, lemma_stashed_frame,
};
use crate::place_laws::law_next_command_is_the_first_to_be_claimed;
use crate::replay::Replay;
use crate::scan::ScanView;
use crate::types::{ExecutionId, ExternalTarget, ParentClosePolicy, SideEffectKind};
use vstd::prelude::*;

verus! {

impl Replay {
    /// Whether nothing that was decided apart from the place in history is
    /// different later: which signals lost a race or are reserved for one, which
    /// patches are deprecated, which gates were passed as new, what is hidden,
    /// and where the run failed.
    pub open spec fn decides_no_more_than(self, later: Replay) -> bool {
        &&& later.events == self.events
        &&& later.transparent == self.transparent
        &&& later.late == self.late
        &&& later.reserved == self.reserved
        &&& later.deprecated == self.deprecated
        &&& later.latched == self.latched
        &&& later.failure_tail == self.failure_tail
    }
}

/// A search decides nothing.
proof fn lemma_search_decides_nothing(q: Replay, scan: ScanView, from: int, to: int)
    ensures
        q.decides_no_more_than(q.stashed(scan, from, to)),
        q.stashed(scan, from, to).scan_stopped == q.scan_stopped,
{
    lemma_stashed_frame(q, scan, from, to);
}

/// Activities of whatever sort decide nothing but their own outcome.
pub proof fn law_activities_decide_nothing_else(
    s: Replay,
    name: Seq<char>,
    input: Option<JsonView>,
    compared: JsonView,
)
    requires
        s.wf(),
    ensures
        s.decides_no_more_than(s.activity(name, input).0),
        s.decides_no_more_than(s.local_activity(name, input).0),
        s.decides_no_more_than(s.local_activity_strict(name, compared).0),
        s.decides_no_more_than(s.external_activity(name).0),
        s.activity(name, input).0.scan_stopped == s.scan_stopped,
        s.local_activity(name, input).0.scan_stopped == s.scan_stopped,
        s.external_activity(name).0.scan_stopped == s.scan_stopped,
{
    law_next_command_is_the_first_to_be_claimed(s);
    let p = s.prepared();
    let q = p.at(p.cursor + 1);
    match p.events[p.cursor] {
        WorkflowEvent::ActivityScheduled { activity_id, .. } => {
            let scan = ScanView::Activity(activity_id);
            lemma_search_decides_nothing(q, scan, q.cursor, q.scan_stop(scan, q.cursor, q.len()));
        },
        WorkflowEvent::LocalActivityScheduled { activity_id, .. } => {
            let scan = ScanView::LocalActivity(activity_id);
            lemma_search_decides_nothing(q, scan, q.cursor, q.scan_stop(scan, q.cursor, q.len()));
        },
        WorkflowEvent::ActivityAwaitingExternal { activity_id, .. } => {
            let scan = ScanView::ExternalActivity(activity_id);
            lemma_search_decides_nothing(q, scan, q.cursor, q.scan_stop(scan, q.cursor, q.len()));
        },
        _ => {},
    }
}

/// Timers and locks decide nothing but their own outcome. Only waiting for or
/// observing a timer that may be cancelled notes whether a command stopped it.
pub proof fn law_timers_decide_nothing_else(
    s: Replay,
    timer: Seq<char>,
    duration: Option<u64>,
    secs: u64,
    key: Seq<char>,
)
    requires
        s.wf(),
    ensures
        s.decides_no_more_than(s.timer(timer, duration).0),
        s.decides_no_more_than(s.timer_arm(timer, secs).0),
        s.decides_no_more_than(s.timer_cancel(timer).0),
        s.decides_no_more_than(s.timer_or_cancel(timer).0),
        s.decides_no_more_than(s.mutex_granted(key).0),
        s.timer(timer, duration).0.scan_stopped == s.scan_stopped,
        s.timer_arm(timer, secs).0.scan_stopped == s.scan_stopped,
        s.mutex_granted(key).0.scan_stopped == s.scan_stopped,
{
    law_next_command_is_the_first_to_be_claimed(s);
    let p = s.prepared();
    let q = p.at(p.cursor + 1);
    let scan = ScanView::Timer(timer);
    lemma_search_decides_nothing(q, scan, q.cursor, q.scan_stop(scan, q.cursor, q.len()));
    let z = Replay { scan_stopped: false, ..s };
    lemma_side_fields(s, z);
    law_next_command_is_the_first_to_be_claimed(z);
    let c = z.prepared();
    let cancel = ScanView::TimerCancel(timer);
    let outcome = ScanView::TimerOutcome(timer);
    lemma_search_decides_nothing(c, cancel, c.cursor, c.scan_stop(cancel, c.cursor, c.len()));
    lemma_search_decides_nothing(c, outcome, c.cursor, c.scan_stop(outcome, c.cursor, c.len()));
}

/// Children decide nothing but their own outcome.
pub proof fn law_children_decide_nothing_else(
    s: Replay,
    name: Seq<char>,
    input: JsonView,
    timer: Seq<char>,
    duration: Option<u64>,
    policy: ParentClosePolicy,
    new_type: Option<Seq<char>>,
)
    requires
        s.wf(),
    ensures
        s.decides_no_more_than(s.child_workflow(name, input).0),
        s.decides_no_more_than(s.child_or_timer(name, input, timer, duration).0),
        s.decides_no_more_than(s.detached_child(name, input, policy).0),
        s.decides_no_more_than(s.continue_as_new(input, new_type).0),
        s.child_workflow(name, input).0.scan_stopped == s.scan_stopped,
        s.child_or_timer(name, input, timer, duration).0.scan_stopped == s.scan_stopped,
        s.detached_child(name, input, policy).0.scan_stopped == s.scan_stopped,
        s.continue_as_new(input, new_type).0.scan_stopped == s.scan_stopped,
{
    law_next_command_is_the_first_to_be_claimed(s);
    let p = s.prepared();
    match p.events[p.cursor] {
        WorkflowEvent::ChildWorkflowStarted { child_id, .. } => {
            let scan = ScanView::ChildOrTimer { child: child_id, timer };
            let from = p.cursor + 2;
            lemma_search_decides_nothing(p, scan, from, p.scan_stop(scan, from, p.len()));
        },
        _ => {},
    }
}

/// Requests to other workflows decide nothing but their own outcome.
pub proof fn law_requests_decide_nothing_else(
    s: Replay,
    target: ExternalTarget,
    name: Seq<char>,
    awaited: ExecutionId,
)
    requires
        s.wf(),
    ensures
        s.decides_no_more_than(s.external_signal(target, name).0),
        s.decides_no_more_than(s.external_cancel(target).0),
        s.decides_no_more_than(s.external_await(awaited).0),
        s.external_signal(target, name).0.scan_stopped == s.scan_stopped,
        s.external_cancel(target).0.scan_stopped == s.scan_stopped,
        s.external_await(awaited).0.scan_stopped == s.scan_stopped,
{
    law_next_command_is_the_first_to_be_claimed(s);
    lemma_prepared(s);
}

/// Side effects and markers decide nothing but their own outcome.
pub proof fn law_markers_decide_nothing_else(
    s: Replay,
    kind: SideEffectKind,
    label: Option<Seq<char>>,
    name: Seq<char>,
    number: u64,
    seq: u32,
    count: usize,
    task: Seq<char>,
    upstreams: Seq<usize>,
)
    requires
        s.wf(),
    ensures
        s.decides_no_more_than(s.side_effect(kind, label).0),
        s.decides_no_more_than(s.side_effect_now().0),
        s.decides_no_more_than(s.fan_out_marker(seq, count).0),
        s.decides_no_more_than(s.u64_marker(name, number).0),
        s.decides_no_more_than(s.session_marker(seq).0),
        s.decides_no_more_than(s.named_marker(name, task, upstreams).0),
        s.decides_no_more_than(s.peeked_marker(name).0),
        s.decides_no_more_than(s.saga_marker(name).0),
{
    law_next_command_is_the_first_to_be_claimed(s);
    let p = s.prepared();
    let scan = ScanView::Marker(name);
    lemma_search_decides_nothing(p, scan, p.cursor, p.scan_stop(scan, p.cursor, p.len()));
    let a = s.advanced();
    lemma_moved_to(s, s.cursor);
    lemma_drained(a);
    lemma_search_decides_nothing(
        a,
        ScanView::Drain,
        a.cursor,
        a.scan_stop(ScanView::Drain, a.cursor, a.len()),
    );
}

/// A version or patch gate adds at most its own id to those that were passed
/// as new, and a deprecation decides at most its own patch; neither decides
/// anything else.
pub proof fn law_gates_decide_only_their_own(s: Replay, id: Seq<char>, min: u32, max: u32)
    requires
        s.wf(),
    ensures
        ({
            let v = s.version(id, min, max).0;
            let p = s.patch(id).0;
            let d = s.patch_deprecated(id).0;
            &&& s.decides_no_more_than(Replay { latched: s.latched, ..v })
            &&& s.decides_no_more_than(Replay { latched: s.latched, ..p })
            &&& s.decides_no_more_than(Replay { deprecated: s.deprecated, ..d })
            &&& forall|other: Seq<char>|
                other != id ==> #[trigger] v.latched.contains(other) == s.latched.contains(other)
            &&& forall|other: Seq<char>|
                other != id ==> #[trigger] p.latched.contains(other) == s.latched.contains(other)
            &&& forall|other: Seq<char>|
                other != id ==> #[trigger] d.deprecated.contains_key(other)
                    == s.deprecated.contains_key(other)
            &&& forall|other: Seq<char>|
                other != id && #[trigger] s.deprecated.contains_key(other)
                    ==> d.deprecated[other] == s.deprecated[other]
        }),
{
    let a = s.advanced();
    lemma_moved_to(s, s.cursor);
    lemma_drained(a);
    lemma_search_decides_nothing(
        a,
        ScanView::Drain,
        a.cursor,
        a.scan_stop(ScanView::Drain, a.cursor, a.len()),
    );
}

} // verus!
