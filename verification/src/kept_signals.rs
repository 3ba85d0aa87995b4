//! Signals are never lost: whatever a command crosses or claims, a signal that
//! could be delivered before can be delivered after.
use crate::child::{child_mismatch, started_child};
use crate::event::WorkflowEvent;
use crate::json::JsonView;
use crate::moves::{
    lemma_at, lemma_claimed, lemma_delivered, lemma_dequeued, lemma_drained,
    lemma_evolves_transitive, lemma_moved_to, lemma_next_open, lemma_prepared, lemma_resolved,
    lemma_scan_stop, lemma_scanned, lemma_side_fields, lemma_stashed, lemma_stashed_frame,
};
use crate::replay::Replay;
use crate::scan::{child_outcome, signal_named, timer_fired, ScanView};
use crate::search::lemma_first_index;
use crate::signal_laws::{
    law_preparation_delivers_nothing, lemma_at_hands_over_nothing, lemma_race_end,
    lemma_stashed_hands_over_nothing,
};
use crate::signal_race::{lemma_pending_prefix, lemma_race_signal_won, lemma_race_timer_won};
use crate::timer::timer_mismatch;
use crate::types::{ExecutionId, ExternalTarget, ParentClosePolicy, SideEffectKind};
use vstd::prelude::*;

verus! {

impl Replay {
    /// Whether every signal that can be delivered can also be delivered in
    /// `later`.
    pub open spec fn keeps_signals(self, later: Replay) -> bool {
        forall|name: Seq<char>, i: int| #[trigger]
            self.deliverable(name, i) ==> later.deliverable(name, i)
    }

    /// Whether a state differs from this one, in what concerns signals, only in
    /// that further events were claimed ahead of the cursor, none of them a
    /// signal.
    pub open spec fn claims_no_signal(self, later: Replay) -> bool {
        &&& later.events == self.events
        &&& later.cursor == self.cursor
        &&& later.pending_signals == self.pending_signals
        &&& later.signals_consumed == self.signals_consumed
        &&& later.transparent == self.transparent
        &&& forall|i: int| #[trigger]
            later.out_of_order.contains(i) ==> self.out_of_order.contains(i) || !(
            self.events[i] is SignalReceived)
        &&& self.out_of_order.subset_of(later.out_of_order)
    }
}

/// A state that delivered nothing and left no signal behind its cursor keeps the
/// signals.
proof fn lemma_kept(s: Replay, t: Replay)
    requires
        s.wf(),
        s.evolves_to(t),
        s.hands_over_nothing(t),
        forall|i: int| s.cursor <= i < t.cursor && #[trigger] s.open_signal(i) ==> t.consumed(i),
    ensures
        s.keeps_signals(t),
{
    assert forall|name: Seq<char>, i: int| #[trigger] s.deliverable(name, i) implies t.deliverable(
        name,
        i,
    ) by {
        assert(s.undelivered(i));
        assert(t.undelivered(i));
        if !t.consumed(i) {
            assert(!s.consumed(i));
            if s.is_pending(i) {
                let k = choose|k: int|
                    0 <= k < s.pending_signals.len() && #[trigger] s.pending_signals[k].index == i;
                assert(s.pending_entry_wf(s.pending_signals[k]));
            }
            assert(s.open_signal(i));
        }
    }
}

/// Preparing for a command loses no signal.
pub proof fn law_preparation_keeps_signals(s: Replay)
    requires
        s.wf(),
    ensures
        s.keeps_signals(s.prepared()),
        s.keeps_signals(s.advanced()),
        s.keeps_signals(s.advanced().drained()),
{
    let a = s.advanced();
    lemma_moved_to(s, s.cursor);
    lemma_next_open(s, s.cursor);
    lemma_at_hands_over_nothing(s, a.cursor);
    lemma_kept(s, a);
    let stop = a.scan_stop(ScanView::Drain, a.cursor, a.len());
    let w = a.stashed(ScanView::Drain, a.cursor, stop);
    lemma_scan_stop(a, ScanView::Drain, a.cursor, a.len());
    lemma_stashed(a, ScanView::Drain, a.cursor, stop);
    lemma_stashed_hands_over_nothing(a, ScanView::Drain, a.cursor, stop);
    lemma_drained(a);
    let d = a.drained();
    lemma_at_hands_over_nothing(w, stop);
    assert forall|j: int| #[trigger] d.undelivered(j) == a.undelivered(j) by {
        assert(w.undelivered(j) == a.undelivered(j));
    }
    assert forall|i: int| a.cursor <= i < d.cursor && #[trigger] a.open_signal(
        i,
    ) implies d.consumed(i) by {
        assert(!w.open_signal(i));
    }
    lemma_kept(a, d);
    let p = s.prepared();
    lemma_resolved(d, d.cursor, d.len());
    lemma_prepared(s);
    law_preparation_delivers_nothing(s);
    assert forall|i: int| s.cursor <= i < p.cursor && #[trigger] s.open_signal(
        i,
    ) implies p.consumed(i) by {
        if i < a.cursor {
            assert(s.consumed(i));
        } else {
            assert(a.open_signal(i));
            assert(d.consumed(i));
        }
    }
    lemma_kept(s, p);
}

/// Stepping over an event that is no signal loses none.
proof fn lemma_step_kept(s: Replay)
    requires
        s.wf(),
        s.cursor < s.len(),
        !(s.events[s.cursor] is SignalReceived),
    ensures
        s.keeps_signals(s.at(s.cursor + 1)),
        s.keeps_signals(s.moved_to(s.cursor + 1)),
{
    let t = s.at(s.cursor + 1);
    lemma_at(s, s.cursor + 1);
    lemma_at_hands_over_nothing(s, s.cursor + 1);
    lemma_kept(s, t);
    let m = s.moved_to(s.cursor + 1);
    lemma_moved_to(s, s.cursor + 1);
    lemma_next_open(s, s.cursor + 1);
    lemma_at_hands_over_nothing(s, m.cursor);
    lemma_kept(s, m);
}

/// After a scan, claims of events that are no signals lose none, nor does moving
/// the cursor up to where the scan ended, or past an event there that is no
/// signal.
proof fn lemma_scan_kept(q: Replay, scan: ScanView, from: int, x: Replay, c: int)
    requires
        q.wf(),
        !(scan is SagaMarker),
        q.cursor <= from <= q.len(),
        forall|i: int| q.cursor <= i < from ==> !#[trigger] q.open_signal(i),
        q.scanned(scan, from, q.len()).claims_no_signal(x),
        q.cursor <= c <= q.len(),
        c <= q.scan_stop(scan, from, q.len()) || (c == q.scan_stop(scan, from, q.len()) + 1 && !(
        q.events[c - 1] is SignalReceived)),
    ensures
        q.keeps_signals(x),
        q.keeps_signals(x.moved_to(c)),
{
    let stop = q.scan_stop(scan, from, q.len());
    let w = q.scanned(scan, from, q.len());
    lemma_scan_stop(q, scan, from, q.len());
    lemma_stashed(q, scan, from, stop);
    lemma_stashed_frame(q, scan, from, stop);
    lemma_stashed_hands_over_nothing(q, scan, from, stop);
    lemma_kept(q, w);
    let t = x.moved_to(c);
    lemma_next_open(x, c);
    assert forall|name: Seq<char>, i: int| #[trigger] q.deliverable(
        name,
        i,
    ) implies x.deliverable(name, i) && t.deliverable(name, i) by {
        assert(w.deliverable(name, i));
        assert(x.is_pending(i) == w.is_pending(i));
        assert(t.is_pending(i) == x.is_pending(i));
        if !w.is_pending(i) {
            assert(!w.open_signal(i) || i >= stop);
            assert(!x.consumed(i));
            assert(t.consumed(i) == x.consumed(i));
            if i < t.cursor {
                if i >= c {
                    assert(x.consumed(i));
                }
            }
        }
    }
}

/// After a scan of everything ahead of the cursor that looks for an event that is
/// no signal, settling what was found, or returning to a crossed command, loses
/// no signal.
proof fn lemma_search_kept(q: Replay, scan: ScanView)
    requires
        q.wf(),
        !(scan is SagaMarker),
        !(scan is Signal),
        !(scan is SignalOrTimer),
    ensures
        ({
            let stop = q.scan_stop(scan, q.cursor, q.len());
            let command = q.scan_command(scan, q.cursor, q.len());
            let w = q.scanned(scan, q.cursor, q.len());
            &&& q.keeps_signals(w)
            &&& q.keeps_signals(w.rewound(command))
            &&& q.keeps_signals(w.moved_to(stop))
            &&& q.scan_hits(scan, q.cursor, q.len()) ==> {
                &&& q.keeps_signals(w.settled(stop, command))
                &&& q.keeps_signals(w.settled_outcome(stop, command))
                &&& q.keeps_signals(w.claimed(stop).advanced())
            }
        }),
{
    let stop = q.scan_stop(scan, q.cursor, q.len());
    let command = q.scan_command(scan, q.cursor, q.len());
    let w = q.scanned(scan, q.cursor, q.len());
    lemma_scan_stop(q, scan, q.cursor, q.len());
    lemma_scanned(q, scan, q.cursor, q.len());
    lemma_scan_kept(q, scan, q.cursor, w, stop);
    let c = match command {
        Some(c) => c,
        None => q.cursor,
    };
    lemma_scan_kept(q, scan, q.cursor, w, c);
    if q.scan_hits(scan, q.cursor, q.len()) {
        assert(!(q.events[stop] is SignalReceived));
        let one = w.claimed(stop);
        lemma_scan_kept(q, scan, q.cursor, one, c);
        lemma_scan_kept(q, scan, q.cursor, one, q.cursor);
        lemma_scan_kept(q, scan, q.cursor, w, stop + 1);
        let all = Replay {
            out_of_order: w.out_of_order.insert(stop).union(w.progress_before(c, stop)),
            ..w
        };
        lemma_scan_kept(q, scan, q.cursor, all, c);
    }
}

/// Matching an activity of whatever sort loses no signal.
pub proof fn law_activities_keep_signals(s: Replay, name: Seq<char>, input: Option<JsonView>)
    requires
        s.wf(),
    ensures
        s.keeps_signals(s.activity(name, input).0),
        s.keeps_signals(s.local_activity(name, input).0),
        s.keeps_signals(s.external_activity(name).0),
{
    let p = s.prepared();
    law_preparation_keeps_signals(s);
    lemma_prepared(s);
    if p.replaying() {
        lemma_step_kept(p);
        let q = p.at(p.cursor + 1);
        lemma_at(p, p.cursor + 1);
        match p.events[p.cursor] {
            WorkflowEvent::ActivityScheduled { activity_id, .. } => {
                lemma_search_kept(q, ScanView::Activity(activity_id));
            },
            WorkflowEvent::LocalActivityScheduled { activity_id, .. } => {
                lemma_search_kept(q, ScanView::LocalActivity(activity_id));
            },
            WorkflowEvent::ActivityAwaitingExternal { activity_id, .. } => {
                lemma_search_kept(q, ScanView::ExternalActivity(activity_id));
            },
            _ => {},
        }
    }
}

/// Waiting for, arming, cancelling and observing timers, and taking a lock, lose
/// no signal.
pub proof fn law_timers_keep_signals(
    s: Replay,
    timer: Seq<char>,
    duration: Option<u64>,
    secs: u64,
    key: Seq<char>,
)
    requires
        s.wf(),
    ensures
        s.keeps_signals(s.timer(timer, duration).0),
        s.keeps_signals(s.timer_arm(timer, secs).0),
        s.keeps_signals(s.timer_cancel(timer).0),
        s.keeps_signals(s.timer_or_cancel(timer).0),
        s.keeps_signals(s.mutex_granted(key).0),
{
    let p = s.prepared();
    law_preparation_keeps_signals(s);
    lemma_prepared(s);
    if p.replaying() {
        lemma_step_kept(p);
        let q = p.at(p.cursor + 1);
        lemma_at(p, p.cursor + 1);
        lemma_search_kept(q, ScanView::Timer(timer));
    }
    let z = Replay { scan_stopped: false, ..s };
    lemma_side_fields(s, z);
    assert(s.keeps_signals(z)) by {
        assert forall|name: Seq<char>, i: int| #[trigger] s.deliverable(
            name,
            i,
        ) implies z.deliverable(name, i) by {
            assert(z.is_pending(i) == s.is_pending(i));
        }
    }
    law_preparation_keeps_signals(z);
    lemma_prepared(z);
    let y = z.prepared();
    lemma_timer_scan_kept(y, ScanView::TimerCancel(timer));
    lemma_timer_scan_kept(y, ScanView::TimerOutcome(timer));
}

/// What a scan for a cancellable timer leaves loses no signal.
proof fn lemma_timer_scan_kept(q: Replay, scan: ScanView)
    requires
        q.wf(),
        scan is TimerCancel || scan is TimerOutcome,
    ensures
        q.keeps_signals(q.timer_scanned(scan)),
{
    lemma_search_kept(q, scan);
    let w = q.scanned(scan, q.cursor, q.len());
    let t = q.timer_scanned(scan);
    if !q.scan_hits(scan, q.cursor, q.len()) {
        assert forall|name: Seq<char>, i: int| #[trigger] q.deliverable(
            name,
            i,
        ) implies t.deliverable(name, i) by {
            assert(w.deliverable(name, i));
            assert(t.is_pending(i) == w.is_pending(i));
        }
    }
}

/// Starting, racing and spawning children, and handing over to a successor run,
/// lose no signal.
pub proof fn law_children_keep_signals(
    s: Replay,
    name: Seq<char>,
    input: JsonView,
    timer: Seq<char>,
    duration: Option<u64>,
    policy: ParentClosePolicy,
    new_type: Option<Seq<char>>,
)
    requires
        s.wf(),
    ensures
        s.keeps_signals(s.child_workflow(name, input).0),
        s.keeps_signals(s.child_or_timer(name, input, timer, duration).0),
        s.keeps_signals(s.detached_child(name, input, policy).0),
        s.keeps_signals(s.continue_as_new(input, new_type).0),
{
    let p = s.prepared();
    law_preparation_keeps_signals(s);
    lemma_prepared(s);
    if p.replaying() {
        lemma_step_kept(p);
        let e = p.events[p.cursor];
        if child_mismatch(e, name, input) is None {
            let child = started_child(e);
            let k = p.child_outcome_from(child, p.cursor + 1);
            lemma_first_index(
                |i: int| child_outcome(p.events[i], child),
                p.cursor + 1,
                p.len(),
            );
            if k < p.len() {
                let c = p.claimed(k);
                lemma_claimed(p, k);
                lemma_claim_kept(p, k);
                lemma_step_kept(c);
            }
            if p.cursor + 1 < p.len() && timer_mismatch(
                p.events[p.cursor + 1],
                timer,
                duration,
            ) is None {
                lemma_child_race_kept(p, child, timer);
            }
        }
    }
}

/// Claiming an event that is no signal loses none.
proof fn lemma_claim_kept(s: Replay, i: int)
    requires
        !(s.events[i] is SignalReceived),
    ensures
        s.keeps_signals(s.claimed(i)),
{
    let t = s.claimed(i);
    assert forall|name: Seq<char>, j: int| #[trigger] s.deliverable(name, j) implies t.deliverable(
        name,
        j,
    ) by {
        assert(t.is_pending(j) == s.is_pending(j));
    }
}

/// Looking for the resolution of a race of a child loses no signal.
proof fn lemma_child_race_kept(p: Replay, child: ExecutionId, timer: Seq<char>)
    requires
        p.wf(),
        p.cursor + 2 <= p.len(),
        !(p.events[p.cursor] is SignalReceived),
        !(p.events[p.cursor + 1] is SignalReceived),
    ensures
        p.keeps_signals(p.child_race_from_here(child, timer).0),
{
    let resume = p.cursor + 2;
    let scan = ScanView::ChildOrTimer { child, timer };
    let stop = p.scan_stop(scan, resume, p.len());
    let command = p.scan_command(scan, resume, p.len());
    let w = p.scanned(scan, resume, p.len());
    lemma_scan_stop(p, scan, resume, p.len());
    lemma_scanned(p, scan, resume, p.len());
    let next = match command {
        Some(c) => c,
        None => resume,
    };
    lemma_scan_kept(p, scan, resume, w, next);
    if p.scan_hits(scan, resume, p.len()) {
        assert(!(p.events[stop] is SignalReceived));
        let c = w.claimed(stop);
        let fires = |i: int| !c.consumed(i) && timer_fired(c.events[i], timer);
        lemma_first_index(fires, stop + 1, c.len());
        lemma_scan_kept(p, scan, resume, c.stray_fire_claimed(timer, stop), next);
        let ends = |i: int| !w.consumed(i) && child_outcome(w.events[i], child);
        lemma_first_index(ends, stop + 1, w.len());
        let l = w.losing_child_claimed(child, stop);
        lemma_scan_kept(p, scan, resume, l, stop + 1);
        lemma_scan_kept(p, scan, resume, l.claimed(stop), next);
    }
}

/// Signalling, cancelling and awaiting other workflows loses no signal.
pub proof fn law_external_requests_keep_signals(
    s: Replay,
    target: ExternalTarget,
    name: Seq<char>,
    awaited: ExecutionId,
)
    requires
        s.wf(),
    ensures
        s.keeps_signals(s.external_signal(target, name).0),
        s.keeps_signals(s.external_cancel(target).0),
        s.keeps_signals(s.external_await(awaited).0),
{
    let p = s.prepared();
    law_preparation_keeps_signals(s);
    lemma_prepared(s);
    let a = s.external_signal(target, name).0;
    let b = s.external_cancel(target).0;
    let c = s.external_await(awaited).0;
    assert forall|other: Seq<char>, i: int| #[trigger] s.deliverable(
        other,
        i,
    ) implies a.deliverable(other, i) && b.deliverable(other, i) && c.deliverable(other, i) by {
        assert(p.deliverable(other, i));
        assert(a.is_pending(i) == p.is_pending(i));
        assert(b.is_pending(i) == p.is_pending(i));
        assert(c.is_pending(i) == p.is_pending(i));
    }
}

/// Side effects and markers, version and patch gates lose no signal.
pub proof fn law_markers_keep_signals(
    s: Replay,
    kind: SideEffectKind,
    name: Seq<char>,
    number: u64,
    seq: u32,
    count: usize,
    task: Seq<char>,
    upstreams: Seq<usize>,
)
    requires
        s.wf(),
    ensures
        s.keeps_signals(s.side_effect(kind, Some(name)).0),
        s.keeps_signals(s.side_effect(kind, None).0),
        s.keeps_signals(s.side_effect_now().0),
        s.keeps_signals(s.fan_out_marker(seq, count).0),
        s.keeps_signals(s.u64_marker(name, number).0),
        s.keeps_signals(s.session_marker(seq).0),
        s.keeps_signals(s.named_marker(name, task, upstreams).0),
        s.keeps_signals(s.peeked_marker(name).0),
        s.keeps_signals(s.saga_marker(name).0),
        s.keeps_signals(s.version(name, seq, seq).0),
        s.keeps_signals(s.patch(name).0),
        s.keeps_signals(s.patch_deprecated(name).0),
{
    let p = s.prepared();
    law_preparation_keeps_signals(s);
    lemma_prepared(s);
    if p.replaying() {
        lemma_step_kept(p);
        lemma_search_kept(p, ScanView::Marker(name));
    }
    let a = s.advanced();
    let d = a.drained();
    lemma_moved_to(s, s.cursor);
    lemma_drained(a);
    lemma_next_open(d, d.cursor);
    if d.cursor < d.len() {
        lemma_step_kept(d);
        let scan = ScanView::SagaMarker(name);
        lemma_scan_stop(d, scan, d.cursor, d.len());
        if d.scan_hits(scan, d.cursor, d.len()) {
            lemma_claim_kept(d, d.scan_stop(scan, d.cursor, d.len()));
        }
    }
    let latched = Replay { latched: a.latched.insert(name), ..a };
    let t = s.patch_deprecated(name).0;
    assert forall|other: Seq<char>, i: int| #[trigger] s.deliverable(
        other,
        i,
    ) implies latched.deliverable(other, i) && t.deliverable(other, i) by {
        assert(a.deliverable(other, i));
        assert(latched.is_pending(i) == a.is_pending(i));
        assert(t.is_pending(i) == s.is_pending(i));
    }
}

// ── Waits, claims and races ─────────────────────────────────────────────────
impl Replay {
    /// Whether every signal that can be delivered, and was not delivered on the
    /// way to `later`, can also be delivered there.
    pub open spec fn keeps_other_signals(self, later: Replay) -> bool {
        forall|name: Seq<char>, i: int| #[trigger]
            self.deliverable(name, i) && later.undelivered(i) ==> later.deliverable(name, i)
    }
}

/// A state that left no signal behind its cursor keeps those that it did not
/// deliver.
proof fn lemma_others_kept(s: Replay, t: Replay)
    requires
        s.wf(),
        s.evolves_to(t),
        forall|i: int| s.cursor <= i < t.cursor && #[trigger] s.open_signal(i) ==> t.consumed(i),
    ensures
        s.keeps_other_signals(t),
{
    assert forall|name: Seq<char>, i: int| #[trigger] s.deliverable(name, i) && t.undelivered(
        i,
    ) implies t.deliverable(name, i) by {
        if !t.consumed(i) {
            assert(!s.consumed(i));
            if s.is_pending(i) {
                let k = choose|k: int|
                    0 <= k < s.pending_signals.len() && #[trigger] s.pending_signals[k].index == i;
                assert(s.pending_entry_wf(s.pending_signals[k]));
            }
            assert(s.open_signal(i));
        }
    }
}

/// A wait for a signal, and claims by handlers, keep every signal that they do
/// not deliver.
pub proof fn law_waits_and_claims_keep_the_other_signals(
    s: Replay,
    name: Seq<char>,
    bound: Option<Seq<char>>,
)
    requires
        s.wf(),
    ensures
        s.keeps_other_signals(s.signal(name, bound).0),
        s.keeps_other_signals(s.signals_claimed(name).0),
        s.keeps_other_signals(s.signal_claimed(name).0),
{
    lemma_wait_keeps_others(s, name, bound);
    let p = s.prepared();
    law_preparation_keeps_signals(s);
    lemma_prepared(s);
    let all = s.signals_claimed(name).0;
    let one = s.signal_claimed(name).0;
    assert forall|other: Seq<char>, i: int| #[trigger] s.deliverable(other, i) implies {
        &&& all.undelivered(i) ==> all.deliverable(other, i)
        &&& one.undelivered(i) ==> one.deliverable(other, i)
    } by {
        assert(p.deliverable(other, i));
        assert(all.consumed(i) == p.consumed(i));
        assert(one.consumed(i) == p.consumed(i));
        if p.is_pending(i) {
            let k = choose|k: int|
                0 <= k < p.pending_signals.len() && #[trigger] p.pending_signals[k].index == i;
            assert(p.pending_entry_wf(p.pending_signals[k]));
        }
    }
}

/// A wait for a signal keeps every signal that it does not deliver.
proof fn lemma_wait_keeps_others(s: Replay, name: Seq<char>, bound: Option<Seq<char>>)
    requires
        s.wf(),
    ensures
        s.keeps_other_signals(s.signal(name, bound).0),
{
    let queue = s.pending_signals;
    let end = s.race_end(bound);
    lemma_race_end(s, bound);
    let k = s.first_pending_before(name, end);
    lemma_first_index(
        |k: int| s.pending_signals[k].name == name && s.pending_signals[k].index < end,
        0,
        queue.len() as int,
    );
    if k < queue.len() {
        lemma_dequeued(s, k);
        lemma_others_kept(s, s.dequeued(k));
    } else {
        let a = s.advanced();
        lemma_moved_to(s, s.cursor);
        lemma_next_open(s, s.cursor);
        lemma_others_kept(s, a);
        if a.replaying() && a.cursor < end {
            let scan = ScanView::Signal { name, race: bound is Some };
            let stop = a.scan_stop(scan, a.cursor, end);
            let command = a.scan_command(scan, a.cursor, end);
            let w = a.scanned(scan, a.cursor, end);
            lemma_scan_stop(a, scan, a.cursor, end);
            lemma_scanned(a, scan, a.cursor, end);
            lemma_stashed(a, scan, a.cursor, stop);
            lemma_evolves_transitive(s, a, w);
            lemma_others_kept(s, w);
            if a.scan_hits(scan, a.cursor, end) {
                let d = w.delivered(stop);
                lemma_delivered(w, stop);
                lemma_evolves_transitive(s, w, d);
                let next = match command {
                    Some(c) => c,
                    None => stop + 1,
                };
                let t = d.moved_to(next);
                lemma_moved_to(d, next);
                lemma_next_open(d, next);
                lemma_evolves_transitive(s, d, t);
                assert forall|i: int| s.cursor <= i < t.cursor && #[trigger] s.open_signal(
                    i,
                ) implies t.consumed(i) by {
                    if i < a.cursor {
                        assert(s.consumed(i));
                    } else if i < stop {
                        assert(!w.open_signal(i));
                    } else if i >= next {
                        assert(d.consumed(i));
                    }
                }
                lemma_others_kept(s, t);
            }
        }
    }
}

/// A race of a signal against its deadline keeps every signal that it does not
/// deliver; a signal that came too late is among them.
pub proof fn law_signal_race_keeps_the_other_signals(
    s: Replay,
    name: Seq<char>,
    timer: Seq<char>,
    duration: Option<u64>,
)
    requires
        s.wf(),
    ensures
        s.keeps_other_signals(s.signal_or_timer(name, timer, duration).0),
{
    let p = s.prepared();
    law_preparation_keeps_signals(s);
    lemma_prepared(s);
    let t = s.signal_or_timer(name, timer, duration).0;
    let queue = p.pending_signals;
    let before = |k: int|
        p.pending_signals[k].name == name && p.pending_signals[k].index < p.cursor;
    lemma_first_index(before, 0, queue.len() as int);
    let k = p.first_pending_before(name, p.cursor);
    if k < queue.len() {
        lemma_dequeued(p, k);
        lemma_others_kept(p, p.dequeued(k));
    } else if p.replaying() && timer_mismatch(p.events[p.cursor], timer, duration) is None {
        let q = p.at(p.cursor + 1);
        lemma_at(p, p.cursor + 1);
        let m = q.first_pending(name);
        lemma_first_index(|k: int| queue[k].name == name, 0, queue.len() as int);
        let end = if m < queue.len() {
            queue[m].index
        } else {
            q.len()
        };
        if m < queue.len() {
            assert(q.pending_entry_wf(queue[m]));
            assert(!before(m));
        }
        let scan = ScanView::SignalOrTimer { name, timer };
        let stop = q.scan_stop(scan, q.cursor, end);
        let command = q.scan_command(scan, q.cursor, end);
        let w = q.scanned(scan, q.cursor, end);
        lemma_scan_stop(q, scan, q.cursor, end);
        lemma_scanned(q, scan, q.cursor, end);
        lemma_stashed(q, scan, q.cursor, stop);
        lemma_pending_prefix(q, scan, q.cursor, stop);
        lemma_evolves_transitive(p, q, w);
        if q.scan_hits(scan, q.cursor, end) {
            if signal_named(q.events[stop], name) {
                lemma_race_signal_won(w, stop, command, timer);
                lemma_evolves_transitive(p, w, t);
                lemma_signal_won_leaves(w, stop, command, timer);
            } else {
                lemma_race_timer_won(w, stop, command, name);
                lemma_evolves_transitive(p, w, t);
                lemma_timer_won_leaves(w, stop, command, name);
            }
        } else if stop == end && end < q.len() {
            let x = w.dequeued(m);
            assert(w.pending_signals[m] == queue[m]);
            lemma_dequeued(w, m);
            lemma_race_signal_won(x, end, command, timer);
            lemma_evolves_transitive(p, w, x);
            lemma_evolves_transitive(p, x, t);
            lemma_signal_won_leaves(x, end, command, timer);
        } else {
            match command {
                Some(c) => {
                    lemma_moved_to(w, c);
                    lemma_next_open(w, c);
                    lemma_evolves_transitive(p, w, t);
                    assert forall|i: int|
                        stop <= i < t.cursor && t.events[i] is SignalReceived implies #[trigger] t.consumed(
                        i,
                    ) by {
                        assert(w.consumed(i));
                    }
                },
                None => {},
            }
        }
        assert forall|i: int| p.cursor <= i < t.cursor && #[trigger] p.open_signal(
            i,
        ) implies t.consumed(i) by {
            if i < stop {
                assert(!w.open_signal(i));
                assert(w.consumed(i));
            }
        }
        lemma_others_kept(p, t);
    }
    assert forall|other: Seq<char>, i: int| #[trigger] s.deliverable(other, i) && t.undelivered(
        i,
    ) implies t.deliverable(other, i) by {
        assert(p.deliverable(other, i));
    }
}

/// A race settled for the signal at `pos` leaves no event behind its cursor but
/// taken ones and what already lay before it.
proof fn lemma_signal_won_leaves(s: Replay, pos: int, command: Option<int>, timer: Seq<char>)
    requires
        0 <= pos < s.len(),
        command matches Some(c) ==> 0 <= c <= pos,
    ensures
        ({
            let t = s.race_signal_won(pos, command, timer);
            forall|i: int| pos <= i < t.cursor ==> #[trigger] t.consumed(i)
        }),
{
    let t = s.race_signal_won(pos, command, timer);
    let f = s.delivered(pos).stray_fire_claimed(timer, pos);
    let next = match command {
        Some(c) => c,
        None => pos + 1,
    };
    lemma_next_open(f, next);
    assert forall|i: int| pos <= i < t.cursor implies #[trigger] t.consumed(i) by {
        if i >= next {
            assert(f.consumed(i));
        }
    }
}

/// A race settled for the fire at `pos` leaves no event behind its cursor but
/// taken ones, the fire, and what already lay before it.
proof fn lemma_timer_won_leaves(s: Replay, pos: int, command: Option<int>, name: Seq<char>)
    requires
        s.wf(),
        s.cursor <= pos < s.len(),
        !(s.events[pos] is SignalReceived),
        command matches Some(c) ==> s.cursor <= c <= pos,
    ensures
        ({
            let t = s.race_timer_won(pos, command, name);
            forall|i: int|
                pos <= i < t.cursor && s.events[i] is SignalReceived ==> #[trigger] t.consumed(i)
        }),
{
    let loser = s.next_loser(name, pos);
    let noted = if loser < s.len() {
        Replay { late: s.late.insert(loser), ..s }
    } else {
        s
    };
    let t = s.race_timer_won(pos, command, name);
    let (from, x) = match command {
        Some(c) => (c, noted.claimed(pos)),
        None => (pos + 1, noted),
    };
    lemma_next_open(x, from);
    assert forall|i: int|
        pos <= i < t.cursor && s.events[i] is SignalReceived implies #[trigger] t.consumed(i) by {
        assert(x.consumed(i));
    }
}

} // verus!
