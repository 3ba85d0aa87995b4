//! Child workflows, their races against a deadline, and successor runs.
use crate::event::WorkflowEvent;
use crate::json::{json_display, json_eq, json_same, json_text, json_view, opt_json, JsonView};
use crate::kinds::{
    actual_event_name, event_label, is_stashable, is_stashable_event, is_update, is_update_event,
};
use crate::matcher::{opt_index, HistoryMatcher};
use crate::moves::{
    lemma_claimed, lemma_claims, lemma_evolves_transitive, lemma_moved_to, lemma_prepared,
    lemma_scan_stop, lemma_scanned, lemma_settled,
};
use crate::outcome::{
    diverged, diverged_at, report_index, reported, ChildOrTimerMatch, ChildOrTimerView,
    HistoryMatch, HistoryMatchView,
};
use crate::replay::Replay;
use crate::scan::{child_outcome, is_child_outcome, is_timer_started, timer_started, Scan, ScanView};
use crate::search::{first_index, lemma_first_index, lemma_first_index_is};
use crate::signal_race::lemma_stray_fire_claimed;
use crate::text::{str_eq, tag, tagged};
use crate::timer::{find_timer_mismatch, timer_mismatch};
use crate::types::{opt_str, opt_text, opt_text_eq, ActivityExecId, ExecutionId, ParentClosePolicy};
use serde_json::Value;
use vstd::prelude::*;

verus! {

// ── Successor runs ──────────────────────────────────────────────────────────
/// A workflow type as it is shown: the run's own type where none is given.
pub open spec fn type_label(new_type: Option<Seq<char>>) -> Seq<char> {
    match new_type {
        Some(t) => t,
        None => "<same type>"@,
    }
}

impl Replay {
    /// What matching the hand-over to a successor run yields: past the end
    /// nothing; at another event, successor type or input a divergence; else
    /// the recorded input.
    pub open spec fn continue_as_new(
        self,
        input: JsonView,
        new_type: Option<Seq<char>>,
    ) -> (Replay, HistoryMatchView) {
        let s = self.prepared();
        if !s.replaying() {
            (s, HistoryMatchView::NoMatch)
        } else {
            match s.events[s.cursor] {
                WorkflowEvent::WorkflowContinuedAsNew {
                    input: recorded_input,
                    new_workflow_type,
                    ..
                } => if opt_text(new_workflow_type) != new_type {
                    (
                        s,
                        diverged_at(
                            tagged("WorkflowContinuedAsNewType"@, type_label(new_type)),
                            tagged(
                                "WorkflowContinuedAsNewType"@,
                                type_label(opt_text(new_workflow_type)),
                            ),
                            s.cursor,
                        ),
                    )
                } else if !json_same(json_view(recorded_input), input) {
                    (
                        s,
                        diverged_at(
                            tagged("WorkflowContinuedAsNewInput"@, json_text(input)),
                            tagged(
                                "WorkflowContinuedAsNewInput"@,
                                json_text(json_view(recorded_input)),
                            ),
                            s.cursor,
                        ),
                    )
                } else {
                    (
                        s.moved_to(s.cursor + 1),
                        HistoryMatchView::Matched { output: json_view(recorded_input) },
                    )
                },
                other => (
                    s,
                    diverged_at(
                        tagged("WorkflowContinuedAsNew"@, json_text(input)),
                        event_label(other),
                        s.cursor,
                    ),
                ),
            }
        }
    }

    /// Whether the first recorded hand-over, if any, is to that successor type.
    pub open spec fn continues_as(self, new_type: Option<Seq<char>>) -> bool {
        let k = first_index(
            |i: int| self.events[i] is WorkflowContinuedAsNew,
            0,
            self.len(),
        );
        k < self.len() ==> match self.events[k] {
            WorkflowEvent::WorkflowContinuedAsNew { new_workflow_type, .. } => opt_text(
                new_workflow_type,
            ) == new_type,
            _ => true,
        }
    }
}

impl HistoryMatcher {
    /// Matches the hand-over to a successor run against history.
    ///
    /// The successor type is part of the command: the run's own type and any
    /// given type are different.
    pub fn match_continue_as_new(&mut self, input: &Value, new_workflow_type: Option<&str>) -> (r:
        HistoryMatch)
        requires
            old(self).wf(),
        ensures
            final(self).wf(),
            old(self)@.evolves_to(final(self)@),
            (final(self)@, r@) == old(self)@.continue_as_new(
                json_view(*input),
                opt_str(new_workflow_type),
            ),
    {
        let ghost start = self@;
        proof {
            lemma_prepared(start);
        }
        if !self.prepare_match() {
            return HistoryMatch::NoMatch;
        }
        let ghost s = self@;
        let here = self.cursor;
        let output = match &self.events[here] {
            WorkflowEvent::WorkflowContinuedAsNew {
                input: recorded_input,
                new_workflow_type: recorded_type,
                ..
            } => {
                if !opt_text_eq(recorded_type, new_workflow_type) {
                    let requested = match new_workflow_type {
                        Some(t) => t,
                        None => "<same type>",
                    };
                    let recorded = match recorded_type {
                        Some(t) => t.as_str(),
                        None => "<same type>",
                    };
                    return diverged(
                        tag("WorkflowContinuedAsNewType", requested),
                        tag("WorkflowContinuedAsNewType", recorded),
                        here,
                    );
                }
                if !json_eq(recorded_input, input) {
                    return diverged(
                        tag("WorkflowContinuedAsNewInput", json_display(input).as_str()),
                        tag("WorkflowContinuedAsNewInput", json_display(recorded_input).as_str()),
                        here,
                    );
                }
                recorded_input.clone()
            },
            other => {
                return diverged(
                    tag("WorkflowContinuedAsNew", json_display(input).as_str()),
                    actual_event_name(other),
                    here,
                );
            },
        };
        self.claim_at_cursor();
        proof {
            lemma_evolves_transitive(start, s, self@);
        }
        HistoryMatch::Matched { output }
    }

    /// Whether the first recorded hand-over, if any, is to that successor type,
    /// wherever the cursor stands.
    pub fn recorded_continue_as_new_type_matches(&self, expected: Option<&str>) -> (r: bool)
        ensures
            r == self@.continues_as(opt_str(expected)),
    {
        let ghost s = self@;
        let ghost p = |i: int| s.events[i] is WorkflowContinuedAsNew;
        let mut i: usize = 0;
        while i < self.events.len()
            invariant
                s == self@,
                i <= s.len(),
                p == (|i: int| s.events[i] is WorkflowContinuedAsNew),
                forall|j: int| 0 <= j < i ==> !#[trigger] p(j),
            decreases s.len() - i,
        {
            if let WorkflowEvent::WorkflowContinuedAsNew { new_workflow_type, .. } =
                &self.events[i] {
                proof {
                    lemma_first_index_is(p, 0, s.len(), i as int);
                }
                return opt_text_eq(new_workflow_type, expected);
            }
            assert(!p(i as int));
            i += 1;
        }
        proof {
            lemma_first_index_is(p, 0, s.len(), i as int);
        }
        true
    }
}

// ── Children that are waited for ────────────────────────────────────────────
/// The class of a child's failure, `"Error"` where none was recorded.
pub open spec fn class_or_error(error_type: Option<String>) -> Seq<char> {
    match error_type {
        Some(t) => t@,
        None => "Error"@,
    }
}

/// Whether a child's failure marked itself permanent.
pub open spec fn is_permanent(non_retryable: Option<bool>) -> bool {
    non_retryable == Some(true)
}

/// What the recorded outcome of a child gives back.
pub open spec fn child_result(e: WorkflowEvent) -> HistoryMatchView {
    match e {
        WorkflowEvent::ChildWorkflowCompleted { output, .. } => HistoryMatchView::Matched {
            output: json_view(output),
        },
        WorkflowEvent::ChildWorkflowFailed {
            error,
            error_type,
            details,
            non_retryable,
            ..
        } => HistoryMatchView::Failed {
            error: error@,
            attempt: 1,
            error_type: class_or_error(error_type),
            details: opt_json(details),
            non_retryable: is_permanent(non_retryable),
        },
        _ => HistoryMatchView::NoMatch,
    }
}

/// How `e` differs from the start of the child: what was requested and what is
/// recorded.
pub open spec fn child_mismatch(
    e: WorkflowEvent,
    name: Seq<char>,
    input: JsonView,
) -> Option<(Seq<char>, Seq<char>)> {
    match e {
        WorkflowEvent::ChildWorkflowStarted {
            workflow_name,
            input: recorded_input,
            ..
        } => if workflow_name@ != name {
            Some(
                (
                    tagged("ChildWorkflowStarted"@, name),
                    tagged("ChildWorkflowStarted"@, workflow_name@),
                ),
            )
        } else if !json_same(json_view(recorded_input), input) {
            Some(
                (
                    tagged("ChildWorkflowInput"@, json_text(input)),
                    tagged("ChildWorkflowInput"@, json_text(json_view(recorded_input))),
                ),
            )
        } else {
            None
        },
        other => Some((tagged("ChildWorkflowStarted"@, name), event_label(other))),
    }
}

/// The id in the start of a child.
pub open spec fn started_child(e: WorkflowEvent) -> ExecutionId {
    match e {
        WorkflowEvent::ChildWorkflowStarted { child_id, .. } => child_id,
        _ => ExecutionId(0),
    }
}

/// The started child, or how the event differs from its start.
fn find_started_child(event: &WorkflowEvent, name: &str, input: &Value) -> (r: Result<
    ExecutionId,
    (String, String),
>)
    ensures
        match r {
            Ok(id) => {
                &&& child_mismatch(*event, name@, json_view(*input)) is None
                &&& id == started_child(*event)
                &&& event is ChildWorkflowStarted
            },
            Err(texts) => child_mismatch(*event, name@, json_view(*input)) == Some(
                (texts.0@, texts.1@),
            ),
        },
{
    match event {
        WorkflowEvent::ChildWorkflowStarted { child_id, workflow_name, input: recorded_input } => {
            if !str_eq(workflow_name.as_str(), name) {
                return Err(
                    (
                        tag("ChildWorkflowStarted", name),
                        tag("ChildWorkflowStarted", workflow_name.as_str()),
                    ),
                );
            }
            if !json_eq(recorded_input, input) {
                return Err(
                    (
                        tag("ChildWorkflowInput", json_display(input).as_str()),
                        tag("ChildWorkflowInput", json_display(recorded_input).as_str()),
                    ),
                );
            }
            Ok(*child_id)
        },
        other => Err((tag("ChildWorkflowStarted", name), actual_event_name(other))),
    }
}

impl Replay {
    /// Where the outcome of the child `id` first stands from `from` on; the end
    /// when nowhere.
    pub open spec fn child_outcome_from(self, id: ExecutionId, from: int) -> int {
        first_index(|i: int| child_outcome(self.events[i], id), from, self.len())
    }

    /// What matching a child yields: past the end nothing; at another event,
    /// name or input a divergence; else the child's outcome, wherever it stands
    /// further on. The cursor moves past the child's start.
    pub open spec fn child_workflow(
        self,
        name: Seq<char>,
        input: JsonView,
    ) -> (Replay, HistoryMatchView) {
        let s = self.prepared();
        if !s.replaying() {
            (s, HistoryMatchView::NoMatch)
        } else {
            let e = s.events[s.cursor];
            match child_mismatch(e, name, input) {
                Some((expected, actual)) => (s, diverged_at(expected, actual, s.cursor)),
                None => {
                    let child = started_child(e);
                    let k = s.child_outcome_from(child, s.cursor + 1);
                    if k < s.len() {
                        (s.claimed(k).moved_to(s.cursor + 1), child_result(s.events[k]))
                    } else {
                        (
                            s.moved_to(s.cursor + 1),
                            HistoryMatchView::ChildInProgress { child_id: child },
                        )
                    }
                },
            }
        }
    }
}

impl HistoryMatcher {
    /// Matches a child workflow against history.
    ///
    /// Expects the start of a child of that name with that input at the cursor,
    /// and looks ahead for its outcome.
    pub fn match_child_workflow(&mut self, workflow_name: &str, input: &Value) -> (r: HistoryMatch)
        requires
            old(self).wf(),
        ensures
            final(self).wf(),
            old(self)@.evolves_to(final(self)@),
            (final(self)@, r@) == old(self)@.child_workflow(workflow_name@, json_view(*input)),
    {
        let ghost start = self@;
        proof {
            lemma_prepared(start);
        }
        if !self.prepare_match() {
            return HistoryMatch::NoMatch;
        }
        let ghost s = self@;
        let here = self.cursor;
        let child_id = match find_started_child(&self.events[here], workflow_name, input) {
            Ok(id) => id,
            Err((expected, actual)) => {
                return diverged(expected, actual, here);
            },
        };
        assert(here < self.events.len());
        let next = here + 1;
        let ghost p = |i: int| child_outcome(s.events[i], child_id);
        let mut i: usize = next;
        while i < self.events.len() && !is_child_outcome(&self.events[i], child_id)
            invariant
                self@ == s,
                next <= i <= s.len(),
                p == (|i: int| child_outcome(s.events[i], child_id)),
                forall|j: int| next <= j < i ==> !#[trigger] p(j),
            decreases s.len() - i,
        {
            assert(!p(i as int));
            i += 1;
        }
        proof {
            lemma_first_index_is(p, s.cursor + 1, s.len(), i as int);
            lemma_moved_to(s, s.cursor + 1);
        }
        if i >= self.events.len() {
            self.move_to(next);
            proof {
                lemma_evolves_transitive(start, s, self@);
            }
            return HistoryMatch::ChildInProgress { child_id };
        }
        let result = match &self.events[i] {
            WorkflowEvent::ChildWorkflowCompleted { output, .. } => HistoryMatch::Matched {
                output: output.clone(),
            },
            WorkflowEvent::ChildWorkflowFailed {
                error,
                error_type,
                details,
                non_retryable,
                ..
            } => HistoryMatch::Failed {
                error: error.clone(),
                attempt: 1,
                error_type: class_of(error_type),
                details: details.clone(),
                non_retryable: permanent(*non_retryable),
            },
            _ => HistoryMatch::NoMatch,
        };
        self.consumed_out_of_order_events.insert(i);
        let ghost c = self@;
        self.move_to(next);
        proof {
            assert(c == s.claimed(i as int));
            lemma_claimed(s, i as int);
            lemma_moved_to(c, next as int);
            lemma_evolves_transitive(start, s, c);
            lemma_evolves_transitive(start, c, self@);
        }
        result
    }
}

/// Computes [`class_or_error`].
fn class_of(error_type: &Option<String>) -> (r: String)
    ensures
        r@ == class_or_error(*error_type),
{
    match error_type {
        Some(t) => t.clone(),
        None => "Error".to_string(),
    }
}

/// Computes [`is_permanent`].
fn permanent(non_retryable: Option<bool>) -> (r: bool)
    ensures
        r == is_permanent(non_retryable),
{
    match non_retryable {
        Some(b) => b,
        None => false,
    }
}

// ── Races of a child against a deadline ─────────────────────────────────────
/// What the recorded outcome of a child gives back to a race that it won.
pub open spec fn child_race_result(e: WorkflowEvent) -> ChildOrTimerView {
    match e {
        WorkflowEvent::ChildWorkflowCompleted { output, .. } => ChildOrTimerView::ChildCompleted {
            output: json_view(output),
        },
        WorkflowEvent::ChildWorkflowFailed {
            error,
            error_type,
            details,
            non_retryable,
            ..
        } => ChildOrTimerView::ChildFailed {
            error: error@,
            error_type: class_or_error(error_type),
            details: opt_json(details),
            non_retryable: is_permanent(non_retryable),
        },
        _ => ChildOrTimerView::NoMatch,
    }
}

impl Replay {
    /// A race settled for the child's outcome at `pos`, where the next event after
    /// the race's start stands at `resume`.
    pub open spec fn race_child_won(
        self,
        pos: int,
        resume: int,
        command: Option<int>,
        timer: Seq<char>,
    ) -> Replay {
        self.claimed(pos).stray_fire_claimed(timer, pos).moved_to(
            match command {
                Some(c) => c,
                None => resume,
            },
        )
    }

    /// Where an outcome of the child that is still to be claimed first stands from
    /// `from` on; the end when nowhere.
    pub open spec fn open_child_outcome(self, id: ExecutionId, from: int) -> int {
        first_index(
            |i: int| !self.consumed(i) && child_outcome(self.events[i], id),
            from,
            self.len(),
        )
    }

    /// The outcome of a child that lost its race at `pos` claimed, where it is
    /// recorded: it is delivered to nobody.
    pub open spec fn losing_child_claimed(self, id: ExecutionId, pos: int) -> Replay {
        let k = self.open_child_outcome(id, pos + 1);
        if k < self.len() {
            self.claimed(k)
        } else {
            self
        }
    }

    /// What is found of the race between the child and the timer whose start
    /// stands at the cursor and behind it: whichever of the child's outcome and
    /// the timer's fire was recorded first decides.
    pub open spec fn child_race_from_here(
        self,
        child: ExecutionId,
        timer: Seq<char>,
    ) -> (Replay, ChildOrTimerView) {
        let resume = self.cursor + 2;
        let scan = ScanView::ChildOrTimer { child, timer };
        let stop = self.scan_stop(scan, resume, self.len());
        let command = self.scan_command(scan, resume, self.len());
        let scanned = self.scanned(scan, resume, self.len());
        if self.scan_hits(scan, resume, self.len()) {
            if child_outcome(self.events[stop], child) {
                (
                    scanned.race_child_won(stop, resume, command, timer),
                    child_race_result(self.events[stop]),
                )
            } else {
                (
                    scanned.losing_child_claimed(child, stop).settled(stop, command),
                    ChildOrTimerView::TimerFired {
                        child_id: child,
                        child_already_terminal: scanned.open_child_outcome(child, stop + 1)
                            < self.len(),
                    },
                )
            }
        } else {
            (
                scanned.moved_to(
                    match command {
                        Some(c) => c,
                        None => resume,
                    },
                ),
                ChildOrTimerView::InProgress { child_id: child },
            )
        }
    }

    /// What matching a race between a child and its deadline yields, with the
    /// duration compared where one is given: past the end nothing; unless the
    /// start of the child and, right behind it, the arming of the timer stand at
    /// the cursor, a divergence; else the first recorded resolution decides.
    pub open spec fn child_or_timer(
        self,
        name: Seq<char>,
        input: JsonView,
        timer: Seq<char>,
        duration: Option<u64>,
    ) -> (Replay, ChildOrTimerView) {
        let s = self.prepared();
        let timer_pos = s.cursor + 1;
        if !s.replaying() {
            (s, ChildOrTimerView::NoMatch)
        } else if let Some((expected, actual)) = child_mismatch(s.events[s.cursor], name, input) {
            (
                s,
                ChildOrTimerView::Diverged { expected, actual, event_index: reported(s.cursor) },
            )
        } else if timer_pos >= s.len() {
            (
                s,
                ChildOrTimerView::Diverged {
                    expected: tagged("TimerStarted"@, timer),
                    actual: "<end of history>"@,
                    event_index: reported(timer_pos),
                },
            )
        } else if let Some((expected, actual)) = timer_mismatch(
            s.events[timer_pos],
            timer,
            duration,
        ) {
            (
                s,
                ChildOrTimerView::Diverged { expected, actual, event_index: reported(timer_pos) },
            )
        } else {
            s.child_race_from_here(started_child(s.events[s.cursor]), timer)
        }
    }
}

/// Settling a race for a child keeps the invariant.
proof fn lemma_race_child_won(
    s: Replay,
    pos: int,
    resume: int,
    command: Option<int>,
    timer: Seq<char>,
)
    requires
        s.wf(),
        s.cursor <= resume <= s.len(),
        s.cursor <= pos < s.len(),
        command matches Some(c) ==> s.cursor <= c <= s.len(),
    ensures
        s.race_child_won(pos, resume, command, timer).wf(),
        s.evolves_to(s.race_child_won(pos, resume, command, timer)),
{
    let c = s.claimed(pos);
    lemma_claimed(s, pos);
    let f = c.stray_fire_claimed(timer, pos);
    lemma_stray_fire_claimed(c, timer, pos);
    lemma_evolves_transitive(s, c, f);
    let next = match command {
        Some(c) => c,
        None => resume,
    };
    lemma_moved_to(f, next);
    lemma_evolves_transitive(s, f, f.moved_to(next));
}

/// Claiming the outcome of a losing child keeps the invariant.
proof fn lemma_losing_child_claimed(s: Replay, id: ExecutionId, pos: int)
    requires
        s.wf(),
        0 <= pos < s.len(),
    ensures
        s.losing_child_claimed(id, pos).wf(),
        s.evolves_to(s.losing_child_claimed(id, pos)),
        s.losing_child_claimed(id, pos).cursor == s.cursor,
{
    let p = |i: int| !s.consumed(i) && child_outcome(s.events[i], id);
    lemma_first_index(p, pos + 1, s.len());
    let k = s.open_child_outcome(id, pos + 1);
    if k < s.len() {
        lemma_claimed(s, k);
    }
}

impl HistoryMatcher {
    /// Settles a race for the child's outcome at `pos`.
    fn settle_race_child_won(
        &mut self,
        pos: usize,
        resume: usize,
        command: Option<usize>,
        timer_id: &str,
    )
        requires
            pos < old(self).events.len(),
            resume <= old(self).events@.len(),
            command matches Some(c) ==> c <= old(self).events@.len(),
        ensures
            final(self)@ == old(self)@.race_child_won(
                pos as int,
                resume as int,
                opt_index(command),
                timer_id@,
            ),
    {
        let ghost s = self@;
        self.consumed_out_of_order_events.insert(pos);
        assert(self@ == s.claimed(pos as int));
        self.claim_stray_fire(timer_id, pos);
        let next = match command {
            Some(c) => c,
            None => resume,
        };
        self.move_to(next);
    }

    /// Claims the outcome of a child that lost its race at `pos`, where it is
    /// recorded, and returns whether it is.
    fn consume_loser_child_terminal(&mut self, pos: usize, child_id: ExecutionId) -> (r: bool)
        requires
            pos < old(self).events.len(),
        ensures
            final(self)@ == old(self)@.losing_child_claimed(child_id, pos as int),
            r == (old(self)@.open_child_outcome(child_id, pos + 1) < old(self)@.len()),
    {
        let ghost s = self@;
        let ghost p = |i: int| !s.consumed(i) && child_outcome(s.events[i], child_id);
        let mut i: usize = pos + 1;
        while i < self.events.len()
            invariant
                pos + 1 <= i <= s.len(),
                self@ == s,
                s == old(self)@,
                p == (|i: int| !s.consumed(i) && child_outcome(s.events[i], child_id)),
                forall|j: int| pos + 1 <= j < i ==> !#[trigger] p(j),
            decreases s.len() - i,
        {
            if !self.is_consumed(i) && is_child_outcome(&self.events[i], child_id) {
                proof {
                    assert(p(i as int));
                    lemma_first_index_is(p, pos + 1, s.len(), i as int);
                }
                self.consumed_out_of_order_events.insert(i);
                return true;
            }
            assert(!p(i as int));
            i += 1;
        }
        proof {
            lemma_first_index_is(p, pos + 1, s.len(), i as int);
        }
        false
    }

    /// Looks for the resolution of a race between the child and the timer whose
    /// start stands at the cursor.
    fn scan_child_race(&mut self, child_id: ExecutionId, timer_id: &str) -> (r: ChildOrTimerMatch)
        requires
            old(self).wf(),
            old(self)@.cursor + 2 <= old(self)@.len(),
            !(old(self)@.events[old(self)@.cursor] is SignalReceived),
            !(old(self)@.events[old(self)@.cursor + 1] is SignalReceived),
        ensures
            final(self).wf(),
            old(self)@.evolves_to(final(self)@),
            (final(self)@, r@) == old(self)@.child_race_from_here(child_id, timer_id@),
    {
        let ghost s = self@;
        let end = self.events.len();
        let resume = self.cursor + 2;
        let ghost scan = ScanView::ChildOrTimer { child: child_id, timer: timer_id@ };
        let found = self.scan(&Scan::ChildOrTimer { child: child_id, timer: timer_id }, resume, end);
        let ghost t = self@;
        let ghost command = opt_index(found.command);
        proof {
            lemma_scanned(s, scan, resume as int, s.len());
            lemma_scan_stop(s, scan, resume as int, s.len());
        }
        if !found.hit {
            let next = match found.command {
                Some(c) => c,
                None => resume,
            };
            self.move_to(next);
            proof {
                lemma_moved_to(t, next as int);
                lemma_evolves_transitive(s, t, self@);
            }
            return ChildOrTimerMatch::InProgress { child_id };
        }
        if is_child_outcome(&self.events[found.stop], child_id) {
            let result = match &self.events[found.stop] {
                WorkflowEvent::ChildWorkflowCompleted { output, .. } =>
                    ChildOrTimerMatch::ChildCompleted { output: output.clone() },
                WorkflowEvent::ChildWorkflowFailed {
                    error,
                    error_type,
                    details,
                    non_retryable,
                    ..
                } => ChildOrTimerMatch::ChildFailed {
                    error: error.clone(),
                    error_type: class_of(error_type),
                    details: details.clone(),
                    non_retryable: permanent(*non_retryable),
                },
                _ => ChildOrTimerMatch::NoMatch,
            };
            self.settle_race_child_won(found.stop, resume, found.command, timer_id);
            proof {
                lemma_race_child_won(t, found.stop as int, resume as int, command, timer_id@);
                lemma_evolves_transitive(s, t, self@);
            }
            return result;
        }
        let child_already_terminal = self.consume_loser_child_terminal(found.stop, child_id);
        let ghost l = self@;
        self.settle(found.stop, found.command);
        proof {
            lemma_losing_child_claimed(t, child_id, found.stop as int);
            lemma_settled(l, found.stop as int, command);
            lemma_evolves_transitive(s, t, l);
            lemma_evolves_transitive(s, l, self@);
        }
        ChildOrTimerMatch::TimerFired { child_id, child_already_terminal }
    }

    /// Matches a race between a child workflow and its deadline against history.
    ///
    /// The start of the child and the arming of the timer are recorded next to
    /// each other. Whichever of the child's outcome and the timer's fire was
    /// recorded first wins; what the loser recorded behind it is claimed, so
    /// that no later command meets it.
    pub fn match_child_or_timer(
        &mut self,
        workflow_name: &str,
        input: &Value,
        timer_id: &str,
        expected_duration: Option<u64>,
    ) -> (r: ChildOrTimerMatch)
        requires
            old(self).wf(),
        ensures
            final(self).wf(),
            old(self)@.evolves_to(final(self)@),
            (final(self)@, r@) == old(self)@.child_or_timer(
                workflow_name@,
                json_view(*input),
                timer_id@,
                expected_duration,
            ),
    {
        let ghost start = self@;
        proof {
            lemma_prepared(start);
        }
        if !self.prepare_match() {
            return ChildOrTimerMatch::NoMatch;
        }
        let ghost s = self@;
        let here = self.cursor;
        let child_id = match find_started_child(&self.events[here], workflow_name, input) {
            Ok(id) => id,
            Err((expected, actual)) => {
                return ChildOrTimerMatch::Diverged {
                    expected,
                    actual,
                    event_index: report_index(here),
                };
            },
        };
        assert(here < self.events.len());
        let timer_pos = here + 1;
        if timer_pos >= self.events.len() {
            return ChildOrTimerMatch::Diverged {
                expected: tag("TimerStarted", timer_id),
                actual: "<end of history>".to_string(),
                event_index: report_index(timer_pos),
            };
        }
        if let Some((expected, actual)) = find_timer_mismatch(
            &self.events[timer_pos],
            timer_id,
            expected_duration,
        ) {
            return ChildOrTimerMatch::Diverged {
                expected,
                actual,
                event_index: report_index(timer_pos),
            };
        }
        let r = self.scan_child_race(child_id, timer_id);
        proof {
            lemma_evolves_transitive(start, s, self@);
        }
        r
    }
}

// ── Branches that lost a race ───────────────────────────────────────────────
/// Whether `e` is left by a branch that lost a race: progress of one of the
/// activities, or the start of one of the children.
pub open spec fn left_by_loser(
    e: WorkflowEvent,
    activities: Seq<ActivityExecId>,
    children: Seq<ExecutionId>,
) -> bool {
    match e {
        WorkflowEvent::ActivityStarted { activity_id, .. } => activities.contains(activity_id),
        WorkflowEvent::ActivityHeartbeat { activity_id, .. } => activities.contains(activity_id),
        WorkflowEvent::ChildWorkflowStarted { child_id, .. } => children.contains(child_id),
        _ => false,
    }
}

/// Whether the list holds the activity.
fn holds_activity(list: &[ActivityExecId], id: ActivityExecId) -> (r: bool)
    ensures
        r == list@.contains(id),
{
    let mut k: usize = 0;
    while k < list.len()
        invariant
            k <= list@.len(),
            forall|j: int| 0 <= j < k ==> list@[j] != id,
        decreases list@.len() - k,
    {
        if list[k] == id {
            assert(list@[k as int] == id);
            return true;
        }
        k += 1;
    }
    false
}

/// Whether the list holds the child.
fn holds_child(list: &[ExecutionId], id: ExecutionId) -> (r: bool)
    ensures
        r == list@.contains(id),
{
    let mut k: usize = 0;
    while k < list.len()
        invariant
            k <= list@.len(),
            forall|j: int| 0 <= j < k ==> list@[j] != id,
        decreases list@.len() - k,
    {
        if list[k] == id {
            assert(list@[k as int] == id);
            return true;
        }
        k += 1;
    }
    false
}

/// Computes [`left_by_loser`].
fn is_left_by_loser(
    event: &WorkflowEvent,
    activities: &[ActivityExecId],
    children: &[ExecutionId],
) -> (r: bool)
    ensures
        r == left_by_loser(*event, activities@, children@),
{
    match event {
        WorkflowEvent::ActivityStarted { activity_id, .. } => holds_activity(
            activities,
            *activity_id,
        ),
        WorkflowEvent::ActivityHeartbeat { activity_id, .. } => holds_activity(
            activities,
            *activity_id,
        ),
        WorkflowEvent::ChildWorkflowStarted { child_id, .. } => holds_child(children, *child_id),
        _ => false,
    }
}

impl Replay {
    /// The positions from the cursor on, still to be claimed, of what the losing
    /// branches of a race left.
    pub open spec fn loser_frontier(
        self,
        activities: Seq<ActivityExecId>,
        children: Seq<ExecutionId>,
    ) -> Set<int> {
        Set::new(
            |i: int|
                self.cursor <= i && self.open_at(i) && left_by_loser(
                    self.events[i],
                    activities,
                    children,
                ),
        )
    }

    /// What the losing branches of a race left claimed, and the cursor moved past
    /// it.
    pub open spec fn losers_claimed(
        self,
        activities: Seq<ActivityExecId>,
        children: Seq<ExecutionId>,
    ) -> Replay {
        if activities.len() == 0 && children.len() == 0 {
            self
        } else {
            Replay {
                out_of_order: self.out_of_order.union(self.loser_frontier(activities, children)),
                ..self
            }.advanced()
        }
    }
}

impl HistoryMatcher {
    /// Claims what the losing branches of a race left in flight: progress of
    /// their activities and starts of their children, from the cursor on. Events
    /// of any other command stay.
    pub fn consume_race_loser_frontier(
        &mut self,
        loser_activity_ids: &[ActivityExecId],
        loser_child_ids: &[ExecutionId],
    )
        requires
            old(self).wf(),
        ensures
            final(self).wf(),
            old(self)@.evolves_to(final(self)@),
            final(self)@ == old(self)@.losers_claimed(loser_activity_ids@, loser_child_ids@),
    {
        if loser_activity_ids.len() == 0 && loser_child_ids.len() == 0 {
            return ;
        }
        let ghost s = self@;
        let ghost frontier = s.loser_frontier(loser_activity_ids@, loser_child_ids@);
        let mut i: usize = self.cursor;
        while i < self.events.len()
            invariant
                s.cursor <= i <= s.len(),
                self@ == (Replay { out_of_order: self@.out_of_order, ..s }),
                frontier == s.loser_frontier(loser_activity_ids@, loser_child_ids@),
                forall|j: int|
                    #[trigger] self@.out_of_order.contains(j) == (s.out_of_order.contains(j) || (j
                        < i && frontier.contains(j))),
            decreases s.len() - i,
        {
            assert(self@.out_of_order.contains(i as int) == s.out_of_order.contains(i as int));
            if !self.is_consumed(i) && is_left_by_loser(
                &self.events[i],
                loser_activity_ids,
                loser_child_ids,
            ) {
                self.consumed_out_of_order_events.insert(i);
            }
            i += 1;
        }
        let ghost c = self@;
        proof {
            assert(c.out_of_order =~= s.out_of_order.union(frontier));
            lemma_claims(s, frontier);
            lemma_moved_to(c, c.cursor);
            lemma_evolves_transitive(s, c, c.advanced());
        }
        self.advance_to_next_unconsumed_event();
    }
}

// ── Looking ahead for a race ────────────────────────────────────────────────
impl Replay {
    /// The first position from `from` on at which a command is looked for: not
    /// taken, and not kept aside.
    pub open spec fn next_structural(self, from: int) -> int {
        first_index(
            |i: int|
                !self.consumed(i) && !is_stashable(self.events[i]) && !is_update(self.events[i]),
            from,
            self.len(),
        )
    }

    /// Whether the start of a child stands where the next command is looked for,
    /// and the arming of the timer where the one after it is.
    pub open spec fn child_race_next(self, timer: Seq<char>) -> bool {
        let child = self.next_structural(self.cursor);
        let deadline = self.next_structural(child + 1);
        &&& child < self.len()
        &&& self.events[child] is ChildWorkflowStarted
        &&& deadline < self.len()
        &&& timer_started(self.events[deadline], timer)
    }
}

impl HistoryMatcher {
    /// Finds [`Replay::next_structural`].
    fn skip_to_structural(&self, from: usize) -> (r: usize)
        requires
            from <= self.events@.len(),
        ensures
            r == self@.next_structural(from as int),
            from <= r <= self.events@.len(),
    {
        let ghost s = self@;
        let ghost p = |i: int|
            !s.consumed(i) && !is_stashable(s.events[i]) && !is_update(s.events[i]);
        let mut i: usize = from;
        while i < self.events.len() && (self.is_consumed(i) || is_stashable_event(&self.events[i])
            || is_update_event(&self.events[i]))
            invariant
                s == self@,
                from <= i <= s.len(),
                p == (|i: int|
                    !s.consumed(i) && !is_stashable(s.events[i]) && !is_update(s.events[i])),
                forall|j: int| from <= j < i ==> !#[trigger] p(j),
            decreases s.len() - i,
        {
            assert(!p(i as int));
            i += 1;
        }
        proof {
            lemma_first_index_is(p, from as int, s.len(), i as int);
        }
        i
    }

    /// Whether a race between a child and that timer is recorded where the next
    /// command is looked for. Nothing is consumed.
    ///
    /// The timer tells this race from the next one of the same kind.
    pub fn peek_child_start_at_cursor(&self, expected_timer_id: &str) -> (r: bool)
        requires
            self.wf(),
        ensures
            r == self@.child_race_next(expected_timer_id@),
    {
        let child = self.skip_to_structural(self.cursor);
        if child >= self.events.len() {
            return false;
        }
        match &self.events[child] {
            WorkflowEvent::ChildWorkflowStarted { .. } => {},
            _ => {
                return false;
            },
        }
        let deadline = self.skip_to_structural(child + 1);
        deadline < self.events.len() && is_timer_started(&self.events[deadline], expected_timer_id)
    }
}

// ── Children that nobody waits for ──────────────────────────────────────────
impl Replay {
    /// What matching the spawn of a detached child yields: past the end nothing;
    /// at another event, name, input or policy a divergence; else the recorded
    /// child.
    pub open spec fn detached_child(
        self,
        name: Seq<char>,
        input: JsonView,
        policy: ParentClosePolicy,
    ) -> (Replay, HistoryMatchView) {
        let s = self.prepared();
        if !s.replaying() {
            (s, HistoryMatchView::NoMatch)
        } else {
            match s.events[s.cursor] {
                WorkflowEvent::ChildWorkflowSpawnedDetached {
                    child_id,
                    workflow_name,
                    input: recorded_input,
                    parent_close_policy,
                } => if workflow_name@ != name {
                    (
                        s,
                        diverged_at(
                            tagged("ChildWorkflowSpawnedDetached"@, name),
                            tagged("ChildWorkflowSpawnedDetached"@, workflow_name@),
                            s.cursor,
                        ),
                    )
                } else if !json_same(json_view(recorded_input), input) {
                    (
                        s,
                        diverged_at(
                            tagged("DetachedChildWorkflowInput"@, json_text(input)),
                            tagged(
                                "DetachedChildWorkflowInput"@,
                                json_text(json_view(recorded_input)),
                            ),
                            s.cursor,
                        ),
                    )
                } else if parent_close_policy != policy {
                    (
                        s,
                        diverged_at(
                            tagged("DetachedChildWorkflowPolicy"@, policy.name()),
                            tagged("DetachedChildWorkflowPolicy"@, parent_close_policy.name()),
                            s.cursor,
                        ),
                    )
                } else {
                    (
                        s.moved_to(s.cursor + 1),
                        HistoryMatchView::DetachedChildSpawned { child_id },
                    )
                },
                other => (
                    s,
                    diverged_at(
                        tagged("ChildWorkflowSpawnedDetached"@, name),
                        event_label(other),
                        s.cursor,
                    ),
                ),
            }
        }
    }
}

impl HistoryMatcher {
    /// Matches the spawn of a detached child against history; it has to stand at
    /// the cursor.
    pub fn match_detached_child_spawn(
        &mut self,
        workflow_name: &str,
        input: &Value,
        parent_close_policy: ParentClosePolicy,
    ) -> (r: HistoryMatch)
        requires
            old(self).wf(),
        ensures
            final(self).wf(),
            old(self)@.evolves_to(final(self)@),
            (final(self)@, r@) == old(self)@.detached_child(
                workflow_name@,
                json_view(*input),
                parent_close_policy,
            ),
    {
        let ghost start = self@;
        proof {
            lemma_prepared(start);
        }
        if !self.prepare_match() {
            return HistoryMatch::NoMatch;
        }
        let ghost s = self@;
        let here = self.cursor;
        let child_id = match &self.events[here] {
            WorkflowEvent::ChildWorkflowSpawnedDetached {
                child_id,
                workflow_name: recorded_name,
                input: recorded_input,
                parent_close_policy: recorded_policy,
            } => {
                if !str_eq(recorded_name.as_str(), workflow_name) {
                    return diverged(
                        tag("ChildWorkflowSpawnedDetached", workflow_name),
                        tag("ChildWorkflowSpawnedDetached", recorded_name.as_str()),
                        here,
                    );
                }
                if !json_eq(recorded_input, input) {
                    return diverged(
                        tag("DetachedChildWorkflowInput", json_display(input).as_str()),
                        tag("DetachedChildWorkflowInput", json_display(recorded_input).as_str()),
                        here,
                    );
                }
                if *recorded_policy != parent_close_policy {
                    return diverged(
                        tag("DetachedChildWorkflowPolicy", parent_close_policy.as_str()),
                        tag("DetachedChildWorkflowPolicy", recorded_policy.as_str()),
                        here,
                    );
                }
                *child_id
            },
            other => {
                return diverged(
                    tag("ChildWorkflowSpawnedDetached", workflow_name),
                    actual_event_name(other),
                    here,
                );
            },
        };
        self.claim_at_cursor();
        proof {
            lemma_evolves_transitive(start, s, self@);
        }
        HistoryMatch::DetachedChildSpawned { child_id }
    }
}

} // verus!
