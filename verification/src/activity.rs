//! Activities: run by a worker, in the worker itself, or by an outside system.
use crate::event::WorkflowEvent;
use crate::json::{json_display, json_eq, json_same, json_text, json_view, opt_json, JsonView};
use crate::kinds::{actual_event_name, event_label};
use crate::matcher::HistoryMatcher;
use crate::moves::{
    lemma_at, lemma_evolves_transitive, lemma_moved_to, lemma_prepared, lemma_scan_end,
    lemma_scan_stop, lemma_stashed_frame,
};
use crate::outcome::{
    diverged, diverged_at, HistoryMatch, HistoryMatchView, LocalActivityResolution,
};
use crate::replay::Replay;
use crate::scan::{local_failure, Scan, ScanView};
use crate::search::{first_index, lemma_first_index_is};
use crate::text::{glue, str_eq, tag, tagged};
use crate::types::{opt_text, ActivityExecId, ExternalActivityToken};
use serde_json::Value;
use vstd::prelude::*;

verus! {

/// A name with the text of an input: `name, input=..`.
pub open spec fn labelled(name: Seq<char>, text: Seq<char>) -> Seq<char> {
    name + ", input="@ + text
}

/// Assembles [`labelled`].
pub fn label(name: &str, text: &str) -> (r: String)
    ensures
        r@ == labelled(name@, text@),
{
    glue(glue(name, ", input=").as_str(), text)
}

/// A name with the display text of an input.
pub open spec fn with_input(name: Seq<char>, input: JsonView) -> Seq<char> {
    labelled(name, json_text(input))
}

/// Assembles [`with_input`].
pub(crate) fn name_with_input(name: &str, input: &Value) -> (r: String)
    ensures
        r@ == with_input(name@, json_view(*input)),
{
    label(name, json_display(input).as_str())
}

/// A failure of untyped origin: the class is `"Error"` and nothing else is known
/// of it.
pub open spec fn untyped_failure(error: Seq<char>, attempt: u32) -> HistoryMatchView {
    HistoryMatchView::Failed {
        error,
        attempt,
        error_type: "Error"@,
        details: None,
        non_retryable: false,
    }
}

/// A failure of untyped origin.
pub(crate) fn fail_untyped(error: String, attempt: u32) -> (r: HistoryMatch)
    ensures
        r@ == untyped_failure(error@, attempt),
{
    HistoryMatch::Failed {
        error,
        attempt,
        error_type: "Error".to_string(),
        details: None,
        non_retryable: false,
    }
}

// ── Activities run by a worker ──────────────────────────────────────────────
/// What the recorded outcome of an activity gives back.
pub open spec fn activity_result(e: WorkflowEvent) -> HistoryMatchView {
    match e {
        WorkflowEvent::ActivityCompleted { output, .. } => HistoryMatchView::Matched {
            output: json_view(output),
        },
        WorkflowEvent::ActivityFailed {
            error,
            attempt,
            error_type,
            details,
            non_retryable,
            ..
        } => HistoryMatchView::Failed {
            error: error@,
            attempt,
            error_type: error_type@,
            details: opt_json(details),
            non_retryable,
        },
        WorkflowEvent::ActivityTimedOut { timeout_type, .. } => HistoryMatchView::TimedOut {
            timeout_type,
        },
        _ => HistoryMatchView::NoMatch,
    }
}

impl Replay {
    /// What is found of the activity `id` from the cursor on.
    pub open spec fn activity_from_here(self, id: ActivityExecId) -> (Replay, HistoryMatchView) {
        let scan = ScanView::Activity(id);
        let stop = self.scan_stop(scan, self.cursor, self.len());
        let command = self.scan_command(scan, self.cursor, self.len());
        let scanned = self.scanned(scan, self.cursor, self.len());
        if self.scan_hits(scan, self.cursor, self.len()) {
            (scanned.settled_outcome(stop, command), activity_result(self.events[stop]))
        } else {
            (scanned.rewound(command), HistoryMatchView::ActivityInProgress { activity_id: id })
        }
    }

    /// What matching the activity `name` yields, with the input compared where
    /// one is given: past the end nothing; at another event, name or input a
    /// divergence; else what is found of the activity further on.
    pub open spec fn activity(
        self,
        name: Seq<char>,
        input: Option<JsonView>,
    ) -> (Replay, HistoryMatchView) {
        let s = self.prepared();
        if !s.replaying() {
            (s, HistoryMatchView::NoMatch)
        } else {
            match s.events[s.cursor] {
                WorkflowEvent::ActivityScheduled {
                    activity_id,
                    name: recorded_name,
                    input: recorded_input,
                    ..
                } => if recorded_name@ != name {
                    (
                        s,
                        diverged_at(
                            tagged("ActivityScheduled"@, name),
                            tagged("ActivityScheduled"@, recorded_name@),
                            s.cursor,
                        ),
                    )
                } else if input is Some && !json_same(json_view(recorded_input), input.unwrap()) {
                    (
                        s,
                        diverged_at(
                            tagged(
                                "ActivityScheduled"@,
                                with_input(name, json_view(recorded_input)),
                            ),
                            tagged("ActivityScheduled"@, with_input(name, input.unwrap())),
                            s.cursor,
                        ),
                    )
                } else {
                    s.at(s.cursor + 1).activity_from_here(activity_id)
                },
                other => (
                    s,
                    diverged_at(
                        tagged("ActivityScheduled"@, name),
                        event_label(other),
                        s.cursor,
                    ),
                ),
            }
        }
    }
}

impl HistoryMatcher {
    /// Looks for the outcome of the activity `activity_id` from the cursor on.
    fn scan_activity_terminal(&mut self, activity_id: ActivityExecId) -> (r: HistoryMatch)
        requires
            old(self).wf(),
        ensures
            final(self).wf(),
            old(self)@.evolves_to(final(self)@),
            (final(self)@, r@) == old(self)@.activity_from_here(activity_id),
    {
        let ghost s = self@;
        let ghost scan = ScanView::Activity(activity_id);
        proof {
            lemma_scan_end(s, scan, s.cursor, s.len());
            lemma_scan_stop(s, scan, s.cursor, s.len());
        }
        let from = self.cursor;
        let end = self.events.len();
        let found = self.scan(&Scan::Activity(activity_id), from, end);
        if !found.hit {
            self.rewind_to(found.command);
            return HistoryMatch::ActivityInProgress { activity_id };
        }
        let result = match &self.events[found.stop] {
            WorkflowEvent::ActivityCompleted { output, .. } => HistoryMatch::Matched {
                output: output.clone(),
            },
            WorkflowEvent::ActivityFailed {
                error,
                attempt,
                error_type,
                details,
                non_retryable,
                ..
            } => HistoryMatch::Failed {
                error: error.clone(),
                attempt: *attempt,
                error_type: error_type.clone(),
                details: details.clone(),
                non_retryable: *non_retryable,
            },
            WorkflowEvent::ActivityTimedOut { timeout_type, .. } => HistoryMatch::TimedOut {
                timeout_type: *timeout_type,
            },
            _ => HistoryMatch::NoMatch,
        };
        self.settle_terminal(found.stop, found.command);
        result
    }

    /// Matches the activity `activity_name`, comparing the input where one is
    /// given.
    fn match_scheduled_activity(&mut self, activity_name: &str, input: Option<&Value>) -> (r:
        HistoryMatch)
        requires
            old(self).wf(),
        ensures
            final(self).wf(),
            old(self)@.evolves_to(final(self)@),
            (final(self)@, r@) == old(self)@.activity(
                activity_name@,
                match input {
                    Some(v) => Some(json_view(*v)),
                    None => None,
                },
            ),
    {
        let ghost start = self@;
        proof {
            lemma_prepared(start);
        }
        if !self.prepare_match() {
            return HistoryMatch::NoMatch;
        }
        let ghost s = self@;
        let here = self.cursor;
        let activity_id = match &self.events[here] {
            WorkflowEvent::ActivityScheduled { activity_id, name, input: recorded_input, .. } => {
                if !str_eq(name.as_str(), activity_name) {
                    return diverged(
                        tag("ActivityScheduled", activity_name),
                        tag("ActivityScheduled", name.as_str()),
                        here,
                    );
                }
                if let Some(input) = input {
                    if !json_eq(recorded_input, input) {
                        return diverged(
                            tag(
                                "ActivityScheduled",
                                name_with_input(activity_name, recorded_input).as_str(),
                            ),
                            tag("ActivityScheduled", name_with_input(activity_name, input).as_str()),
                            here,
                        );
                    }
                }
                *activity_id
            },
            other => {
                return diverged(
                    tag("ActivityScheduled", activity_name),
                    actual_event_name(other),
                    here,
                );
            },
        };
        self.step_over();
        proof {
            lemma_at(s, s.cursor + 1);
            lemma_evolves_transitive(start, s, self@);
        }
        let ghost moved = self@;
        let r = self.scan_activity_terminal(activity_id);
        proof {
            lemma_evolves_transitive(start, moved, self@);
        }
        r
    }

    /// Matches an activity command against history.
    ///
    /// Expects the scheduling of an activity of that name at the cursor, and
    /// looks ahead for its outcome.
    pub fn match_activity(&mut self, activity_name: &str) -> (r: HistoryMatch)
        requires
            old(self).wf(),
        ensures
            final(self).wf(),
            old(self)@.evolves_to(final(self)@),
            (final(self)@, r@) == old(self)@.activity(activity_name@, None),
    {
        self.match_scheduled_activity(activity_name, None)
    }

    /// Like [`HistoryMatcher::match_activity`], and compares the input.
    pub fn match_activity_strict(&mut self, activity_name: &str, input: &Value) -> (r: HistoryMatch)
        requires
            old(self).wf(),
        ensures
            final(self).wf(),
            old(self)@.evolves_to(final(self)@),
            (final(self)@, r@) == old(self)@.activity(activity_name@, Some(json_view(*input))),
    {
        self.match_scheduled_activity(activity_name, Some(input))
    }
}

// ── Activities completed by an outside system ───────────────────────────────
/// What the recorded outcome of an external activity gives back.
pub open spec fn external_activity_result(e: WorkflowEvent) -> HistoryMatchView {
    match e {
        WorkflowEvent::ActivityCompletedExternally { output, .. } => HistoryMatchView::Matched {
            output: json_view(output),
        },
        WorkflowEvent::ActivityFailedExternally { error, .. } => untyped_failure(error@, 1),
        WorkflowEvent::ActivityTimedOut { timeout_type, .. } => HistoryMatchView::TimedOut {
            timeout_type,
        },
        _ => HistoryMatchView::NoMatch,
    }
}

impl Replay {
    /// What is found of the external activity `id` from the cursor on.
    pub open spec fn external_activity_from_here(
        self,
        id: ActivityExecId,
        token: ExternalActivityToken,
    ) -> (Replay, HistoryMatchView) {
        let scan = ScanView::ExternalActivity(id);
        let stop = self.scan_stop(scan, self.cursor, self.len());
        let command = self.scan_command(scan, self.cursor, self.len());
        let scanned = self.scanned(scan, self.cursor, self.len());
        if self.scan_hits(scan, self.cursor, self.len()) {
            (scanned.settled_outcome(stop, command), external_activity_result(self.events[stop]))
        } else {
            (
                scanned.rewound(command),
                HistoryMatchView::AwaitingExternalCompletion { activity_id: id, token },
            )
        }
    }

    /// What matching the external activity `name` yields: past the end nothing;
    /// at another event or name a divergence; else what is found of the activity
    /// further on.
    pub open spec fn external_activity(self, name: Seq<char>) -> (Replay, HistoryMatchView) {
        let s = self.prepared();
        if !s.replaying() {
            (s, HistoryMatchView::NoMatch)
        } else {
            match s.events[s.cursor] {
                WorkflowEvent::ActivityAwaitingExternal {
                    activity_id,
                    token,
                    name: recorded_name,
                    ..
                } => if recorded_name@ != name {
                    (
                        s,
                        diverged_at(
                            tagged("ActivityAwaitingExternal"@, name),
                            tagged("ActivityAwaitingExternal"@, recorded_name@),
                            s.cursor,
                        ),
                    )
                } else {
                    s.at(s.cursor + 1).external_activity_from_here(activity_id, token)
                },
                other => (
                    s,
                    diverged_at(
                        tagged("ActivityAwaitingExternal"@, name),
                        event_label(other),
                        s.cursor,
                    ),
                ),
            }
        }
    }
}

impl HistoryMatcher {
    /// Matches an activity that an outside system completes against history.
    ///
    /// Expects the start of the wait at the cursor, and looks ahead for the
    /// completion, the failure or the timeout of the activity.
    pub fn match_external_activity(&mut self, activity_name: &str) -> (r: HistoryMatch)
        requires
            old(self).wf(),
        ensures
            final(self).wf(),
            old(self)@.evolves_to(final(self)@),
            (final(self)@, r@) == old(self)@.external_activity(activity_name@),
    {
        let ghost start = self@;
        proof {
            lemma_prepared(start);
        }
        if !self.prepare_match() {
            return HistoryMatch::NoMatch;
        }
        let ghost s = self@;
        let here = self.cursor;
        let (activity_id, token) = match &self.events[here] {
            WorkflowEvent::ActivityAwaitingExternal { activity_id, token, name, .. } => {
                if !str_eq(name.as_str(), activity_name) {
                    return diverged(
                        tag("ActivityAwaitingExternal", activity_name),
                        tag("ActivityAwaitingExternal", name.as_str()),
                        here,
                    );
                }
                (*activity_id, *token)
            },
            other => {
                return diverged(
                    tag("ActivityAwaitingExternal", activity_name),
                    actual_event_name(other),
                    here,
                );
            },
        };
        self.step_over();
        let ghost moved = self@;
        let ghost scan = ScanView::ExternalActivity(activity_id);
        proof {
            lemma_at(s, s.cursor + 1);
            lemma_evolves_transitive(start, s, moved);
            lemma_scan_end(moved, scan, moved.cursor, moved.len());
            lemma_scan_stop(moved, scan, moved.cursor, moved.len());
        }
        let from = self.cursor;
        let end = self.events.len();
        let found = self.scan(&Scan::ExternalActivity(activity_id), from, end);
        if !found.hit {
            self.rewind_to(found.command);
            proof {
                lemma_evolves_transitive(start, moved, self@);
            }
            return HistoryMatch::AwaitingExternalCompletion { activity_id, token };
        }
        let result = match &self.events[found.stop] {
            WorkflowEvent::ActivityCompletedExternally { output, .. } => HistoryMatch::Matched {
                output: output.clone(),
            },
            WorkflowEvent::ActivityFailedExternally { error, .. } => fail_untyped(error.clone(), 1),
            WorkflowEvent::ActivityTimedOut { timeout_type, .. } => HistoryMatch::TimedOut {
                timeout_type: *timeout_type,
            },
            _ => HistoryMatch::NoMatch,
        };
        self.settle_terminal(found.stop, found.command);
        proof {
            lemma_evolves_transitive(start, moved, self@);
        }
        result
    }
}

// ── Local activities ────────────────────────────────────────────────────────
/// What the recorded outcome of a local activity gives back.
pub open spec fn local_activity_result(e: WorkflowEvent) -> HistoryMatchView {
    match e {
        WorkflowEvent::LocalActivityCompleted { output, .. } => HistoryMatchView::Matched {
            output: json_view(output),
        },
        WorkflowEvent::LocalActivityExhausted { error, attempt, .. } => untyped_failure(
            error@,
            attempt,
        ),
        _ => HistoryMatchView::NoMatch,
    }
}

/// The error of a failed attempt of a local activity.
pub open spec fn attempt_error(e: WorkflowEvent) -> Seq<char> {
    match e {
        WorkflowEvent::LocalActivityFailed { error, .. } => error@,
        _ => Seq::empty(),
    }
}

/// Whether `e` schedules the local activity `id`.
pub open spec fn schedules_local(e: WorkflowEvent, id: ActivityExecId) -> bool {
    match e {
        WorkflowEvent::LocalActivityScheduled { activity_id, .. } => activity_id == id,
        _ => false,
    }
}

/// The settings recorded with the scheduling of a local activity.
pub open spec fn local_settings(e: WorkflowEvent) -> LocalActivityResolution {
    match e {
        WorkflowEvent::LocalActivityScheduled {
            resolved,
            retry_policy,
            start_to_close_nanos,
            ..
        } => LocalActivityResolution { resolved, retry_policy, start_to_close_nanos },
        _ => LocalActivityResolution::unresolved(),
    }
}

impl Replay {
    /// Whether a failed attempt of the local activity `id` that is still to be
    /// claimed stands at `i`.
    pub open spec fn failed_attempt(self, id: ActivityExecId, i: int) -> bool {
        !self.consumed(i) && local_failure(self.events[i], id)
    }

    /// How many failed attempts of the local activity `id` stand in `from..to`.
    pub open spec fn failed_attempts(self, id: ActivityExecId, from: int, to: int) -> nat
        decreases to - from,
    {
        if to <= from {
            0
        } else if self.failed_attempt(id, to - 1) {
            self.failed_attempts(id, from, to - 1) + 1
        } else {
            self.failed_attempts(id, from, to - 1)
        }
    }

    /// The error of the last failed attempt of the local activity `id` in
    /// `from..to`.
    pub open spec fn last_attempt_error(
        self,
        id: ActivityExecId,
        from: int,
        to: int,
    ) -> Option<Seq<char>>
        decreases to - from,
    {
        if to <= from {
            None
        } else if self.failed_attempt(id, to - 1) {
            Some(attempt_error(self.events[to - 1]))
        } else {
            self.last_attempt_error(id, from, to - 1)
        }
    }

    /// How many failed attempts of the local activity `id` are met from the
    /// cursor on.
    pub open spec fn attempts_from_here(self, id: ActivityExecId) -> nat {
        self.failed_attempts(
            id,
            self.cursor,
            self.scan_stop(ScanView::LocalActivity(id), self.cursor, self.len()),
        )
    }

    /// What is found of the local activity `id` from the cursor on. Without an
    /// outcome the cursor moves past recorded failed attempts, unless a command
    /// was crossed.
    pub open spec fn local_activity_from_here(
        self,
        id: ActivityExecId,
    ) -> (Replay, HistoryMatchView) {
        let scan = ScanView::LocalActivity(id);
        let stop = self.scan_stop(scan, self.cursor, self.len());
        let command = self.scan_command(scan, self.cursor, self.len());
        let scanned = self.scanned(scan, self.cursor, self.len());
        let attempts = self.attempts_from_here(id);
        if self.scan_hits(scan, self.cursor, self.len()) {
            (scanned.settled_outcome(stop, command), local_activity_result(self.events[stop]))
        } else {
            (
                if command is None && attempts > 0 {
                    scanned.moved_to(stop)
                } else {
                    scanned.rewound(command)
                },
                HistoryMatchView::LocalActivityInProgress {
                    activity_id: id,
                    failed_attempts: attempts as u32,
                    last_error: self.last_attempt_error(id, self.cursor, stop),
                },
            )
        }
    }

    /// What matching the local activity `name` yields, with the input compared
    /// where one is given: past the end nothing; at another event, name or input
    /// a divergence; else what is found of the activity further on.
    pub open spec fn local_activity(
        self,
        name: Seq<char>,
        input: Option<JsonView>,
    ) -> (Replay, HistoryMatchView) {
        let s = self.prepared();
        if !s.replaying() {
            (s, HistoryMatchView::NoMatch)
        } else {
            match s.events[s.cursor] {
                WorkflowEvent::LocalActivityScheduled {
                    activity_id,
                    name: recorded_name,
                    input: recorded_input,
                    ..
                } => if recorded_name@ != name {
                    (
                        s,
                        diverged_at(
                            tagged("LocalActivityScheduled"@, name),
                            tagged("LocalActivityScheduled"@, recorded_name@),
                            s.cursor,
                        ),
                    )
                } else if input is Some && !json_same(json_view(recorded_input), input.unwrap()) {
                    (
                        s,
                        diverged_at(
                            tagged(
                                "LocalActivityScheduled"@,
                                with_input(name, json_view(recorded_input)),
                            ),
                            tagged("LocalActivityScheduled"@, with_input(name, input.unwrap())),
                            s.cursor,
                        ),
                    )
                } else {
                    s.at(s.cursor + 1).local_activity_from_here(activity_id)
                },
                other => (
                    s,
                    diverged_at(
                        tagged("LocalActivityScheduled"@, name),
                        event_label(other),
                        s.cursor,
                    ),
                ),
            }
        }
    }

    /// As [`Replay::local_activity`] with the input compared; an activity that is
    /// scheduled and was never attempted counts as new.
    pub open spec fn local_activity_strict(
        self,
        name: Seq<char>,
        input: JsonView,
    ) -> (Replay, HistoryMatchView) {
        let (s, r) = self.local_activity(name, Some(input));
        match r {
            HistoryMatchView::LocalActivityInProgress { failed_attempts, .. } => if failed_attempts
                == 0 {
                (s, HistoryMatchView::NoMatch)
            } else {
                (s, r)
            },
            _ => (s, r),
        }
    }

    /// How many failed attempts are met when the local activity at the cursor is
    /// matched.
    pub open spec fn attempts_at_cursor(self) -> nat {
        let s = self.prepared();
        match s.events[s.cursor] {
            WorkflowEvent::LocalActivityScheduled { activity_id, .. } => if s.replaying() {
                s.at(s.cursor + 1).attempts_from_here(activity_id)
            } else {
                0
            },
            _ => 0,
        }
    }

    /// The settings that the local activity `id` was scheduled under.
    pub open spec fn local_resolution(self, id: ActivityExecId) -> LocalActivityResolution {
        let k = first_index(|i: int| schedules_local(self.events[i], id), 0, self.len());
        if k < self.len() {
            local_settings(self.events[k])
        } else {
            LocalActivityResolution::unresolved()
        }
    }

    /// How many schedulings of activities that are still to be claimed stand in
    /// `from..to`.
    pub open spec fn open_scheduled(self, from: int, to: int) -> nat
        decreases to - from,
    {
        if to <= from {
            0
        } else if !self.consumed(to - 1) && self.events[to - 1] is ActivityScheduled {
            self.open_scheduled(from, to - 1) + 1
        } else {
            self.open_scheduled(from, to - 1)
        }
    }
}

/// A longer range holds no fewer failed attempts.
proof fn lemma_failed_attempts_grow(s: Replay, id: ActivityExecId, from: int, a: int, b: int)
    requires
        a <= b,
    ensures
        s.failed_attempts(id, from, a) <= s.failed_attempts(id, from, b),
    decreases b - a,
{
    if a < b {
        lemma_failed_attempts_grow(s, id, from, a, b - 1);
    }
}

/// A range holds no more failed attempts than events.
proof fn lemma_failed_attempts_within(s: Replay, id: ActivityExecId, from: int, to: int)
    requires
        from <= to,
    ensures
        s.failed_attempts(id, from, to) <= to - from,
    decreases to - from,
{
    if from < to {
        lemma_failed_attempts_within(s, id, from, to - 1);
    }
}

/// No more failed attempts are met than the history has events.
proof fn lemma_attempts_at_cursor(s: Replay)
    requires
        s.wf(),
    ensures
        s.attempts_at_cursor() <= s.len(),
{
    lemma_prepared(s);
    let p = s.prepared();
    if p.replaying() {
        match p.events[p.cursor] {
            WorkflowEvent::LocalActivityScheduled { activity_id, .. } => {
                let q = p.at(p.cursor + 1);
                let scan = ScanView::LocalActivity(activity_id);
                lemma_scan_stop(q, scan, q.cursor, q.len());
                lemma_failed_attempts_within(
                    q,
                    activity_id,
                    q.cursor,
                    q.scan_stop(scan, q.cursor, q.len()),
                );
            },
            _ => {},
        }
    }
}

/// A longer range holds no fewer schedulings, and a range no more than its
/// length.
proof fn lemma_open_scheduled_grow(s: Replay, from: int, a: int, b: int)
    requires
        from <= a <= b,
    ensures
        s.open_scheduled(from, a) <= s.open_scheduled(from, b),
        s.open_scheduled(from, a) <= a - from,
    decreases b - from,
{
    if from < b {
        if a < b {
            lemma_open_scheduled_grow(s, from, a, b - 1);
        } else {
            lemma_open_scheduled_grow(s, from, a - 1, b - 1);
        }
    }
}

impl HistoryMatcher {
    /// Looks for the outcome of the local activity `activity_id` from the cursor
    /// on.
    fn scan_local_activity_terminal(&mut self, activity_id: ActivityExecId) -> (r: HistoryMatch)
        requires
            old(self).wf(),
            old(self)@.attempts_from_here(activity_id) <= u32::MAX,
        ensures
            final(self).wf(),
            old(self)@.evolves_to(final(self)@),
            (final(self)@, r@) == old(self)@.local_activity_from_here(activity_id),
    {
        let ghost s = self@;
        let ghost scan = ScanView::LocalActivity(activity_id);
        let ghost stop = s.scan_stop(scan, s.cursor, s.len());
        proof {
            lemma_scan_end(s, scan, s.cursor, s.len());
            lemma_scan_stop(s, scan, s.cursor, s.len());
            lemma_stashed_frame(s, scan, s.cursor, stop);
        }
        let from = self.cursor;
        let end = self.events.len();
        let found = self.scan(&Scan::LocalActivity(activity_id), from, end);
        if found.hit {
            let result = match &self.events[found.stop] {
                WorkflowEvent::LocalActivityCompleted { output, .. } => HistoryMatch::Matched {
                    output: output.clone(),
                },
                WorkflowEvent::LocalActivityExhausted { error, attempt, .. } => fail_untyped(
                    error.clone(),
                    *attempt,
                ),
                _ => HistoryMatch::NoMatch,
            };
            self.settle_terminal(found.stop, found.command);
            return result;
        }
        let ghost t = self@;
        let mut failed_attempts: u32 = 0;
        let mut last_error: Option<String> = None;
        let mut i: usize = from;
        while i < found.stop
            invariant
                from <= i <= found.stop <= self.events@.len(),
                from == s.cursor,
                found.stop == stop,
                stop == s.scan_stop(scan, s.cursor, s.len()),
                scan == ScanView::LocalActivity(activity_id),
                t == s.stashed(scan, s.cursor, stop),
                self@ == t,
                s.attempts_from_here(activity_id) <= u32::MAX,
                failed_attempts == s.failed_attempts(activity_id, from as int, i as int),
                opt_text(last_error) == s.last_attempt_error(activity_id, from as int, i as int),
            decreases found.stop - i,
        {
            proof {
                lemma_stashed_frame(s, scan, s.cursor, stop);
                lemma_failed_attempts_grow(s, activity_id, from as int, i + 1, stop);
                assert(t.consumed(i as int) == (s.consumed(i as int) || s.step_at(
                    scan,
                    i as int,
                ) is Stash));
            }
            if !self.is_consumed(i) {
                if let WorkflowEvent::LocalActivityFailed { activity_id: id, error, .. } =
                    &self.events[i] {
                    if *id == activity_id {
                        failed_attempts = failed_attempts + 1;
                        last_error = Some(error.clone());
                    }
                }
            }
            i += 1;
        }
        if found.command.is_none() && failed_attempts > 0 {
            self.move_to(found.stop);
            proof {
                lemma_moved_to(t, stop);
                lemma_evolves_transitive(s, t, self@);
            }
        } else {
            self.rewind_to(found.command);
        }
        HistoryMatch::LocalActivityInProgress { activity_id, failed_attempts, last_error }
    }

    /// Matches the local activity `activity_name`, comparing the input where one
    /// is given.
    fn match_scheduled_local_activity(&mut self, activity_name: &str, input: Option<&Value>) -> (r:
        HistoryMatch)
        requires
            old(self).wf(),
            old(self)@.len() <= u32::MAX || old(self)@.attempts_at_cursor() <= u32::MAX,
        ensures
            final(self).wf(),
            old(self)@.evolves_to(final(self)@),
            (final(self)@, r@) == old(self)@.local_activity(
                activity_name@,
                match input {
                    Some(v) => Some(json_view(*v)),
                    None => None,
                },
            ),
    {
        let ghost start = self@;
        proof {
            lemma_prepared(start);
            lemma_attempts_at_cursor(start);
        }
        if !self.prepare_match() {
            return HistoryMatch::NoMatch;
        }
        let ghost s = self@;
        let here = self.cursor;
        let activity_id = match &self.events[here] {
            WorkflowEvent::LocalActivityScheduled {
                activity_id,
                name,
                input: recorded_input,
                ..
            } => {
                if !str_eq(name.as_str(), activity_name) {
                    return diverged(
                        tag("LocalActivityScheduled", activity_name),
                        tag("LocalActivityScheduled", name.as_str()),
                        here,
                    );
                }
                if let Some(input) = input {
                    if !json_eq(recorded_input, input) {
                        return diverged(
                            tag(
                                "LocalActivityScheduled",
                                name_with_input(activity_name, recorded_input).as_str(),
                            ),
                            tag(
                                "LocalActivityScheduled",
                                name_with_input(activity_name, input).as_str(),
                            ),
                            here,
                        );
                    }
                }
                *activity_id
            },
            other => {
                return diverged(
                    tag("LocalActivityScheduled", activity_name),
                    actual_event_name(other),
                    here,
                );
            },
        };
        self.step_over();
        let ghost moved = self@;
        proof {
            lemma_at(s, s.cursor + 1);
            lemma_evolves_transitive(start, s, moved);
        }
        let r = self.scan_local_activity_terminal(activity_id);
        proof {
            lemma_evolves_transitive(start, moved, self@);
        }
        r
    }

    /// Matches a local activity command against history.
    ///
    /// Expects the scheduling of a local activity of that name at the cursor,
    /// and looks ahead for its completion or its exhaustion; failed attempts in
    /// between are counted. The count has to fit, as it does in every history of
    /// fewer than four billion events.
    pub fn match_local_activity(&mut self, activity_name: &str) -> (r: HistoryMatch)
        requires
            old(self).wf(),
            old(self)@.len() <= u32::MAX || old(self)@.attempts_at_cursor() <= u32::MAX,
        ensures
            final(self).wf(),
            old(self)@.evolves_to(final(self)@),
            (final(self)@, r@) == old(self)@.local_activity(activity_name@, None),
    {
        self.match_scheduled_local_activity(activity_name, None)
    }

    /// Like [`HistoryMatcher::match_local_activity`], and compares the input. An
    /// activity that was scheduled and never attempted counts as new.
    pub fn match_local_activity_strict(&mut self, activity_name: &str, input: &Value) -> (r:
        HistoryMatch)
        requires
            old(self).wf(),
            old(self)@.len() <= u32::MAX || old(self)@.attempts_at_cursor() <= u32::MAX,
        ensures
            final(self).wf(),
            old(self)@.evolves_to(final(self)@),
            (final(self)@, r@) == old(self)@.local_activity_strict(
                activity_name@,
                json_view(*input),
            ),
    {
        match self.match_scheduled_local_activity(activity_name, Some(input)) {
            HistoryMatch::LocalActivityInProgress { failed_attempts: 0, .. } =>
                HistoryMatch::NoMatch,
            other => other,
        }
    }

    /// The settings that the local activity `activity_id` was scheduled under,
    /// as recorded with its first scheduling; unresolved where there is none.
    pub fn recorded_local_activity_resolution(&self, activity_id: ActivityExecId) -> (r:
        LocalActivityResolution)
        ensures
            r == self@.local_resolution(activity_id),
    {
        let ghost s = self@;
        let ghost p = |i: int| schedules_local(s.events[i], activity_id);
        let mut i: usize = 0;
        while i < self.events.len()
            invariant
                s == self@,
                i <= s.len(),
                p == (|i: int| schedules_local(s.events[i], activity_id)),
                forall|j: int| 0 <= j < i ==> !#[trigger] p(j),
            decreases s.len() - i,
        {
            if let WorkflowEvent::LocalActivityScheduled {
                activity_id: id,
                resolved,
                retry_policy,
                start_to_close_nanos,
                ..
            } = &self.events[i] {
                if *id == activity_id {
                    proof {
                        lemma_first_index_is(p, 0, s.len(), i as int);
                    }
                    return LocalActivityResolution {
                        resolved: *resolved,
                        retry_policy: *retry_policy,
                        start_to_close_nanos: *start_to_close_nanos,
                    };
                }
            }
            assert(!p(i as int));
            i += 1;
        }
        proof {
            lemma_first_index_is(p, 0, s.len(), i as int);
        }
        LocalActivityResolution::default()
    }

    /// How many schedulings of activities from the cursor on are still to be
    /// claimed, counted up to `cap`.
    pub fn count_pending_scheduled_activities(&self, cap: usize) -> (r: usize)
        requires
            self.wf(),
        ensures
            r == (if self@.open_scheduled(self@.cursor, self@.len()) < cap {
                self@.open_scheduled(self@.cursor, self@.len())
            } else {
                cap as nat
            }),
    {
        let ghost s = self@;
        let mut n: usize = 0;
        let mut i: usize = self.cursor;
        while i < self.events.len() && n < cap
            invariant
                s == self@,
                s.cursor <= i <= s.len(),
                n <= cap,
                n == s.open_scheduled(s.cursor, i as int),
            decreases s.len() - i,
        {
            proof {
                lemma_open_scheduled_grow(s, s.cursor, i as int, s.len());
            }
            if !self.is_consumed(i) {
                if let WorkflowEvent::ActivityScheduled { .. } = &self.events[i] {
                    n += 1;
                }
            }
            i += 1;
        }
        proof {
            lemma_open_scheduled_grow(s, s.cursor, i as int, s.len());
        }
        n
    }
}

} // verus!
