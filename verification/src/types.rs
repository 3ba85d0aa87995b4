//! Identifiers and small vocabulary types of recorded histories.
use crate::text::str_eq;
use vstd::prelude::*;

verus! {

// ── Identifiers ─────────────────────────────────────────────────────────────
/// Identifies one activity execution.
#[derive(Debug, Clone, Copy, PartialEq, Eq, Hash, Structural)]
pub struct ActivityExecId(pub u128);

/// Identifies one workflow execution.
#[derive(Debug, Clone, Copy, PartialEq, Eq, Hash, Structural)]
pub struct ExecutionId(pub u128);

/// The token under which an outside system completes an activity.
#[derive(Debug, Clone, Copy, PartialEq, Eq, Hash, Structural)]
pub struct ExternalActivityToken(pub u128);

/// Identifies one await of another workflow.
#[derive(Debug, Clone, Copy, PartialEq, Eq, Hash, Structural)]
pub struct ExternalAwaitId(pub u128);

/// Identifies one cancel request to another workflow.
#[derive(Debug, Clone, Copy, PartialEq, Eq, Hash, Structural)]
pub struct ExternalCancelId(pub u128);

/// Identifies one signal to another workflow.
#[derive(Debug, Clone, Copy, PartialEq, Eq, Hash, Structural)]
pub struct ExternalSignalId(pub u128);

/// Identifies one update of a workflow.
#[derive(Debug, Clone, Copy, PartialEq, Eq, Hash, Structural)]
pub struct UpdateId(pub u128);

/// Identifies one durable timer of a workflow by name.
#[derive(Debug, Clone, PartialEq, Eq, Hash)]
pub struct TimerId(pub String);

/// Names the worker that ran an activity.
#[derive(Debug, Clone, PartialEq, Eq, Hash)]
pub struct WorkerId(pub String);

impl View for TimerId {
    type V = Seq<char>;

    open spec fn view(&self) -> Seq<char> {
        self.0@
    }
}

impl TimerId {
    /// A timer id of the given name.
    pub fn new(name: &str) -> (r: TimerId)
        ensures
            r@ == name@,
    {
        TimerId(name.to_string())
    }

    /// The timer's name.
    pub fn as_str(&self) -> (r: &str)
        ensures
            r@ == self@,
    {
        self.0.as_str()
    }
}

impl WorkerId {
    /// A worker id of the given name.
    pub fn new(name: &str) -> (r: WorkerId)
        ensures
            r.0@ == name@,
    {
        WorkerId(name.to_string())
    }
}

// ── Instants ────────────────────────────────────────────────────────────────
/// A UTC instant: whole seconds since the Unix epoch, and the nanoseconds on
/// top of them.
#[derive(Debug, Clone, Copy, PartialEq, Eq, Hash, Structural)]
pub struct Timestamp {
    pub secs: i64,
    pub nanos: u32,
}

// ── Vocabulary ──────────────────────────────────────────────────────────────
/// The workflow that an external signal or cancel is addressed to.
#[derive(Debug, Clone, Copy, PartialEq, Eq, Hash, Structural)]
pub enum ExternalTarget {
    /// One execution, by its id.
    ExecutionId(ExecutionId),
}

/// What happens to a detached child when its parent closes.
#[derive(Debug, Clone, Copy, PartialEq, Eq, Hash, Structural)]
pub enum ParentClosePolicy {
    /// The child keeps running.
    Abandon,
    /// The child is asked to cancel.
    RequestCancel,
    /// The child is terminated.
    Terminate,
}

impl ParentClosePolicy {
    /// The policy's name.
    pub open spec fn name(self) -> Seq<char> {
        match self {
            ParentClosePolicy::Abandon => "abandon"@,
            ParentClosePolicy::RequestCancel => "request_cancel"@,
            ParentClosePolicy::Terminate => "terminate"@,
        }
    }

    /// The policy's name.
    pub fn as_str(self) -> (r: &'static str)
        ensures
            r@ == self.name(),
    {
        match self {
            ParentClosePolicy::Abandon => "abandon",
            ParentClosePolicy::RequestCancel => "request_cancel",
            ParentClosePolicy::Terminate => "terminate",
        }
    }
}

/// Which deterministic primitive captured a side effect.
#[derive(Debug, Clone, Copy, PartialEq, Eq, Hash, Structural)]
pub enum SideEffectKind {
    /// An author-named side effect.
    Custom,
    /// A wall-clock read.
    Now,
    /// A random number.
    Random,
    /// A fresh unique id.
    Uuid,
}

impl SideEffectKind {
    /// The kind's name.
    pub open spec fn name(self) -> Seq<char> {
        match self {
            SideEffectKind::Custom => "custom"@,
            SideEffectKind::Now => "now"@,
            SideEffectKind::Random => "random"@,
            SideEffectKind::Uuid => "uuid"@,
        }
    }

    /// The kind's name.
    pub fn as_str(self) -> (r: &'static str)
        ensures
            r@ == self.name(),
    {
        match self {
            SideEffectKind::Custom => "custom",
            SideEffectKind::Now => "now",
            SideEffectKind::Random => "random",
            SideEffectKind::Uuid => "uuid",
        }
    }
}

/// Which clock of an activity expired.
#[derive(Debug, Clone, Copy, PartialEq, Eq, Hash, Structural)]
pub enum TimeoutType {
    /// No worker picked the activity up in time.
    ScheduleToStart,
    /// One attempt ran too long.
    StartToClose,
    /// All attempts together ran too long.
    ScheduleToClose,
    /// The activity stopped reporting progress.
    Heartbeat,
}

/// How often and how fast a local activity is retried.
#[derive(Debug, Clone, Copy, PartialEq, Eq, Hash, Structural)]
pub struct RetryPolicy {
    pub max_attempts: u32,
    pub initial_interval_millis: u64,
    pub max_interval_millis: u64,
}

// ── Optional texts ──────────────────────────────────────────────────────────
/// What an optional string holds.
pub open spec fn opt_text(s: Option<String>) -> Option<Seq<char>> {
    match s {
        Some(s) => Some(s@),
        None => None,
    }
}

/// What an optional string slice holds.
pub open spec fn opt_str(s: Option<&str>) -> Option<Seq<char>> {
    match s {
        Some(s) => Some(s@),
        None => None,
    }
}

/// Copies an optional string.
pub(crate) fn clone_text(s: &Option<String>) -> (r: Option<String>)
    ensures
        opt_text(r) == opt_text(*s),
{
    match s {
        Some(s) => Some(s.clone()),
        None => None,
    }
}

/// Whether a recorded optional string is the requested one.
pub(crate) fn opt_text_eq(recorded: &Option<String>, requested: Option<&str>) -> (r: bool)
    ensures
        r == (opt_text(*recorded) == opt_str(requested)),
{
    match (recorded, requested) {
        (Some(a), Some(b)) => str_eq(a.as_str(), b),
        (None, None) => true,
        _ => false,
    }
}

} // verus!
