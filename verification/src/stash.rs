//! Events that were taken out of history ahead of the command that claims them.
use crate::json::{json_view, opt_json, JsonView};
use crate::search::{first_index, lemma_first_index_is};
use crate::text::str_eq;
use crate::types::{
    opt_text, ExecutionId, ExternalAwaitId, ExternalCancelId, ExternalSignalId, ExternalTarget,
};
use serde_json::Value;
use vstd::prelude::*;

verus! {

// ── Signals ─────────────────────────────────────────────────────────────────
/// A received signal that no wait has claimed yet.
#[derive(Debug, Clone)]
pub struct PendingSignal {
    pub name: String,
    pub payload: Value,
    /// Where in history the signal was recorded.
    pub index: usize,
}

/// What a [`PendingSignal`] holds.
pub struct PendingSignalView {
    pub name: Seq<char>,
    pub payload: JsonView,
    pub index: int,
}

impl View for PendingSignal {
    type V = PendingSignalView;

    open spec fn view(&self) -> PendingSignalView {
        PendingSignalView {
            name: self.name@,
            payload: json_view(self.payload),
            index: self.index as int,
        }
    }
}

/// What a queue of pending signals holds.
pub open spec fn pending_view(list: Seq<PendingSignal>) -> Seq<PendingSignalView> {
    list.map_values(|s: PendingSignal| s@)
}

// ── External signals ────────────────────────────────────────────────────────
/// The recorded outcome of an external signal.
#[derive(Debug, Clone, PartialEq)]
pub enum StashedSignalTerminal {
    Delivered,
    Failed(String),
}

/// What a [`StashedSignalTerminal`] holds.
pub enum SignalTerminalView {
    Delivered,
    Failed(Seq<char>),
}

impl View for StashedSignalTerminal {
    type V = SignalTerminalView;

    open spec fn view(&self) -> SignalTerminalView {
        match *self {
            StashedSignalTerminal::Delivered => SignalTerminalView::Delivered,
            StashedSignalTerminal::Failed(reason) => SignalTerminalView::Failed(reason@),
        }
    }
}

/// A requested external signal, with its outcome once that was met.
#[derive(Debug, Clone)]
pub struct StashedExternalSignal {
    pub signal_id: ExternalSignalId,
    pub target: ExternalTarget,
    pub signal_name: String,
    pub payload: Value,
    pub idempotency_key: Option<String>,
    pub terminal: Option<StashedSignalTerminal>,
}

/// What a [`StashedExternalSignal`] holds.
pub struct ExternalSignalView {
    pub signal_id: ExternalSignalId,
    pub target: ExternalTarget,
    pub signal_name: Seq<char>,
    pub payload: JsonView,
    pub idempotency_key: Option<Seq<char>>,
    pub terminal: Option<SignalTerminalView>,
}

impl View for StashedExternalSignal {
    type V = ExternalSignalView;

    open spec fn view(&self) -> ExternalSignalView {
        ExternalSignalView {
            signal_id: self.signal_id,
            target: self.target,
            signal_name: self.signal_name@,
            payload: json_view(self.payload),
            idempotency_key: opt_text(self.idempotency_key),
            terminal: match self.terminal {
                Some(t) => Some(t@),
                None => None,
            },
        }
    }
}

/// What a list of external signals holds.
pub open spec fn signals_view(list: Seq<StashedExternalSignal>) -> Seq<ExternalSignalView> {
    list.map_values(|s: StashedExternalSignal| s@)
}

/// Where the list first holds the signal `id`; its length when nowhere.
pub open spec fn signal_position(list: Seq<ExternalSignalView>, id: ExternalSignalId) -> int {
    first_index(|k: int| list[k].signal_id == id, 0, list.len() as int)
}

/// The list with the outcome of the signal `id` noted at its first entry.
pub open spec fn signal_resolved(
    list: Seq<ExternalSignalView>,
    id: ExternalSignalId,
    terminal: SignalTerminalView,
) -> Seq<ExternalSignalView> {
    let k = signal_position(list, id);
    if k < list.len() {
        list.update(k, ExternalSignalView { terminal: Some(terminal), ..list[k] })
    } else {
        list
    }
}

/// Where the list first holds a signal of that name to that target; its length
/// when nowhere.
pub open spec fn signal_to(
    list: Seq<ExternalSignalView>,
    target: ExternalTarget,
    name: Seq<char>,
) -> int {
    first_index(
        |k: int| list[k].target == target && list[k].signal_name == name,
        0,
        list.len() as int,
    )
}

/// Whether the list holds the signal `id`.
pub(crate) fn holds_signal(list: &Vec<StashedExternalSignal>, id: ExternalSignalId) -> (r: bool)
    ensures
        r == (signal_position(signals_view(list@), id) < list@.len()),
{
    let ghost view = signals_view(list@);
    let ghost p = |k: int| view[k].signal_id == id;
    let mut k: usize = 0;
    while k < list.len()
        invariant
            k <= list@.len(),
            view == signals_view(list@),
            p == (|k: int| view[k].signal_id == id),
            forall|j: int| 0 <= j < k ==> !#[trigger] p(j),
        decreases list@.len() - k,
    {
        if list[k].signal_id == id {
            proof {
                lemma_first_index_is(p, 0, view.len() as int, k as int);
            }
            return true;
        }
        assert(!p(k as int));
        k += 1;
    }
    proof {
        lemma_first_index_is(p, 0, view.len() as int, k as int);
    }
    false
}

/// Notes the outcome of the signal `id` at its first entry.
pub(crate) fn resolve_signal(
    list: &mut Vec<StashedExternalSignal>,
    id: ExternalSignalId,
    terminal: StashedSignalTerminal,
)
    ensures
        signals_view(final(list)@) == signal_resolved(signals_view(old(list)@), id, terminal@),
{
    let ghost view = signals_view(list@);
    let ghost p = |k: int| view[k].signal_id == id;
    let mut k: usize = 0;
    while k < list.len()
        invariant
            k <= list@.len(),
            list@ == old(list)@,
            view == signals_view(list@),
            p == (|k: int| view[k].signal_id == id),
            forall|j: int| 0 <= j < k ==> !#[trigger] p(j),
        decreases list@.len() - k,
    {
        if list[k].signal_id == id {
            proof {
                lemma_first_index_is(p, 0, view.len() as int, k as int);
            }
            list[k].terminal = Some(terminal);
            assert(signals_view(list@) =~= signal_resolved(view, id, terminal@));
            return ;
        }
        assert(!p(k as int));
        k += 1;
    }
    proof {
        lemma_first_index_is(p, 0, view.len() as int, k as int);
    }
}

/// Takes the first signal of that name to that target out of the list.
pub(crate) fn take_signal(
    list: &mut Vec<StashedExternalSignal>,
    target: &ExternalTarget,
    name: &str,
) -> (r: Option<StashedExternalSignal>)
    ensures
        ({
            let view = signals_view(old(list)@);
            let k = signal_to(view, *target, name@);
            match r {
                Some(s) => {
                    &&& 0 <= k < view.len()
                    &&& s@ == view[k]
                    &&& signals_view(final(list)@) == view.remove(k)
                },
                None => k == view.len() && final(list)@ == old(list)@,
            }
        }),
{
    let ghost view = signals_view(list@);
    let ghost p = |k: int| view[k].target == *target && view[k].signal_name == name@;
    let mut k: usize = 0;
    while k < list.len()
        invariant
            k <= list@.len(),
            list@ == old(list)@,
            view == signals_view(list@),
            p == (|k: int| view[k].target == *target && view[k].signal_name == name@),
            forall|j: int| 0 <= j < k ==> !#[trigger] p(j),
        decreases list@.len() - k,
    {
        if list[k].target == *target && str_eq(list[k].signal_name.as_str(), name) {
            proof {
                lemma_first_index_is(p, 0, view.len() as int, k as int);
            }
            let taken = list.remove(k);
            assert(signals_view(list@) =~= view.remove(k as int));
            return Some(taken);
        }
        assert(!p(k as int));
        k += 1;
    }
    proof {
        lemma_first_index_is(p, 0, view.len() as int, k as int);
    }
    None
}

// ── External cancels ────────────────────────────────────────────────────────
/// The recorded outcome of an external cancel.
#[derive(Debug, Clone, PartialEq)]
pub enum StashedCancelTerminal {
    Delivered,
    Failed(String),
}

/// What a [`StashedCancelTerminal`] holds.
pub enum CancelTerminalView {
    Delivered,
    Failed(Seq<char>),
}

impl View for StashedCancelTerminal {
    type V = CancelTerminalView;

    open spec fn view(&self) -> CancelTerminalView {
        match *self {
            StashedCancelTerminal::Delivered => CancelTerminalView::Delivered,
            StashedCancelTerminal::Failed(reason) => CancelTerminalView::Failed(reason@),
        }
    }
}

/// A requested external cancel, with its outcome once that was met.
#[derive(Debug, Clone)]
pub struct StashedExternalCancel {
    pub cancel_id: ExternalCancelId,
    pub target: ExternalTarget,
    pub terminal: Option<StashedCancelTerminal>,
}

/// What a [`StashedExternalCancel`] holds.
pub struct ExternalCancelView {
    pub cancel_id: ExternalCancelId,
    pub target: ExternalTarget,
    pub terminal: Option<CancelTerminalView>,
}

impl View for StashedExternalCancel {
    type V = ExternalCancelView;

    open spec fn view(&self) -> ExternalCancelView {
        ExternalCancelView {
            cancel_id: self.cancel_id,
            target: self.target,
            terminal: match self.terminal {
                Some(t) => Some(t@),
                None => None,
            },
        }
    }
}

/// What a list of external cancels holds.
pub open spec fn cancels_view(list: Seq<StashedExternalCancel>) -> Seq<ExternalCancelView> {
    list.map_values(|s: StashedExternalCancel| s@)
}

/// Where the list first holds the cancel `id`; its length when nowhere.
pub open spec fn cancel_position(list: Seq<ExternalCancelView>, id: ExternalCancelId) -> int {
    first_index(|k: int| list[k].cancel_id == id, 0, list.len() as int)
}

/// The list with the outcome of the cancel `id` noted at its first entry.
pub open spec fn cancel_resolved(
    list: Seq<ExternalCancelView>,
    id: ExternalCancelId,
    terminal: CancelTerminalView,
) -> Seq<ExternalCancelView> {
    let k = cancel_position(list, id);
    if k < list.len() {
        list.update(k, ExternalCancelView { terminal: Some(terminal), ..list[k] })
    } else {
        list
    }
}

/// Where the list first holds a cancel to that target; its length when nowhere.
pub open spec fn cancel_to(list: Seq<ExternalCancelView>, target: ExternalTarget) -> int {
    first_index(|k: int| list[k].target == target, 0, list.len() as int)
}

/// Whether the list holds the cancel `id`.
pub(crate) fn holds_cancel(list: &Vec<StashedExternalCancel>, id: ExternalCancelId) -> (r: bool)
    ensures
        r == (cancel_position(cancels_view(list@), id) < list@.len()),
{
    let ghost view = cancels_view(list@);
    let ghost p = |k: int| view[k].cancel_id == id;
    let mut k: usize = 0;
    while k < list.len()
        invariant
            k <= list@.len(),
            view == cancels_view(list@),
            p == (|k: int| view[k].cancel_id == id),
            forall|j: int| 0 <= j < k ==> !#[trigger] p(j),
        decreases list@.len() - k,
    {
        if list[k].cancel_id == id {
            proof {
                lemma_first_index_is(p, 0, view.len() as int, k as int);
            }
            return true;
        }
        assert(!p(k as int));
        k += 1;
    }
    proof {
        lemma_first_index_is(p, 0, view.len() as int, k as int);
    }
    false
}

/// Notes the outcome of the cancel `id` at its first entry.
pub(crate) fn resolve_cancel(
    list: &mut Vec<StashedExternalCancel>,
    id: ExternalCancelId,
    terminal: StashedCancelTerminal,
)
    ensures
        cancels_view(final(list)@) == cancel_resolved(cancels_view(old(list)@), id, terminal@),
{
    let ghost view = cancels_view(list@);
    let ghost p = |k: int| view[k].cancel_id == id;
    let mut k: usize = 0;
    while k < list.len()
        invariant
            k <= list@.len(),
            list@ == old(list)@,
            view == cancels_view(list@),
            p == (|k: int| view[k].cancel_id == id),
            forall|j: int| 0 <= j < k ==> !#[trigger] p(j),
        decreases list@.len() - k,
    {
        if list[k].cancel_id == id {
            proof {
                lemma_first_index_is(p, 0, view.len() as int, k as int);
            }
            list[k].terminal = Some(terminal);
            assert(cancels_view(list@) =~= cancel_resolved(view, id, terminal@));
            return ;
        }
        assert(!p(k as int));
        k += 1;
    }
    proof {
        lemma_first_index_is(p, 0, view.len() as int, k as int);
    }
}

/// Takes the first cancel to that target out of the list.
pub(crate) fn take_cancel(
    list: &mut Vec<StashedExternalCancel>,
    target: &ExternalTarget,
) -> (r: Option<StashedExternalCancel>)
    ensures
        ({
            let view = cancels_view(old(list)@);
            let k = cancel_to(view, *target);
            match r {
                Some(s) => {
                    &&& 0 <= k < view.len()
                    &&& s@ == view[k]
                    &&& cancels_view(final(list)@) == view.remove(k)
                },
                None => k == view.len() && final(list)@ == old(list)@,
            }
        }),
{
    let ghost view = cancels_view(list@);
    let ghost p = |k: int| view[k].target == *target;
    let mut k: usize = 0;
    while k < list.len()
        invariant
            k <= list@.len(),
            list@ == old(list)@,
            view == cancels_view(list@),
            p == (|k: int| view[k].target == *target),
            forall|j: int| 0 <= j < k ==> !#[trigger] p(j),
        decreases list@.len() - k,
    {
        if list[k].target == *target {
            proof {
                lemma_first_index_is(p, 0, view.len() as int, k as int);
            }
            let taken = list.remove(k);
            assert(cancels_view(list@) =~= view.remove(k as int));
            return Some(taken);
        }
        assert(!p(k as int));
        k += 1;
    }
    proof {
        lemma_first_index_is(p, 0, view.len() as int, k as int);
    }
    None
}

// ── External awaits ─────────────────────────────────────────────────────────
/// The recorded outcome of an external await.
#[derive(Debug, Clone, PartialEq)]
pub enum StashedAwaitTerminal {
    Resolved(Value),
    Failed {
        reason_code: String,
        message: Option<String>,
        error_type: Option<String>,
        details: Option<Value>,
        non_retryable: Option<bool>,
    },
}

/// What a [`StashedAwaitTerminal`] holds.
pub enum AwaitTerminalView {
    Resolved(JsonView),
    Failed {
        reason_code: Seq<char>,
        message: Option<Seq<char>>,
        error_type: Option<Seq<char>>,
        details: Option<JsonView>,
        non_retryable: Option<bool>,
    },
}

impl View for StashedAwaitTerminal {
    type V = AwaitTerminalView;

    open spec fn view(&self) -> AwaitTerminalView {
        match *self {
            StashedAwaitTerminal::Resolved(output) => AwaitTerminalView::Resolved(
                json_view(output),
            ),
            StashedAwaitTerminal::Failed {
                reason_code,
                message,
                error_type,
                details,
                non_retryable,
            } => AwaitTerminalView::Failed {
                reason_code: reason_code@,
                message: opt_text(message),
                error_type: opt_text(error_type),
                details: opt_json(details),
                non_retryable,
            },
        }
    }
}

/// A requested external await, with its outcome once that was met.
#[derive(Debug, Clone)]
pub struct StashedExternalAwait {
    pub await_id: ExternalAwaitId,
    pub target: ExecutionId,
    pub terminal: Option<StashedAwaitTerminal>,
}

/// What a [`StashedExternalAwait`] holds.
pub struct ExternalAwaitView {
    pub await_id: ExternalAwaitId,
    pub target: ExecutionId,
    pub terminal: Option<AwaitTerminalView>,
}

impl View for StashedExternalAwait {
    type V = ExternalAwaitView;

    open spec fn view(&self) -> ExternalAwaitView {
        ExternalAwaitView {
            await_id: self.await_id,
            target: self.target,
            terminal: match self.terminal {
                Some(t) => Some(t@),
                None => None,
            },
        }
    }
}

/// What a list of external awaits holds.
pub open spec fn awaits_view(list: Seq<StashedExternalAwait>) -> Seq<ExternalAwaitView> {
    list.map_values(|s: StashedExternalAwait| s@)
}

/// Where the list first holds the await `id`; its length when nowhere.
pub open spec fn await_position(list: Seq<ExternalAwaitView>, id: ExternalAwaitId) -> int {
    first_index(|k: int| list[k].await_id == id, 0, list.len() as int)
}

/// The list with the outcome of the await `id` noted at its first entry.
pub open spec fn await_resolved(
    list: Seq<ExternalAwaitView>,
    id: ExternalAwaitId,
    terminal: AwaitTerminalView,
) -> Seq<ExternalAwaitView> {
    let k = await_position(list, id);
    if k < list.len() {
        list.update(k, ExternalAwaitView { terminal: Some(terminal), ..list[k] })
    } else {
        list
    }
}

/// Where the list first holds an await of that target; its length when nowhere.
pub open spec fn await_of(list: Seq<ExternalAwaitView>, target: ExecutionId) -> int {
    first_index(|k: int| list[k].target == target, 0, list.len() as int)
}

/// Notes the outcome of the await `id` at its first entry.
pub(crate) fn resolve_await(
    list: &mut Vec<StashedExternalAwait>,
    id: ExternalAwaitId,
    terminal: StashedAwaitTerminal,
)
    ensures
        awaits_view(final(list)@) == await_resolved(awaits_view(old(list)@), id, terminal@),
{
    let ghost view = awaits_view(list@);
    let ghost p = |k: int| view[k].await_id == id;
    let mut k: usize = 0;
    while k < list.len()
        invariant
            k <= list@.len(),
            list@ == old(list)@,
            view == awaits_view(list@),
            p == (|k: int| view[k].await_id == id),
            forall|j: int| 0 <= j < k ==> !#[trigger] p(j),
        decreases list@.len() - k,
    {
        if list[k].await_id == id {
            proof {
                lemma_first_index_is(p, 0, view.len() as int, k as int);
            }
            list[k].terminal = Some(terminal);
            assert(awaits_view(list@) =~= await_resolved(view, id, terminal@));
            return ;
        }
        assert(!p(k as int));
        k += 1;
    }
    proof {
        lemma_first_index_is(p, 0, view.len() as int, k as int);
    }
}

/// Takes the first await of that target out of the list.
pub(crate) fn take_await(
    list: &mut Vec<StashedExternalAwait>,
    target: ExecutionId,
) -> (r: Option<StashedExternalAwait>)
    ensures
        ({
            let view = awaits_view(old(list)@);
            let k = await_of(view, target);
            match r {
                Some(s) => {
                    &&& 0 <= k < view.len()
                    &&& s@ == view[k]
                    &&& awaits_view(final(list)@) == view.remove(k)
                },
                None => k == view.len() && final(list)@ == old(list)@,
            }
        }),
{
    let ghost view = awaits_view(list@);
    let ghost p = |k: int| view[k].target == target;
    let mut k: usize = 0;
    while k < list.len()
        invariant
            k <= list@.len(),
            list@ == old(list)@,
            view == awaits_view(list@),
            p == (|k: int| view[k].target == target),
            forall|j: int| 0 <= j < k ==> !#[trigger] p(j),
        decreases list@.len() - k,
    {
        if list[k].target == target {
            proof {
                lemma_first_index_is(p, 0, view.len() as int, k as int);
            }
            let taken = list.remove(k);
            assert(awaits_view(list@) =~= view.remove(k as int));
            return Some(taken);
        }
        assert(!p(k as int));
        k += 1;
    }
    proof {
        lemma_first_index_is(p, 0, view.len() as int, k as int);
    }
    None
}

} // verus!
