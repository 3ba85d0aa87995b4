//! Markers, side effects, version gates and patches.
use crate::event::WorkflowEvent;
use crate::ids::{hyphenated, id_text, parse_id, parsed_id};
use crate::json::{
    json_as_array, json_as_i64, json_as_str, json_as_u64, json_debug, json_debug_text,
    json_from_text, json_get, json_member, json_null, json_number, json_signed, json_string,
    json_unsigned, json_view, JsonView,
};
use crate::kinds::{actual_event_name, event_label, side_effect_label, side_effect_name};
use crate::matcher::HistoryMatcher;
use crate::moves::{
    lemma_claimed, lemma_claims, lemma_drained, lemma_evolves_transitive, lemma_moved_to,
    lemma_next_open_here, lemma_prepared, lemma_scan_end, lemma_scan_stop, lemma_side_fields,
    lemma_stashed,
};
use crate::outcome::{
    diverged, diverged_at, HistoryMatch, HistoryMatchView, PatchMarkerMatch, SagaMarkerMatch,
    SideEffectNowMatch,
};
use crate::replay::Replay;
use crate::scan::{is_marker_named, marker_named, Scan, ScanView};
use crate::text::{
    decimal, glue, number, numbered, show_list, show_option, shown_list, shown_option, str_eq, tag,
    tagged,
};
use crate::types::{opt_str, opt_text, opt_text_eq, SideEffectKind};
use serde_json::Value;
use vstd::prelude::*;

verus! {

/// The reserved name under which the deadline probe records its clock reads, to
/// tell them from those of the workflow's author.
pub const DEADLINE_PROBE_SIDE_EFFECT_NAME: &'static str = "__harvest_deadline_probe";

// ── Marker names ────────────────────────────────────────────────────────────
/// The name of the marker that a patch gate records.
pub open spec fn patch_marker(patch_id: Seq<char>) -> Seq<char> {
    "patch:"@ + patch_id
}

/// The name of the marker that a version gate records.
pub open spec fn version_marker(change_id: Seq<char>) -> Seq<char> {
    "version:"@ + change_id
}

/// The name of the marker that a patch gate records.
pub fn patch_marker_name(patch_id: &str) -> (r: String)
    ensures
        r@ == patch_marker(patch_id@),
{
    glue("patch:", patch_id)
}

/// The name of the marker that a version gate records.
pub fn version_marker_name(change_id: &str) -> (r: String)
    ensures
        r@ == version_marker(change_id@),
{
    glue("version:", change_id)
}

/// The name of the marker that a saga records when it starts to compensate.
pub fn saga_compensated_marker_name(seq: u32) -> (r: String)
    ensures
        r@ == numbered("saga_compensated:"@, seq as nat),
{
    number("saga_compensated:", seq as u64)
}

/// The name of the marker that a saga records when a compensation failed.
pub fn saga_compensation_failed_marker_name(seq: u32) -> (r: String)
    ensures
        r@ == numbered("saga_compensation_failed:"@, seq as nat),
{
    number("saga_compensation_failed:", seq as u64)
}

// ── Side effects ────────────────────────────────────────────────────────────
impl Replay {
    /// What matching a captured side effect yields: past the end nothing; the
    /// recorded value of a side effect of that kind and name, or the details of a
    /// marker `side_effect:{name}` for an author-named one; else a divergence.
    pub open spec fn side_effect(
        self,
        kind: SideEffectKind,
        name: Option<Seq<char>>,
    ) -> (Replay, HistoryMatchView) {
        let s = self.prepared();
        if !s.replaying() {
            (s, HistoryMatchView::NoMatch)
        } else {
            let e = s.events[s.cursor];
            let value = match e {
                WorkflowEvent::SideEffectRecorded { kind: k, name: n, value } => if k == kind
                    && opt_text(n) == name {
                    Some(json_view(value))
                } else {
                    None
                },
                WorkflowEvent::MarkerRecorded { name: m, details } => match name {
                    Some(n) => if kind is Custom && m@ == "side_effect:"@ + n {
                        Some(json_view(details))
                    } else {
                        None
                    },
                    None => None,
                },
                _ => None,
            };
            match value {
                Some(output) => (
                    s.moved_to(s.cursor + 1),
                    HistoryMatchView::Matched { output },
                ),
                None => (
                    s,
                    diverged_at(side_effect_label(kind.name(), name), event_label(e), s.cursor),
                ),
            }
        }
    }

    /// What the deadline probe's clock read yields: past the end nothing
    /// recorded; its own recorded read; and at any other event nothing, which is
    /// left in place.
    pub open spec fn side_effect_now(self) -> (Replay, SideEffectNowMatch) {
        let s = self.prepared();
        if !s.replaying() {
            (s, SideEffectNowMatch::Frontier)
        } else {
            let millis = match s.events[s.cursor] {
                WorkflowEvent::SideEffectRecorded { kind, name, value } => if kind is Now
                    && opt_text(name) == Some(DEADLINE_PROBE_SIDE_EFFECT_NAME@) {
                    json_signed(json_view(value))
                } else {
                    None
                },
                _ => None,
            };
            match millis {
                Some(millis) => (
                    s.moved_to(s.cursor + 1),
                    SideEffectNowMatch::Matched { millis },
                ),
                None => (s, SideEffectNowMatch::NotRecorded),
            }
        }
    }
}

impl HistoryMatcher {
    /// Matches an author-named side effect against history.
    pub fn match_side_effect(&mut self, side_effect_id: &str) -> (r: HistoryMatch)
        requires
            old(self).wf(),
        ensures
            final(self).wf(),
            old(self)@.evolves_to(final(self)@),
            (final(self)@, r@) == old(self)@.side_effect(
                SideEffectKind::Custom,
                Some(side_effect_id@),
            ),
    {
        self.match_side_effect_event(SideEffectKind::Custom, Some(side_effect_id))
    }

    /// Matches a captured side effect against history.
    ///
    /// Kind and name have to be the recorded ones. An author-named side effect is
    /// also found in its older form, a marker `side_effect:{name}`.
    pub fn match_side_effect_event(&mut self, kind: SideEffectKind, name: Option<&str>) -> (r:
        HistoryMatch)
        requires
            old(self).wf(),
        ensures
            final(self).wf(),
            old(self)@.evolves_to(final(self)@),
            (final(self)@, r@) == old(self)@.side_effect(kind, opt_str(name)),
    {
        let ghost start = self@;
        proof {
            lemma_prepared(start);
        }
        if !self.prepare_match() {
            return HistoryMatch::NoMatch;
        }
        let ghost s = self@;
        let here = self.cursor;
        let output = match &self.events[here] {
            WorkflowEvent::SideEffectRecorded { kind: k, name: n, value } => if *k == kind
                && opt_text_eq(n, name) {
                Some(value.clone())
            } else {
                None
            },
            WorkflowEvent::MarkerRecorded { name: m, details } => match name {
                Some(n) => if kind == SideEffectKind::Custom && str_eq(
                    m.as_str(),
                    glue("side_effect:", n).as_str(),
                ) {
                    Some(details.clone())
                } else {
                    None
                },
                None => None,
            },
            _ => None,
        };
        match output {
            Some(output) => {
                self.claim_at_cursor();
                proof {
                    lemma_evolves_transitive(start, s, self@);
                }
                HistoryMatch::Matched { output }
            },
            None => diverged(
                side_effect_name(kind.as_str(), name),
                actual_event_name(&self.events[here]),
                here,
            ),
        }
    }

    /// Reads the deadline probe's recorded clock, where it is at the cursor.
    ///
    /// A history from before the probe, and a clock read of the workflow's
    /// author, are left in place and are no divergence.
    pub fn match_side_effect_now_tolerant(&mut self) -> (r: SideEffectNowMatch)
        requires
            old(self).wf(),
        ensures
            final(self).wf(),
            old(self)@.evolves_to(final(self)@),
            (final(self)@, r) == old(self)@.side_effect_now(),
    {
        let ghost start = self@;
        proof {
            lemma_prepared(start);
        }
        if !self.prepare_match() {
            return SideEffectNowMatch::Frontier;
        }
        let ghost s = self@;
        let here = self.cursor;
        let millis = match &self.events[here] {
            WorkflowEvent::SideEffectRecorded { kind, name, value } => if *kind
                == SideEffectKind::Now && opt_text_eq(
                name,
                Some(DEADLINE_PROBE_SIDE_EFFECT_NAME),
            ) {
                json_as_i64(value)
            } else {
                None
            },
            _ => None,
        };
        match millis {
            Some(millis) => {
                self.claim_at_cursor();
                proof {
                    lemma_evolves_transitive(start, s, self@);
                }
                SideEffectNowMatch::Matched { millis }
            },
            None => SideEffectNowMatch::NotRecorded,
        }
    }
}

// ── Version gates ───────────────────────────────────────────────────────────
/// The version in the details of a version marker, `min` where there is none
/// that fits.
pub open spec fn recorded_version(details: JsonView, min: u32) -> u32 {
    match json_unsigned(details) {
        Some(v) => if v <= u32::MAX {
            v as u32
        } else {
            min
        },
        None => min,
    }
}

impl Replay {
    /// What a version gate yields: past the end the highest version, noted as
    /// about to be recorded; the version of its marker at the cursor; else the
    /// lowest version.
    pub open spec fn version(self, change_id: Seq<char>, min: u32, max: u32) -> (Replay, u32) {
        let s = self.advanced();
        let d = s.drained();
        if !s.replaying() {
            (Replay { latched: s.latched.insert(change_id), ..s }, max)
        } else if !d.replaying() {
            (d, min)
        } else {
            match d.events[d.cursor] {
                WorkflowEvent::MarkerRecorded { name, details } => if name@ == version_marker(
                    change_id,
                ) {
                    (d.moved_to(d.cursor + 1), recorded_version(json_view(details), min))
                } else {
                    (d, min)
                },
                _ => (d, min),
            }
        }
    }
}

impl HistoryMatcher {
    /// Matches a version gate against history.
    ///
    /// Returns the recorded version; `min_version` where the history was recorded
    /// without any; and `max_version` past the end of history, where the
    /// caller records it.
    pub fn match_version(&mut self, change_id: &str, min_version: u32, max_version: u32) -> (r: u32)
        requires
            old(self).wf(),
        ensures
            final(self).wf(),
            old(self)@.evolves_to(final(self)@),
            (final(self)@, r) == old(self)@.version(change_id@, min_version, max_version),
    {
        let ghost start = self@;
        proof {
            lemma_moved_to(start, start.cursor);
        }
        self.advance_to_next_unconsumed_event();
        let ghost s = self@;
        if !self.is_replaying() {
            self.patch_ids_recorded_this_cycle.insert(change_id.to_string());
            proof {
                lemma_side_fields(s, self@);
                lemma_evolves_transitive(start, s, self@);
            }
            return max_version;
        }
        self.drain_early_signals();
        let ghost d = self@;
        proof {
            lemma_drained(s);
            lemma_evolves_transitive(start, s, d);
            lemma_next_open_here(d, d.cursor);
        }
        if !self.is_replaying() {
            return min_version;
        }
        let marker_name = version_marker_name(change_id);
        let version = match &self.events[self.cursor] {
            WorkflowEvent::MarkerRecorded { name, details } => if str_eq(
                name.as_str(),
                marker_name.as_str(),
            ) {
                match json_as_u64(details) {
                    Some(v) => if v <= 0xffff_ffff {
                        Some(v as u32)
                    } else {
                        Some(min_version)
                    },
                    None => Some(min_version),
                }
            } else {
                None
            },
            _ => None,
        };
        match version {
            Some(version) => {
                self.claim_at_cursor();
                proof {
                    lemma_evolves_transitive(start, d, self@);
                }
                version
            },
            None => min_version,
        }
    }
}

// ── Patches ─────────────────────────────────────────────────────────────────
/// Whether `e` is a marker of the patch, or of a version gate of that name.
pub open spec fn marks_patch(e: WorkflowEvent, patch_id: Seq<char>) -> bool {
    marker_named(e, patch_marker(patch_id)) || marker_named(e, version_marker(patch_id))
}

/// Computes [`marks_patch`].
fn is_patch_marker(event: &WorkflowEvent, patch_name: &str, version_name: &str) -> (r: bool)
    ensures
        r == (marker_named(*event, patch_name@) || marker_named(*event, version_name@)),
{
    is_marker_named(event, patch_name) || is_marker_named(event, version_name)
}

impl Replay {
    /// What a patch gate yields. Of a deprecated patch it is known whether a
    /// marker is present. Else: past the end the patch is new, and noted as about
    /// to be recorded; a marker at the cursor is claimed; anything else is a
    /// history from before the patch.
    pub open spec fn patch(self, id: Seq<char>) -> (Replay, PatchMarkerMatch) {
        let s = self.advanced();
        let d = s.drained();
        if self.deprecated.contains_key(id) {
            (
                self,
                if self.deprecated[id] {
                    PatchMarkerMatch::Recorded
                } else {
                    PatchMarkerMatch::Absent
                },
            )
        } else if !s.replaying() {
            (Replay { latched: s.latched.insert(id), ..s }, PatchMarkerMatch::NewlyPatched)
        } else if d.replaying() && marks_patch(d.events[d.cursor], id) {
            (d.moved_to(d.cursor + 1), PatchMarkerMatch::Recorded)
        } else {
            (d, PatchMarkerMatch::Absent)
        }
    }

    /// The positions of the markers of a patch.
    pub open spec fn patch_markers(self, id: Seq<char>) -> Set<int> {
        Set::new(|i: int| 0 <= i < self.len() && marks_patch(self.events[i], id))
    }

    /// Whether a marker of the patch is recorded, or about to be.
    pub open spec fn patch_present(self, id: Seq<char>) -> bool {
        self.latched.contains(id) || exists|i: int|
            0 <= i < self.len() && marks_patch(#[trigger] self.events[i], id)
    }

    /// What deprecating a patch yields: whether a marker of it is present, decided
    /// once; every marker of it is claimed, wherever it stands.
    pub open spec fn patch_deprecated(self, id: Seq<char>) -> (Replay, bool) {
        if self.deprecated.contains_key(id) {
            (self, self.deprecated[id])
        } else {
            (
                Replay {
                    out_of_order: self.out_of_order.union(self.patch_markers(id)),
                    deprecated: self.deprecated.insert(id, self.patch_present(id)),
                    ..self
                },
                self.patch_present(id),
            )
        }
    }
}

impl HistoryMatcher {
    /// Matches a patch gate against history.
    ///
    /// A version marker of the same name counts as a marker of the patch,
    /// whatever version it holds.
    pub fn match_patch_marker(&mut self, patch_id: &str) -> (r: PatchMarkerMatch)
        requires
            old(self).wf(),
        ensures
            final(self).wf(),
            old(self)@.evolves_to(final(self)@),
            (final(self)@, r) == old(self)@.patch(patch_id@),
    {
        let ghost start = self@;
        if let Some(present) = self.deprecated_patches.get(patch_id) {
            return if *present {
                PatchMarkerMatch::Recorded
            } else {
                PatchMarkerMatch::Absent
            };
        }
        proof {
            lemma_moved_to(start, start.cursor);
        }
        self.advance_to_next_unconsumed_event();
        let ghost s = self@;
        if !self.is_replaying() {
            self.patch_ids_recorded_this_cycle.insert(patch_id.to_string());
            proof {
                lemma_side_fields(s, self@);
                lemma_evolves_transitive(start, s, self@);
            }
            return PatchMarkerMatch::NewlyPatched;
        }
        self.drain_early_signals();
        let ghost d = self@;
        proof {
            lemma_drained(s);
            lemma_evolves_transitive(start, s, d);
            lemma_next_open_here(d, d.cursor);
        }
        if !self.is_replaying() {
            return PatchMarkerMatch::Absent;
        }
        let patch_name = patch_marker_name(patch_id);
        let version_name = version_marker_name(patch_id);
        if is_patch_marker(&self.events[self.cursor], patch_name.as_str(), version_name.as_str()) {
            self.claim_at_cursor();
            proof {
                lemma_evolves_transitive(start, d, self@);
            }
            PatchMarkerMatch::Recorded
        } else {
            PatchMarkerMatch::Absent
        }
    }

    /// Deprecates a patch: claims every marker of it, wherever it stands, so that
    /// no command meets one, and returns whether there is any.
    ///
    /// The answer is kept: asking again gives the same, and a patch gate for that
    /// patch answers by it. A marker that this replay is about to record counts,
    /// as it will when the history is replayed again.
    pub fn deprecate_patch(&mut self, patch_id: &str) -> (r: bool)
        requires
            old(self).wf(),
        ensures
            final(self).wf(),
            old(self)@.evolves_to(final(self)@),
            (final(self)@, r) == old(self)@.patch_deprecated(patch_id@),
    {
        if let Some(present) = self.deprecated_patches.get(patch_id) {
            return *present;
        }
        let ghost s = self@;
        let ghost marks = s.patch_markers(patch_id@);
        let patch_name = patch_marker_name(patch_id);
        let version_name = version_marker_name(patch_id);
        let mut present = self.patch_ids_recorded_this_cycle.contains(patch_id);
        let mut i: usize = 0;
        while i < self.events.len()
            invariant
                i <= s.len(),
                self@ == (Replay { out_of_order: self@.out_of_order, ..s }),
                marks == s.patch_markers(patch_id@),
                patch_name@ == patch_marker(patch_id@),
                version_name@ == version_marker(patch_id@),
                present == (s.latched.contains(patch_id@) || exists|j: int|
                    0 <= j < i && marks_patch(#[trigger] s.events[j], patch_id@)),
                forall|j: int|
                    #[trigger] self@.out_of_order.contains(j) == (s.out_of_order.contains(j) || (j
                        < i && marks.contains(j))),
            decreases s.len() - i,
        {
            if is_patch_marker(&self.events[i], patch_name.as_str(), version_name.as_str()) {
                assert(marks_patch(s.events[i as int], patch_id@));
                present = true;
                self.consumed_out_of_order_events.insert(i);
            }
            i += 1;
        }
        let ghost c = self@;
        proof {
            assert(c.out_of_order =~= s.out_of_order.union(marks));
            lemma_claims(s, marks);
        }
        self.deprecated_patches.insert(patch_id.to_string(), present);
        proof {
            lemma_side_fields(c, self@);
            lemma_evolves_transitive(s, c, self@);
        }
        present
    }
}

// ── Saga markers ────────────────────────────────────────────────────────────
impl Replay {
    /// What matching a saga's marker yields. Past the end the unwind is live;
    /// where only events to be kept aside were left, it is at a drained frontier.
    /// Else the marker is claimed at the cursor, or behind cancels of the run and
    /// signals; where the end is reached past those, the unwind is at the
    /// frontier; and anything else is a history without the marker.
    pub open spec fn saga_marker(self, marker: Seq<char>) -> (Replay, SagaMarkerMatch) {
        let s = self.advanced();
        let d = s.drained();
        if !s.replaying() {
            (s, SagaMarkerMatch::LiveFrontier)
        } else if !d.replaying() {
            (d, SagaMarkerMatch::DrainedSignalFrontier)
        } else if marker_named(d.events[d.cursor], marker) {
            (d.moved_to(d.cursor + 1), SagaMarkerMatch::Recorded)
        } else {
            let scan = ScanView::SagaMarker(marker);
            let stop = d.scan_stop(scan, d.cursor, d.len());
            if d.scan_hits(scan, d.cursor, d.len()) {
                (d.claimed(stop), SagaMarkerMatch::Recorded)
            } else if stop < d.len() {
                (d, SagaMarkerMatch::Absent)
            } else if exists|i: int| d.cursor <= i < d.len() && #[trigger] d.open_signal(i) {
                (d, SagaMarkerMatch::DrainedSignalFrontier)
            } else {
                (d, SagaMarkerMatch::LiveFrontier)
            }
        }
    }
}

impl HistoryMatcher {
    /// Matches a saga's marker against history, without ever diverging.
    pub fn match_saga_marker(&mut self, marker_name: &str) -> (r: SagaMarkerMatch)
        requires
            old(self).wf(),
        ensures
            final(self).wf(),
            old(self)@.evolves_to(final(self)@),
            (final(self)@, r) == old(self)@.saga_marker(marker_name@),
    {
        let ghost start = self@;
        proof {
            lemma_moved_to(start, start.cursor);
        }
        self.advance_to_next_unconsumed_event();
        let ghost s = self@;
        if !self.is_replaying() {
            return SagaMarkerMatch::LiveFrontier;
        }
        self.drain_early_signals();
        let ghost d = self@;
        proof {
            lemma_drained(s);
            lemma_evolves_transitive(start, s, d);
            lemma_next_open_here(d, d.cursor);
        }
        if !self.is_replaying() {
            return SagaMarkerMatch::DrainedSignalFrontier;
        }
        if is_marker_named(&self.events[self.cursor], marker_name) {
            self.claim_at_cursor();
            proof {
                lemma_evolves_transitive(start, d, self@);
            }
            return SagaMarkerMatch::Recorded;
        }
        let from = self.cursor;
        let end = self.events.len();
        let ghost scan = ScanView::SagaMarker(marker_name@);
        let found = self.scan(&Scan::SagaMarker(marker_name), from, end);
        proof {
            lemma_scan_stop(d, scan, d.cursor, d.len());
            lemma_stashed(d, scan, d.cursor, d.scan_stop(scan, d.cursor, d.len()));
        }
        if found.hit {
            self.consumed_out_of_order_events.insert(found.stop);
            proof {
                lemma_claimed(d, found.stop as int);
                lemma_evolves_transitive(start, d, self@);
            }
            return SagaMarkerMatch::Recorded;
        }
        if found.stop < end {
            return SagaMarkerMatch::Absent;
        }
        let mut skipped_signal = false;
        let mut i: usize = from;
        while i < self.events.len() && !skipped_signal
            invariant
                self@ == d,
                from == d.cursor,
                from <= i <= d.len(),
                skipped_signal ==> exists|j: int|
                    d.cursor <= j < d.len() && #[trigger] d.open_signal(j),
                !skipped_signal ==> forall|j: int|
                    d.cursor <= j < i ==> !#[trigger] d.open_signal(j),
            decreases d.len() - i,
        {
            if !self.is_consumed(i) {
                if let WorkflowEvent::SignalReceived { .. } = &self.events[i] {
                    assert(d.open_signal(i as int));
                    skipped_signal = true;
                }
            }
            i += 1;
        }
        if skipped_signal {
            SagaMarkerMatch::DrainedSignalFrontier
        } else {
            SagaMarkerMatch::LiveFrontier
        }
    }
}

// ── Markers with a number ───────────────────────────────────────────────────
/// The count in the details of a fan-out marker, zero where there is none that
/// fits.
pub open spec fn recorded_count(details: JsonView) -> usize {
    match json_unsigned(details) {
        Some(n) => if n <= usize::MAX {
            n as usize
        } else {
            0
        },
        None => 0,
    }
}

/// A marker's name with its count: `name(count=..)`.
pub open spec fn with_count(marker: Seq<char>, count: nat) -> Seq<char> {
    tagged(marker, numbered("count="@, count))
}

/// A marker's name with one more item: `MarkerRecorded(name, item)`.
pub open spec fn marker_item(marker: Seq<char>, item: Seq<char>) -> Seq<char> {
    tagged("MarkerRecorded"@, marker + ", "@ + item)
}

/// Assembles [`marker_item`].
fn show_marker_item(marker: &str, item: &str) -> (r: String)
    ensures
        r@ == marker_item(marker@, item@),
{
    tag("MarkerRecorded", glue(glue(marker, ", ").as_str(), item).as_str())
}

impl Replay {
    /// What matching the marker of a fan-out yields: past the end nothing; at
    /// another event or count a divergence; else the count.
    pub open spec fn fan_out_marker(self, seq: u32, count: usize) -> (Replay, HistoryMatchView) {
        let marker = numbered("fan_out:"@, seq as nat);
        let s = self.prepared();
        if !s.replaying() {
            (s, HistoryMatchView::NoMatch)
        } else if !marker_named(s.events[s.cursor], marker) {
            (
                s,
                diverged_at(
                    tagged("MarkerRecorded"@, marker),
                    event_label(s.events[s.cursor]),
                    s.cursor,
                ),
            )
        } else {
            let recorded = recorded_count(marker_details(s.events[s.cursor]));
            if recorded == count {
                (
                    s.moved_to(s.cursor + 1),
                    HistoryMatchView::Matched { output: JsonView::Unsigned(count as u64) },
                )
            } else {
                (
                    s,
                    diverged_at(
                        with_count(marker, recorded as nat),
                        with_count(marker, count as nat),
                        s.cursor,
                    ),
                )
            }
        }
    }

    /// What matching a marker with a number yields: past the end nothing; at
    /// another event or number a divergence; else the number.
    pub open spec fn u64_marker(
        self,
        marker: Seq<char>,
        expected: u64,
    ) -> (Replay, HistoryMatchView) {
        let s = self.prepared();
        if !s.replaying() {
            (s, HistoryMatchView::NoMatch)
        } else if !marker_named(s.events[s.cursor], marker) {
            (
                s,
                diverged_at(
                    tagged("MarkerRecorded"@, marker),
                    event_label(s.events[s.cursor]),
                    s.cursor,
                ),
            )
        } else {
            let recorded = json_unsigned(marker_details(s.events[s.cursor]));
            if recorded == Some(expected) {
                (
                    s.moved_to(s.cursor + 1),
                    HistoryMatchView::Matched { output: JsonView::Unsigned(expected) },
                )
            } else {
                (
                    s,
                    diverged_at(
                        marker_item(marker, decimal(expected as nat)),
                        marker_item(marker, shown_option(recorded)),
                        s.cursor,
                    ),
                )
            }
        }
    }

    /// What looking ahead for a marker with a number yields: past the end, or
    /// where only events of concurrent commands may be crossed and it is not
    /// found, nothing; else its number, and the marker is claimed.
    pub open spec fn peeked_marker(self, marker: Seq<char>) -> (Replay, Option<u64>) {
        let s = self.prepared();
        if !s.replaying() {
            (s, None)
        } else {
            let scan = ScanView::Marker(marker);
            let stop = s.scan_stop(scan, s.cursor, s.len());
            let command = s.scan_command(scan, s.cursor, s.len());
            let scanned = s.scanned(scan, s.cursor, s.len());
            if s.scan_hits(scan, s.cursor, s.len()) {
                (
                    scanned.settled(stop, command),
                    json_unsigned(marker_details(s.events[stop])),
                )
            } else {
                (scanned.rewound(command), None)
            }
        }
    }

    /// Whether a marker of that name from the cursor on is still to be claimed.
    pub open spec fn has_marker(self, marker: Seq<char>) -> bool {
        exists|i: int|
            self.cursor <= i < self.len() && self.open_at(i) && marker_named(
                #[trigger] self.events[i],
                marker,
            )
    }
}

/// The details of a marker.
pub open spec fn marker_details(e: WorkflowEvent) -> JsonView {
    match e {
        WorkflowEvent::MarkerRecorded { details, .. } => json_view(details),
        _ => JsonView::Null,
    }
}

/// The details of the marker, where the event is one of that name.
fn details_of_marker<'a>(event: &'a WorkflowEvent, marker: &str) -> (r: Option<&'a Value>)
    ensures
        match r {
            Some(details) => marker_named(*event, marker@) && json_view(*details)
                == marker_details(*event),
            None => !marker_named(*event, marker@),
        },
{
    match event {
        WorkflowEvent::MarkerRecorded { name, details } => if str_eq(name.as_str(), marker) {
            Some(details)
        } else {
            None
        },
        _ => None,
    }
}

impl HistoryMatcher {
    /// Matches the marker of a fan-out against history; it has to stand at the
    /// cursor, with that count.
    pub fn match_fan_out_marker(&mut self, seq: u32, count: usize) -> (r: HistoryMatch)
        requires
            old(self).wf(),
        ensures
            final(self).wf(),
            old(self)@.evolves_to(final(self)@),
            (final(self)@, r@) == old(self)@.fan_out_marker(seq, count),
    {
        let marker_name = number("fan_out:", seq as u64);
        let ghost start = self@;
        proof {
            lemma_prepared(start);
        }
        if !self.prepare_match() {
            return HistoryMatch::NoMatch;
        }
        let ghost s = self@;
        let here = self.cursor;
        let recorded: usize = match details_of_marker(&self.events[here], marker_name.as_str()) {
            Some(details) => match json_as_u64(details) {
                Some(n) => if n <= usize::MAX as u64 {
                    n as usize
                } else {
                    0
                },
                None => 0,
            },
            None => {
                return diverged(
                    tag("MarkerRecorded", marker_name.as_str()),
                    actual_event_name(&self.events[here]),
                    here,
                );
            },
        };
        if recorded == count {
            self.claim_at_cursor();
            proof {
                lemma_evolves_transitive(start, s, self@);
            }
            HistoryMatch::Matched { output: json_number(count as u64) }
        } else {
            diverged(
                tag(marker_name.as_str(), number("count=", recorded as u64).as_str()),
                tag(marker_name.as_str(), number("count=", count as u64).as_str()),
                here,
            )
        }
    }

    /// Matches a marker with a number against history; it has to stand at the
    /// cursor, with that number.
    pub fn match_u64_marker(&mut self, marker_name: &str, expected: u64) -> (r: HistoryMatch)
        requires
            old(self).wf(),
        ensures
            final(self).wf(),
            old(self)@.evolves_to(final(self)@),
            (final(self)@, r@) == old(self)@.u64_marker(marker_name@, expected),
    {
        let ghost start = self@;
        proof {
            lemma_prepared(start);
        }
        if !self.prepare_match() {
            return HistoryMatch::NoMatch;
        }
        let ghost s = self@;
        let here = self.cursor;
        let recorded = match details_of_marker(&self.events[here], marker_name) {
            Some(details) => json_as_u64(details),
            None => {
                return diverged(
                    tag("MarkerRecorded", marker_name),
                    actual_event_name(&self.events[here]),
                    here,
                );
            },
        };
        if let Some(n) = recorded {
            if n == expected {
                self.claim_at_cursor();
                proof {
                    lemma_evolves_transitive(start, s, self@);
                }
                return HistoryMatch::Matched { output: json_number(expected) };
            }
        }
        let expected_text = number("", expected);
        proof {
            reveal_strlit("");
            assert(numbered(""@, expected as nat) =~= decimal(expected as nat));
        }
        diverged(
            show_marker_item(marker_name, expected_text.as_str()),
            show_marker_item(marker_name, show_option(recorded).as_str()),
            here,
        )
    }

    /// Whether a marker of that name from the cursor on is still to be claimed.
    /// Nothing is consumed.
    pub fn has_unconsumed_marker(&self, marker_name: &str) -> (r: bool)
        requires
            self.wf(),
        ensures
            r == self@.has_marker(marker_name@),
    {
        let ghost s = self@;
        let mut i: usize = self.cursor;
        while i < self.events.len()
            invariant
                s == self@,
                s.cursor <= i <= s.len(),
                forall|j: int|
                    s.cursor <= j < i ==> !(s.open_at(j) && marker_named(
                        #[trigger] s.events[j],
                        marker_name@,
                    )),
            decreases s.len() - i,
        {
            if !self.is_consumed(i) && is_marker_named(&self.events[i], marker_name) {
                assert(s.open_at(i as int) && marker_named(s.events[i as int], marker_name@));
                return true;
            }
            i += 1;
        }
        false
    }

    /// Looks ahead for a marker with a number among events of concurrent
    /// commands, and claims it.
    pub fn peek_u64_marker(&mut self, marker_name: &str) -> (r: Option<u64>)
        requires
            old(self).wf(),
        ensures
            final(self).wf(),
            old(self)@.evolves_to(final(self)@),
            (final(self)@, r) == old(self)@.peeked_marker(marker_name@),
    {
        let ghost start = self@;
        proof {
            lemma_prepared(start);
        }
        if !self.prepare_match() {
            return None;
        }
        let ghost s = self@;
        let ghost scan = ScanView::Marker(marker_name@);
        proof {
            lemma_scan_end(s, scan, s.cursor, s.len());
            lemma_scan_stop(s, scan, s.cursor, s.len());
        }
        let from = self.cursor;
        let end = self.events.len();
        let found = self.scan(&Scan::Marker(marker_name), from, end);
        if !found.hit {
            self.rewind_to(found.command);
            proof {
                lemma_evolves_transitive(start, s, self@);
            }
            return None;
        }
        let value = match details_of_marker(&self.events[found.stop], marker_name) {
            Some(details) => json_as_u64(details),
            None => None,
        };
        self.settle(found.stop, found.command);
        proof {
            lemma_evolves_transitive(start, s, self@);
        }
        value
    }
}

// ── Session markers ─────────────────────────────────────────────────────────
/// The session id in the details of a session marker.
pub open spec fn recorded_session(details: JsonView) -> Option<u128> {
    match json_string(details) {
        Some(text) => parsed_id(text),
        None => None,
    }
}

impl Replay {
    /// What a session marker at the cursor yields, whose details denote that id
    /// or none: the id in its canonical form, or a divergence.
    pub open spec fn session_at_cursor(
        self,
        marker: Seq<char>,
        id: Option<u128>,
        details: Seq<char>,
    ) -> (Replay, HistoryMatchView) {
        match id {
            Some(id) => (
                self.moved_to(self.cursor + 1),
                HistoryMatchView::Matched { output: JsonView::Text(hyphenated(id)) },
            ),
            None => (
                self,
                diverged_at(
                    marker_item(marker, "<uuid>"@),
                    marker_item(marker, details),
                    self.cursor,
                ),
            ),
        }
    }

    /// What matching a session marker yields: past the end nothing; at another
    /// event, or where the details denote no id, a divergence; else the recorded
    /// id.
    pub open spec fn session_marker(self, seq: u32) -> (Replay, HistoryMatchView) {
        let marker = numbered("session:"@, seq as nat);
        let s = self.prepared();
        if !s.replaying() {
            (s, HistoryMatchView::NoMatch)
        } else if !marker_named(s.events[s.cursor], marker) {
            (
                s,
                diverged_at(
                    tagged("MarkerRecorded"@, marker),
                    event_label(s.events[s.cursor]),
                    s.cursor,
                ),
            )
        } else {
            let details = marker_details(s.events[s.cursor]);
            s.session_at_cursor(marker, recorded_session(details), json_debug_text(details))
        }
    }
}

impl Replay {
    /// The text in the session marker of that number, where it stands where the
    /// next command is looked for.
    pub open spec fn recorded_session_text(self, seq: u32) -> Option<Seq<char>> {
        let s = self.prepared();
        if s.replaying() && marker_named(
            s.events[s.cursor],
            numbered("session:"@, seq as nat),
        ) {
            json_string(marker_details(s.events[s.cursor]))
        } else {
            None
        }
    }
}

impl HistoryMatcher {
    /// Settles the session marker at the cursor, whose details, shown as
    /// `details`, denote that id or none.
    pub fn settle_session_marker(
        &mut self,
        marker_name: &str,
        id: Option<u128>,
        details: &str,
    ) -> (r: HistoryMatch)
        requires
            old(self).wf(),
            old(self)@.cursor < old(self)@.len(),
        ensures
            final(self).wf(),
            old(self)@.evolves_to(final(self)@),
            (final(self)@, r@) == old(self)@.session_at_cursor(marker_name@, id, details@),
    {
        match id {
            Some(id) => {
                self.claim_at_cursor();
                HistoryMatch::Matched { output: json_from_text(id_text(id)) }
            },
            None => diverged(
                show_marker_item(marker_name, "<uuid>"),
                show_marker_item(marker_name, details),
                self.cursor,
            ),
        }
    }

    /// Finds the id of a worker session in history; its marker has to stand at
    /// the cursor. An id that was recorded in its hyphenated form is given back
    /// as it was recorded.
    pub fn match_session_marker(&mut self, seq: u32) -> (r: HistoryMatch)
        requires
            old(self).wf(),
        ensures
            final(self).wf(),
            old(self)@.evolves_to(final(self)@),
            (final(self)@, r@) == old(self)@.session_marker(seq),
            forall|id: u128|
                old(self)@.recorded_session_text(seq) == Some(#[trigger] hyphenated(id)) ==> r@ == (
                HistoryMatchView::Matched { output: JsonView::Text(hyphenated(id)) }),
    {
        let marker_name = number("session:", seq as u64);
        let ghost start = self@;
        proof {
            lemma_prepared(start);
        }
        if !self.prepare_match() {
            return HistoryMatch::NoMatch;
        }
        let ghost s = self@;
        let here = self.cursor;
        let (id, details) = match details_of_marker(&self.events[here], marker_name.as_str()) {
            Some(details) => {
                let id = match json_as_str(details) {
                    Some(text) => parse_id(text),
                    None => None,
                };
                (id, json_debug(details))
            },
            None => {
                return diverged(
                    tag("MarkerRecorded", marker_name.as_str()),
                    actual_event_name(&self.events[here]),
                    here,
                );
            },
        };
        let r = self.settle_session_marker(marker_name.as_str(), id, details.as_str());
        proof {
            lemma_evolves_transitive(start, s, self@);
        }
        r
    }
}

// ── Named markers ───────────────────────────────────────────────────────────
/// The task in the details of a skip marker, empty where there is none.
pub open spec fn recorded_task(details: JsonView) -> Seq<char> {
    match json_member(details, "task"@) {
        Some(task) => match json_string(task) {
            Some(text) => text,
            None => ""@,
        },
        None => ""@,
    }
}

/// The numbers among the items of a list that fit, in order.
pub open spec fn numbers_in(items: Seq<JsonView>) -> Seq<usize>
    decreases items.len(),
{
    if items.len() == 0 {
        Seq::empty()
    } else {
        let front = numbers_in(items.drop_last());
        match json_unsigned(items.last()) {
            Some(n) => if n <= usize::MAX {
                front.push(n as usize)
            } else {
                front
            },
            None => front,
        }
    }
}

/// The upstreams in the details of a skip marker, where it lists any.
pub open spec fn recorded_upstreams(details: JsonView) -> Option<Seq<usize>> {
    match json_member(details, "upstreams"@) {
        Some(JsonView::List(items)) => Some(numbers_in(items)),
        _ => None,
    }
}

/// How a skip marker is shown with its task.
pub open spec fn marker_task(marker: Seq<char>, task: Seq<char>) -> Seq<char> {
    marker_item(marker, "task="@ + task)
}

/// How a skip marker is shown with its task and its upstreams.
pub open spec fn marker_upstreams(
    marker: Seq<char>,
    task: Seq<char>,
    upstreams: Seq<usize>,
) -> Seq<char> {
    marker_item(marker, "task="@ + task + ", upstreams="@ + shown_list(upstreams))
}

impl Replay {
    /// What matching a skip marker yields: past the end nothing; at another event,
    /// task or, where the marker lists them, upstreams a divergence; else the
    /// marker is claimed.
    pub open spec fn named_marker(
        self,
        marker: Seq<char>,
        task: Seq<char>,
        upstreams: Seq<usize>,
    ) -> (Replay, HistoryMatchView) {
        let s = self.prepared();
        if !s.replaying() {
            (s, HistoryMatchView::NoMatch)
        } else if !marker_named(s.events[s.cursor], marker) {
            (
                s,
                diverged_at(
                    tagged("MarkerRecorded"@, marker),
                    event_label(s.events[s.cursor]),
                    s.cursor,
                ),
            )
        } else {
            let details = marker_details(s.events[s.cursor]);
            let other_task = recorded_task(details);
            let other_upstreams = recorded_upstreams(details);
            if other_task != task {
                (
                    s,
                    diverged_at(
                        marker_task(marker, task),
                        marker_task(marker, other_task),
                        s.cursor,
                    ),
                )
            } else if other_upstreams is Some && other_upstreams.unwrap() != upstreams {
                (
                    s,
                    diverged_at(
                        marker_upstreams(marker, task, upstreams),
                        marker_upstreams(marker, other_task, other_upstreams.unwrap()),
                        s.cursor,
                    ),
                )
            } else {
                (
                    s.moved_to(s.cursor + 1),
                    HistoryMatchView::Matched { output: JsonView::Null },
                )
            }
        }
    }
}

/// Computes [`numbers_in`].
fn collect_numbers(items: &Vec<Value>) -> (r: Vec<usize>)
    ensures
        r@ == numbers_in(items@.map_values(|item: Value| json_view(item))),
{
    let ghost views = items@.map_values(|item: Value| json_view(item));
    let mut r: Vec<usize> = Vec::new();
    let mut k: usize = 0;
    assert(views.take(0) =~= Seq::<JsonView>::empty());
    while k < items.len()
        invariant
            k <= items@.len(),
            views == items@.map_values(|item: Value| json_view(item)),
            r@ == numbers_in(views.take(k as int)),
        decreases items@.len() - k,
    {
        assert(views.take(k + 1).drop_last() =~= views.take(k as int));
        assert(views.take(k + 1).last() == json_view(items@[k as int]));
        if let Some(n) = json_as_u64(&items[k]) {
            if n <= usize::MAX as u64 {
                r.push(n as usize);
            }
        }
        k += 1;
    }
    assert(views.take(k as int) =~= views);
    r
}

/// Whether two lists of numbers are equal.
fn same_numbers(a: &Vec<usize>, b: &[usize]) -> (r: bool)
    ensures
        r == (a@ == b@),
{
    if a.len() != b.len() {
        return false;
    }
    let mut k: usize = 0;
    while k < a.len()
        invariant
            k <= a@.len(),
            a@.len() == b@.len(),
            forall|j: int| 0 <= j < k ==> a@[j] == b@[j],
        decreases a@.len() - k,
    {
        if a[k] != b[k] {
            assert(a@[k as int] != b@[k as int]);
            return false;
        }
        k += 1;
    }
    assert(a@ =~= b@);
    true
}

/// Assembles [`marker_task`].
fn show_marker_task(marker: &str, task: &str) -> (r: String)
    ensures
        r@ == marker_task(marker@, task@),
{
    show_marker_item(marker, glue("task=", task).as_str())
}

/// Assembles [`marker_upstreams`].
fn show_marker_upstreams(marker: &str, task: &str, upstreams: &[usize]) -> (r: String)
    ensures
        r@ == marker_upstreams(marker@, task@, upstreams@),
{
    let named = glue(glue("task=", task).as_str(), ", upstreams=");
    show_marker_item(marker, glue(named.as_str(), show_list(upstreams).as_str()).as_str())
}

impl HistoryMatcher {
    /// Matches a skip marker against history; it has to stand at the cursor, with
    /// that task. A marker that lists upstreams has to list those.
    pub fn match_named_marker(
        &mut self,
        marker_name: &str,
        expected_task: &str,
        expected_upstreams: &[usize],
    ) -> (r: HistoryMatch)
        requires
            old(self).wf(),
        ensures
            final(self).wf(),
            old(self)@.evolves_to(final(self)@),
            (final(self)@, r@) == old(self)@.named_marker(
                marker_name@,
                expected_task@,
                expected_upstreams@,
            ),
    {
        let ghost start = self@;
        proof {
            lemma_prepared(start);
        }
        if !self.prepare_match() {
            return HistoryMatch::NoMatch;
        }
        let ghost s = self@;
        let here = self.cursor;
        match details_of_marker(&self.events[here], marker_name) {
            Some(details) => {
                let recorded: &str = match json_get(details, "task") {
                    Some(task) => match json_as_str(task) {
                        Some(text) => text,
                        None => "",
                    },
                    None => "",
                };
                if !str_eq(recorded, expected_task) {
                    return diverged(
                        show_marker_task(marker_name, expected_task),
                        show_marker_task(marker_name, recorded),
                        here,
                    );
                }
                if let Some(list) = json_get(details, "upstreams") {
                    if let Some(items) = json_as_array(list) {
                        let upstreams = collect_numbers(items);
                        if !same_numbers(&upstreams, expected_upstreams) {
                            return diverged(
                                show_marker_upstreams(
                                    marker_name,
                                    expected_task,
                                    expected_upstreams,
                                ),
                                show_marker_upstreams(
                                    marker_name,
                                    recorded,
                                    upstreams.as_slice(),
                                ),
                                here,
                            );
                        }
                    }
                }
            },
            None => {
                return diverged(
                    tag("MarkerRecorded", marker_name),
                    actual_event_name(&self.events[here]),
                    here,
                );
            },
        }
        self.claim_at_cursor();
        proof {
            lemma_evolves_transitive(start, s, self@);
        }
        HistoryMatch::Matched { output: json_null() }
    }
}

} // verus!
