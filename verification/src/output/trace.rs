//! Bounded stage traces for explainability and why-not diagnostics.
//!
//! A trace evaluates a candidate across eight ordered pipeline stages:
//! discovery, visibility, local policy, quill admission, wide shortlist,
//! fit against none, ordering and publication.
use crate::score::Score;
use crate::text::{copy_optional, copy_text, optional_text};
use vstd::prelude::*;

verus! {

/// The eight ordered stages in the ranking pipeline.
#[derive(Clone, Copy, Debug, PartialEq, Eq, Structural, PartialOrd, Ord)]
pub enum TraceStage {
    Discovery,
    Visibility,
    LocalPolicy,
    QuillAdmission,
    WideShortlist,
    FitNone,
    RankOrder,
    Publication,
}

/// The number of stages in every trace of one candidate.
pub const STAGE_COUNT: usize = 8;

/// The stages in pipeline order.
pub open spec fn all_stages() -> Seq<TraceStage> {
    seq![
        TraceStage::Discovery,
        TraceStage::Visibility,
        TraceStage::LocalPolicy,
        TraceStage::QuillAdmission,
        TraceStage::WideShortlist,
        TraceStage::FitNone,
        TraceStage::RankOrder,
        TraceStage::Publication,
    ]
}

impl TraceStage {
    pub open spec fn label(self) -> Seq<char> {
        match self {
            TraceStage::Discovery => "discovery"@,
            TraceStage::Visibility => "visibility"@,
            TraceStage::LocalPolicy => "local-policy"@,
            TraceStage::QuillAdmission => "quill-admission"@,
            TraceStage::WideShortlist => "wide-shortlist"@,
            TraceStage::FitNone => "fit-none"@,
            TraceStage::RankOrder => "ordering"@,
            TraceStage::Publication => "publication"@,
        }
    }

    /// The stages in pipeline order.
    pub fn all() -> (stages: [TraceStage; 8])
        ensures
            stages@ == all_stages(),
    {
        let stages: [TraceStage; 8] = [
            TraceStage::Discovery,
            TraceStage::Visibility,
            TraceStage::LocalPolicy,
            TraceStage::QuillAdmission,
            TraceStage::WideShortlist,
            TraceStage::FitNone,
            TraceStage::RankOrder,
            TraceStage::Publication,
        ];
        assert(stages@ =~= all_stages());
        stages
    }

    pub fn as_str(self) -> (label: &'static str)
        ensures
            label@ == self.label(),
    {
        match self {
            TraceStage::Discovery => "discovery",
            TraceStage::Visibility => "visibility",
            TraceStage::LocalPolicy => "local-policy",
            TraceStage::QuillAdmission => "quill-admission",
            TraceStage::WideShortlist => "wide-shortlist",
            TraceStage::FitNone => "fit-none",
            TraceStage::RankOrder => "ordering",
            TraceStage::Publication => "publication",
        }
    }
}

/// Evaluation status of a candidate at a particular stage.
#[derive(Clone, Copy, Debug, PartialEq, Eq, Structural)]
pub enum TraceStatus {
    Passed,
    Excluded,
    NotEvaluated,
    NotInSnapshot,
}

impl TraceStatus {
    pub open spec fn label(self) -> Seq<char> {
        match self {
            TraceStatus::Passed => "passed"@,
            TraceStatus::Excluded => "excluded"@,
            TraceStatus::NotEvaluated => "not-evaluated"@,
            TraceStatus::NotInSnapshot => "not-in-snapshot"@,
        }
    }

    pub fn as_str(self) -> (label: &'static str)
        ensures
            label@ == self.label(),
    {
        match self {
            TraceStatus::Passed => "passed",
            TraceStatus::Excluded => "excluded",
            TraceStatus::NotEvaluated => "not-evaluated",
            TraceStatus::NotInSnapshot => "not-in-snapshot",
        }
    }
}

/// An evaluation entry for one skill at one pipeline stage.
#[derive(Clone, Debug)]
pub struct TraceEntry {
    pub skill_id: String,
    pub stage: TraceStage,
    pub status: TraceStatus,
    pub value: Option<Score>,
    pub threshold: Option<Score>,
    pub reason: Option<String>,
    pub hint: Option<String>,
}

/// An entry with its texts as character sequences.
pub struct TraceEntryView {
    pub skill_id: Seq<char>,
    pub stage: TraceStage,
    pub status: TraceStatus,
    pub value: Option<Score>,
    pub threshold: Option<Score>,
    pub reason: Option<Seq<char>>,
    pub hint: Option<Seq<char>>,
}

impl View for TraceEntry {
    type V = TraceEntryView;

    open spec fn view(&self) -> TraceEntryView {
        TraceEntryView {
            skill_id: self.skill_id@,
            stage: self.stage,
            status: self.status,
            value: self.value,
            threshold: self.threshold,
            reason: optional_text(self.reason),
            hint: optional_text(self.hint),
        }
    }
}

/// The entries of a trace, text by text.
pub open spec fn entry_views(entries: Seq<TraceEntry>) -> Seq<TraceEntryView> {
    entries.map_values(|e: TraceEntry| e@)
}

pub open spec fn passed_entry(
    skill_id: Seq<char>,
    stage: TraceStage,
    reason: Seq<char>,
    value: Option<Score>,
    threshold: Option<Score>,
) -> TraceEntryView {
    TraceEntryView {
        skill_id,
        stage,
        status: TraceStatus::Passed,
        value,
        threshold,
        reason: Some(reason),
        hint: None,
    }
}

pub open spec fn excluded_entry(
    skill_id: Seq<char>,
    stage: TraceStage,
    reason: Seq<char>,
    value: Option<Score>,
    threshold: Option<Score>,
    hint: Option<Seq<char>>,
) -> TraceEntryView {
    TraceEntryView {
        skill_id,
        stage,
        status: TraceStatus::Excluded,
        value,
        threshold,
        reason: Some(reason),
        hint,
    }
}

pub open spec fn not_evaluated_entry(skill_id: Seq<char>, stage: TraceStage) -> TraceEntryView {
    TraceEntryView {
        skill_id,
        stage,
        status: TraceStatus::NotEvaluated,
        value: None,
        threshold: None,
        reason: None,
        hint: None,
    }
}

pub open spec fn not_in_snapshot_entry(skill_id: Seq<char>) -> TraceEntryView {
    TraceEntryView {
        skill_id,
        stage: TraceStage::Discovery,
        status: TraceStatus::NotInSnapshot,
        value: None,
        threshold: None,
        reason: None,
        hint: Some("inspect-roster"@),
    }
}

impl TraceEntry {
    /// A passed stage with an identifier reason and optional value and threshold.
    pub fn passed(
        skill_id: &str,
        stage: TraceStage,
        reason: &str,
        value: Option<Score>,
        threshold: Option<Score>,
    ) -> (entry: TraceEntry)
        ensures
            entry@ == passed_entry(skill_id@, stage, reason@, value, threshold),
    {
        TraceEntry {
            skill_id: copy_text(skill_id),
            stage,
            status: TraceStatus::Passed,
            value,
            threshold,
            reason: Some(copy_text(reason)),
            hint: None,
        }
    }

    /// An excluded stage with an identifier reason, optional value and
    /// threshold, and an optional recovery hint.
    pub fn excluded(
        skill_id: &str,
        stage: TraceStage,
        reason: &str,
        value: Option<Score>,
        threshold: Option<Score>,
        hint: Option<String>,
    ) -> (entry: TraceEntry)
        ensures
            entry@ == excluded_entry(
                skill_id@,
                stage,
                reason@,
                value,
                threshold,
                optional_text(hint),
            ),
    {
        TraceEntry {
            skill_id: copy_text(skill_id),
            stage,
            status: TraceStatus::Excluded,
            value,
            threshold,
            reason: Some(copy_text(reason)),
            hint,
        }
    }

    /// An unevaluated stage: no value, threshold or reason.
    pub fn not_evaluated(skill_id: &str, stage: TraceStage) -> (entry: TraceEntry)
        ensures
            entry@ == not_evaluated_entry(skill_id@, stage),
    {
        TraceEntry {
            skill_id: copy_text(skill_id),
            stage,
            status: TraceStatus::NotEvaluated,
            value: None,
            threshold: None,
            reason: None,
            hint: None,
        }
    }

    /// The discovery entry of a skill that the snapshot does not hold.
    pub fn not_in_snapshot(skill_id: &str) -> (entry: TraceEntry)
        ensures
            entry@ == not_in_snapshot_entry(skill_id@),
    {
        TraceEntry {
            skill_id: copy_text(skill_id),
            stage: TraceStage::Discovery,
            status: TraceStatus::NotInSnapshot,
            value: None,
            threshold: None,
            reason: None,
            hint: Some(copy_text("inspect-roster")),
        }
    }

    /// A copy of an entry.
    pub fn copied(&self) -> (copy: TraceEntry)
        ensures
            copy@ == self@,
    {
        TraceEntry {
            skill_id: copy_text(self.skill_id.as_str()),
            stage: self.stage,
            status: self.status,
            value: self.value,
            threshold: self.threshold,
            reason: copy_optional(&self.reason),
            hint: copy_optional(&self.hint),
        }
    }
}

/// Where a trace was taken and where its page starts.
#[derive(Clone, Debug)]
pub struct TraceCursor {
    pub schema_version: u64,
    pub snapshot_id: String,
    pub query_id: String,
    pub offset: u64,
}

/// A bounded, versioned stage trace.
#[derive(Clone, Debug)]
pub struct StageTrace {
    pub cursor: TraceCursor,
    pub total: u64,
    pub next_offset: Option<u64>,
    pub entries: Vec<TraceEntry>,
}

} // verus!
