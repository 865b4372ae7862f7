//! Which events of a log form the active branch.
use crate::context::branch::lineage::{lineage_of, resolve, response_pairs, ResponseFragment};
use crate::context::{event_views, EventView, NormalizedEvent};
use crate::text::{optional_text, texts};
use vstd::prelude::*;

pub mod laws;
pub mod lineage;
pub mod selection;

verus! {

/// The event, branch and agent that a resolution must land on.
#[derive(Clone, Debug)]
pub struct BranchResolutionTarget {
    pub target_event_id: Option<String>,
    pub target_branch_id: Option<String>,
    pub target_agent_id: Option<String>,
}

pub struct TargetView {
    pub event: Option<Seq<char>>,
    pub branch: Option<Seq<char>>,
    pub agent: Option<Seq<char>>,
}

impl View for BranchResolutionTarget {
    type V = TargetView;

    open spec fn view(&self) -> TargetView {
        TargetView {
            event: optional_text(self.target_event_id),
            branch: optional_text(self.target_branch_id),
            agent: optional_text(self.target_agent_id),
        }
    }
}

/// One resolved chain of events, root first.
#[derive(Clone, Debug)]
pub struct ActiveBranch {
    pub branch_id: Option<String>,
    pub leaf_event_id: Option<String>,
    pub events: Vec<NormalizedEvent>,
    /// Compactions on the chain, which number its context epochs.
    pub compaction_count: usize,
    pub task_boundary_count: usize,
    pub ancestor_chain_truncated: bool,
}

pub struct BranchView {
    pub branch_id: Option<Seq<char>>,
    pub leaf_event_id: Option<Seq<char>>,
    pub events: Seq<EventView>,
    pub compaction_count: nat,
    pub task_boundary_count: nat,
    pub ancestor_chain_truncated: bool,
}

impl View for ActiveBranch {
    type V = BranchView;

    open spec fn view(&self) -> BranchView {
        BranchView {
            branch_id: optional_text(self.branch_id),
            leaf_event_id: optional_text(self.leaf_event_id),
            events: event_views(self.events@),
            compaction_count: self.compaction_count as nat,
            task_boundary_count: self.task_boundary_count as nat,
            ancestor_chain_truncated: self.ancestor_chain_truncated,
        }
    }
}

/// Why no single branch could be selected.
#[derive(Clone, Debug)]
pub enum UnresolvedBranchReason {
    EmptyHistory,
    NoMatchingEvents,
    TargetEventNotFound { target: String },
    AmbiguousEventIdentity { event: String },
    ConflictingEventDefinitions { event: String },
    AmbiguousSiblingForks { candidate_leaves: Vec<String> },
    CycleDetected { at_event: String },
    ConflictingBranchIdentities { expected: String, observed: String },
}

pub enum ReasonView {
    EmptyHistory,
    NoMatchingEvents,
    TargetEventNotFound { target: Seq<char> },
    AmbiguousEventIdentity { event: Seq<char> },
    ConflictingEventDefinitions { event: Seq<char> },
    AmbiguousSiblingForks { candidate_leaves: Seq<Seq<char>> },
    CycleDetected { at_event: Seq<char> },
    ConflictingBranchIdentities { expected: Seq<char>, observed: Seq<char> },
}

impl View for UnresolvedBranchReason {
    type V = ReasonView;

    open spec fn view(&self) -> ReasonView {
        match self {
            UnresolvedBranchReason::EmptyHistory => ReasonView::EmptyHistory,
            UnresolvedBranchReason::NoMatchingEvents => ReasonView::NoMatchingEvents,
            UnresolvedBranchReason::TargetEventNotFound { target } =>
                ReasonView::TargetEventNotFound { target: target@ },
            UnresolvedBranchReason::AmbiguousEventIdentity { event } =>
                ReasonView::AmbiguousEventIdentity { event: event@ },
            UnresolvedBranchReason::ConflictingEventDefinitions { event } =>
                ReasonView::ConflictingEventDefinitions { event: event@ },
            UnresolvedBranchReason::AmbiguousSiblingForks { candidate_leaves } =>
                ReasonView::AmbiguousSiblingForks { candidate_leaves: texts(candidate_leaves@) },
            UnresolvedBranchReason::CycleDetected { at_event } =>
                ReasonView::CycleDetected { at_event: at_event@ },
            UnresolvedBranchReason::ConflictingBranchIdentities { expected, observed } =>
                ReasonView::ConflictingBranchIdentities {
                    expected: expected@,
                    observed: observed@,
                },
        }
    }
}

/// A single active branch, or the reason why there is none.
#[derive(Clone, Debug)]
pub enum BranchResolution {
    Resolved(ActiveBranch),
    Unresolved(UnresolvedBranchReason),
}

impl View for BranchResolution {
    type V = Result<BranchView, ReasonView>;

    open spec fn view(&self) -> Result<BranchView, ReasonView> {
        match self {
            BranchResolution::Resolved(branch) => Ok(branch@),
            BranchResolution::Unresolved(reason) => Err(reason@),
        }
    }
}

/// Select the active branch of a log whose source names no responses.
pub fn resolve_active_branch(
    events: &Vec<NormalizedEvent>,
    target: &BranchResolutionTarget,
) -> (r: BranchResolution)
    ensures
        r@ == lineage_of(event_views(events@), Seq::empty()).resolution(target@),
{
    let responses: Vec<ResponseFragment> = Vec::new();
    assert(response_pairs(responses@) =~= Seq::empty());
    resolve(events, target, &responses)
}

} // verus!
