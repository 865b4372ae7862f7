//! The stage trace of one invocation.
//!
//! Each stage of the pipeline yields one entry per traced skill. The first
//! stage that stops a skill leaves every later stage unevaluated.
use crate::output::trace::{
    all_stages, entry_views, excluded_entry, not_evaluated_entry, not_in_snapshot_entry,
    passed_entry, StageTrace, TraceCursor, TraceEntry, TraceEntryView, TraceStage, TraceStatus,
    STAGE_COUNT,
};
use crate::score::Score;
use crate::text::{contains_text, copy_text, same_text, texts};
use vstd::prelude::*;

verus! {

/// One callable name of a skill.
#[derive(Clone, Debug)]
pub struct Binding {
    pub id: String,
    pub invocation: String,
}

/// A skill of the snapshot with its callable names.
#[derive(Clone, Debug)]
pub struct RosterSkill {
    pub record_id: String,
    pub bindings: Vec<Binding>,
}

/// How a callable name may be invoked.
#[derive(Clone, Copy, Debug, PartialEq, Eq, Structural)]
pub enum InvocationKind {
    Agent,
    ManualOnly,
    Forbidden,
}

/// What an exact lookup in the snapshot found.
#[derive(Clone, Copy, Debug, PartialEq, Eq, Structural)]
pub enum ExactResolution {
    Missing,
    Shadowed,
    Ambiguous,
    Unverified,
    Forbidden,
    Resolved(InvocationKind),
}

/// Skills that local policy holds back.
#[derive(Clone, Debug)]
pub struct PolicyView {
    pub excluded: Vec<String>,
    pub already_loaded: Vec<String>,
}

/// What bounded retrieval did with the eligible roster.
#[derive(Clone, Debug)]
pub enum RetrievalView {
    Admitted(Vec<String>),
    Empty,
    NotEvaluated,
    Failed,
}

/// A skill on the wide stage's shortlist.
#[derive(Clone, Debug)]
pub struct Shortlisted {
    pub id: String,
    pub wide_probability: Score,
}

#[derive(Clone, Debug)]
pub enum WideDecision {
    LowNeed,
    Shortlist(Vec<Shortlisted>),
}

/// The wide stage's answer.
#[derive(Clone, Debug)]
pub struct WideOutcome {
    pub needs_skill: Score,
    pub decision: WideDecision,
}

/// The rerank stage's estimate for one skill.
#[derive(Clone, Debug)]
pub struct Estimate {
    pub id: String,
    pub fit: Score,
    pub rerank: Score,
}

/// The rerank stage's answer.
#[derive(Clone, Debug)]
pub struct RerankOutcome {
    pub none_probability: Score,
    pub estimates: Vec<Estimate>,
}

/// A returned skill: its place among the eligible skills and its score.
#[derive(Clone, Copy, Debug)]
pub struct Scored {
    pub index: usize,
    pub rank_score: Score,
}

/// Everything that the stages decided, as far as the invocation got.
#[derive(Clone, Debug)]
pub struct TraceInputs {
    pub roster: Vec<RosterSkill>,
    pub policy: Option<PolicyView>,
    pub retrieval: RetrievalView,
    pub wide: Option<WideOutcome>,
    pub gate_threshold: Score,
    pub rerank: Option<RerankOutcome>,
    pub fits_threshold: Score,
    /// The eligible skills, once the rerank was evaluated.
    pub eligible: Option<Vec<String>>,
    /// The returned skills, once they were ordered.
    pub returned: Option<Vec<Scored>>,
    pub publication_passed: bool,
}

impl RosterSkill {
    pub open spec fn binding_ids(self) -> Seq<Seq<char>> {
        self.bindings@.map_values(|b: Binding| b.id@)
    }

    /// Does a lookup of `target` mean this skill?
    pub open spec fn answers_to(self, target: Seq<char>) -> bool {
        exists|i: int|
            0 <= i < self.bindings@.len() && (#[trigger] self.bindings@[i]).is_meant_by(
                target,
                self.record_id@,
            )
    }
}

impl Binding {
    /// Does `target` mean this callable name of the skill `record_id`?
    pub open spec fn is_meant_by(self, target: Seq<char>, record_id: Seq<char>) -> bool {
        self.id@ == target || self.invocation@ == target || record_id == target
    }
}

/// A stage that the skill passes: the next stage is reached.
pub open spec fn pass(
    target: Seq<char>,
    stage: TraceStage,
    reason: Seq<char>,
    value: Option<Score>,
    threshold: Option<Score>,
) -> (TraceEntryView, bool) {
    (passed_entry(target, stage, reason, value, threshold), true)
}

/// A stage that excludes the skill: no later stage is reached.
pub open spec fn stop(
    target: Seq<char>,
    stage: TraceStage,
    reason: Seq<char>,
    value: Option<Score>,
    threshold: Option<Score>,
    hint: Option<Seq<char>>,
) -> (TraceEntryView, bool) {
    (excluded_entry(target, stage, reason, value, threshold, hint), false)
}

impl TraceInputs {
    /// The inputs that a finished or interrupted invocation can produce: every
    /// returned skill is one of the eligible skills.
    pub open spec fn wf(self) -> bool {
        self.eligible is Some && self.returned is Some ==> forall|i: int|
            0 <= i < self.returned->0@.len() ==> (#[trigger] self.returned->0@[i]).index
                < self.eligible->0@.len()
    }

    pub open spec fn discovered(self, target: Seq<char>) -> bool {
        exists|i: int| 0 <= i < self.roster@.len() && #[trigger] self.roster@[i].answers_to(target)
    }

    /// The place of the first skill of the snapshot that answers to `target`.
    pub open spec fn skill_place(self, target: Seq<char>, index: int) -> bool {
        &&& 0 <= index < self.roster@.len()
        &&& self.roster@[index].answers_to(target)
        &&& forall|j: int| 0 <= j < index ==> !(#[trigger] self.roster@[j]).answers_to(target)
    }

    /// The first skill of the snapshot that answers to `target`.
    pub open spec fn found_skill(self, target: Seq<char>) -> RosterSkill {
        self.roster@[choose|i: int| self.skill_place(target, i)]
    }

    /// The identities that stand for `target`: those of its skill's callable
    /// names, and the target itself.
    pub open spec fn stands_for(self, target: Seq<char>, id: Seq<char>) -> bool {
        self.found_skill(target).binding_ids().contains(id) || id == target
    }

    pub open spec fn any_stands_for(self, target: Seq<char>, ids: Seq<Seq<char>>) -> bool {
        exists|i: int| 0 <= i < ids.len() && self.stands_for(target, #[trigger] ids[i])
    }

    pub open spec fn shortlist_place(self, target: Seq<char>, index: int) -> bool {
        let list = self.wide->0.decision->Shortlist_0@;
        &&& 0 <= index < list.len()
        &&& self.stands_for(target, list[index].id@)
        &&& forall|j: int| 0 <= j < index ==> !self.stands_for(target, (#[trigger] list[j]).id@)
    }

    /// The estimate that belongs to `id`.
    pub open spec fn estimate_place(self, id: Seq<char>, index: int) -> bool {
        let list = self.rerank->0.estimates@;
        &&& 0 <= index < list.len()
        &&& list[index].id@ == id
        &&& forall|j: int| 0 <= j < index ==> (#[trigger] list[j]).id@ != id
    }

    pub open spec fn has_estimate(self, id: Seq<char>) -> bool {
        exists|index: int| self.estimate_place(id, index)
    }

    /// The estimate that speaks for `target`: that of the first callable name
    /// of its skill that has one, else its own.
    pub open spec fn estimate_of(self, target: Seq<char>, index: int) -> bool {
        let ids = self.found_skill(target).binding_ids();
        if exists|i: int| 0 <= i < ids.len() && self.has_estimate(#[trigger] ids[i]) {
            exists|i: int|
                #![trigger ids[i]]
                0 <= i < ids.len() && self.estimate_place(ids[i], index) && forall|j: int|
                    0 <= j < i ==> !self.has_estimate(#[trigger] ids[j])
        } else {
            self.estimate_place(target, index)
        }
    }

    pub open spec fn returned_place(self, target: Seq<char>, index: int) -> bool {
        let list = self.returned->0@;
        &&& 0 <= index < list.len()
        &&& self.stands_for(target, self.eligible->0@[list[index].index as int]@)
        &&& forall|j: int|
            0 <= j < index ==> !self.stands_for(
                target,
                self.eligible->0@[(#[trigger] list[j]).index as int]@,
            )
    }

    /// The entry that the stage yields when it is reached, and whether the
    /// stage after it is reached too.
    pub open spec fn at_stage(
        self,
        target: Seq<char>,
        resolution: ExactResolution,
        stage: TraceStage,
    ) -> (TraceEntryView, bool) {
        let unknown = (not_evaluated_entry(target, stage), false);
        match stage {
            TraceStage::Discovery => if self.discovered(target) {
                pass(target, stage, "discovered"@, None, None)
            } else {
                (not_in_snapshot_entry(target), false)
            },
            TraceStage::Visibility => match resolution {
                ExactResolution::Missing => stop(target, stage, "missing"@, None, None, Some("inspect-roster"@)),
                ExactResolution::Shadowed => stop(
                    target,
                    stage,
                    "shadowed"@,
                    None,
                    None,
                    Some("inspect-precedence"@),
                ),
                ExactResolution::Ambiguous => stop(
                    target,
                    stage,
                    "ambiguous"@,
                    None,
                    None,
                    Some("inspect-precedence"@),
                ),
                ExactResolution::Unverified => stop(
                    target,
                    stage,
                    "unverified"@,
                    None,
                    None,
                    Some("verify-adapter-visibility"@),
                ),
                ExactResolution::Forbidden => stop(
                    target,
                    stage,
                    "forbidden"@,
                    None,
                    None,
                    Some("check-invocation-restrictions"@),
                ),
                ExactResolution::Resolved(InvocationKind::Forbidden) => stop(
                    target,
                    stage,
                    "forbidden"@,
                    None,
                    None,
                    Some("check-invocation-restrictions"@),
                ),
                ExactResolution::Resolved(InvocationKind::ManualOnly) => stop(
                    target,
                    stage,
                    "manual-only"@,
                    None,
                    None,
                    Some("request-explicitly"@),
                ),
                ExactResolution::Resolved(InvocationKind::Agent) => pass(target, stage, "verified"@, None, None),
            },
            TraceStage::LocalPolicy => match self.policy {
                None => (not_evaluated_entry(target, stage), true),
                Some(policy) => if self.any_stands_for(target, texts(policy.excluded@)) {
                    stop(target, stage, "excluded"@, None, None, Some("review-exclusions"@))
                } else if self.any_stands_for(target, texts(policy.already_loaded@)) {
                    stop(target, stage, "already-loaded"@, None, None, None)
                } else {
                    pass(target, stage, "policy-admitted"@, None, None)
                },
            },
            TraceStage::QuillAdmission => match self.retrieval {
                RetrievalView::Admitted(ids) => if self.any_stands_for(target, texts(ids@)) {
                    pass(target, stage, "quill-admitted"@, None, None)
                } else {
                    stop(target, stage, "not-retrieved"@, None, None, Some("refine-request"@))
                },
                RetrievalView::Empty => stop(
                    target,
                    stage,
                    "retrieval-empty"@,
                    None,
                    None,
                    Some("refine-request"@),
                ),
                RetrievalView::NotEvaluated => pass(target, stage, "full-roster"@, None, None),
                RetrievalView::Failed => unknown,
            },
            TraceStage::WideShortlist => match self.wide {
                None => unknown,
                Some(wide) => match wide.decision {
                    WideDecision::LowNeed => stop(
                    target,
                    stage,
                        "gate-not-met"@,
                        Some(wide.needs_skill),
                        Some(self.gate_threshold),
                        Some("refine-request"@),
                    ),
                    WideDecision::Shortlist(list) => if exists|i: int|
                        self.shortlist_place(target, i) {
                        pass(
                    target,
                    stage,
                            "shortlisted"@,
                            Some(
                                list@[choose|i: int|
                                    self.shortlist_place(target, i)].wide_probability,
                            ),
                            Some(self.gate_threshold),
                        )
                    } else {
                        stop(
                    target,
                    stage,
                            "shortlist-overflow"@,
                            None,
                            Some(self.gate_threshold),
                            Some("refine-request"@),
                        )
                    },
                },
            },
            TraceStage::FitNone => match self.rerank {
                None => unknown,
                Some(rerank) => if exists|i: int| self.estimate_of(target, i) {
                    let estimate = rerank.estimates@[choose|i: int| self.estimate_of(target, i)];
                    if estimate.fit.lt_spec(self.fits_threshold) {
                        stop(
                    target,
                    stage,
                            "fit-below-threshold"@,
                            Some(estimate.fit),
                            Some(self.fits_threshold),
                            Some("refine-request"@),
                        )
                    } else if rerank.none_probability.ge_spec(estimate.rerank) {
                        stop(
                    target,
                    stage,
                            "none-won"@,
                            Some(estimate.rerank),
                            Some(rerank.none_probability),
                            Some("refine-request"@),
                        )
                    } else {
                        pass(target, stage, "fit-eligible"@, Some(estimate.fit), Some(self.fits_threshold))
                    }
                } else {
                    unknown
                },
            },
            TraceStage::RankOrder => match (self.returned, self.eligible) {
                (Some(returned), Some(_)) => if exists|i: int| self.returned_place(target, i) {
                    pass(
                    target,
                    stage,
                        "top-k-selected"@,
                        Some(returned@[choose|i: int| self.returned_place(target, i)].rank_score),
                        None,
                    )
                } else {
                    stop(target, stage, "below-top-k"@, None, None, Some("refine-request"@))
                },
                _ => unknown,
            },
            TraceStage::Publication => if self.publication_passed {
                pass(target, stage, "published"@, None, None)
            } else {
                stop(target, stage, "revalidation-failed"@, None, None, Some("inspect-roster"@))
            },
        }
    }

    /// Is the stage at this place of the pipeline reached?
    pub open spec fn reached(
        self,
        target: Seq<char>,
        resolution: ExactResolution,
        place: int,
    ) -> bool {
        forall|j: int|
            0 <= j < place ==> (#[trigger] self.at_stage(target, resolution, all_stages()[j])).1
    }

    /// The trace of one skill: one entry per stage, in pipeline order.
    pub open spec fn trace_of(
        self,
        target: Seq<char>,
        resolution: ExactResolution,
    ) -> Seq<TraceEntryView> {
        Seq::new(
            STAGE_COUNT as nat,
            |k: int|
                if self.reached(target, resolution, k) {
                    self.at_stage(target, resolution, all_stages()[k]).0
                } else {
                    not_evaluated_entry(target, all_stages()[k])
                },
        )
    }
}

/// The resolution that decides visibility: by identity, or by callable name
/// where no identity matches.
pub open spec fn effective_resolution(
    by_id: ExactResolution,
    by_name: ExactResolution,
) -> ExactResolution {
    if by_id == ExactResolution::Missing {
        by_name
    } else {
        by_id
    }
}

impl RosterSkill {
    fn answers(&self, target: &str) -> (r: bool)
        ensures
            r == self.answers_to(target@),
    {
        let by_record: bool = same_text(self.record_id.as_str(), target);
        let mut i: usize = 0;
        while i < self.bindings.len()
            invariant
                i <= self.bindings@.len(),
                by_record == (self.record_id@ == target@),
                forall|j: int|
                    0 <= j < i ==> !(#[trigger] self.bindings@[j]).is_meant_by(
                        target@,
                        self.record_id@,
                    ),
            decreases self.bindings@.len() - i,
        {
            let binding: &Binding = &self.bindings[i];
            if same_text(binding.id.as_str(), target) || same_text(
                binding.invocation.as_str(),
                target,
            ) || by_record {
                assert(self.bindings@[i as int].is_meant_by(target@, self.record_id@));
                return true;
            }
            i += 1;
        }
        false
    }

    fn has_binding(&self, id: &str) -> (r: bool)
        ensures
            r == self.binding_ids().contains(id@),
    {
        let mut i: usize = 0;
        while i < self.bindings.len()
            invariant
                i <= self.bindings@.len(),
                forall|j: int| 0 <= j < i ==> self.bindings@[j].id@ != id@,
            decreases self.bindings@.len() - i,
        {
            if same_text(self.bindings[i].id.as_str(), id) {
                assert(self.binding_ids()[i as int] == id@);
                return true;
            }
            i += 1;
        }
        assert forall|j: int| 0 <= j < self.binding_ids().len() implies self.binding_ids()[j]
            != id@ by {}
        false
    }
}

impl TraceInputs {
    fn find_skill(&self, target: &str) -> (found: Option<usize>)
        ensures
            found is Some <==> self.discovered(target@),
            found is Some ==> self.skill_place(target@, found->0 as int) && self.found_skill(
                target@,
            ) == self.roster@[found->0 as int],
    {
        let mut i: usize = 0;
        while i < self.roster.len()
            invariant
                i <= self.roster@.len(),
                forall|j: int| 0 <= j < i ==> !(#[trigger] self.roster@[j]).answers_to(target@),
            decreases self.roster@.len() - i,
        {
            if self.roster[i].answers(target) {
                assert(self.roster@[i as int].answers_to(target@));
                assert(self.skill_place(target@, i as int));
                let ghost c = choose|k: int| self.skill_place(target@, k);
                assert(c == i) by {
                    if c < i {
                        assert(!self.roster@[c].answers_to(target@));
                    }
                    if c > i {
                        assert(!self.roster@[i as int].answers_to(target@));
                    }
                }
                return Some(i);
            }
            i += 1;
        }
        None
    }

    fn stands(&self, target: &str, found: usize, id: &str) -> (r: bool)
        requires
            found < self.roster@.len(),
            self.found_skill(target@) == self.roster@[found as int],
        ensures
            r == self.stands_for(target@, id@),
    {
        self.roster[found].has_binding(id) || same_text(id, target)
    }

    fn any_stands(&self, target: &str, found: usize, ids: &Vec<String>) -> (r: bool)
        requires
            found < self.roster@.len(),
            self.found_skill(target@) == self.roster@[found as int],
        ensures
            r == self.any_stands_for(target@, texts(ids@)),
    {
        let mut i: usize = 0;
        while i < ids.len()
            invariant
                i <= ids@.len(),
                found < self.roster@.len(),
                self.found_skill(target@) == self.roster@[found as int],
                forall|j: int| 0 <= j < i ==> !self.stands_for(target@, #[trigger] texts(ids@)[j]),
            decreases ids@.len() - i,
        {
            assert(texts(ids@)[i as int] == ids@[i as int]@);
            if self.stands(target, found, ids[i].as_str()) {
                return true;
            }
            i += 1;
        }
        false
    }

    fn find_estimate(&self, rerank: &RerankOutcome, id: &str) -> (found: Option<usize>)
        requires
            self.rerank == Some(*rerank),
        ensures
            found is Some <==> self.has_estimate(id@),
            found is Some ==> self.estimate_place(id@, found->0 as int),
    {
        let mut i: usize = 0;
        while i < rerank.estimates.len()
            invariant
                i <= rerank.estimates@.len(),
                self.rerank == Some(*rerank),
                forall|j: int| 0 <= j < i ==> (#[trigger] rerank.estimates@[j]).id@ != id@,
            decreases rerank.estimates@.len() - i,
        {
            if same_text(rerank.estimates[i].id.as_str(), id) {
                assert(self.estimate_place(id@, i as int));
                return Some(i);
            }
            i += 1;
        }
        assert forall|k: int| !self.estimate_place(id@, k) by {}
        None
    }

    proof fn estimate_is_unique(self, target: Seq<char>, a: int, b: int)
        requires
            self.rerank is Some,
            self.estimate_of(target, a),
            self.estimate_of(target, b),
        ensures
            a == b,
    {
        let ids = self.found_skill(target).binding_ids();
        if exists|i: int| 0 <= i < ids.len() && self.has_estimate(#[trigger] ids[i]) {
            let i = choose|i: int|
                #![trigger ids[i]]
                0 <= i < ids.len() && self.estimate_place(ids[i], a) && forall|j: int|
                    0 <= j < i ==> !self.has_estimate(#[trigger] ids[j]);
            let k = choose|k: int|
                #![trigger ids[k]]
                0 <= k < ids.len() && self.estimate_place(ids[k], b) && forall|j: int|
                    0 <= j < k ==> !self.has_estimate(#[trigger] ids[j]);
            assert(self.has_estimate(ids[i]));
            assert(self.has_estimate(ids[k]));
            assert(i == k);
            self.place_is_unique(ids[i], a, b);
        } else {
            self.place_is_unique(target, a, b);
        }
    }

    proof fn place_is_unique(self, id: Seq<char>, a: int, b: int)
        requires
            self.rerank is Some,
            self.estimate_place(id, a),
            self.estimate_place(id, b),
        ensures
            a == b,
    {
        let list = self.rerank->0.estimates@;
        if a < b {
            assert(list[a].id@ != id);
        }
        if b < a {
            assert(list[b].id@ != id);
        }
    }

    fn speaking_estimate(
        &self,
        target: &str,
        found: usize,
        rerank: &RerankOutcome,
    ) -> (place: Option<usize>)
        requires
            found < self.roster@.len(),
            self.found_skill(target@) == self.roster@[found as int],
            self.rerank == Some(*rerank),
        ensures
            place is Some <==> (exists|i: int| self.estimate_of(target@, i)),
            place is Some ==> self.estimate_of(target@, place->0 as int),
    {
        let skill: &RosterSkill = &self.roster[found];
        let ghost ids = skill.binding_ids();
        let mut i: usize = 0;
        while i < skill.bindings.len()
            invariant
                i <= skill.bindings@.len(),
                self.rerank == Some(*rerank),
                ids == skill.binding_ids(),
                self.found_skill(target@) == *skill,
                forall|j: int| 0 <= j < i ==> !self.has_estimate(#[trigger] ids[j]),
            decreases skill.bindings@.len() - i,
        {
            assert(ids[i as int] == skill.bindings@[i as int].id@);
            let place = self.find_estimate(rerank, skill.bindings[i].id.as_str());
            if place.is_some() {
                assert(self.has_estimate(ids[i as int]));
                assert(self.estimate_place(ids[i as int], place->0 as int));
                assert(self.estimate_of(target@, place->0 as int));
                return place;
            }
            i += 1;
        }
        let place = self.find_estimate(rerank, target);
        proof {
            if place.is_some() {
                assert(self.estimate_of(target@, place->0 as int));
            } else {
                assert forall|k: int| !self.estimate_of(target@, k) by {}
            }
        }
        place
    }

    fn discovery_stage(&self, target: &str) -> (r: (TraceEntry, bool, Option<usize>))
        ensures
            forall|resolution: ExactResolution|
                #![trigger self.at_stage(target@, resolution, TraceStage::Discovery)]
                (r.0@, r.1) == self.at_stage(target@, resolution, TraceStage::Discovery),
            r.1 ==> r.2 is Some && r.2->0 < self.roster@.len() && self.found_skill(target@)
                == self.roster@[r.2->0 as int],
    {
        let found = self.find_skill(target);
        if found.is_some() {
            (TraceEntry::passed(target, TraceStage::Discovery, "discovered", None, None), true, found)
        } else {
            (TraceEntry::not_in_snapshot(target), false, None)
        }
    }

    fn visibility_stage(&self, target: &str, resolution: ExactResolution) -> (r: (TraceEntry, bool))
        ensures
            (r.0@, r.1) == self.at_stage(target@, resolution, TraceStage::Visibility),
    {
        let (reason, hint): (&str, &str) = match resolution {
            ExactResolution::Missing => ("missing", "inspect-roster"),
            ExactResolution::Shadowed => ("shadowed", "inspect-precedence"),
            ExactResolution::Ambiguous => ("ambiguous", "inspect-precedence"),
            ExactResolution::Unverified => ("unverified", "verify-adapter-visibility"),
            ExactResolution::Forbidden => ("forbidden", "check-invocation-restrictions"),
            ExactResolution::Resolved(InvocationKind::Forbidden) => (
                "forbidden",
                "check-invocation-restrictions",
            ),
            ExactResolution::Resolved(InvocationKind::ManualOnly) => (
                "manual-only",
                "request-explicitly",
            ),
            ExactResolution::Resolved(InvocationKind::Agent) => {
                let entry = TraceEntry::passed(
                    target,
                    TraceStage::Visibility,
                    "verified",
                    None,
                    None,
                );
                return (entry, true);
            },
        };
        let entry = TraceEntry::excluded(
            target,
            TraceStage::Visibility,
            reason,
            None,
            None,
            Some(copy_text(hint)),
        );
        (entry, false)
    }

    fn policy_stage(&self, target: &str, found: usize, resolution: ExactResolution) -> (r: (
        TraceEntry,
        bool,
    ))
        requires
            found < self.roster@.len(),
            self.found_skill(target@) == self.roster@[found as int],
        ensures
            (r.0@, r.1) == self.at_stage(target@, resolution, TraceStage::LocalPolicy),
    {
        let stage = TraceStage::LocalPolicy;
        match &self.policy {
            None => (TraceEntry::not_evaluated(target, stage), true),
            Some(policy) => {
                if self.any_stands(target, found, &policy.excluded) {
                    let hint = Some(copy_text("review-exclusions"));
                    (TraceEntry::excluded(target, stage, "excluded", None, None, hint), false)
                } else if self.any_stands(target, found, &policy.already_loaded) {
                    (TraceEntry::excluded(target, stage, "already-loaded", None, None, None), false)
                } else {
                    (TraceEntry::passed(target, stage, "policy-admitted", None, None), true)
                }
            },
        }
    }

    fn retrieval_stage(&self, target: &str, found: usize, resolution: ExactResolution) -> (r: (
        TraceEntry,
        bool,
    ))
        requires
            found < self.roster@.len(),
            self.found_skill(target@) == self.roster@[found as int],
        ensures
            (r.0@, r.1) == self.at_stage(target@, resolution, TraceStage::QuillAdmission),
    {
        let stage = TraceStage::QuillAdmission;
        let reason: &str = match &self.retrieval {
            RetrievalView::Admitted(ids) => {
                if self.any_stands(target, found, ids) {
                    return (TraceEntry::passed(target, stage, "quill-admitted", None, None), true);
                }
                "not-retrieved"
            },
            RetrievalView::Empty => "retrieval-empty",
            RetrievalView::NotEvaluated => {
                return (TraceEntry::passed(target, stage, "full-roster", None, None), true);
            },
            RetrievalView::Failed => {
                return (TraceEntry::not_evaluated(target, stage), false);
            },
        };
        let hint = Some(copy_text("refine-request"));
        (TraceEntry::excluded(target, stage, reason, None, None, hint), false)
    }

    fn wide_stage(&self, target: &str, found: usize, resolution: ExactResolution) -> (r: (
        TraceEntry,
        bool,
    ))
        requires
            found < self.roster@.len(),
            self.found_skill(target@) == self.roster@[found as int],
        ensures
            (r.0@, r.1) == self.at_stage(target@, resolution, TraceStage::WideShortlist),
    {
        let stage = TraceStage::WideShortlist;
        match &self.wide {
            None => (TraceEntry::not_evaluated(target, stage), false),
            Some(wide) => match &wide.decision {
                WideDecision::LowNeed => {
                    let hint = Some(copy_text("refine-request"));
                    let entry = TraceEntry::excluded(
                        target,
                        stage,
                        "gate-not-met",
                        Some(wide.needs_skill),
                        Some(self.gate_threshold),
                        hint,
                    );
                    (entry, false)
                },
                WideDecision::Shortlist(list) => {
                    let mut i: usize = 0;
                    while i < list.len()
                        invariant
                            i <= list@.len(),
                            found < self.roster@.len(),
                            self.found_skill(target@) == self.roster@[found as int],
                            self.wide == Some(*wide),
                            wide.decision == WideDecision::Shortlist(*list),
                            stage == TraceStage::WideShortlist,
                            forall|j: int|
                                0 <= j < i ==> !self.stands_for(
                                    target@,
                                    (#[trigger] list@[j]).id@,
                                ),
                        decreases list@.len() - i,
                    {
                        if self.stands(target, found, list[i].id.as_str()) {
                            assert(self.shortlist_place(target@, i as int));
                            let ghost c = choose|k: int| self.shortlist_place(target@, k);
                            assert(c == i) by {
                                if c < i {
                                    assert(!self.stands_for(target@, list@[c].id@));
                                }
                                if c > i {
                                    assert(!self.stands_for(target@, list@[i as int].id@));
                                }
                            }
                            let entry = TraceEntry::passed(
                                target,
                                stage,
                                "shortlisted",
                                Some(list[i].wide_probability),
                                Some(self.gate_threshold),
                            );
                            return (entry, true);
                        }
                        i += 1;
                    }
                    let hint = Some(copy_text("refine-request"));
                    let entry = TraceEntry::excluded(
                        target,
                        stage,
                        "shortlist-overflow",
                        None,
                        Some(self.gate_threshold),
                        hint,
                    );
                    (entry, false)
                },
            },
        }
    }

    fn fit_stage(&self, target: &str, found: usize, resolution: ExactResolution) -> (r: (
        TraceEntry,
        bool,
    ))
        requires
            found < self.roster@.len(),
            self.found_skill(target@) == self.roster@[found as int],
        ensures
            (r.0@, r.1) == self.at_stage(target@, resolution, TraceStage::FitNone),
    {
        let stage = TraceStage::FitNone;
        let rerank: &RerankOutcome = match &self.rerank {
            None => {
                return (TraceEntry::not_evaluated(target, stage), false);
            },
            Some(rerank) => rerank,
        };
        let place: usize = match self.speaking_estimate(target, found, rerank) {
            None => {
                return (TraceEntry::not_evaluated(target, stage), false);
            },
            Some(place) => place,
        };
        proof {
            let c = choose|i: int| self.estimate_of(target@, i);
            self.estimate_is_unique(target@, c, place as int);
        }
        let estimate: &Estimate = &rerank.estimates[place];
        if estimate.fit.less_than(self.fits_threshold) {
            let entry = TraceEntry::excluded(
                target,
                stage,
                "fit-below-threshold",
                Some(estimate.fit),
                Some(self.fits_threshold),
                Some(copy_text("refine-request")),
            );
            (entry, false)
        } else if rerank.none_probability.at_least(estimate.rerank) {
            let entry = TraceEntry::excluded(
                target,
                stage,
                "none-won",
                Some(estimate.rerank),
                Some(rerank.none_probability),
                Some(copy_text("refine-request")),
            );
            (entry, false)
        } else {
            let entry = TraceEntry::passed(
                target,
                stage,
                "fit-eligible",
                Some(estimate.fit),
                Some(self.fits_threshold),
            );
            (entry, true)
        }
    }

    fn order_stage(&self, target: &str, found: usize, resolution: ExactResolution) -> (r: (
        TraceEntry,
        bool,
    ))
        requires
            self.wf(),
            found < self.roster@.len(),
            self.found_skill(target@) == self.roster@[found as int],
        ensures
            (r.0@, r.1) == self.at_stage(target@, resolution, TraceStage::RankOrder),
    {
        let stage = TraceStage::RankOrder;
        match (&self.returned, &self.eligible) {
            (Some(returned), Some(eligible)) => {
                let mut i: usize = 0;
                while i < returned.len()
                    invariant
                        i <= returned@.len(),
                        self.wf(),
                        found < self.roster@.len(),
                        self.found_skill(target@) == self.roster@[found as int],
                        self.returned == Some(*returned),
                        self.eligible == Some(*eligible),
                        stage == TraceStage::RankOrder,
                        forall|j: int|
                            0 <= j < i ==> !self.stands_for(
                                target@,
                                eligible@[(#[trigger] returned@[j]).index as int]@,
                            ),
                    decreases returned@.len() - i,
                {
                    let scored: Scored = returned[i];
                    assert(self.returned->0@[i as int].index < eligible@.len());
                    if self.stands(target, found, eligible[scored.index].as_str()) {
                        assert(self.returned_place(target@, i as int));
                        let ghost c = choose|k: int| self.returned_place(target@, k);
                        assert(c == i) by {
                            if c < i {
                                assert(!self.stands_for(
                                    target@,
                                    eligible@[returned@[c].index as int]@,
                                ));
                            }
                            if c > i {
                                assert(!self.stands_for(
                                    target@,
                                    eligible@[returned@[i as int].index as int]@,
                                ));
                            }
                        }
                        let entry = TraceEntry::passed(
                            target,
                            stage,
                            "top-k-selected",
                            Some(scored.rank_score),
                            None,
                        );
                        return (entry, true);
                    }
                    i += 1;
                }
                let hint = Some(copy_text("refine-request"));
                (TraceEntry::excluded(target, stage, "below-top-k", None, None, hint), false)
            },
            _ => (TraceEntry::not_evaluated(target, stage), false),
        }
    }

    fn publication_stage(&self, target: &str, resolution: ExactResolution) -> (r: (
        TraceEntry,
        bool,
    ))
        ensures
            (r.0@, r.1) == self.at_stage(target@, resolution, TraceStage::Publication),
    {
        let stage = TraceStage::Publication;
        if self.publication_passed {
            (TraceEntry::passed(target, stage, "published", None, None), true)
        } else {
            let hint = Some(copy_text("inspect-roster"));
            (TraceEntry::excluded(target, stage, "revalidation-failed", None, None, hint), false)
        }
    }
}

/// Trace one skill through the eight stages. `by_id` and `by_name` are what
/// exact lookups of the target's text found in the snapshot.
pub fn compute_stage_trace(
    target: &str,
    inputs: &TraceInputs,
    by_id: ExactResolution,
    by_name: ExactResolution,
) -> (entries: Vec<TraceEntry>)
    requires
        inputs.wf(),
    ensures
        entry_views(entries@) == inputs.trace_of(target@, effective_resolution(by_id, by_name)),
{
    let resolution: ExactResolution = match by_id {
        ExactResolution::Missing => by_name,
        other => other,
    };
    let stages: [TraceStage; 8] = TraceStage::all();
    let mut entries: Vec<TraceEntry> = Vec::new();
    let (first, mut live, found) = inputs.discovery_stage(target);
    assert(inputs.at_stage(target@, resolution, TraceStage::Discovery) == (first@, live));
    entries.push(first);
    let skill: usize = match found {
        Some(place) => place,
        None => 0,
    };
    let ghost discovered = live;
    assert(inputs.reached(target@, resolution, 0));
    assert(stages@[0] == TraceStage::Discovery);
    assert(inputs.reached(target@, resolution, 1) == live) by {
        assert(inputs.at_stage(target@, resolution, all_stages()[0]).1 == live);
    }
    let mut k: usize = 1;
    while k < STAGE_COUNT
        invariant
            1 <= k <= STAGE_COUNT,
            stages@ == all_stages(),
            inputs.wf(),
            live ==> discovered,
            discovered ==> skill < inputs.roster@.len() && inputs.found_skill(target@)
                == inputs.roster@[skill as int],
            live == inputs.reached(target@, resolution, k as int),
            entry_views(entries@) =~= inputs.trace_of(target@, resolution).take(k as int),
        decreases STAGE_COUNT - k,
    {
        let stage: TraceStage = stages[k];
        let (entry, next): (TraceEntry, bool) = if live {
            match stage {
                TraceStage::Visibility => inputs.visibility_stage(target, resolution),
                TraceStage::LocalPolicy => inputs.policy_stage(target, skill, resolution),
                TraceStage::QuillAdmission => inputs.retrieval_stage(target, skill, resolution),
                TraceStage::WideShortlist => inputs.wide_stage(target, skill, resolution),
                TraceStage::FitNone => inputs.fit_stage(target, skill, resolution),
                TraceStage::RankOrder => inputs.order_stage(target, skill, resolution),
                TraceStage::Publication => inputs.publication_stage(target, resolution),
                TraceStage::Discovery => {
                    assert(false);
                    (TraceEntry::not_evaluated(target, stage), false)
                },
            }
        } else {
            (TraceEntry::not_evaluated(target, stage), false)
        };
        proof {
            assert(all_stages()[k as int] == stage);
            assert(inputs.reached(target@, resolution, k + 1) == next) by {
                if live {
                    assert(inputs.at_stage(target@, resolution, all_stages()[k as int]).1 == next);
                    assert forall|j: int| 0 <= j < k + 1 && next implies (
                    #[trigger] inputs.at_stage(target@, resolution, all_stages()[j])).1 by {
                        if j == k {
                        } else {
                            assert(inputs.reached(target@, resolution, k as int));
                        }
                    }
                } else {
                    let j = choose|j: int|
                        0 <= j < k && !(#[trigger] inputs.at_stage(
                            target@,
                            resolution,
                            all_stages()[j],
                        )).1;
                    assert(!inputs.at_stage(target@, resolution, all_stages()[j]).1);
                }
            }
            assert(entry@ == inputs.trace_of(target@, resolution)[k as int]);
        }
        let ghost before = entries@;
        entries.push(entry);
        assert(entry_views(entries@) =~= entry_views(before).push(entry@));
        live = next;
        k += 1;
    }
    assert(inputs.trace_of(target@, resolution).take(STAGE_COUNT as int) =~= inputs.trace_of(
        target@,
        resolution,
    ));
    entries
}

/// Every trace has exactly one entry per stage, in pipeline order.
pub proof fn trace_covers_every_stage_once(
    inputs: TraceInputs,
    target: Seq<char>,
    resolution: ExactResolution,
)
    ensures
        inputs.trace_of(target, resolution).len() == STAGE_COUNT,
        forall|k: int|
            0 <= k < STAGE_COUNT ==> (#[trigger] inputs.trace_of(target, resolution)[k]).stage
                == all_stages()[k] && inputs.trace_of(target, resolution)[k].skill_id == target,
{
}

/// Once a stage excludes the skill, no later stage carries a verdict.
pub proof fn nothing_is_evaluated_after_an_exclusion(
    inputs: TraceInputs,
    target: Seq<char>,
    resolution: ExactResolution,
    earlier: int,
    later: int,
)
    requires
        0 <= earlier < later < STAGE_COUNT,
        inputs.trace_of(target, resolution)[earlier].status == TraceStatus::Excluded
            || inputs.trace_of(target, resolution)[earlier].status == TraceStatus::NotInSnapshot,
    ensures
        inputs.trace_of(target, resolution)[later] == not_evaluated_entry(
            target,
            all_stages()[later],
        ),
{
    assert(inputs.reached(target, resolution, earlier));
    assert(!inputs.at_stage(target, resolution, all_stages()[earlier]).1);
}

/// The number of shortlisted or listed skills that an explanation covers.
pub const MAX_EXPLAINED_TARGETS: usize = 16;

/// The ids of `ids` that `kept` does not hold yet, appended in order for as
/// long as the list is shorter than `bound`.
pub open spec fn with_new(
    kept: Seq<Seq<char>>,
    ids: Seq<Seq<char>>,
    bound: Option<nat>,
) -> Seq<Seq<char>>
    decreases ids.len(),
{
    if ids.len() == 0 {
        kept
    } else {
        let before = with_new(kept, ids.drop_last(), bound);
        if !before.contains(ids.last()) && (bound is Some ==> before.len() < bound->0) {
            before.push(ids.last())
        } else {
            before
        }
    }
}

/// The identities of all callable names of a roster, in roster order.
pub open spec fn roster_ids(roster: Seq<RosterSkill>) -> Seq<Seq<char>>
    decreases roster.len(),
{
    if roster.len() == 0 {
        Seq::empty()
    } else {
        roster_ids(roster.drop_last()) + roster.last().binding_ids()
    }
}

impl TraceInputs {
    /// The identities of the returned skills, best first.
    pub open spec fn returned_ids(self) -> Seq<Seq<char>> {
        match (self.returned, self.eligible) {
            (Some(returned), Some(eligible)) => returned@.map_values(
                |s: Scored| eligible@[s.index as int]@,
            ),
            _ => Seq::empty(),
        }
    }

    pub open spec fn shortlisted_ids(self) -> Seq<Seq<char>> {
        match self.wide {
            Some(wide) => match wide.decision {
                WideDecision::Shortlist(list) => list@.map_values(|s: Shortlisted| s.id@),
                WideDecision::LowNeed => Seq::empty(),
            },
            None => Seq::empty(),
        }
    }

    /// The skills that an explanation covers: all returned ones, then
    /// shortlisted ones, and the roster only where there are neither.
    pub open spec fn explained(self) -> Seq<Seq<char>> {
        let bound = Some(MAX_EXPLAINED_TARGETS as nat);
        let chosen = with_new(
            with_new(Seq::empty(), self.returned_ids(), None),
            self.shortlisted_ids(),
            bound,
        );
        if chosen.len() == 0 {
            with_new(chosen, roster_ids(self.roster@), bound)
        } else {
            chosen
        }
    }
}

fn push_new(targets: &mut Vec<String>, id: &str, bound: Option<usize>, Ghost(kept): Ghost<
    Seq<Seq<char>>,
>, Ghost(before): Ghost<Seq<Seq<char>>>)
    requires
        texts(old(targets)@) == with_new(
            kept,
            before,
            if bound is Some {
                Some(bound->0 as nat)
            } else {
                None
            },
        ),
    ensures
        texts(final(targets)@) == with_new(
            kept,
            before.push(id@),
            if bound is Some {
                Some(bound->0 as nat)
            } else {
                None
            },
        ),
{
    assert(before.push(id@).drop_last() =~= before);
    let room: bool = match bound {
        Some(bound) => targets.len() < bound,
        None => true,
    };
    if room && !contains_text(targets, id) {
        targets.push(copy_text(id));
        assert(texts(targets@) =~= texts(old(targets)@).push(id@));
    }
}

/// The skills to trace: none unless an explanation was asked for, the named
/// skill for a why-not question, else the explained ones.
pub fn trace_targets(explain: bool, why_not: &Option<String>, inputs: &TraceInputs) -> (targets:
    Option<Vec<String>>)
    requires
        inputs.wf(),
    ensures
        targets is None <==> !explain && *why_not is None,
        *why_not is Some ==> texts(targets->0@) == seq![why_not->0@],
        explain && *why_not is None ==> texts(targets->0@) == inputs.explained(),
{
    let mut targets: Vec<String> = Vec::new();
    match why_not {
        Some(target) => {
            targets.push(copy_text(target.as_str()));
            assert(texts(targets@) =~= seq![why_not->0@]);
            return Some(targets);
        },
        None => {},
    }
    if !explain {
        return None;
    }
    let ghost none = Seq::<Seq<char>>::empty();
    assert(texts(targets@) =~= none);
    match (&inputs.returned, &inputs.eligible) {
        (Some(returned), Some(eligible)) => {
            let mut i: usize = 0;
            assert(inputs.returned_ids().take(0) =~= none);
            while i < returned.len()
                invariant
                    i <= returned@.len(),
                    inputs.wf(),
                    inputs.returned == Some(*returned),
                    inputs.eligible == Some(*eligible),
                    texts(targets@) == with_new(none, inputs.returned_ids().take(i as int), None),
                decreases returned@.len() - i,
            {
                assert(inputs.returned->0@[i as int].index < eligible@.len());
                let index: usize = returned[i].index;
                let ghost ids = inputs.returned_ids();
                assert(ids.take(i as int + 1) =~= ids.take(i as int).push(eligible@[index as int]@));
                push_new(
                    &mut targets,
                    eligible[index].as_str(),
                    None,
                    Ghost(none),
                    Ghost(ids.take(i as int)),
                );
                i += 1;
            }
            assert(inputs.returned_ids().take(i as int) =~= inputs.returned_ids());
        },
        _ => {},
    }
    let ghost first = with_new(none, inputs.returned_ids(), None);
    match &inputs.wide {
        Some(wide) => match &wide.decision {
            WideDecision::Shortlist(list) => {
                let mut i: usize = 0;
                assert(inputs.shortlisted_ids().take(0) =~= none);
                while i < list.len()
                    invariant
                        i <= list@.len(),
                        inputs.wide == Some(*wide),
                        wide.decision == WideDecision::Shortlist(*list),
                        texts(targets@) == with_new(
                            first,
                            inputs.shortlisted_ids().take(i as int),
                            Some(MAX_EXPLAINED_TARGETS as nat),
                        ),
                    decreases list@.len() - i,
                {
                    let ghost ids = inputs.shortlisted_ids();
                    assert(ids.take(i as int + 1) =~= ids.take(i as int).push(list@[i as int].id@));
                    push_new(
                        &mut targets,
                        list[i].id.as_str(),
                        Some(MAX_EXPLAINED_TARGETS),
                        Ghost(first),
                        Ghost(ids.take(i as int)),
                    );
                    i += 1;
                }
                assert(inputs.shortlisted_ids().take(i as int) =~= inputs.shortlisted_ids());
            },
            WideDecision::LowNeed => {},
        },
        None => {},
    }
    let ghost chosen = with_new(
        first,
        inputs.shortlisted_ids(),
        Some(MAX_EXPLAINED_TARGETS as nat),
    );
    assert(texts(targets@) == chosen);
    if targets.len() == 0 {
        assert(texts(targets@).len() == 0);
        assert(chosen =~= none);
        let mut i: usize = 0;
        while i < inputs.roster.len()
            invariant
                i <= inputs.roster@.len(),
                texts(targets@) == with_new(
                    chosen,
                    roster_ids(inputs.roster@.take(i as int)),
                    Some(MAX_EXPLAINED_TARGETS as nat),
                ),
            decreases inputs.roster@.len() - i,
        {
            let skill: &RosterSkill = &inputs.roster[i];
            let ghost before = roster_ids(inputs.roster@.take(i as int));
            let ghost ids = skill.binding_ids();
            let mut j: usize = 0;
            assert(before + ids.take(0) =~= before);
            while j < skill.bindings.len()
                invariant
                    j <= skill.bindings@.len(),
                    ids == skill.binding_ids(),
                    texts(targets@) == with_new(
                        chosen,
                        before + ids.take(j as int),
                        Some(MAX_EXPLAINED_TARGETS as nat),
                    ),
                decreases skill.bindings@.len() - j,
            {
                assert(before + ids.take(j as int + 1) =~= (before + ids.take(j as int)).push(
                    skill.bindings@[j as int].id@,
                ));
                push_new(
                    &mut targets,
                    skill.bindings[j].id.as_str(),
                    Some(MAX_EXPLAINED_TARGETS),
                    Ghost(chosen),
                    Ghost(before + ids.take(j as int)),
                );
                j += 1;
            }
            assert(ids.take(j as int) =~= ids);
            assert(inputs.roster@.take(i as int + 1).drop_last() =~= inputs.roster@.take(i as int));
            i += 1;
        }
        assert(inputs.roster@.take(i as int) =~= inputs.roster@);
    }
    Some(targets)
}

/// What exact lookups of one target found in the snapshot.
#[derive(Clone, Copy, Debug)]
pub struct Lookup {
    pub by_id: ExactResolution,
    pub by_name: ExactResolution,
}

/// The traces of all targets, one after the other.
pub open spec fn all_traces(
    inputs: TraceInputs,
    targets: Seq<Seq<char>>,
    lookups: Seq<Lookup>,
) -> Seq<TraceEntryView>
    decreases targets.len(),
{
    if targets.len() == 0 {
        Seq::empty()
    } else {
        let lookup = lookups[targets.len() - 1];
        all_traces(inputs, targets.drop_last(), lookups) + inputs.trace_of(
            targets.last(),
            effective_resolution(lookup.by_id, lookup.by_name),
        )
    }
}

/// The first page of the stage trace of `targets`. `lookups` holds one lookup
/// per target; `page_items` bounds the page. The total stays that of the whole
/// trace, so that a reader can tell a first page from a full trace.
pub fn generate_trace(
    targets: &Vec<String>,
    lookups: &Vec<Lookup>,
    inputs: &TraceInputs,
    snapshot_id: String,
    query_id: String,
    page_items: usize,
) -> (trace: StageTrace)
    requires
        inputs.wf(),
        lookups@.len() == targets@.len(),
    ensures
        trace.cursor.schema_version == 1,
        trace.cursor.snapshot_id == snapshot_id,
        trace.cursor.query_id == query_id,
        trace.cursor.offset == 0,
        ({
            let all = all_traces(*inputs, texts(targets@), lookups@);
            &&& trace.total == all.len()
            &&& page_items >= all.len() ==> entry_views(trace.entries@) == all
                && trace.next_offset is None
            &&& page_items < all.len() ==> entry_views(trace.entries@) == all.take(
                page_items as int,
            ) && trace.next_offset == Some(page_items as u64)
        }),
{
    let mut entries: Vec<TraceEntry> = Vec::new();
    let ghost ids = texts(targets@);
    let mut i: usize = 0;
    assert(entry_views(entries@) =~= all_traces(*inputs, ids.take(0), lookups@));
    while i < targets.len()
        invariant
            i <= targets@.len(),
            inputs.wf(),
            lookups@.len() == targets@.len(),
            ids == texts(targets@),
            entry_views(entries@) == all_traces(*inputs, ids.take(i as int), lookups@),
        decreases targets@.len() - i,
    {
        let lookup: Lookup = lookups[i];
        let mut more: Vec<TraceEntry> = compute_stage_trace(
            targets[i].as_str(),
            inputs,
            lookup.by_id,
            lookup.by_name,
        );
        let ghost before = entries@;
        let ghost added = more@;
        entries.append(&mut more);
        assert(entry_views(entries@) =~= entry_views(before) + entry_views(added));
        assert(ids.take(i as int + 1).drop_last() =~= ids.take(i as int));
        i += 1;
    }
    assert(ids.take(i as int) =~= ids);
    let ghost all = entry_views(entries@);
    let total: usize = entries.len();
    let next_offset: Option<u64> = if page_items < total {
        entries.truncate(page_items);
        assert(entry_views(entries@) =~= all.take(page_items as int));
        Some(page_items as u64)
    } else {
        None
    };
    StageTrace {
        cursor: TraceCursor { schema_version: 1, snapshot_id, query_id, offset: 0 },
        total: total as u64,
        next_offset,
        entries,
    }
}

/// An explanation never traces a skill twice.
pub proof fn explained_skills_are_distinct(inputs: TraceInputs)
    ensures
        inputs.explained().no_duplicates(),
{
    let bound = Some(MAX_EXPLAINED_TARGETS as nat);
    let empty = Seq::<Seq<char>>::empty();
    with_new_keeps_distinct(empty, inputs.returned_ids(), None);
    let first = with_new(empty, inputs.returned_ids(), None);
    with_new_keeps_distinct(first, inputs.shortlisted_ids(), bound);
    let chosen = with_new(first, inputs.shortlisted_ids(), bound);
    with_new_keeps_distinct(chosen, roster_ids(inputs.roster@), bound);
}

proof fn with_new_keeps_distinct(kept: Seq<Seq<char>>, ids: Seq<Seq<char>>, bound: Option<nat>)
    requires
        kept.no_duplicates(),
    ensures
        with_new(kept, ids, bound).no_duplicates(),
    decreases ids.len(),
{
    if ids.len() > 0 {
        with_new_keeps_distinct(kept, ids.drop_last(), bound);
    }
}

/// A whole trace holds eight entries per traced skill.
pub proof fn trace_total_is_eight_per_skill(
    inputs: TraceInputs,
    targets: Seq<Seq<char>>,
    lookups: Seq<Lookup>,
)
    ensures
        all_traces(inputs, targets, lookups).len() == STAGE_COUNT * targets.len(),
    decreases targets.len(),
{
    if targets.len() > 0 {
        trace_total_is_eight_per_skill(inputs, targets.drop_last(), lookups);
    }
}

} // verus!
