//! What the verdict of each traced stage rests on.
use crate::output::trace::{all_stages, TraceStatus};
use crate::pipeline::trace::{
    roster_ids, with_new, Binding, ExactResolution, InvocationKind, MAX_EXPLAINED_TARGETS,
    RetrievalView, RosterSkill, TraceInputs, WideDecision,
};
use crate::score::Score;
use crate::text::texts;
use vstd::prelude::*;

verus! {

/// The status of a stage of a skill's trace.
pub open spec fn status_at(
    inputs: TraceInputs,
    target: Seq<char>,
    resolution: ExactResolution,
    k: int,
) -> TraceStatus {
    inputs.trace_of(target, resolution)[k].status
}

/// The value that a stage compared.
pub open spec fn value_at(
    inputs: TraceInputs,
    target: Seq<char>,
    resolution: ExactResolution,
    k: int,
) -> Option<Score> {
    inputs.trace_of(target, resolution)[k].value
}

/// Is this the binding's identity, its call or its record's identity?
pub open spec fn goes_by(binding: Binding, record_id: Seq<char>, target: Seq<char>) -> bool {
    target == binding.id@ || target == binding.invocation@ || target == record_id
}

/// Is the skill callable by a name, an identity or its record's identity?
pub open spec fn is_callable(skill: RosterSkill, target: Seq<char>) -> bool {
    exists|b: int|
        0 <= b < skill.bindings@.len() && goes_by(
            #[trigger] skill.bindings@[b],
            skill.record_id@,
            target,
        )
}

/// The least number that has a property.
proof fn least(p: spec_fn(int) -> bool, n: int) -> (k: int)
    requires
        0 <= n,
        p(n),
    ensures
        0 <= k <= n,
        p(k),
        forall|j: int| 0 <= j < k ==> !#[trigger] p(j),
    decreases n,
{
    if exists|j: int| 0 <= j < n && #[trigger] p(j) {
        let j = choose|j: int| 0 <= j < n && #[trigger] p(j);
        least(p, j)
    } else {
        n
    }
}

proof fn callable_skills_answer(skill: RosterSkill, target: Seq<char>)
    ensures
        skill.answers_to(target) <==> is_callable(skill, target),
{
    if is_callable(skill, target) {
        let b = choose|b: int|
            0 <= b < skill.bindings@.len() && goes_by(
                #[trigger] skill.bindings@[b],
                skill.record_id@,
                target,
            );
        assert(skill.bindings@[b].is_meant_by(target, skill.record_id@));
    }
    if skill.answers_to(target) {
        let b = choose|b: int|
            0 <= b < skill.bindings@.len() && (#[trigger] skill.bindings@[b]).is_meant_by(
                target,
                skill.record_id@,
            );
        assert(goes_by(skill.bindings@[b], skill.record_id@, target));
    }
}

/// An identity stands for a target where it is the target, or an identity of the
/// first skill of the roster that the target calls.
pub proof fn identities_of_the_called_skill_stand_for_it(
    inputs: TraceInputs,
    target: Seq<char>,
    id: Seq<char>,
    i: int,
)
    requires
        0 <= i < inputs.roster@.len(),
        is_callable(inputs.roster@[i], target),
        forall|j: int| 0 <= j < i ==> !is_callable(#[trigger] inputs.roster@[j], target),
    ensures
        inputs.stands_for(target, id) <==> id == target || exists|b: int|
            0 <= b < inputs.roster@[i].bindings@.len() && (
            #[trigger] inputs.roster@[i].bindings@[b]).id@ == id,
{
    callable_skills_answer(inputs.roster@[i], target);
    assert forall|j: int| 0 <= j < i implies !(#[trigger] inputs.roster@[j]).answers_to(target) by {
        callable_skills_answer(inputs.roster@[j], target);
    }
    assert(inputs.skill_place(target, i));
    let k = choose|k: int| inputs.skill_place(target, k);
    assert(inputs.skill_place(target, k));
    if k < i {
        callable_skills_answer(inputs.roster@[k], target);
    }
    assert(k == i);
    let ids = inputs.roster@[i].binding_ids();
    if ids.contains(id) {
        let b = ids.index_of(id);
        assert(inputs.roster@[i].bindings@[b].id@ == id);
    }
    if exists|b: int|
        0 <= b < inputs.roster@[i].bindings@.len() && (
        #[trigger] inputs.roster@[i].bindings@[b]).id@ == id {
        let b = choose|b: int|
            0 <= b < inputs.roster@[i].bindings@.len() && (
            #[trigger] inputs.roster@[i].bindings@[b]).id@ == id;
        assert(ids[b] == id);
    }
}

/// A skill is discovered exactly where the roster holds one that the target
/// calls, and visible exactly where that is resolved as an agent's to use.
pub proof fn visible_skills_are_agents_own(
    inputs: TraceInputs,
    target: Seq<char>,
    resolution: ExactResolution,
)
    ensures
        status_at(inputs, target, resolution, 0) == TraceStatus::Passed <==> exists|i: int|
            0 <= i < inputs.roster@.len() && is_callable(#[trigger] inputs.roster@[i], target),
        status_at(inputs, target, resolution, 0) != TraceStatus::Passed ==> status_at(
            inputs,
            target,
            resolution,
            0,
        ) == TraceStatus::NotInSnapshot,
        status_at(inputs, target, resolution, 1) == TraceStatus::Passed <==> status_at(
            inputs,
            target,
            resolution,
            0,
        ) == TraceStatus::Passed && resolution == ExactResolution::Resolved(InvocationKind::Agent),
        status_at(inputs, target, resolution, 0) == TraceStatus::Passed && resolution
            != ExactResolution::Resolved(InvocationKind::Agent) ==> status_at(
            inputs,
            target,
            resolution,
            1,
        ) == TraceStatus::Excluded,
{
    assert(inputs.reached(target, resolution, 0));
    assert(inputs.discovered(target) <==> exists|i: int|
        0 <= i < inputs.roster@.len() && is_callable(#[trigger] inputs.roster@[i], target)) by {
        if inputs.discovered(target) {
            let i = choose|i: int|
                0 <= i < inputs.roster@.len() && #[trigger] inputs.roster@[i].answers_to(target);
            callable_skills_answer(inputs.roster@[i], target);
        }
        if exists|i: int|
            0 <= i < inputs.roster@.len() && is_callable(#[trigger] inputs.roster@[i], target) {
            let i = choose|i: int|
                0 <= i < inputs.roster@.len() && is_callable(#[trigger] inputs.roster@[i], target);
            callable_skills_answer(inputs.roster@[i], target);
        }
    }
    assert(inputs.reached(target, resolution, 1) <==> inputs.at_stage(
        target,
        resolution,
        all_stages()[0],
    ).1);
}

/// What passed was reached, and the stage after it is too.
proof fn passing_leads_on(
    inputs: TraceInputs,
    target: Seq<char>,
    resolution: ExactResolution,
    k: int,
)
    requires
        0 <= k < 7,
        status_at(inputs, target, resolution, k) == TraceStatus::Passed,
    ensures
        inputs.reached(target, resolution, k),
        inputs.reached(target, resolution, k + 1),
{
    assert(inputs.reached(target, resolution, k));
    assert(inputs.at_stage(target, resolution, all_stages()[k]).1);
    assert forall|j: int| 0 <= j < k + 1 implies (#[trigger] inputs.at_stage(
        target,
        resolution,
        all_stages()[j],
    )).1 by {}
}

/// A visible skill passes the local policy exactly where no identity of it is
/// excluded or already loaded; an exclusion is named before a load.
pub proof fn policy_bars_excluded_and_loaded_skills(
    inputs: TraceInputs,
    target: Seq<char>,
    resolution: ExactResolution,
)
    requires
        status_at(inputs, target, resolution, 1) == TraceStatus::Passed,
    ensures
        inputs.policy is None ==> status_at(inputs, target, resolution, 2)
            == TraceStatus::NotEvaluated,
        inputs.policy matches Some(policy) ==> {
            let excluded = exists|i: int|
                0 <= i < policy.excluded@.len() && inputs.stands_for(
                    target,
                    (#[trigger] policy.excluded@[i])@,
                );
            let loaded = exists|i: int|
                0 <= i < policy.already_loaded@.len() && inputs.stands_for(
                    target,
                    (#[trigger] policy.already_loaded@[i])@,
                );
            let entry = inputs.trace_of(target, resolution)[2];
            &&& !excluded && !loaded <==> entry.status == TraceStatus::Passed
            &&& excluded || loaded <==> entry.status == TraceStatus::Excluded
            &&& excluded ==> entry.reason == Some("excluded"@)
            &&& !excluded && loaded ==> entry.reason == Some("already-loaded"@)
        },
{
    passing_leads_on(inputs, target, resolution, 1);
    match inputs.policy {
        Some(policy) => {
            standing_among(inputs, target, policy.excluded@);
            standing_among(inputs, target, policy.already_loaded@);
        },
        None => {},
    }
}

proof fn standing_among(inputs: TraceInputs, target: Seq<char>, list: Seq<String>)
    ensures
        inputs.any_stands_for(target, texts(list)) <==> exists|i: int|
            0 <= i < list.len() && inputs.stands_for(target, (#[trigger] list[i])@),
{
    let ids = texts(list);
    if inputs.any_stands_for(target, ids) {
        let i = choose|i: int| 0 <= i < ids.len() && inputs.stands_for(target, #[trigger] ids[i]);
        assert(inputs.stands_for(target, list[i]@));
    }
    if exists|i: int| 0 <= i < list.len() && inputs.stands_for(target, (#[trigger] list[i])@) {
        let i = choose|i: int|
            0 <= i < list.len() && inputs.stands_for(target, (#[trigger] list[i])@);
        assert(ids[i] == list[i]@);
    }
}

/// A skill that the policy admits passes retrieval where it is retrieved, or
/// where nothing had to be retrieved; a failed retrieval leaves it open.
pub proof fn retrieval_bars_what_is_not_retrieved(
    inputs: TraceInputs,
    target: Seq<char>,
    resolution: ExactResolution,
)
    requires
        status_at(inputs, target, resolution, 2) == TraceStatus::Passed,
    ensures
        match inputs.retrieval {
            RetrievalView::Admitted(ids) => {
                let retrieved = exists|i: int|
                    0 <= i < ids@.len() && inputs.stands_for(target, (#[trigger] ids@[i])@);
                &&& retrieved ==> status_at(inputs, target, resolution, 3) == TraceStatus::Passed
                &&& !retrieved ==> status_at(inputs, target, resolution, 3) == TraceStatus::Excluded
            },
            RetrievalView::Empty => status_at(inputs, target, resolution, 3)
                == TraceStatus::Excluded,
            RetrievalView::NotEvaluated => status_at(inputs, target, resolution, 3)
                == TraceStatus::Passed,
            RetrievalView::Failed => status_at(inputs, target, resolution, 3)
                == TraceStatus::NotEvaluated,
        },
{
    passing_leads_on(inputs, target, resolution, 2);
    match inputs.retrieval {
        RetrievalView::Admitted(ids) => {
            standing_among(inputs, target, ids@);
        },
        _ => {},
    }
}

/// A retrieved skill passes the wide stage exactly where the need was met and
/// it is shortlisted, and shows the probability that it is shortlisted with.
/// Where the need was not met, the need is shown beside its threshold.
pub proof fn the_wide_stage_bars_what_is_not_shortlisted(
    inputs: TraceInputs,
    target: Seq<char>,
    resolution: ExactResolution,
)
    requires
        status_at(inputs, target, resolution, 3) == TraceStatus::Passed,
    ensures
        inputs.wide is None <==> status_at(inputs, target, resolution, 4)
            == TraceStatus::NotEvaluated,
        inputs.wide matches Some(wide) ==> match wide.decision {
            WideDecision::LowNeed => {
                &&& status_at(inputs, target, resolution, 4) == TraceStatus::Excluded
                &&& value_at(inputs, target, resolution, 4) == Some(wide.needs_skill)
                &&& inputs.trace_of(target, resolution)[4].threshold == Some(inputs.gate_threshold)
            },
            WideDecision::Shortlist(list) => {
                &&& status_at(inputs, target, resolution, 4) == TraceStatus::Passed <==> exists|
                    i: int,
                |
                    0 <= i < list@.len() && inputs.stands_for(target, (#[trigger] list@[i]).id@)
                &&& status_at(inputs, target, resolution, 4) == TraceStatus::Passed ==> exists|
                    i: int,
                |
                    0 <= i < list@.len() && inputs.stands_for(target, (#[trigger] list@[i]).id@)
                        && value_at(inputs, target, resolution, 4) == Some(
                        list@[i].wide_probability,
                    )
            },
        },
{
    passing_leads_on(inputs, target, resolution, 3);
    match inputs.wide {
        Some(wide) => match wide.decision {
            WideDecision::Shortlist(list) => {
                if exists|i: int|
                    0 <= i < list@.len() && inputs.stands_for(target, (#[trigger] list@[i]).id@) {
                    let i = choose|i: int|
                        0 <= i < list@.len() && inputs.stands_for(target, (#[trigger] list@[i]).id@);
                    let p = |n: int|
                        0 <= n < list@.len() && inputs.stands_for(target, list@[n].id@);
                    let k = least(p, i);
                    assert forall|j: int| 0 <= j < k implies !inputs.stands_for(
                        target,
                        (#[trigger] list@[j]).id@,
                    ) by {
                        assert(!p(j));
                    }
                    assert(inputs.shortlist_place(target, k));
                }
                if exists|i: int| inputs.shortlist_place(target, i) {
                    let i = choose|i: int| inputs.shortlist_place(target, i);
                    assert(inputs.stands_for(target, list@[i].id@));
                }
            },
            _ => {},
        },
        None => {},
    }
}

/// A skill passes the fit stage only by an estimate of its own whose fit is not
/// below the threshold and which no chance of none reaches.
pub proof fn fits_need_an_estimate_above_the_threshold(
    inputs: TraceInputs,
    target: Seq<char>,
    resolution: ExactResolution,
)
    requires
        status_at(inputs, target, resolution, 5) == TraceStatus::Passed,
    ensures
        inputs.rerank is Some,
        exists|e: int|
            #![trigger inputs.rerank->0.estimates@[e]]
            {
                let list = inputs.rerank->0.estimates@;
                &&& 0 <= e < list.len()
                &&& inputs.stands_for(target, list[e].id@)
                &&& !list[e].fit.lt_spec(inputs.fits_threshold)
                &&& !inputs.rerank->0.none_probability.ge_spec(list[e].rerank)
                &&& value_at(inputs, target, resolution, 5) == Some(list[e].fit)
            },
{
    let e = choose|e: int| inputs.estimate_of(target, e);
    assert(inputs.estimate_of(target, e));
    let list = inputs.rerank->0.estimates@;
    let ids = inputs.found_skill(target).binding_ids();
    if exists|i: int| 0 <= i < ids.len() && inputs.has_estimate(#[trigger] ids[i]) {
        let i = choose|i: int|
            #![trigger ids[i]]
            0 <= i < ids.len() && inputs.estimate_place(ids[i], e) && forall|j: int|
                0 <= j < i ==> !inputs.has_estimate(#[trigger] ids[j]);
        assert(ids.contains(ids[i]));
        assert(inputs.stands_for(target, list[e].id@));
    } else {
        assert(inputs.stands_for(target, list[e].id@));
    }
}

/// A shortlisted skill with estimates passes the fit stage where each of them is
/// good enough, and is excluded where none is.
pub proof fn fits_follow_the_estimates(
    inputs: TraceInputs,
    target: Seq<char>,
    resolution: ExactResolution,
    e: int,
)
    requires
        status_at(inputs, target, resolution, 4) == TraceStatus::Passed,
        inputs.rerank is Some,
        0 <= e < inputs.rerank->0.estimates@.len(),
        inputs.stands_for(target, inputs.rerank->0.estimates@[e].id@),
    ensures
        ({
            let list = inputs.rerank->0.estimates@;
            let none = inputs.rerank->0.none_probability;
            &&& (forall|i: int|
                0 <= i < list.len() && inputs.stands_for(target, (#[trigger] list[i]).id@)
                    ==> !list[i].fit.lt_spec(inputs.fits_threshold) && !none.ge_spec(
                    list[i].rerank,
                )) ==> status_at(inputs, target, resolution, 5) == TraceStatus::Passed
            &&& (forall|i: int|
                0 <= i < list.len() && inputs.stands_for(target, (#[trigger] list[i]).id@)
                    ==> list[i].fit.lt_spec(inputs.fits_threshold) || none.ge_spec(list[i].rerank))
                ==> status_at(inputs, target, resolution, 5) == TraceStatus::Excluded
        }),
{
    passing_leads_on(inputs, target, resolution, 4);
    let list = inputs.rerank->0.estimates@;
    let ids = inputs.found_skill(target).binding_ids();
    assert(exists|i: int| inputs.estimate_of(target, i)) by {
        let p = |n: int| 0 <= n < list.len() && list[n].id@ == list[e].id@;
        let k = least(p, e);
        assert forall|j: int| 0 <= j < k implies (#[trigger] list[j]).id@ != list[e].id@ by {
            assert(!p(j));
        }
        assert(inputs.estimate_place(list[e].id@, k));
        assert(inputs.has_estimate(list[e].id@));
        if exists|i: int| 0 <= i < ids.len() && inputs.has_estimate(#[trigger] ids[i]) {
            let i = choose|i: int| 0 <= i < ids.len() && inputs.has_estimate(#[trigger] ids[i]);
            let q = |n: int| 0 <= n < ids.len() && inputs.has_estimate(ids[n]);
            let first = least(q, i);
            assert forall|j: int| 0 <= j < first implies !inputs.has_estimate(#[trigger] ids[j]) by {
                assert(!q(j));
            }
            let place = choose|place: int| inputs.estimate_place(ids[first], place);
            assert(inputs.estimate_place(ids[first], place));
            assert(inputs.estimate_of(target, place));
        } else {
            assert(!ids.contains(list[e].id@)) by {
                if ids.contains(list[e].id@) {
                    assert(inputs.has_estimate(ids[ids.index_of(list[e].id@)]));
                }
            }
            assert(list[e].id@ == target);
            assert(inputs.estimate_of(target, k));
        }
    }
    let c = choose|i: int| inputs.estimate_of(target, i);
    assert(inputs.estimate_of(target, c));
    assert(inputs.stands_for(target, list[c].id@)) by {
        if exists|i: int| 0 <= i < ids.len() && inputs.has_estimate(#[trigger] ids[i]) {
            let i = choose|i: int|
                #![trigger ids[i]]
                0 <= i < ids.len() && inputs.estimate_place(ids[i], c) && forall|j: int|
                    0 <= j < i ==> !inputs.has_estimate(#[trigger] ids[j]);
            assert(ids.contains(ids[i]));
        }
    }
}

/// An eligible skill passes the ordering exactly where it is among the returned
/// ones, with the score that it is returned with; and what passed the ordering
/// is published exactly where the revalidation passed.
pub proof fn the_order_bars_what_is_not_returned(
    inputs: TraceInputs,
    target: Seq<char>,
    resolution: ExactResolution,
)
    ensures
        status_at(inputs, target, resolution, 5) == TraceStatus::Passed ==> match (
            inputs.returned,
            inputs.eligible,
        ) {
            (Some(returned), Some(eligible)) => {
                &&& status_at(inputs, target, resolution, 6) == TraceStatus::Passed <==> exists|
                    i: int,
                |
                    0 <= i < returned@.len() && inputs.stands_for(
                        target,
                        eligible@[(#[trigger] returned@[i]).index as int]@,
                    )
                &&& status_at(inputs, target, resolution, 6) == TraceStatus::Passed ==> exists|
                    i: int,
                |
                    0 <= i < returned@.len() && inputs.stands_for(
                        target,
                        eligible@[(#[trigger] returned@[i]).index as int]@,
                    ) && value_at(inputs, target, resolution, 6) == Some(returned@[i].rank_score)
            },
            _ => status_at(inputs, target, resolution, 6) == TraceStatus::NotEvaluated,
        },
        status_at(inputs, target, resolution, 6) == TraceStatus::Passed ==> (status_at(
            inputs,
            target,
            resolution,
            7,
        ) == TraceStatus::Passed <==> inputs.publication_passed),
        status_at(inputs, target, resolution, 7) == TraceStatus::Passed
            ==> inputs.publication_passed,
{
    if status_at(inputs, target, resolution, 6) == TraceStatus::Passed {
        passing_leads_on(inputs, target, resolution, 6);
    }
    if status_at(inputs, target, resolution, 5) == TraceStatus::Passed {
        passing_leads_on(inputs, target, resolution, 5);
        if inputs.returned is Some && inputs.eligible is Some {
            let returned = inputs.returned->0;
            let eligible = inputs.eligible->0;
            if exists|i: int|
                0 <= i < returned@.len() && inputs.stands_for(
                    target,
                    eligible@[(#[trigger] returned@[i]).index as int]@,
                ) {
                let i = choose|i: int|
                    0 <= i < returned@.len() && inputs.stands_for(
                        target,
                        eligible@[(#[trigger] returned@[i]).index as int]@,
                    );
                let p = |n: int|
                    0 <= n < returned@.len() && inputs.stands_for(
                        target,
                        eligible@[returned@[n].index as int]@,
                    );
                let k = least(p, i);
                assert forall|j: int| 0 <= j < k implies !inputs.stands_for(
                    target,
                    eligible@[(#[trigger] returned@[j]).index as int]@,
                ) by {
                    assert(!p(j));
                }
                assert(inputs.returned_place(target, k));
            }
            if exists|i: int| inputs.returned_place(target, i) {
                let i = choose|i: int| inputs.returned_place(target, i);
                assert(inputs.returned_place(target, i));
                assert(inputs.stands_for(target, eligible@[returned@[i].index as int]@));
            }
        }
    }
}

proof fn new_ids_are_appended(kept: Seq<Seq<char>>, ids: Seq<Seq<char>>, bound: Option<nat>)
    ensures
        ({
            let all = with_new(kept, ids, bound);
            &&& kept.len() <= all.len()
            &&& all.take(kept.len() as int) == kept
            &&& forall|id: Seq<char>| #[trigger]
                all.contains(id) ==> kept.contains(id) || ids.contains(id)
            &&& bound is None || all.len() < bound->0 ==> forall|id: Seq<char>| #[trigger]
                ids.contains(id) ==> all.contains(id)
            &&& bound is Some && kept.len() <= bound->0 ==> all.len() <= bound->0
            &&& bound is Some && kept.len() >= bound->0 ==> all == kept
        }),
    decreases ids.len(),
{
    let all = with_new(kept, ids, bound);
    if ids.len() == 0 {
        assert(all.take(kept.len() as int) =~= kept);
    } else {
        let rest = ids.drop_last();
        let before = with_new(kept, rest, bound);
        new_ids_are_appended(kept, rest, bound);
        assert(all.take(kept.len() as int) =~= before.take(kept.len() as int));
        assert forall|id: Seq<char>| #[trigger] all.contains(id) implies kept.contains(id)
            || ids.contains(id) by {
            let i = all.index_of(id);
            if i < before.len() {
                assert(before[i] == id);
                assert(before.contains(id));
                if rest.contains(id) {
                    assert(ids[rest.index_of(id)] == id);
                }
            } else {
                assert(ids[ids.len() - 1] == id);
            }
        }
        if bound is None || all.len() < bound->0 {
            assert forall|id: Seq<char>| #[trigger] ids.contains(id) implies all.contains(id) by {
                let i = ids.index_of(id);
                if i < rest.len() {
                    assert(rest[i] == id);
                    assert(rest.contains(id));
                    assert(before.contains(id));
                    assert(all[before.index_of(id)] == id);
                } else if before.contains(id) {
                    assert(all[before.index_of(id)] == id);
                } else {
                    assert(all[before.len() as int] == id);
                }
            }
        }
    }
}

/// Every returned skill is explained, before any other; shortlisted skills are
/// too while there is room for them; and only where nothing was chosen is the
/// roster itself explained.
pub proof fn returned_skills_are_explained(inputs: TraceInputs)
    ensures
        forall|id: Seq<char>| #[trigger]
            inputs.returned_ids().contains(id) ==> inputs.explained().contains(id),
        inputs.explained().len() < MAX_EXPLAINED_TARGETS ==> forall|id: Seq<char>| #[trigger]
            inputs.shortlisted_ids().contains(id) ==> inputs.explained().contains(id),
        inputs.explained().len() <= MAX_EXPLAINED_TARGETS || inputs.explained() == with_new(
            Seq::empty(),
            inputs.returned_ids(),
            None,
        ),
        inputs.returned_ids().len() > 0 ==> forall|id: Seq<char>| #[trigger]
            inputs.explained().contains(id) ==> inputs.returned_ids().contains(id)
                || inputs.shortlisted_ids().contains(id),
        inputs.returned_ids().len() == 0 && inputs.shortlisted_ids().len() == 0 ==> forall|
            id: Seq<char>,
        | #[trigger]
            inputs.explained().contains(id) ==> roster_ids(inputs.roster@).contains(id),
{
    let bound = Some(MAX_EXPLAINED_TARGETS as nat);
    let empty = Seq::<Seq<char>>::empty();
    let first = with_new(empty, inputs.returned_ids(), None);
    let chosen = with_new(first, inputs.shortlisted_ids(), bound);
    new_ids_are_appended(empty, inputs.returned_ids(), None);
    new_ids_are_appended(first, inputs.shortlisted_ids(), bound);
    new_ids_are_appended(chosen, roster_ids(inputs.roster@), bound);
    assert forall|id: Seq<char>| #[trigger] first.contains(id) implies chosen.contains(id) by {
        let i = first.index_of(id);
        assert(chosen.take(first.len() as int)[i] == chosen[i]);
    }
    if chosen.len() == 0 {
        assert(inputs.returned_ids().len() == 0) by {
            if inputs.returned_ids().len() > 0 {
                assert(inputs.returned_ids().contains(inputs.returned_ids()[0]));
            }
        }
        assert forall|id: Seq<char>| #[trigger] inputs.shortlisted_ids().contains(id) implies false by {
            assert(chosen.contains(id));
        }
    }
    if inputs.returned_ids().len() > 0 {
        assert(inputs.returned_ids().contains(inputs.returned_ids()[0]));
        assert(first.contains(inputs.returned_ids()[0]));
        assert(chosen.contains(inputs.returned_ids()[0]));
    }
}

} // verus!
