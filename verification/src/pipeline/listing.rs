//! What a published document shows of the skills that it lists.
use crate::json::{find_first, json_views, JsonNumber, JsonView};
use crate::pipeline::candidates::SkillRecord;
use crate::pipeline::document::{
    cache_json, count_view, decision_json, decision_members, quality_json, roster_json, usage_json,
    Addition, Admitted, Evaluated, ExecutionMetrics, Outcome, Quality,
};
use crate::pipeline::publication::{
    explicit_list, explicit_skill, is_dominant, is_empty_document, is_explicit_document,
    is_ranked_document, ranked_list, ranked_skill, skill_json, skill_members, wide_probability_of,
    EligibleSkill, ListedSkill, PhaseShare, ResolvedExplicitSkill, ReturnedSkill, WideEstimate,
};
use crate::score::Score;
use vstd::prelude::*;

verus! {

/// A member's value is a text.
pub open spec fn shows_text(json: JsonView, key: Seq<char>, text: Seq<char>) -> bool {
    json.get(key) == Some(JsonView::Text(text))
}

/// A member's value is a score, or nothing where the score is no number.
pub open spec fn shows_score(json: JsonView, key: Seq<char>, score: Score) -> bool {
    json.get(key) == Some(
        if score.is_finite_spec() {
            JsonView::Number(JsonNumber::Float(score))
        } else {
            JsonView::Null
        },
    )
}

/// A listed skill as its members show it.
pub open spec fn shows_skill(json: JsonView, rank: nat, s: ListedSkill) -> bool {
    &&& json.get("rank"@) == Some(count_view(rank))
    &&& shows_text(json, "skill_id"@, s.skill_id)
    &&& shows_text(json, "name"@, s.name)
    &&& shows_text(json, "invocation_name"@, s.invocation_name)
    &&& shows_text(json, "path"@, s.path)
    &&& shows_text(json, "content_hash"@, s.content_hash)
    &&& shows_text(json, "visibility"@, s.visibility)
    &&& s.rank_score is Some ==> shows_score(json, "rank_score"@, s.rank_score->0)
    &&& s.rank_score is None ==> json.get("rank_score"@) == Some(JsonView::Null)
    &&& s.rerank_probability is Some ==> shows_score(
        json,
        "rerank_probability"@,
        s.rerank_probability->0,
    )
    &&& s.rerank_probability is None ==> json.get("rerank_probability"@) == Some(JsonView::Null)
    &&& s.wide_probability is Some ==> shows_score(
        json,
        "wide_probability"@,
        s.wide_probability->0,
    )
    &&& s.wide_probability is None ==> json.get("wide_probability"@) == Some(JsonView::Null)
    &&& s.fits is Some ==> shows_score(json, "fits"@, s.fits->0)
    &&& s.fits is None ==> json.get("fits"@) == Some(JsonView::Null)
}

proof fn skill_keys_differ(rank: nat, s: ListedSkill)
    ensures
        forall|i: int, j: int|
            0 <= i < j < 11 ==> (#[trigger] skill_members(rank, s)[i]).0 != (
            #[trigger] skill_members(rank, s)[j]).0,
        skill_members(rank, s).len() == 11,
{
    reveal_strlit("content_hash");
    reveal_strlit("fits");
    reveal_strlit("invocation_name");
    reveal_strlit("name");
    reveal_strlit("path");
    reveal_strlit("rank");
    reveal_strlit("rank_score");
    reveal_strlit("rerank_probability");
    reveal_strlit("skill_id");
    reveal_strlit("visibility");
    reveal_strlit("wide_probability");
    assert("fits"@[0] == 'f');
    assert("name"@[0] == 'n');
    assert("path"@[0] == 'p');
    assert("rank"@[0] == 'r');
    assert("rank_score"@[0] == 'r');
    assert("visibility"@[0] == 'v');
    let m = skill_members(rank, s);
    assert(m[0].0.len() == 12 && m[1].0.len() == 4 && m[2].0.len() == 15 && m[3].0.len() == 4
        && m[4].0.len() == 4 && m[5].0.len() == 4 && m[6].0.len() == 10 && m[7].0.len() == 18
        && m[8].0.len() == 8 && m[9].0.len() == 10 && m[10].0.len() == 16);
}

proof fn member_is_found(members: Seq<(Seq<char>, JsonView)>, i: int)
    requires
        0 <= i < members.len(),
        forall|j: int| 0 <= j < i ==> (#[trigger] members[j]).0 != members[i].0,
    ensures
        JsonView::Object(members).get(members[i].0) == Some(members[i].1),
{
    find_first(members, members[i].0, i);
}

proof fn skills_are_shown(rank: nat, s: ListedSkill)
    ensures
        shows_skill(skill_json(rank, s), rank, s),
{
    skill_keys_differ(rank, s);
    let m = skill_members(rank, s);
    member_is_found(m, 0);
    member_is_found(m, 1);
    member_is_found(m, 2);
    member_is_found(m, 3);
    member_is_found(m, 4);
    member_is_found(m, 5);
    member_is_found(m, 6);
    member_is_found(m, 7);
    member_is_found(m, 8);
    member_is_found(m, 9);
    member_is_found(m, 10);
}

/// Every returned skill is listed at its own place: the first has rank one, and
/// each shows the identity, the texts and the estimates of the eligible skill
/// that it was returned for, with the score it was returned with.
pub proof fn rankings_list_the_returned_skills(
    eligible: Seq<EligibleSkill>,
    shortlisted: Seq<WideEstimate>,
    returned: Seq<ReturnedSkill>,
    provisional: Seq<char>,
    i: int,
)
    requires
        0 <= i < returned.len() <= u64::MAX,
        returned[i].index < eligible.len(),
    ensures
        ({
            let list = ranked_list(eligible, shortlisted, returned, provisional);
            let s = eligible[returned[i].index as int];
            &&& list.len() == returned.len()
            &&& list[i].get("rank"@) == Some(
                JsonView::Number(JsonNumber::Unsigned((i + 1) as u64)),
            )
            &&& shows_text(list[i], "skill_id"@, s.binding_id@)
            &&& shows_text(list[i], "name"@, s.name@)
            &&& shows_text(list[i], "invocation_name"@, s.invocation@)
            &&& shows_text(list[i], "path"@, s.location@)
            &&& shows_text(list[i], "content_hash"@, s.content_hash@)
            &&& shows_score(list[i], "rank_score"@, returned[i].rank_score)
            &&& shows_score(list[i], "rerank_probability"@, s.rerank)
            &&& shows_score(list[i], "fits"@, s.fit)
        }),
{
    skills_are_shown(
        (i + 1) as nat,
        ranked_skill(eligible, shortlisted, returned[i], provisional),
    );
}

/// Where the skills are returned from the best score down, the document lists
/// them from the best score down.
pub proof fn rankings_descend(
    eligible: Seq<EligibleSkill>,
    shortlisted: Seq<WideEstimate>,
    returned: Seq<ReturnedSkill>,
    provisional: Seq<char>,
    i: int,
    j: int,
)
    requires
        0 <= i < j < returned.len() <= u64::MAX,
        returned[i].index < eligible.len(),
        returned[j].index < eligible.len(),
        forall|k: int|
            0 <= k < returned.len() ==> (#[trigger] returned[k]).rank_score.is_finite_spec(),
        forall|k: int, l: int|
            0 <= k < l < returned.len() ==> (#[trigger] returned[k]).rank_score.total_rank() >= (
            #[trigger] returned[l]).rank_score.total_rank(),
    ensures
        ({
            let list = ranked_list(eligible, shortlisted, returned, provisional);
            exists|better: Score, worse: Score|
                {
                    &&& #[trigger] shows_score(list[i], "rank_score"@, better)
                    &&& #[trigger] shows_score(list[j], "rank_score"@, worse)
                    &&& better.is_finite_spec() && worse.is_finite_spec()
                    &&& better.total_rank() >= worse.total_rank()
                }
        }),
{
    let list = ranked_list(eligible, shortlisted, returned, provisional);
    rankings_list_the_returned_skills(eligible, shortlisted, returned, provisional, i);
    rankings_list_the_returned_skills(eligible, shortlisted, returned, provisional, j);
    let better = returned[i].rank_score;
    let worse = returned[j].rank_score;
    assert(shows_score(list[i], "rank_score"@, better));
    assert(shows_score(list[j], "rank_score"@, worse));
    assert(better.total_rank() >= worse.total_rank());
}

/// A listed skill shows the wide probability that its shortlist entry has, and
/// zero where the shortlist does not name it.
pub proof fn rankings_show_wide_probabilities(
    eligible: Seq<EligibleSkill>,
    shortlisted: Seq<WideEstimate>,
    returned: Seq<ReturnedSkill>,
    provisional: Seq<char>,
    i: int,
    k: int,
)
    requires
        0 <= i < returned.len() <= u64::MAX,
        returned[i].index < eligible.len(),
        0 <= k <= shortlisted.len(),
        forall|j: int|
            0 <= j < k ==> (#[trigger] shortlisted[j]).id@
                != eligible[returned[i].index as int].binding_id@,
        k < shortlisted.len() ==> shortlisted[k].id@
            == eligible[returned[i].index as int].binding_id@,
    ensures
        shows_score(
            ranked_list(eligible, shortlisted, returned, provisional)[i],
            "wide_probability"@,
            if k < shortlisted.len() {
                shortlisted[k].probability
            } else {
                Score { bits: 0 }
            },
        ),
{
    first_estimate_counts(shortlisted, eligible[returned[i].index as int].binding_id@, k);
    skills_are_shown(
        (i + 1) as nat,
        ranked_skill(eligible, shortlisted, returned[i], provisional),
    );
}

proof fn first_estimate_counts(shortlisted: Seq<WideEstimate>, id: Seq<char>, k: int)
    requires
        0 <= k <= shortlisted.len(),
        forall|j: int| 0 <= j < k ==> (#[trigger] shortlisted[j]).id@ != id,
        k < shortlisted.len() ==> shortlisted[k].id@ == id,
    ensures
        wide_probability_of(shortlisted, id) == (if k < shortlisted.len() {
            shortlisted[k].probability
        } else {
            Score { bits: 0 }
        }),
    decreases k,
{
    if k > 0 {
        let rest = shortlisted.skip(1);
        assert(shortlisted[0].id@ != id);
        assert forall|j: int| 0 <= j < k - 1 implies (#[trigger] rest[j]).id@ != id by {
            assert(rest[j] == shortlisted[j + 1]);
        }
        if k < shortlisted.len() {
            assert(rest[k - 1] == shortlisted[k]);
        }
        first_estimate_counts(rest, id, k - 1);
    }
}

/// Every required skill is listed at its own place, under the call that asked
/// for it and without any estimate: nothing was estimated.
pub proof fn explicit_documents_list_the_required_skills(
    roster: Seq<SkillRecord>,
    skills: Seq<ResolvedExplicitSkill>,
    provisional: Seq<char>,
    i: int,
)
    requires
        0 <= i < skills.len() <= u64::MAX,
    ensures
        ({
            let list = explicit_list(roster, skills, provisional);
            &&& list.len() == skills.len()
            &&& list[i].get("rank"@) == Some(
                JsonView::Number(JsonNumber::Unsigned((i + 1) as u64)),
            )
            &&& shows_text(list[i], "skill_id"@, skills[i].id@)
            &&& shows_text(list[i], "invocation_name"@, skills[i].invocation@)
            &&& list[i].get("rank_score"@) == Some(JsonView::Null)
            &&& list[i].get("rerank_probability"@) == Some(JsonView::Null)
            &&& list[i].get("wide_probability"@) == Some(JsonView::Null)
            &&& list[i].get("fits"@) == Some(JsonView::Null)
        }),
{
    skills_are_shown((i + 1) as nat, explicit_skill(roster, skills[i], provisional));
}

/// Where the roster holds a required skill, its first record gives the listed
/// texts; where it does not, the skill is listed as unverified, by its call.
pub proof fn explicit_documents_describe_known_skills(
    roster: Seq<SkillRecord>,
    skills: Seq<ResolvedExplicitSkill>,
    provisional: Seq<char>,
    i: int,
    k: int,
)
    requires
        0 <= i < skills.len(),
        0 <= k <= roster.len(),
        forall|j: int| 0 <= j < k ==> (#[trigger] roster[j]).id@ != skills[i].id@,
        k < roster.len() ==> roster[k].id@ == skills[i].id@,
    ensures
        ({
            let list = explicit_list(roster, skills, provisional);
            &&& k < roster.len() ==> {
                &&& shows_text(list[i], "name"@, roster[k].display_name@)
                &&& shows_text(list[i], "path"@, roster[k].location@)
                &&& shows_text(list[i], "content_hash"@, roster[k].content_hash@)
            }
            &&& k == roster.len() ==> {
                &&& shows_text(list[i], "name"@, skills[i].invocation@)
                &&& shows_text(list[i], "path"@, Seq::empty())
                &&& shows_text(list[i], "content_hash"@, Seq::empty())
                &&& shows_text(list[i], "visibility"@, "unverified"@)
            }
        }),
{
    first_record_counts(roster, skills[i].id@, k);
    skills_are_shown((i + 1) as nat, explicit_skill(roster, skills[i], provisional));
}

proof fn first_record_counts(roster: Seq<SkillRecord>, id: Seq<char>, k: int)
    requires
        0 <= k <= roster.len(),
        forall|j: int| 0 <= j < k ==> (#[trigger] roster[j]).id@ != id,
        k < roster.len() ==> roster[k].id@ == id,
    ensures
        k < roster.len() ==> crate::pipeline::publication::record_of(roster, id) == Some(roster[k]),
        k == roster.len() ==> crate::pipeline::publication::record_of(roster, id) is None,
    decreases k,
{
    if k > 0 {
        let rest = roster.skip(1);
        assert(roster[0].id@ != id);
        assert forall|j: int| 0 <= j < k - 1 implies (#[trigger] rest[j]).id@ != id by {
            assert(rest[j] == roster[j + 1]);
        }
        if k < roster.len() {
            assert(rest[k - 1] == roster[k]);
        }
        first_record_counts(rest, id, k - 1);
    }
}

/// Is this member one of the document's?
pub open spec fn holds_member(json: JsonView, key: Seq<char>, value: JsonView) -> bool {
    json is Object && json->Object_0.contains((key, value))
}

/// The members of a document that say what was decided.
proof fn decisions_are_shown(
    a: Admitted,
    e: Evaluated,
    o: Outcome,
    addition: Addition,
    schema_version: u64,
    elapsed_ms: u64,
)
    ensures
        ({
            let json = decision_json(a, e, o, addition, schema_version, elapsed_ms);
            &&& json.get("decision"@) == Some(JsonView::Text(o.decision@))
            &&& holds_member(json, "reason"@, JsonView::Text(o.reason@))
            &&& holds_member(json, "skills"@, JsonView::Array(json_views(o.skills@)))
            &&& holds_member(json, "event_id"@, JsonView::Text(a.event_id@))
            &&& holds_member(json, "harness"@, JsonView::Text(a.harness@))
            &&& holds_member(
                json,
                "schema_version"@,
                JsonView::Number(JsonNumber::Unsigned(schema_version)),
            )
            &&& holds_member(
                json,
                "elapsed_ms"@,
                JsonView::Number(JsonNumber::Unsigned(elapsed_ms)),
            )
            &&& addition matches Addition::Error(error) ==> holds_member(json, "error"@, error@)
            &&& addition matches Addition::DryRun(preview) ==> holds_member(
                json,
                "dry_run"@,
                preview@,
            )
        }),
{
    let m = decision_members(a, e, o, addition, schema_version, elapsed_ms);
    reveal_strlit("cache");
    reveal_strlit("choice_confidence");
    reveal_strlit("context_quality");
    reveal_strlit("decision");
    assert(m[3].0 == "decision"@);
    member_is_found(m, 3);
    let more: int = match addition {
        Addition::Nothing => 0,
        _ => 1,
    };
    let early: int = match addition {
        Addition::DryRun(_) => 1,
        _ => 0,
    };
    assert(m[4 + early] == ("elapsed_ms"@, count_view(elapsed_ms as nat)));
    assert(m[5 + more] == ("event_id"@, JsonView::Text(a.event_id@)));
    assert(m[6 + more] == ("harness"@, JsonView::Text(a.harness@)));
    assert(m[14 + more] == ("reason"@, JsonView::Text(o.reason@)));
    assert(m[16 + more] == ("schema_version"@, count_view(schema_version as nat)));
    assert(m[17 + more] == ("skills"@, JsonView::Array(json_views(o.skills@))));
    match addition {
        Addition::Error(error) => {
            assert(m[5] == ("error"@, error@));
        },
        Addition::DryRun(preview) => {
            assert(m[4] == ("dry_run"@, preview@));
        },
        _ => {},
    }
}

/// A ranked document says that it ranks, and lists its skills as they are.
pub proof fn ranked_documents_rank(
    json: JsonView,
    list: Seq<JsonView>,
    omitted_mass: Score,
    admitted: Admitted,
    evaluated: Evaluated,
    schema_version: u64,
    elapsed_ms: u64,
)
    requires
        is_ranked_document(
            json,
            list,
            omitted_mass,
            admitted,
            evaluated,
            schema_version,
            elapsed_ms,
        ),
    ensures
        json.get("decision"@) == Some(JsonView::Text("ranked"@)),
        holds_member(json, "reason"@, JsonView::Text("eligible-candidates"@)),
        holds_member(json, "skills"@, JsonView::Array(list)),
        holds_member(json, "event_id"@, JsonView::Text(admitted.event_id@)),
{
    let o = choose|o: Outcome|
        {
            &&& o.decision@ == "ranked"@
            &&& o.reason@ == "eligible-candidates"@
            &&& json_views(o.skills@) == list
            &&& json == #[trigger] decision_json(
                admitted,
                evaluated,
                o,
                Addition::Nothing,
                schema_version,
                elapsed_ms,
            )
        };
    decisions_are_shown(admitted, evaluated, o, Addition::Nothing, schema_version, elapsed_ms);
}

/// An abstention and an unavailable decision list no skill at all, and say why.
pub proof fn empty_documents_list_nothing(
    json: JsonView,
    decision: Seq<char>,
    reason: Seq<char>,
    admitted: Admitted,
    evaluated: Evaluated,
    addition: Addition,
    schema_version: u64,
    elapsed_ms: u64,
)
    requires
        is_empty_document(
            json,
            decision,
            reason,
            admitted,
            evaluated,
            addition,
            schema_version,
            elapsed_ms,
        ),
    ensures
        json.get("decision"@) == Some(JsonView::Text(decision)),
        holds_member(json, "reason"@, JsonView::Text(reason)),
        holds_member(json, "skills"@, JsonView::Array(Seq::empty())),
        holds_member(json, "event_id"@, JsonView::Text(admitted.event_id@)),
        addition matches Addition::Error(error) ==> holds_member(json, "error"@, error@),
        addition matches Addition::DryRun(preview) ==> holds_member(json, "dry_run"@, preview@),
{
    let o = choose|o: Outcome|
        {
            &&& o.decision@ == decision
            &&& o.reason@ == reason
            &&& o.skills@.len() == 0
            &&& json == #[trigger] decision_json(
                admitted,
                evaluated,
                o,
                addition,
                schema_version,
                elapsed_ms,
            )
        };
    assert(json_views(o.skills@) =~= Seq::empty());
    decisions_are_shown(admitted, evaluated, o, addition, schema_version, elapsed_ms);
}

/// A document of explicit requirements says so, and lists the required skills as
/// they are.
pub proof fn explicit_documents_obey(
    json: JsonView,
    list: Seq<JsonView>,
    admitted: Admitted,
    evaluated: Evaluated,
    schema_version: u64,
    elapsed_ms: u64,
)
    requires
        is_explicit_document(json, list, admitted, evaluated, schema_version, elapsed_ms),
    ensures
        json.get("decision"@) == Some(JsonView::Text("explicit"@)),
        holds_member(json, "reason"@, JsonView::Text("user-required"@)),
        holds_member(json, "skills"@, JsonView::Array(list)),
        holds_member(json, "event_id"@, JsonView::Text(admitted.event_id@)),
{
    let (e, o) = choose|e: Evaluated, o: Outcome|
        {
            &&& o.decision@ == "explicit"@
            &&& o.reason@ == "user-required"@
            &&& json_views(o.skills@) == list
            &&& json == #[trigger] decision_json(
                admitted,
                e,
                o,
                Addition::Nothing,
                schema_version,
                elapsed_ms,
            )
        };
    decisions_are_shown(admitted, e, o, Addition::Nothing, schema_version, elapsed_ms);
}

/// Members whose keys differ are all found.
proof fn distinct_members_are_found(members: Seq<(Seq<char>, JsonView)>)
    requires
        forall|i: int, j: int|
            0 <= i < j < members.len() ==> (#[trigger] members[i]).0 != (#[trigger] members[j]).0,
    ensures
        forall|i: int|
            0 <= i < members.len() ==> JsonView::Object(members).get((#[trigger] members[i]).0)
                == Some(members[i].1),
{
    assert forall|i: int| 0 <= i < members.len() implies JsonView::Object(members).get(
        (#[trigger] members[i]).0,
    ) == Some(members[i].1) by {
        member_is_found(members, i);
    }
}

pub open spec fn shows_count(json: JsonView, key: Seq<char>, n: u64) -> bool {
    json.get(key) == Some(JsonView::Number(JsonNumber::Unsigned(n)))
}

/// A document shows what was used, each count under its own name.
pub proof fn documents_show_their_usage(m: ExecutionMetrics)
    ensures
        shows_count(usage_json(m), "http_attempts"@, m.http_attempts),
        shows_count(usage_json(m), "input_tokens"@, m.input_tokens),
        shows_count(usage_json(m), "output_tokens"@, m.output_tokens),
        shows_count(usage_json(m), "requests"@, m.requests),
        shows_count(usage_json(m), "unknown_usage_attempts"@, m.unknown_usage_attempts),
{
    let members = usage_json(m)->Object_0;
    reveal_strlit("http_attempts");
    reveal_strlit("input_tokens");
    reveal_strlit("output_tokens");
    reveal_strlit("requests");
    reveal_strlit("unknown_usage_attempts");
    assert(members[0].0.len() == 13 && members[1].0.len() == 12 && members[2].0.len() == 13
        && members[3].0.len() == 8 && members[4].0.len() == 22);
    assert(members[0].0[0] == 'h' && members[2].0[0] == 'o');
    distinct_members_are_found(members);
    assert(members[0].0 == "http_attempts"@ && members[1].0 == "input_tokens"@ && members[2].0
        == "output_tokens"@ && members[3].0 == "requests"@ && members[4].0
        == "unknown_usage_attempts"@);
}

/// A document shows what came from the cache, and never a stale answer.
pub proof fn documents_show_their_cache(m: ExecutionMetrics)
    ensures
        cache_json(m).get("hit"@) == Some(JsonView::Bool(m.cache_hit)),
        cache_json(m).get("wide_hit"@) == Some(JsonView::Bool(m.wide_hit)),
        cache_json(m).get("rerank_hit"@) == Some(JsonView::Bool(m.rerank_hit)),
        cache_json(m).get("stale"@) == Some(JsonView::Bool(false)),
        m.cache_age_ms matches Some(age) ==> shows_count(cache_json(m), "age_ms"@, age),
        m.cache_age_ms is None ==> cache_json(m).get("age_ms"@) == Some(JsonView::Null),
{
    let members = cache_json(m)->Object_0;
    reveal_strlit("age_ms");
    reveal_strlit("hit");
    reveal_strlit("rerank_hit");
    reveal_strlit("stale");
    reveal_strlit("wide_hit");
    assert(members[0].0.len() == 6 && members[1].0.len() == 3 && members[2].0.len() == 10
        && members[3].0.len() == 5 && members[4].0.len() == 8);
    distinct_members_are_found(members);
    assert(members[0].0 == "age_ms"@ && members[1].0 == "hit"@ && members[2].0 == "rerank_hit"@
        && members[3].0 == "stale"@ && members[4].0 == "wide_hit"@);
}

/// A document shows the roster that it chose from: all of it, what of it was
/// eligible, what was asked and what was shortlisted, and how it was retrieved.
pub proof fn documents_show_their_roster(a: Admitted, e: Evaluated)
    ensures
        shows_count(roster_json(a, e), "total"@, a.total as u64),
        shows_count(roster_json(a, e), "eligible"@, e.eligible as u64),
        shows_count(roster_json(a, e), "wide_candidates"@, e.wide as u64),
        shows_count(roster_json(a, e), "shortlist"@, e.shortlist as u64),
        roster_json(a, e).get("partial"@) == Some(JsonView::Bool(a.partial)),
        e.quill ==> shows_text(roster_json(a, e), "retrieval"@, "quill-bm25"@),
        !e.quill && e.wide == 0 ==> shows_text(roster_json(a, e), "retrieval"@, "not-evaluated"@),
        !e.quill && e.wide > 0 ==> shows_text(roster_json(a, e), "retrieval"@, "full"@),
{
    let members = roster_json(a, e)->Object_0;
    reveal_strlit("eligible");
    reveal_strlit("partial");
    reveal_strlit("provenance");
    reveal_strlit("retrieval");
    reveal_strlit("shortlist");
    reveal_strlit("total");
    reveal_strlit("wide_candidates");
    assert(members[0].0.len() == 8 && members[1].0.len() == 7 && members[2].0.len() == 10
        && members[3].0.len() == 9 && members[4].0.len() == 9 && members[5].0.len() == 5
        && members[6].0.len() == 15);
    assert(members[3].0[0] == 'r' && members[4].0[0] == 's');
    distinct_members_are_found(members);
    assert(members[0].0 == "eligible"@ && members[1].0 == "partial"@ && members[3].0
        == "retrieval"@ && members[4].0 == "shortlist"@ && members[5].0 == "total"@ && members[6].0
        == "wide_candidates"@);
}

/// A document shows how good its input was, each flag under its own name.
pub proof fn documents_show_their_quality(q: Quality)
    ensures
        quality_json(q).get("attachments_omitted"@) == Some(JsonView::Bool(q.attachments_omitted)),
        quality_json(q).get("history_windowed"@) == Some(JsonView::Bool(q.history_windowed)),
        quality_json(q).get("prompt_complete"@) == Some(JsonView::Bool(q.prompt_complete)),
        quality_json(q).get("source_gaps"@) == Some(JsonView::Bool(q.source_gaps)),
        quality_json(q).get("task_anchor_known"@) == Some(JsonView::Bool(q.task_anchor_known)),
{
    let members = quality_json(q)->Object_0;
    reveal_strlit("attachments_omitted");
    reveal_strlit("history_windowed");
    reveal_strlit("prompt_complete");
    reveal_strlit("source_gaps");
    reveal_strlit("task_anchor_known");
    assert(members[0].0.len() == 19 && members[1].0.len() == 16 && members[2].0.len() == 15
        && members[3].0.len() == 11 && members[4].0.len() == 17);
    distinct_members_are_found(members);
    assert(members[0].0 == "attachments_omitted"@ && members[1].0 == "history_windowed"@
        && members[2].0 == "prompt_complete"@ && members[3].0 == "source_gaps"@ && members[4].0
        == "task_anchor_known"@);
}

/// The phase that a ranking names has the greatest share, and of several with
/// the greatest it is the last.
pub proof fn dominant_phases_have_the_greatest_share(phases: Seq<PhaseShare>, k: int, i: int)
    requires
        is_dominant(phases, k),
        0 <= i < phases.len(),
        i != k,
    ensures
        !phases[k].share.lt_spec(phases[i].share),
        i > k ==> phases[k].share.bits != phases[i].share.bits,
        phases[i].share.total_rank() <= phases[k].share.total_rank(),
{
}

} // verus!
