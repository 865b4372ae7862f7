//! What a ranking publishes: explicit, abstained, ranked, unavailable or a
//! preview.
use crate::json::{
    json_bool, json_count, json_object, json_score, json_text, json_views, member_views,
    push_member, score_view, Json, JsonView, Member,
};
use crate::pipeline::candidates::{label_of, visibility_label, SkillRecord, Visibility};
use crate::pipeline::document::{
    count_view, decision_document, decision_json, no_metrics, Addition, Admitted, Evaluated,
    ExecutionMetrics, Outcome, Quality,
};
use crate::pipeline::failure::{failing_as, input_failure, Exit, PipelineFailure};
use crate::score::Score;
use crate::text::{copy_optional, copy_text, optional_text, same_text, texts, utf8_text};
use vstd::prelude::*;
use vstd::utf8::*;

verus! {

/// A skill as a document lists it.
pub struct ListedSkill {
    pub skill_id: Seq<char>,
    pub name: Seq<char>,
    pub invocation_name: Seq<char>,
    pub path: Seq<char>,
    pub content_hash: Seq<char>,
    pub visibility: Seq<char>,
    pub rank_score: Option<Score>,
    pub rerank_probability: Option<Score>,
    pub wide_probability: Option<Score>,
    pub fits: Option<Score>,
}

/// The members of a listed skill, in the order of their keys.
pub open spec fn skill_members(rank: nat, s: ListedSkill) -> Seq<(Seq<char>, JsonView)> {
    seq![
        ("content_hash"@, JsonView::Text(s.content_hash)),
        ("fits"@, score_view(s.fits)),
        ("invocation_name"@, JsonView::Text(s.invocation_name)),
        ("name"@, JsonView::Text(s.name)),
        ("path"@, JsonView::Text(s.path)),
        ("rank"@, count_view(rank)),
        ("rank_score"@, score_view(s.rank_score)),
        ("rerank_probability"@, score_view(s.rerank_probability)),
        ("skill_id"@, JsonView::Text(s.skill_id)),
        ("visibility"@, JsonView::Text(s.visibility)),
        ("wide_probability"@, score_view(s.wide_probability)),
    ]
}

pub open spec fn skill_json(rank: nat, s: ListedSkill) -> JsonView {
    JsonView::Object(skill_members(rank, s))
}

/// The estimates of a listed skill.
#[derive(Clone, Copy, Debug)]
pub struct Estimates {
    pub rank_score: Option<Score>,
    pub rerank_probability: Option<Score>,
    pub wide_probability: Option<Score>,
    pub fits: Option<Score>,
}

/// What a document says of a skill besides its identity and its estimates.
struct SkillText<'a> {
    name: &'a str,
    path: &'a str,
    content_hash: &'a str,
    visibility: &'a str,
}

fn skill_value(
    rank: usize,
    skill_id: &str,
    invocation: &str,
    text: &SkillText,
    estimates: Estimates,
) -> (json: Json)
    ensures
        json@ == skill_json(
            rank as nat,
            ListedSkill {
                skill_id: skill_id@,
                name: text.name@,
                invocation_name: invocation@,
                path: text.path@,
                content_hash: text.content_hash@,
                visibility: text.visibility@,
                rank_score: estimates.rank_score,
                rerank_probability: estimates.rerank_probability,
                wide_probability: estimates.wide_probability,
                fits: estimates.fits,
            },
        ),
{
    let mut members: Vec<Member> = Vec::new();
    push_member(&mut members, "content_hash", json_text(text.content_hash));
    push_member(&mut members, "fits", json_score(estimates.fits));
    push_member(&mut members, "invocation_name", json_text(invocation));
    push_member(&mut members, "name", json_text(text.name));
    push_member(&mut members, "path", json_text(text.path));
    push_member(&mut members, "rank", json_count(rank as u64));
    push_member(&mut members, "rank_score", json_score(estimates.rank_score));
    push_member(&mut members, "rerank_probability", json_score(estimates.rerank_probability));
    push_member(&mut members, "skill_id", json_text(skill_id));
    push_member(&mut members, "visibility", json_text(text.visibility));
    push_member(&mut members, "wide_probability", json_score(estimates.wide_probability));
    assert(member_views(members@) =~= skill_members(
        rank as nat,
        ListedSkill {
            skill_id: skill_id@,
            name: text.name@,
            invocation_name: invocation@,
            path: text.path@,
            content_hash: text.content_hash@,
            visibility: text.visibility@,
            rank_score: estimates.rank_score,
            rerank_probability: estimates.rerank_probability,
            wide_probability: estimates.wide_probability,
            fits: estimates.fits,
        },
    ));
    json_object(members)
}

/// A skill that explicit requirements resolved to.
#[derive(Clone, Debug)]
pub struct ResolvedExplicitSkill {
    pub id: String,
    pub invocation: String,
}

/// The first record with an identity.
pub open spec fn record_of(roster: Seq<SkillRecord>, id: Seq<char>) -> Option<SkillRecord>
    decreases roster.len(),
{
    if roster.len() == 0 {
        None
    } else if roster[0].id@ == id {
        Some(roster[0])
    } else {
        record_of(roster.skip(1), id)
    }
}

fn find_record<'a>(roster: &'a Vec<SkillRecord>, id: &str) -> (r: Option<&'a SkillRecord>)
    ensures
        match r {
            Some(record) => record_of(roster@, id@) == Some(*record),
            None => record_of(roster@, id@) is None,
        },
{
    let mut i: usize = 0;
    assert(roster@.skip(0) =~= roster@);
    while i < roster.len()
        invariant
            i <= roster@.len(),
            record_of(roster@, id@) == record_of(roster@.skip(i as int), id@),
        decreases roster@.len() - i,
    {
        assert(roster@.skip(i as int)[0] == roster@[i as int]);
        assert(roster@.skip(i as int).skip(1) =~= roster@.skip(i + 1));
        if same_text(roster[i].id.as_str(), id) {
            return Some(&roster[i]);
        }
        i += 1;
    }
    None
}

/// An explicit skill as listed: from its record, or by its call alone.
pub open spec fn explicit_skill(
    roster: Seq<SkillRecord>,
    s: ResolvedExplicitSkill,
    provisional: Seq<char>,
) -> ListedSkill {
    match record_of(roster, s.id@) {
        Some(record) => ListedSkill {
            skill_id: s.id@,
            name: record.display_name@,
            invocation_name: s.invocation@,
            path: record.location@,
            content_hash: record.content_hash@,
            visibility: label_of(record.visibility, provisional),
            rank_score: None,
            rerank_probability: None,
            wide_probability: None,
            fits: None,
        },
        None => ListedSkill {
            skill_id: s.id@,
            name: s.invocation@,
            invocation_name: s.invocation@,
            path: Seq::empty(),
            content_hash: Seq::empty(),
            visibility: "unverified"@,
            rank_score: None,
            rerank_probability: None,
            wide_probability: None,
            fits: None,
        },
    }
}

pub open spec fn explicit_list(
    roster: Seq<SkillRecord>,
    skills: Seq<ResolvedExplicitSkill>,
    provisional: Seq<char>,
) -> Seq<JsonView> {
    Seq::new(
        skills.len(),
        |i: int| skill_json((i + 1) as nat, explicit_skill(roster, skills[i], provisional)),
    )
}

/// Nothing was evaluated but the quality of the input; every skill counts as
/// eligible.
pub open spec fn is_unevaluated(e: Evaluated, from: Evaluated, total: usize) -> bool {
    &&& e.quality.summary@ == from.quality.summary@
    &&& e.quality.prompt_complete == from.quality.prompt_complete
    &&& e.quality.task_anchor_known == from.quality.task_anchor_known
    &&& e.quality.history_windowed == from.quality.history_windowed
    &&& e.quality.attachments_omitted == from.quality.attachments_omitted
    &&& e.quality.source_gaps == from.quality.source_gaps
    &&& e.ledger_disabled == from.ledger_disabled
    &&& e.metrics == no_metrics()
    &&& e.eligible == total
    &&& e.wide == 0
    &&& e.shortlist == 0
    &&& !e.quill
    &&& e.wide_set_id is None
    &&& e.rerank_set_id is None
    &&& e.requested_model is None
    &&& e.wide_returned is None
    &&& e.rerank_returned is None
    &&& e.needs_skill is None
    &&& e.phase is None
    &&& e.choice_confidence is None
    &&& e.none_probability is None
}

fn unevaluated(from: &Evaluated, total: usize) -> (e: Evaluated)
    ensures
        is_unevaluated(e, *from, total),
{
    Evaluated {
        quality: Quality {
            summary: copy_text(from.quality.summary.as_str()),
            prompt_complete: from.quality.prompt_complete,
            task_anchor_known: from.quality.task_anchor_known,
            history_windowed: from.quality.history_windowed,
            attachments_omitted: from.quality.attachments_omitted,
            source_gaps: from.quality.source_gaps,
        },
        ledger_disabled: from.ledger_disabled,
        metrics: ExecutionMetrics::none(),
        eligible: total,
        wide: 0,
        shortlist: 0,
        quill: false,
        wide_set_id: None,
        rerank_set_id: None,
        requested_model: None,
        wide_returned: None,
        rerank_returned: None,
        needs_skill: None,
        phase: None,
        choice_confidence: None,
        none_probability: None,
    }
}

/// The document of a decision that explicit requirements settled.
pub open spec fn is_explicit_document(
    json: JsonView,
    list: Seq<JsonView>,
    admitted: Admitted,
    evaluated: Evaluated,
    schema_version: u64,
    elapsed_ms: u64,
) -> bool {
    exists|e: Evaluated, o: Outcome|
        {
            &&& is_unevaluated(e, evaluated, admitted.total)
            &&& o.decision@ == "explicit"@
            &&& o.reason@ == "user-required"@
            &&& o.phase is None
            &&& o.omitted_rank_mass is None
            &&& json_views(o.skills@) == list
            &&& json == #[trigger] decision_json(
                admitted,
                e,
                o,
                Addition::Nothing,
                schema_version,
                elapsed_ms,
            )
        }
}

/// The decision that explicit requirements settle. Nothing was sent for it.
pub fn build_explicit_document(
    skills: &Vec<ResolvedExplicitSkill>,
    roster: &Vec<SkillRecord>,
    provisional: &str,
    admitted: &Admitted,
    evaluated: &Evaluated,
    schema_version: u64,
    elapsed_ms: u64,
) -> (json: Json)
    ensures
        is_explicit_document(
            json@,
            explicit_list(roster@, skills@, provisional@),
            *admitted,
            *evaluated,
            schema_version,
            elapsed_ms,
        ),
{
    let none = Estimates {
        rank_score: None,
        rerank_probability: None,
        wide_probability: None,
        fits: None,
    };
    proof {
        reveal_strlit("");
    }
    let total: usize = skills.len();
    let mut list: Vec<Json> = Vec::new();
    let mut i: usize = 0;
    while i < total
        invariant
            i <= total,
            total == skills@.len(),
            list@.len() == i,
            ""@.len() == 0,
            none == (Estimates {
                rank_score: None,
                rerank_probability: None,
                wide_probability: None,
                fits: None,
            }),
            forall|j: int|
                0 <= j < i ==> (#[trigger] list@[j])@ == explicit_list(roster@, skills@, provisional@)[j],
        decreases total - i,
    {
        let s: &ResolvedExplicitSkill = &skills[i];
        let value: Json = match find_record(roster, s.id.as_str()) {
            Some(record) => skill_value(
                i + 1,
                s.id.as_str(),
                s.invocation.as_str(),
                &SkillText {
                    name: record.display_name.as_str(),
                    path: record.location.as_str(),
                    content_hash: record.content_hash.as_str(),
                    visibility: visibility_label(&record.visibility, provisional),
                },
                none,
            ),
            None => {
                assert(""@ =~= Seq::empty());
                skill_value(
                    i + 1,
                    s.id.as_str(),
                    s.invocation.as_str(),
                    &SkillText {
                        name: s.invocation.as_str(),
                        path: "",
                        content_hash: "",
                        visibility: "unverified",
                    },
                    none,
                )
            },
        };
        list.push(value);
        i += 1;
    }
    assert(json_views(list@) =~= explicit_list(roster@, skills@, provisional@));
    let e: Evaluated = unevaluated(evaluated, admitted.total);
    let o = Outcome {
        decision: copy_text("explicit"),
        reason: copy_text("user-required"),
        phase: None,
        skills: list,
        omitted_rank_mass: None,
    };
    decision_document(admitted, &e, o, Addition::Nothing, schema_version, elapsed_ms)
}

pub open spec fn dry_run_addition(dry_run: Option<Json>) -> Addition {
    match dry_run {
        Some(value) => Addition::DryRun(value),
        None => Addition::Nothing,
    }
}

/// The document of a decision that lists no skill.
pub open spec fn is_empty_document(
    json: JsonView,
    decision: Seq<char>,
    reason: Seq<char>,
    admitted: Admitted,
    evaluated: Evaluated,
    addition: Addition,
    schema_version: u64,
    elapsed_ms: u64,
) -> bool {
    exists|o: Outcome|
        {
            &&& o.decision@ == decision
            &&& o.reason@ == reason
            &&& optional_text(o.phase) == optional_text(evaluated.phase)
            &&& o.skills@.len() == 0
            &&& o.omitted_rank_mass is None
            &&& json == #[trigger] decision_json(
                admitted,
                evaluated,
                o,
                addition,
                schema_version,
                elapsed_ms,
            )
        }
}

/// The decision to suggest nothing.
pub fn build_abstain_document(
    reason: &str,
    admitted: &Admitted,
    evaluated: &Evaluated,
    dry_run: Option<Json>,
    schema_version: u64,
    elapsed_ms: u64,
) -> (json: Json)
    ensures
        is_empty_document(
            json@,
            "abstain"@,
            reason@,
            *admitted,
            *evaluated,
            dry_run_addition(dry_run),
            schema_version,
            elapsed_ms,
        ),
{
    let o = Outcome {
        decision: copy_text("abstain"),
        reason: copy_text(reason),
        phase: copy_optional(&evaluated.phase),
        skills: Vec::new(),
        omitted_rank_mass: None,
    };
    let addition: Addition = match dry_run {
        Some(value) => Addition::DryRun(value),
        None => Addition::Nothing,
    };
    decision_document(admitted, evaluated, o, addition, schema_version, elapsed_ms)
}

/// A skill that survived the rerank.
#[derive(Clone, Debug)]
pub struct EligibleSkill {
    pub binding_id: String,
    pub invocation: String,
    pub binding_visibility: Visibility,
    pub name: String,
    pub location: String,
    pub content_hash: String,
    pub rerank: Score,
    pub fit: Score,
}

/// A returned skill: its place among the eligible ones and its score.
#[derive(Clone, Copy, Debug)]
pub struct ReturnedSkill {
    pub index: usize,
    pub rank_score: Score,
}

/// A shortlisted skill with its wide probability.
#[derive(Clone, Debug)]
pub struct WideEstimate {
    pub id: String,
    pub probability: Score,
}

/// The wide probability of a skill; zero where it has none.
pub open spec fn wide_probability_of(shortlisted: Seq<WideEstimate>, id: Seq<char>) -> Score
    decreases shortlisted.len(),
{
    if shortlisted.len() == 0 {
        Score { bits: 0 }
    } else if shortlisted[0].id@ == id {
        shortlisted[0].probability
    } else {
        wide_probability_of(shortlisted.skip(1), id)
    }
}

fn find_wide(shortlisted: &Vec<WideEstimate>, id: &str) -> (score: Score)
    ensures
        score == wide_probability_of(shortlisted@, id@),
{
    let mut i: usize = 0;
    assert(shortlisted@.skip(0) =~= shortlisted@);
    while i < shortlisted.len()
        invariant
            i <= shortlisted@.len(),
            wide_probability_of(shortlisted@, id@) == wide_probability_of(
                shortlisted@.skip(i as int),
                id@,
            ),
        decreases shortlisted@.len() - i,
    {
        assert(shortlisted@.skip(i as int)[0] == shortlisted@[i as int]);
        assert(shortlisted@.skip(i as int).skip(1) =~= shortlisted@.skip(i + 1));
        if same_text(shortlisted[i].id.as_str(), id) {
            return shortlisted[i].probability;
        }
        i += 1;
    }
    Score { bits: 0 }
}

pub open spec fn ranked_skill(
    eligible: Seq<EligibleSkill>,
    shortlisted: Seq<WideEstimate>,
    returned: ReturnedSkill,
    provisional: Seq<char>,
) -> ListedSkill {
    let s = eligible[returned.index as int];
    ListedSkill {
        skill_id: s.binding_id@,
        name: s.name@,
        invocation_name: s.invocation@,
        path: s.location@,
        content_hash: s.content_hash@,
        visibility: label_of(s.binding_visibility, provisional),
        rank_score: Some(returned.rank_score),
        rerank_probability: Some(s.rerank),
        wide_probability: Some(wide_probability_of(shortlisted, s.binding_id@)),
        fits: Some(s.fit),
    }
}

pub open spec fn ranked_list(
    eligible: Seq<EligibleSkill>,
    shortlisted: Seq<WideEstimate>,
    returned: Seq<ReturnedSkill>,
    provisional: Seq<char>,
) -> Seq<JsonView> {
    Seq::new(
        returned.len(),
        |i: int| skill_json((i + 1) as nat, ranked_skill(eligible, shortlisted, returned[i], provisional)),
    )
}

pub open spec fn phase_or_other(phase: Option<Seq<char>>) -> Seq<char> {
    match phase {
        Some(text) => text,
        None => "other"@,
    }
}

/// The document of a decision that suggests skills.
pub open spec fn is_ranked_document(
    json: JsonView,
    list: Seq<JsonView>,
    omitted_mass: Score,
    admitted: Admitted,
    evaluated: Evaluated,
    schema_version: u64,
    elapsed_ms: u64,
) -> bool {
    exists|o: Outcome|
        {
            &&& o.decision@ == "ranked"@
            &&& o.reason@ == "eligible-candidates"@
            &&& optional_text(o.phase) == Some(phase_or_other(optional_text(evaluated.phase)))
            &&& json_views(o.skills@) == list
            &&& o.omitted_rank_mass == Some(omitted_mass)
            &&& json == #[trigger] decision_json(
                admitted,
                evaluated,
                o,
                Addition::Nothing,
                schema_version,
                elapsed_ms,
            )
        }
}

/// The decision to suggest the returned skills.
pub fn build_ranked_document(
    eligible: &Vec<EligibleSkill>,
    returned: &Vec<ReturnedSkill>,
    shortlisted: &Vec<WideEstimate>,
    provisional: &str,
    omitted_mass: Score,
    admitted: &Admitted,
    evaluated: &Evaluated,
    schema_version: u64,
    elapsed_ms: u64,
) -> (json: Json)
    requires
        forall|i: int|
            0 <= i < returned@.len() ==> (#[trigger] returned@[i]).index < eligible@.len(),
    ensures
        is_ranked_document(
            json@,
            ranked_list(eligible@, shortlisted@, returned@, provisional@),
            omitted_mass,
            *admitted,
            *evaluated,
            schema_version,
            elapsed_ms,
        ),
{
    let total: usize = returned.len();
    let mut list: Vec<Json> = Vec::new();
    let mut i: usize = 0;
    while i < total
        invariant
            i <= total,
            total == returned@.len(),
            list@.len() == i,
            forall|k: int|
                0 <= k < returned@.len() ==> (#[trigger] returned@[k]).index < eligible@.len(),
            forall|j: int|
                0 <= j < i ==> (#[trigger] list@[j])@ == ranked_list(
                    eligible@,
                    shortlisted@,
                    returned@,
                    provisional@,
                )[j],
        decreases total - i,
    {
        let place: ReturnedSkill = returned[i];
        let s: &EligibleSkill = &eligible[place.index];
        let wide: Score = find_wide(shortlisted, s.binding_id.as_str());
        list.push(
            skill_value(
                i + 1,
                s.binding_id.as_str(),
                s.invocation.as_str(),
                &SkillText {
                    name: s.name.as_str(),
                    path: s.location.as_str(),
                    content_hash: s.content_hash.as_str(),
                    visibility: visibility_label(&s.binding_visibility, provisional),
                },
                Estimates {
                    rank_score: Some(place.rank_score),
                    rerank_probability: Some(s.rerank),
                    wide_probability: Some(wide),
                    fits: Some(s.fit),
                },
            ),
        );
        i += 1;
    }
    assert(json_views(list@) =~= ranked_list(eligible@, shortlisted@, returned@, provisional@));
    let phase: String = match &evaluated.phase {
        Some(text) => copy_text(text.as_str()),
        None => copy_text("other"),
    };
    let o = Outcome {
        decision: copy_text("ranked"),
        reason: copy_text("eligible-candidates"),
        phase: Some(phase),
        skills: list,
        omitted_rank_mass: Some(omitted_mass),
    };
    decision_document(admitted, evaluated, o, Addition::Nothing, schema_version, elapsed_ms)
}

/// Does a failure have a public form: a known kind whose exit is the
/// failure's own?
pub open spec fn is_public(exit: Exit, public_exit: Option<u8>) -> bool {
    match public_exit {
        None => false,
        Some(code) => exit == Exit::OfKind || exit == Exit::Code(code),
    }
}

/// A full unavailable decision for a failure after admission, so that
/// evaluated stages and incurred usage are never dropped. `public_exit` is the
/// exit of the public kind of that name, if there is one, and `error` its
/// public form.
pub fn unavailable_document(
    failure: &PipelineFailure,
    public_exit: Option<u8>,
    error: Json,
    admitted: &Admitted,
    evaluated: &Evaluated,
    schema_version: u64,
    elapsed_ms: u64,
) -> (r: Option<Json>)
    ensures
        r is Some == is_public(failure.exit, public_exit),
        r is Some ==> is_empty_document(
            r->0@,
            "unavailable"@,
            failure.kind@,
            *admitted,
            *evaluated,
            Addition::Error(error),
            schema_version,
            elapsed_ms,
        ),
{
    let public: bool = match public_exit {
        None => false,
        Some(code) => match failure.exit {
            Exit::OfKind => true,
            Exit::Code(own) => own == code,
        },
    };
    if !public {
        return None;
    }
    let o = Outcome {
        decision: copy_text("unavailable"),
        reason: copy_text(failure.kind.as_str()),
        phase: copy_optional(&evaluated.phase),
        skills: Vec::new(),
        omitted_rank_mass: None,
    };
    Some(
        decision_document(
            admitted,
            evaluated,
            o,
            Addition::Error(error),
            schema_version,
            elapsed_ms,
        ),
    )
}

/// A previewed request, in the order of its keys.
pub open spec fn preview_stage_json(
    stage: Seq<char>,
    request: Seq<char>,
    bytes: nat,
    candidates: nat,
) -> JsonView {
    JsonView::Object(
        seq![
            ("candidates"@, count_view(candidates)),
            ("request"@, JsonView::Text(request)),
            ("request_bytes"@, count_view(bytes)),
            ("stage"@, JsonView::Text(stage)),
        ],
    )
}

/// One previewed provider request: the exact bytes as text.
pub fn preview_stage(stage: &str, request: &[u8], candidates: usize) -> (r: Result<
    Json,
    PipelineFailure,
>)
    ensures
        match r {
            Ok(json) => valid_utf8(request@) && json@ == preview_stage_json(
                stage@,
                decode_utf8(request@),
                request@.len(),
                candidates as nat,
            ),
            Err(f) => !valid_utf8(request@) && f@ == failing_as(
                "output-limit"@,
                "The request is not valid UTF-8"@,
            ),
        },
{
    let text: &str = match utf8_text(request) {
        Some(text) => text,
        None => {
            return Err(input_failure("output-limit", "The request is not valid UTF-8"));
        },
    };
    proof {
        encode_utf8_decode_utf8(text@);
    }
    let mut members: Vec<Member> = Vec::new();
    push_member(&mut members, "candidates", json_count(candidates as u64));
    push_member(&mut members, "request", json_text(text));
    push_member(&mut members, "request_bytes", json_count(request.len() as u64));
    push_member(&mut members, "stage", json_text(stage));
    assert(member_views(members@) =~= preview_stage_json(
        stage@,
        text@,
        request@.len(),
        candidates as nat,
    )->Object_0);
    Ok(json_object(members))
}

pub open spec fn optional_json(value: Option<Json>) -> JsonView {
    match value {
        Some(json) => json@,
        None => JsonView::Null,
    }
}

fn value_or_null(value: Option<Json>) -> (json: Json)
    ensures
        json@ == optional_json(value),
{
    match value {
        Some(json) => json,
        None => Json::Null,
    }
}

/// The artifact of a dry run: never actionable, and without state.
pub open spec fn preview_json(
    schema_version: u64,
    effects: Json,
    provider_request: Option<Json>,
    local_decision: Option<Json>,
    disclosure: Option<Json>,
) -> JsonView {
    JsonView::Object(
        seq![
            ("actionable"@, JsonView::Bool(false)),
            ("disclosure"@, optional_json(disclosure)),
            ("effects"@, effects@),
            ("kind"@, JsonView::Text("preview"@)),
            ("local_decision"@, optional_json(local_decision)),
            ("provider_request"@, optional_json(provider_request)),
            ("schema_version"@, count_view(schema_version as nat)),
            ("stateless"@, JsonView::Bool(true)),
        ],
    )
}

pub fn preview_document(
    schema_version: u64,
    effects: Json,
    provider_request: Option<Json>,
    local_decision: Option<Json>,
    disclosure: Option<Json>,
) -> (json: Json)
    ensures
        json@ == preview_json(
            schema_version,
            effects,
            provider_request,
            local_decision,
            disclosure,
        ),
{
    let ghost expected = preview_json(
        schema_version,
        effects,
        provider_request,
        local_decision,
        disclosure,
    );
    let mut members: Vec<Member> = Vec::new();
    push_member(&mut members, "actionable", json_bool(false));
    push_member(&mut members, "disclosure", value_or_null(disclosure));
    push_member(&mut members, "effects", effects);
    push_member(&mut members, "kind", json_text("preview"));
    push_member(&mut members, "local_decision", value_or_null(local_decision));
    push_member(&mut members, "provider_request", value_or_null(provider_request));
    push_member(&mut members, "schema_version", json_count(schema_version));
    push_member(&mut members, "stateless", json_bool(true));
    assert(member_views(members@) =~= expected->Object_0);
    json_object(members)
}

/// A declared phase with its share.
#[derive(Clone, Debug)]
pub struct PhaseShare {
    pub name: String,
    pub share: Score,
}

/// The last of the phases with the greatest share.
pub open spec fn is_dominant(phases: Seq<PhaseShare>, k: int) -> bool {
    &&& 0 <= k < phases.len()
    &&& forall|i: int|
        0 <= i < phases.len() ==> (#[trigger] phases[i]).share.total_rank()
            <= phases[k].share.total_rank()
    &&& forall|i: int|
        k < i < phases.len() ==> (#[trigger] phases[i]).share.total_rank()
            < phases[k].share.total_rank()
}

/// The dominant declared phase, where the wide stage evaluated one.
pub fn dominant_phase(phases: &Vec<PhaseShare>) -> (r: Option<String>)
    ensures
        match r {
            Some(name) => exists|k: int| #[trigger]
                is_dominant(phases@, k) && phases@[k].name@ == name@,
            None => phases@.len() == 0,
        },
{
    if phases.len() == 0 {
        return None;
    }
    let mut best: usize = 0;
    let mut i: usize = 1;
    while i < phases.len()
        invariant
            best < i <= phases@.len(),
            forall|j: int|
                0 <= j < i ==> (#[trigger] phases@[j]).share.total_rank()
                    <= phases@[best as int].share.total_rank(),
            forall|j: int|
                best < j < i ==> (#[trigger] phases@[j]).share.total_rank()
                    < phases@[best as int].share.total_rank(),
        decreases phases@.len() - i,
    {
        if phases[i].share.totally_at_least(phases[best].share) {
            best = i;
        }
        i += 1;
    }
    assert(is_dominant(phases@, best as int));
    Some(copy_text(phases[best].name.as_str()))
}

/// A previewed result is never actionable.
pub proof fn previews_are_not_actionable(
    schema_version: u64,
    effects: Json,
    provider_request: Option<Json>,
    local_decision: Option<Json>,
    disclosure: Option<Json>,
)
    ensures
        preview_json(
            schema_version,
            effects,
            provider_request,
            local_decision,
            disclosure,
        ).get("actionable"@) == Some(JsonView::Bool(false)),
{
    let value = preview_json(
        schema_version,
        effects,
        provider_request,
        local_decision,
        disclosure,
    );
    assert(value->Object_0[0].0 == "actionable"@);
}

/// Parameters of a ranking that its decisions read. Paths are texts.
#[derive(Clone, Debug)]
pub struct RankArgs {
    pub workspace: String,
    pub user_config_root: Option<String>,
    /// The home directory, whose own skills are the user's.
    pub home: Option<String>,
    /// A trusted directory for the response cache. Without it no response
    /// outlives the invocation.
    pub cache_dir: Option<String>,
    pub require_skills: Vec<String>,
    /// The shortlist whose rerank request a dry run previews.
    pub shortlist_ids: Vec<String>,
    pub roster_file: Option<String>,
    pub explain: bool,
    pub why_not: Option<String>,
    pub output_json: bool,
    pub output_table: bool,
    pub dry_run: bool,
}

/// The quality of the admitted input before it is rendered.
pub fn input_quality(
    complete_label: &str,
    prompt_only_label: &str,
    has_history: bool,
    essential_attachment_missing: bool,
    attachments_omitted: bool,
) -> (q: Quality)
    ensures
        q.summary@ == (if has_history {
            complete_label@
        } else {
            prompt_only_label@
        }),
        q.prompt_complete == !essential_attachment_missing,
        q.attachments_omitted == attachments_omitted,
        q.task_anchor_known,
        !q.history_windowed,
        !q.source_gaps,
{
    Quality {
        summary: if has_history {
            copy_text(complete_label)
        } else {
            copy_text(prompt_only_label)
        },
        prompt_complete: !essential_attachment_missing,
        task_anchor_known: true,
        history_windowed: false,
        attachments_omitted,
        source_gaps: false,
    }
}

/// The quality of the input once it is rendered: what was cut off counts.
pub fn rendered_quality(
    before: &Quality,
    summary_label: &str,
    request_truncated: usize,
    history_omitted: usize,
    history_truncated: usize,
) -> (q: Quality)
    ensures
        q.summary@ == summary_label@,
        q.prompt_complete == (before.prompt_complete && request_truncated == 0),
        q.history_windowed == (history_omitted > 0 || history_truncated > 0),
        q.task_anchor_known == before.task_anchor_known,
        q.attachments_omitted == before.attachments_omitted,
        q.source_gaps == before.source_gaps,
{
    Quality {
        summary: copy_text(summary_label),
        prompt_complete: before.prompt_complete && request_truncated == 0,
        task_anchor_known: before.task_anchor_known,
        history_windowed: history_omitted > 0 || history_truncated > 0,
        attachments_omitted: before.attachments_omitted,
        source_gaps: before.source_gaps,
    }
}

/// Why a required skill did not resolve.
#[derive(Clone, Copy, Debug, PartialEq, Eq, Structural)]
pub enum UnresolvedReason {
    Missing,
    Ambiguous,
    Forbidden,
    Shadowed,
    ConflictingDirective,
    Unverified,
    InvalidName,
}

/// The same as it is published.
#[derive(Clone, Copy, Debug, PartialEq, Eq, Structural)]
pub enum PublicReason {
    Missing,
    Ambiguous,
    Restricted,
}

/// Any reason but absence and ambiguity is published as a restriction.
pub fn public_reason(reason: UnresolvedReason) -> (r: PublicReason)
    ensures
        r == (match reason {
            UnresolvedReason::Missing => PublicReason::Missing,
            UnresolvedReason::Ambiguous => PublicReason::Ambiguous,
            _ => PublicReason::Restricted,
        }),
{
    match reason {
        UnresolvedReason::Missing => PublicReason::Missing,
        UnresolvedReason::Ambiguous => PublicReason::Ambiguous,
        _ => PublicReason::Restricted,
    }
}

/// The message of skills that did not resolve: it names the first.
pub open spec fn unresolved_text(targets: Seq<Seq<char>>) -> Seq<char> {
    if targets.len() > 0 {
        "Unresolved explicit skill: "@ + targets[0]
    } else {
        "Unresolved explicit skill"@
    }
}

pub fn unresolved_message(targets: &Vec<String>) -> (message: String)
    ensures
        message@ == unresolved_text(texts(targets@)),
{
    if targets.len() > 0 {
        assert(texts(targets@)[0] == targets@[0]@);
        crate::text::join("Unresolved explicit skill: ", targets[0].as_str())
    } else {
        copy_text("Unresolved explicit skill")
    }
}

} // verus!
