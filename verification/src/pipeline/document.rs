//! The documents that a ranking publishes.
use crate::json::{
    json_array, json_bool, json_count, json_object, json_optional, json_score, json_text,
    json_views, member_views, optional_text_view, push_member, score_view, Json, JsonNumber,
    JsonView, Member,
};
use crate::names::{is_ascending, order_is_canonical, NameSet};
use crate::score::Score;
use crate::text::{copy_text, optional_text, same_text, texts};
use vstd::prelude::*;

verus! {

/// A count of codes.
pub open spec fn occurrences(codes: Seq<Seq<char>>, code: Seq<char>) -> nat
    decreases codes.len(),
{
    if codes.len() == 0 {
        0
    } else {
        occurrences(codes.drop_last(), code) + (if codes.last() == code {
            1nat
        } else {
            0
        })
    }
}

/// The distinct codes in order.
pub open spec fn in_order(codes: Seq<Seq<char>>) -> Seq<Seq<char>> {
    choose|order: Seq<Seq<char>>|
        #[trigger] is_ascending(order) && order.to_set() == codes.to_set()
}

/// A gap in the roster's coverage, by code and count. Paths and skill text
/// never appear.
#[derive(Clone, Debug)]
pub struct Warning {
    pub kind: String,
    pub count: usize,
    pub message: String,
}

/// A warning as characters.
pub struct WarningView {
    pub kind: Seq<char>,
    pub count: nat,
    pub message: Seq<char>,
}

impl View for Warning {
    type V = WarningView;

    open spec fn view(&self) -> WarningView {
        WarningView { kind: self.kind@, count: self.count as nat, message: self.message@ }
    }
}

pub open spec fn warning_views(list: Seq<Warning>) -> Seq<WarningView> {
    list.map_values(|w: Warning| w@)
}

/// One warning for each distinct code.
pub open spec fn code_warnings(codes: Seq<Seq<char>>, message: Seq<char>) -> Seq<WarningView> {
    in_order(codes).map_values(
        |code: Seq<char>| WarningView { kind: code, count: occurrences(codes, code), message },
    )
}

/// The caveat of names whose precedence is not verified.
pub open spec fn caveat(provisional: nat, message: Seq<char>) -> Seq<WarningView> {
    if provisional > 0 {
        seq![
            WarningView {
                kind: "unverified-visibility"@,
                count: provisional,
                message,
            },
        ]
    } else {
        Seq::empty()
    }
}

/// The codes without those of roots that are normally absent.
pub open spec fn gap_codes(sources: Seq<Seq<char>>) -> Seq<Seq<char>> {
    sources.filter(|code: Seq<char>| code != "root-missing"@)
}

/// All warnings of a roster: the caveat first, so that it is never cut off.
pub open spec fn all_warnings(
    provisional: nat,
    caution: Seq<char>,
    records: Seq<Seq<char>>,
    sources: Seq<Seq<char>>,
) -> Seq<WarningView> {
    caveat(provisional, caution) + code_warnings(
        records,
        "Skill records were excluded while resolving the roster"@,
    ) + code_warnings(gap_codes(sources), "A skill source was not fully observed"@)
}

proof fn order_is(codes: Seq<Seq<char>>, order: Seq<Seq<char>>)
    requires
        is_ascending(order),
        order.to_set() == codes.to_set(),
    ensures
        in_order(codes) == order,
{
    order_is_canonical(in_order(codes), order);
}

fn count_code(codes: &Vec<String>, code: &str) -> (n: usize)
    ensures
        n == occurrences(texts(codes@), code@),
{
    let ghost all = texts(codes@);
    let mut n: usize = 0;
    let mut i: usize = 0;
    assert(all.take(0) =~= Seq::empty());
    while i < codes.len()
        invariant
            i <= codes@.len(),
            all == texts(codes@),
            n <= i,
            n == occurrences(all.take(i as int), code@),
        decreases codes@.len() - i,
    {
        assert(all.take(i + 1).drop_last() =~= all.take(i as int));
        assert(all.take(i + 1).last() == codes@[i as int]@);
        if same_text(codes[i].as_str(), code) {
            n += 1;
        }
        i += 1;
    }
    assert(all.take(i as int) =~= all);
    n
}

/// The distinct codes of a list.
pub fn distinct_codes(codes: &Vec<String>) -> (order: NameSet)
    ensures
        order.inv(),
        order@ == in_order(texts(codes@)),
        order@.to_set() == texts(codes@).to_set(),
{
    let ghost all = texts(codes@);
    let mut order: NameSet = NameSet::new();
    let mut i: usize = 0;
    assert(order@.to_set() =~= all.take(0).to_set());
    while i < codes.len()
        invariant
            i <= codes@.len(),
            all == texts(codes@),
            order.inv(),
            order@.to_set() == all.take(i as int).to_set(),
        decreases codes@.len() - i,
    {
        let ghost before = all.take(i as int);
        let ghost own = all[i as int];
        assert(own == codes@[i as int]@);
        order.insert(codes[i].as_str());
        proof {
            let after = all.take(i + 1);
            assert(after =~= before.push(own));
            assert forall|t: Seq<char>| after.to_set().contains(t) == before.to_set().insert(
                own,
            ).contains(t) by {
                if before.contains(t) {
                    let k = choose|k: int| 0 <= k < before.len() && before[k] == t;
                    assert(after[k] == t);
                }
                if after.contains(t) {
                    let k = choose|k: int| 0 <= k < after.len() && after[k] == t;
                    if k < i {
                        assert(before[k] == t);
                    }
                }
                assert(after[i as int] == own);
            }
            assert(after.to_set() =~= before.to_set().insert(own));
        }
        i += 1;
    }
    assert(all.take(i as int) =~= all);
    proof {
        order_is(all, order@);
    }
    order
}

/// Append one warning for each distinct code.
fn push_code_warnings(list: &mut Vec<Warning>, codes: &Vec<String>, message: &str)
    ensures
        warning_views(final(list)@) == warning_views(old(list)@) + code_warnings(
            texts(codes@),
            message@,
        ),
{
    let ghost start = warning_views(list@);
    let ghost expected = code_warnings(texts(codes@), message@);
    let order: NameSet = distinct_codes(codes);
    let mut i: usize = 0;
    assert(start + expected.take(0) =~= start);
    while i < order.len()
        invariant
            i <= order@.len(),
            order@ == in_order(texts(codes@)),
            expected == code_warnings(texts(codes@), message@),
            warning_views(list@) == start + expected.take(i as int),
        decreases order@.len() - i,
    {
        let code: &str = order.at(i);
        let warning = Warning {
            kind: copy_text(code),
            count: count_code(codes, code),
            message: copy_text(message),
        };
        let ghost own = warning@;
        let ghost before = warning_views(list@);
        list.push(warning);
        assert(warning_views(list@) =~= before.push(own));
        assert(expected[i as int] == own);
        assert(expected.take(i + 1) =~= expected.take(i as int).push(own));
        assert(warning_views(list@) =~= start + expected.take(i + 1));
        i += 1;
    }
    assert(expected.take(i as int) =~= expected);
}

fn without_missing(sources: &Vec<String>) -> (gaps: Vec<String>)
    ensures
        texts(gaps@) == gap_codes(texts(sources@)),
{
    let ghost all = texts(sources@);
    let ghost keep = |code: Seq<char>| code != "root-missing"@;
    let mut gaps: Vec<String> = Vec::new();
    let mut i: usize = 0;
    proof {
        reveal(Seq::filter);
        assert(all.take(0) =~= Seq::empty());
        assert(texts(gaps@) =~= all.take(0).filter(keep));
    }
    while i < sources.len()
        invariant
            i <= sources@.len(),
            all == texts(sources@),
            keep == (|code: Seq<char>| code != "root-missing"@),
            texts(gaps@) == all.take(i as int).filter(keep),
        decreases sources@.len() - i,
    {
        proof {
            reveal(Seq::filter);
            assert(all.take(i + 1).drop_last() =~= all.take(i as int));
            assert(all.take(i + 1).last() == sources@[i as int]@);
        }
        if !same_text(sources[i].as_str(), "root-missing") {
            let ghost before = texts(gaps@);
            gaps.push(copy_text(sources[i].as_str()));
            assert(texts(gaps@) =~= before.push(sources@[i as int]@));
        }
        i += 1;
    }
    assert(all.take(i as int) =~= all);
    gaps
}

/// The roster's coverage gaps as bounded warnings, and how many were cut off.
/// `provisional` counts the names whose precedence is not verified, of which
/// `caution` warns; the codes are those of excluded records and of sources not
/// fully observed.
pub fn roster_warnings(
    provisional: usize,
    caution: &str,
    records: &Vec<String>,
    sources: &Vec<String>,
    max_details: usize,
) -> (r: (Vec<Warning>, usize))
    ensures
        ({
            let all = all_warnings(
                provisional as nat,
                caution@,
                texts(records@),
                texts(sources@),
            );
            if all.len() <= max_details {
                warning_views(r.0@) == all && r.1 == 0
            } else {
                warning_views(r.0@) == all.take(max_details as int) && r.1 == all.len()
                    - max_details
            }
        }),
{
    let mut list: Vec<Warning> = Vec::new();
    assert(warning_views(list@) =~= Seq::empty());
    if provisional > 0 {
        list.push(
            Warning {
                kind: copy_text("unverified-visibility"),
                count: provisional,
                message: copy_text(caution),
            },
        );
    }
    assert(warning_views(list@) =~= caveat(provisional as nat, caution@));
    push_code_warnings(
        &mut list,
        records,
        "Skill records were excluded while resolving the roster",
    );
    let gaps: Vec<String> = without_missing(sources);
    push_code_warnings(&mut list, &gaps, "A skill source was not fully observed");
    let total: usize = list.len();
    if total <= max_details {
        return (list, 0);
    }
    let ghost all = warning_views(list@);
    list.truncate(max_details);
    assert(warning_views(list@) =~= all.take(max_details as int));
    (list, total - max_details)
}

/// A warning as JSON.
pub open spec fn warning_json(w: WarningView) -> JsonView {
    JsonView::Object(
        seq![
            ("count"@, JsonView::Number(JsonNumber::Unsigned(w.count as u64))),
            ("kind"@, JsonView::Text(w.kind)),
            ("message"@, JsonView::Text(w.message)),
        ],
    )
}

fn warning_value(w: &Warning) -> (json: Json)
    ensures
        json@ == warning_json(w@),
{
    let mut members: Vec<Member> = Vec::new();
    push_member(&mut members, "count", json_count(w.count as u64));
    push_member(&mut members, "kind", json_text(w.kind.as_str()));
    push_member(&mut members, "message", json_text(w.message.as_str()));
    assert(JsonView::Object(member_views(members@)) == warning_json(w@)) by {
        assert(member_views(members@) =~= warning_json(w@)->Object_0);
    }
    json_object(members)
}

/// Warnings as a JSON array.
pub open spec fn warnings_json(list: Seq<WarningView>) -> JsonView {
    JsonView::Array(list.map_values(|w: WarningView| warning_json(w)))
}

fn warnings_value(list: &Vec<Warning>) -> (json: Json)
    ensures
        json@ == warnings_json(warning_views(list@)),
{
    let mut items: Vec<Json> = Vec::new();
    let mut i: usize = 0;
    while i < list.len()
        invariant
            i <= list@.len(),
            items@.len() == i,
            forall|j: int| 0 <= j < i ==> (#[trigger] items@[j])@ == warning_json(list@[j]@),
        decreases list@.len() - i,
    {
        items.push(warning_value(&list[i]));
        i += 1;
    }
    assert(json_views(items@) =~= warning_views(list@).map_values(|w: WarningView| warning_json(w)));
    json_array(items)
}

/// Attempts, requests, tokens and cache hits of an invocation.
#[derive(Clone, Copy, Debug, PartialEq, Eq, Structural)]
pub struct ExecutionMetrics {
    pub requests: u64,
    pub http_attempts: u64,
    pub input_tokens: u64,
    pub output_tokens: u64,
    pub unknown_usage_attempts: u64,
    pub cache_hit: bool,
    pub wide_hit: bool,
    pub rerank_hit: bool,
    pub cache_age_ms: Option<u64>,
}

pub open spec fn no_metrics() -> ExecutionMetrics {
    ExecutionMetrics {
        requests: 0,
        http_attempts: 0,
        input_tokens: 0,
        output_tokens: 0,
        unknown_usage_attempts: 0,
        cache_hit: false,
        wide_hit: false,
        rerank_hit: false,
        cache_age_ms: None,
    }
}

impl ExecutionMetrics {
    pub fn none() -> (metrics: ExecutionMetrics)
        ensures
            metrics == no_metrics(),
    {
        ExecutionMetrics {
            requests: 0,
            http_attempts: 0,
            input_tokens: 0,
            output_tokens: 0,
            unknown_usage_attempts: 0,
            cache_hit: false,
            wide_hit: false,
            rerank_hit: false,
            cache_age_ms: None,
        }
    }
}

/// What the allowance of an invocation has spent.
#[derive(Clone, Copy, Debug, PartialEq, Eq, Structural)]
pub struct StageCost {
    pub sent_attempts: u32,
    pub input_tokens: u64,
    pub output_tokens: u64,
    pub unknown_usage_attempts: u32,
}

/// The metrics after a stage.
pub open spec fn metrics_after(
    metrics: ExecutionMetrics,
    sent_before: u32,
    cost: StageCost,
) -> ExecutionMetrics {
    ExecutionMetrics {
        requests: (metrics.requests + (if cost.sent_attempts > sent_before {
            1int
        } else {
            0
        })) as u64,
        http_attempts: cost.sent_attempts as u64,
        input_tokens: cost.input_tokens,
        output_tokens: cost.output_tokens,
        unknown_usage_attempts: cost.unknown_usage_attempts as u64,
        ..metrics
    }
}

/// The metrics after a stage. The counts are the allowance's own, so unknown
/// usage of attempts that returned nothing is kept.
pub fn account_stage(metrics: ExecutionMetrics, sent_before: u32, cost: StageCost) -> (r:
    ExecutionMetrics)
    requires
        metrics.requests < u64::MAX,
    ensures
        r == metrics_after(metrics, sent_before, cost),
{
    let requests: u64 = if cost.sent_attempts > sent_before {
        metrics.requests + 1
    } else {
        metrics.requests
    };
    ExecutionMetrics {
        requests,
        http_attempts: cost.sent_attempts as u64,
        input_tokens: cost.input_tokens,
        output_tokens: cost.output_tokens,
        unknown_usage_attempts: cost.unknown_usage_attempts as u64,
        cache_hit: metrics.cache_hit,
        wide_hit: metrics.wide_hit,
        rerank_hit: metrics.rerank_hit,
        cache_age_ms: metrics.cache_age_ms,
    }
}

/// The quality of the admitted input, its summary as it is labelled.
#[derive(Clone, Debug)]
pub struct Quality {
    pub summary: String,
    pub prompt_complete: bool,
    pub task_anchor_known: bool,
    pub history_windowed: bool,
    pub attachments_omitted: bool,
    pub source_gaps: bool,
}

pub open spec fn quality_json(q: Quality) -> JsonView {
    JsonView::Object(
        seq![
            ("attachments_omitted"@, JsonView::Bool(q.attachments_omitted)),
            ("history_windowed"@, JsonView::Bool(q.history_windowed)),
            ("prompt_complete"@, JsonView::Bool(q.prompt_complete)),
            ("source_gaps"@, JsonView::Bool(q.source_gaps)),
            ("task_anchor_known"@, JsonView::Bool(q.task_anchor_known)),
        ],
    )
}

impl Quality {
    pub fn flags(&self) -> (json: Json)
        ensures
            json@ == quality_json(*self),
    {
        let mut members: Vec<Member> = Vec::new();
        push_member(&mut members, "attachments_omitted", json_bool(self.attachments_omitted));
        push_member(&mut members, "history_windowed", json_bool(self.history_windowed));
        push_member(&mut members, "prompt_complete", json_bool(self.prompt_complete));
        push_member(&mut members, "source_gaps", json_bool(self.source_gaps));
        push_member(&mut members, "task_anchor_known", json_bool(self.task_anchor_known));
        assert(member_views(members@) =~= quality_json(*self)->Object_0);
        json_object(members)
    }
}

/// What an invocation executed before its decision.
#[derive(Clone, Debug)]
pub struct Evaluated {
    pub quality: Quality,
    pub ledger_disabled: bool,
    pub metrics: ExecutionMetrics,
    pub eligible: usize,
    pub wide: usize,
    pub shortlist: usize,
    pub quill: bool,
    pub wide_set_id: Option<String>,
    pub rerank_set_id: Option<String>,
    pub requested_model: Option<String>,
    pub wide_returned: Option<String>,
    pub rerank_returned: Option<String>,
    pub needs_skill: Option<Score>,
    pub phase: Option<String>,
    pub choice_confidence: Option<Score>,
    pub none_probability: Option<Score>,
}

pub open spec fn count_view(n: nat) -> JsonView {
    JsonView::Number(JsonNumber::Unsigned(n as u64))
}

pub open spec fn optional_count_view(n: Option<u64>) -> JsonView {
    match n {
        Some(c) => JsonView::Number(JsonNumber::Unsigned(c)),
        None => JsonView::Null,
    }
}

pub open spec fn persistence_text(e: Evaluated) -> Seq<char> {
    if e.ledger_disabled {
        "disabled"@
    } else {
        "unavailable"@
    }
}

pub open spec fn retrieval_text(e: Evaluated) -> Seq<char> {
    if e.quill {
        "quill-bm25"@
    } else if e.wide == 0 {
        "not-evaluated"@
    } else {
        "full"@
    }
}

pub open spec fn usage_json(m: ExecutionMetrics) -> JsonView {
    JsonView::Object(
        seq![
            ("http_attempts"@, count_view(m.http_attempts as nat)),
            ("input_tokens"@, count_view(m.input_tokens as nat)),
            ("output_tokens"@, count_view(m.output_tokens as nat)),
            ("requests"@, count_view(m.requests as nat)),
            ("unknown_usage_attempts"@, count_view(m.unknown_usage_attempts as nat)),
        ],
    )
}

pub open spec fn cache_json(m: ExecutionMetrics) -> JsonView {
    JsonView::Object(
        seq![
            ("age_ms"@, optional_count_view(m.cache_age_ms)),
            ("hit"@, JsonView::Bool(m.cache_hit)),
            ("rerank_hit"@, JsonView::Bool(m.rerank_hit)),
            ("stale"@, JsonView::Bool(false)),
            ("wide_hit"@, JsonView::Bool(m.wide_hit)),
        ],
    )
}

pub open spec fn model_json(e: Evaluated) -> JsonView {
    JsonView::Object(
        seq![
            ("immutable_revision"@, JsonView::Null),
            ("requested"@, optional_text_view(optional_text(e.requested_model))),
            ("rerank_returned"@, optional_text_view(optional_text(e.rerank_returned))),
            ("wide_returned"@, optional_text_view(optional_text(e.wide_returned))),
        ],
    )
}

impl Evaluated {
    pub fn persistence(&self) -> (text: &'static str)
        ensures
            text@ == persistence_text(*self),
    {
        if self.ledger_disabled {
            "disabled"
        } else {
            "unavailable"
        }
    }

    pub fn retrieval(&self) -> (text: &'static str)
        ensures
            text@ == retrieval_text(*self),
    {
        if self.quill {
            "quill-bm25"
        } else if self.wide == 0 {
            "not-evaluated"
        } else {
            "full"
        }
    }

    pub fn usage(&self) -> (json: Json)
        ensures
            json@ == usage_json(self.metrics),
    {
        let m: ExecutionMetrics = self.metrics;
        let mut members: Vec<Member> = Vec::new();
        push_member(&mut members, "http_attempts", json_count(m.http_attempts));
        push_member(&mut members, "input_tokens", json_count(m.input_tokens));
        push_member(&mut members, "output_tokens", json_count(m.output_tokens));
        push_member(&mut members, "requests", json_count(m.requests));
        push_member(
            &mut members,
            "unknown_usage_attempts",
            json_count(m.unknown_usage_attempts),
        );
        assert(member_views(members@) =~= usage_json(m)->Object_0);
        json_object(members)
    }

    pub fn cache(&self) -> (json: Json)
        ensures
            json@ == cache_json(self.metrics),
    {
        let m: ExecutionMetrics = self.metrics;
        let age: Json = match m.cache_age_ms {
            Some(age) => json_count(age),
            None => Json::Null,
        };
        let mut members: Vec<Member> = Vec::new();
        push_member(&mut members, "age_ms", age);
        push_member(&mut members, "hit", json_bool(m.cache_hit));
        push_member(&mut members, "rerank_hit", json_bool(m.rerank_hit));
        push_member(&mut members, "stale", json_bool(false));
        push_member(&mut members, "wide_hit", json_bool(m.wide_hit));
        assert(member_views(members@) =~= cache_json(m)->Object_0);
        json_object(members)
    }

    pub fn model(&self) -> (json: Json)
        ensures
            json@ == model_json(*self),
    {
        let mut members: Vec<Member> = Vec::new();
        push_member(&mut members, "immutable_revision", Json::Null);
        push_member(&mut members, "requested", json_optional(&self.requested_model));
        push_member(&mut members, "rerank_returned", json_optional(&self.rerank_returned));
        push_member(&mut members, "wide_returned", json_optional(&self.wide_returned));
        assert(member_views(members@) =~= model_json(*self)->Object_0);
        json_object(members)
    }
}

/// The session and the roster that a decision describes.
#[derive(Clone, Debug)]
pub struct Admitted {
    pub event_id: String,
    pub harness: String,
    pub total: usize,
    pub partial: bool,
    pub snapshot_id: String,
    pub warnings: Vec<Warning>,
    pub warnings_omitted: usize,
}

/// The event that a decision answers: the request's own, or a stand-in.
pub open spec fn event_label(event_id: Option<Seq<char>>) -> Seq<char> {
    match event_id {
        Some(id) => id,
        None => "event-0"@,
    }
}

pub fn event_id_of(event_id: &Option<String>) -> (text: String)
    ensures
        text@ == event_label(optional_text(*event_id)),
{
    match event_id {
        Some(id) => copy_text(id.as_str()),
        None => copy_text("event-0"),
    }
}

pub open spec fn provenance_json(a: Admitted, e: Evaluated) -> JsonView {
    JsonView::Object(
        seq![
            ("policy_version"@, JsonView::Text("ranking-v1"@)),
            ("rerank_set_id"@, optional_text_view(optional_text(e.rerank_set_id))),
            ("snapshot_id"@, JsonView::Text(a.snapshot_id@)),
            ("wide_set_id"@, optional_text_view(optional_text(e.wide_set_id))),
        ],
    )
}

pub open spec fn roster_json(a: Admitted, e: Evaluated) -> JsonView {
    JsonView::Object(
        seq![
            ("eligible"@, count_view(e.eligible as nat)),
            ("partial"@, JsonView::Bool(a.partial)),
            ("provenance"@, provenance_json(a, e)),
            ("retrieval"@, JsonView::Text(retrieval_text(e))),
            ("shortlist"@, count_view(e.shortlist as nat)),
            ("total"@, count_view(a.total as nat)),
            ("wide_candidates"@, count_view(e.wide as nat)),
        ],
    )
}

fn provenance_value(a: &Admitted, e: &Evaluated) -> (json: Json)
    ensures
        json@ == provenance_json(*a, *e),
{
    let mut members: Vec<Member> = Vec::new();
    push_member(&mut members, "policy_version", json_text("ranking-v1"));
    push_member(&mut members, "rerank_set_id", json_optional(&e.rerank_set_id));
    push_member(&mut members, "snapshot_id", json_text(a.snapshot_id.as_str()));
    push_member(&mut members, "wide_set_id", json_optional(&e.wide_set_id));
    assert(member_views(members@) =~= provenance_json(*a, *e)->Object_0);
    json_object(members)
}

fn roster_value(a: &Admitted, e: &Evaluated) -> (json: Json)
    ensures
        json@ == roster_json(*a, *e),
{
    let mut members: Vec<Member> = Vec::new();
    push_member(&mut members, "eligible", json_count(e.eligible as u64));
    push_member(&mut members, "partial", json_bool(a.partial));
    push_member(&mut members, "provenance", provenance_value(a, e));
    push_member(&mut members, "retrieval", json_text(e.retrieval()));
    push_member(&mut members, "shortlist", json_count(e.shortlist as u64));
    push_member(&mut members, "total", json_count(a.total as u64));
    push_member(&mut members, "wide_candidates", json_count(e.wide as u64));
    assert(member_views(members@) =~= roster_json(*a, *e)->Object_0);
    json_object(members)
}

/// What a document holds besides the common members.
pub enum Addition {
    Nothing,
    DryRun(Json),
    Error(Json),
}

/// The decision itself.
pub struct Outcome {
    pub decision: String,
    pub reason: String,
    pub phase: Option<String>,
    pub skills: Vec<Json>,
    pub omitted_rank_mass: Option<Score>,
}

pub open spec fn dry_run_member(addition: Addition) -> Seq<(Seq<char>, JsonView)> {
    match addition {
        Addition::DryRun(value) => seq![("dry_run"@, value@)],
        _ => Seq::empty(),
    }
}

pub open spec fn error_member(addition: Addition) -> Seq<(Seq<char>, JsonView)> {
    match addition {
        Addition::Error(value) => seq![("error"@, value@)],
        _ => Seq::empty(),
    }
}

/// The members of a decision document, in the order of their keys.
pub open spec fn decision_members(
    a: Admitted,
    e: Evaluated,
    o: Outcome,
    addition: Addition,
    schema_version: u64,
    elapsed_ms: u64,
) -> Seq<(Seq<char>, JsonView)> {
    seq![
        ("cache"@, cache_json(e.metrics)),
        ("choice_confidence"@, score_view(e.choice_confidence)),
        ("context_quality"@, JsonView::Text(e.quality.summary@)),
        ("decision"@, JsonView::Text(o.decision@)),
    ] + dry_run_member(addition) + seq![("elapsed_ms"@, count_view(elapsed_ms as nat))]
        + error_member(addition) + seq![
        ("event_id"@, JsonView::Text(a.event_id@)),
        ("harness"@, JsonView::Text(a.harness@)),
        ("model"@, model_json(e)),
        ("needs_skill"@, score_view(e.needs_skill)),
        ("none_probability"@, score_view(e.none_probability)),
        ("omitted_rank_mass"@, score_view(o.omitted_rank_mass)),
        ("persistence"@, JsonView::Text(persistence_text(e))),
        ("phase"@, optional_text_view(optional_text(o.phase))),
        ("quality"@, quality_json(e.quality)),
        ("reason"@, JsonView::Text(o.reason@)),
        ("roster"@, roster_json(a, e)),
        ("schema_version"@, count_view(schema_version as nat)),
        ("skills"@, JsonView::Array(json_views(o.skills@))),
        ("usage"@, usage_json(e.metrics)),
        ("warnings"@, warnings_json(warning_views(a.warnings@))),
        ("warnings_omitted"@, count_view(a.warnings_omitted as nat)),
    ]
}

pub open spec fn decision_json(
    a: Admitted,
    e: Evaluated,
    o: Outcome,
    addition: Addition,
    schema_version: u64,
    elapsed_ms: u64,
) -> JsonView {
    JsonView::Object(decision_members(a, e, o, addition, schema_version, elapsed_ms))
}

/// The document of a decision.
pub fn decision_document(
    a: &Admitted,
    e: &Evaluated,
    o: Outcome,
    addition: Addition,
    schema_version: u64,
    elapsed_ms: u64,
) -> (json: Json)
    ensures
        json@ == decision_json(*a, *e, o, addition, schema_version, elapsed_ms),
{
    let ghost expected = decision_members(*a, *e, o, addition, schema_version, elapsed_ms);
    let ghost skills = json_views(o.skills@);
    let mut members: Vec<Member> = Vec::new();
    push_member(&mut members, "cache", e.cache());
    push_member(&mut members, "choice_confidence", json_score(e.choice_confidence));
    push_member(&mut members, "context_quality", json_text(e.quality.summary.as_str()));
    push_member(&mut members, "decision", json_text(o.decision.as_str()));
    match &addition {
        Addition::DryRun(value) => push_member(&mut members, "dry_run", value.copied()),
        _ => {},
    }
    push_member(&mut members, "elapsed_ms", json_count(elapsed_ms));
    match &addition {
        Addition::Error(value) => push_member(&mut members, "error", value.copied()),
        _ => {},
    }
    let ghost head = member_views(members@);
    assert(head =~= seq![
        ("cache"@, cache_json(e.metrics)),
        ("choice_confidence"@, score_view(e.choice_confidence)),
        ("context_quality"@, JsonView::Text(e.quality.summary@)),
        ("decision"@, JsonView::Text(o.decision@)),
    ] + dry_run_member(addition) + seq![("elapsed_ms"@, count_view(elapsed_ms as nat))]
        + error_member(addition));
    push_member(&mut members, "event_id", json_text(a.event_id.as_str()));
    push_member(&mut members, "harness", json_text(a.harness.as_str()));
    push_member(&mut members, "model", e.model());
    push_member(&mut members, "needs_skill", json_score(e.needs_skill));
    push_member(&mut members, "none_probability", json_score(e.none_probability));
    push_member(&mut members, "omitted_rank_mass", json_score(o.omitted_rank_mass));
    push_member(&mut members, "persistence", json_text(e.persistence()));
    push_member(&mut members, "phase", json_optional(&o.phase));
    push_member(&mut members, "quality", e.quality.flags());
    push_member(&mut members, "reason", json_text(o.reason.as_str()));
    push_member(&mut members, "roster", roster_value(a, e));
    push_member(&mut members, "schema_version", json_count(schema_version));
    push_member(&mut members, "skills", json_array(o.skills));
    push_member(&mut members, "usage", e.usage());
    push_member(&mut members, "warnings", warnings_value(&a.warnings));
    push_member(&mut members, "warnings_omitted", json_count(a.warnings_omitted as u64));
    assert(member_views(members@) =~= expected);
    json_object(members)
}

} // verus!
