//! Reusing recorded answers: when a cached pair is served, what it counts as,
//! and what a recorded answer is filed under.
use crate::cache::coordination::CacheNamespace;
use crate::context::NormalizedContext;
use crate::jev::admission::Usage;
use crate::pipeline::candidate_set::{set_member_views, MemberView, SetMember};
use crate::pipeline::document::ExecutionMetrics;
use crate::pipeline::flow::{Action, Event, Flow, LookupReading, Phase, WideOrigin};
use crate::text::{copy_optional, copy_text, optional_text};
use vstd::prelude::*;

verus! {

/// What the cache holds of a wide request.
#[derive(Clone, Copy, Debug, PartialEq, Eq, Structural)]
pub enum CachedWide {
    /// Nothing, or no store to look into.
    Absent,
    /// An answer that is not fresh for the active model.
    NotFresh,
    /// A fresh answer that cannot be decoded.
    Undecodable,
    /// A fresh answer that cannot be evaluated.
    Unevaluable,
    /// A fresh answer that needs no rerank.
    LowNeed { age_ms: u64 },
    /// A fresh answer that needs a rerank of its shortlist.
    Shortlist { age_ms: u64 },
}

/// What the cache holds of the rerank request of a cached shortlist.
#[derive(Clone, Copy, Debug, PartialEq, Eq, Structural)]
pub enum CachedRerank {
    /// The request could not be built, so nothing was looked up.
    NotBuilt,
    Absent,
    NotFresh,
    Undecodable,
    /// A fresh answer.
    Answer,
}

/// An exact pair of cached answers, or a wide answer that stands alone.
#[derive(Clone, Copy, Debug, PartialEq, Eq, Structural)]
pub struct CachedPair {
    /// The age of the wide answer.
    pub age_ms: u64,
    pub with_rerank: bool,
}

/// The pair to serve without a send. A cached wide answer is used only where it
/// needs no rerank, or where the rerank answer for its shortlist is cached too.
pub open spec fn pair_of(wide: CachedWide, rerank: CachedRerank) -> Option<CachedPair> {
    match wide {
        CachedWide::LowNeed { age_ms } => Some(CachedPair { age_ms, with_rerank: false }),
        CachedWide::Shortlist { age_ms } => if rerank == CachedRerank::Answer {
            Some(CachedPair { age_ms, with_rerank: true })
        } else {
            None
        },
        _ => None,
    }
}

/// Decide whether the cache answers a request. The second reading counts only
/// where the first needs a rerank.
pub fn lookup_pair(wide: CachedWide, rerank: CachedRerank) -> (pair: Option<CachedPair>)
    ensures
        pair == pair_of(wide, rerank),
{
    match wide {
        CachedWide::LowNeed { age_ms } => Some(CachedPair { age_ms, with_rerank: false }),
        CachedWide::Shortlist { age_ms } => if rerank == CachedRerank::Answer {
            Some(CachedPair { age_ms, with_rerank: true })
        } else {
            None
        },
        _ => None,
    }
}

/// What the look-up tells the ranking.
pub open spec fn reading_of(pair: Option<CachedPair>) -> LookupReading {
    match pair {
        Some(found) => LookupReading::Hit { with_rerank: found.with_rerank },
        None => LookupReading::Miss,
    }
}

/// Look up the answers of a request: the reading that the ranking goes on
/// with.
pub fn look_up(wide: CachedWide, rerank: CachedRerank) -> (reading: LookupReading)
    ensures
        reading == reading_of(pair_of(wide, rerank)),
{
    match lookup_pair(wide, rerank) {
        Some(found) => LookupReading::Hit { with_rerank: found.with_rerank },
        None => LookupReading::Miss,
    }
}

/// The metrics once a request was looked up: a served pair is a hit of its
/// age.
pub open spec fn metrics_with_pair(metrics: ExecutionMetrics, pair: Option<CachedPair>) -> ExecutionMetrics {
    match pair {
        Some(found) => ExecutionMetrics {
            cache_hit: true,
            wide_hit: true,
            cache_age_ms: Some(found.age_ms),
            ..metrics
        },
        None => metrics,
    }
}

pub fn account_lookup(metrics: ExecutionMetrics, pair: Option<CachedPair>) -> (r: ExecutionMetrics)
    ensures
        r == metrics_with_pair(metrics, pair),
{
    let mut r: ExecutionMetrics = metrics;
    match pair {
        Some(found) => {
            r.cache_hit = true;
            r.wide_hit = true;
            r.cache_age_ms = Some(found.age_ms);
        },
        None => {},
    }
    r
}

/// The metrics once a rerank answer is at hand: one from the cache is a hit.
pub fn account_rerank(metrics: ExecutionMetrics, from_cache: bool) -> (r: ExecutionMetrics)
    ensures
        r == (ExecutionMetrics { rerank_hit: metrics.rerank_hit || from_cache, ..metrics }),
{
    let mut r: ExecutionMetrics = metrics;
    if from_cache {
        r.rerank_hit = true;
    }
    r
}

/// A cached answer that needs a rerank is never left without one: the ranking
/// goes on to evaluate the cached rerank answer, and sends nothing.
pub proof fn cached_shortlists_come_with_their_rerank(
    flow: Flow,
    age_ms: u64,
    rerank: CachedRerank,
)
    requires
        flow.phase == Phase::RerankRequest,
        pair_of(CachedWide::Shortlist { age_ms }, rerank) is Some,
        flow.wide == (WideOrigin::Cached {
            with_rerank: pair_of(CachedWide::Shortlist { age_ms }, rerank)->0.with_rerank,
        }),
    ensures
        flow.stepped(Event::RerankRequest { built: true }).1 == Action::EvaluateRerank,
{
}

/// What a cached answer costs: nothing is sent for it, so no count of requests,
/// attempts or tokens changes.
pub proof fn cached_answers_cost_nothing(metrics: ExecutionMetrics, pair: Option<CachedPair>)
    ensures
        ({
            let r = metrics_with_pair(metrics, pair);
            &&& r.requests == metrics.requests
            &&& r.http_attempts == metrics.http_attempts
            &&& r.input_tokens == metrics.input_tokens
            &&& r.output_tokens == metrics.output_tokens
            &&& r.unknown_usage_attempts == metrics.unknown_usage_attempts
        }),
{
}

/// The scope of a ranking's cached answers. `generation` is the store's, where
/// a store is open.
pub fn request_namespace(
    context: &NormalizedContext,
    workspace_id: &str,
    generation: Option<u64>,
) -> (namespace: CacheNamespace)
    ensures
        namespace.harness_id@ == context.harness@,
        namespace.key_generation == (match generation {
            Some(n) => n,
            None => 0,
        }),
        optional_text(namespace.workspace_id) == Some(workspace_id@),
        optional_text(namespace.session_id) == optional_text(context.session_id),
        optional_text(namespace.branch_id) == optional_text(context.branch_id),
        optional_text(namespace.context_epoch) == optional_text(context.context_epoch),
        namespace.adapter_id is None,
        namespace.adapter_version is None,
{
    CacheNamespace {
        harness_id: copy_text(context.harness.as_str()),
        key_generation: match generation {
            Some(n) => n,
            None => 0,
        },
        workspace_id: Some(copy_text(workspace_id)),
        session_id: copy_optional(&context.session_id),
        branch_id: copy_optional(&context.branch_id),
        context_epoch: copy_optional(&context.context_epoch),
        adapter_id: None,
        adapter_version: None,
    }
}

/// The stage that a request belongs to.
#[derive(Clone, Copy, Debug, PartialEq, Eq, Structural)]
pub enum RequestStage {
    Wide,
    Rerank,
}

/// A candidate as it enters a request's identity.
#[derive(Clone, Debug)]
pub struct CandidateDigest {
    pub skill_id: String,
    pub content_hash: String,
    pub excerpt_hash: Option<String>,
}

/// The digests stand for these candidates, one for one and without excerpts.
pub open spec fn are_digests(list: Seq<CandidateDigest>, members: Seq<MemberView>) -> bool {
    &&& list.len() == members.len()
    &&& forall|i: int|
        0 <= i < list.len() ==> (#[trigger] list[i]).skill_id@ == members[i].id
            && list[i].content_hash@ == members[i].content_hash && list[i].excerpt_hash is None
}

/// The digests of the candidates of a request, in their order.
pub fn candidate_digests(members: &Vec<SetMember>) -> (list: Vec<CandidateDigest>)
    ensures
        are_digests(list@, set_member_views(members@)),
{
    let ghost all = set_member_views(members@);
    let mut list: Vec<CandidateDigest> = Vec::new();
    let mut i: usize = 0;
    while i < members.len()
        invariant
            i <= members@.len(),
            all == set_member_views(members@),
            list@.len() == i,
            forall|j: int|
                0 <= j < i ==> (#[trigger] list@[j]).skill_id@ == all[j].id
                    && list@[j].content_hash@ == all[j].content_hash && list@[j].excerpt_hash is None,
        decreases members@.len() - i,
    {
        assert(all[i as int] == members@[i as int]@);
        list.push(
            CandidateDigest {
                skill_id: copy_text(members[i].id.as_str()),
                content_hash: copy_text(members[i].content_hash.as_str()),
                excerpt_hash: None,
            },
        );
        i += 1;
    }
    list
}

/// The BLAKE3 hash of some bytes.
pub uninterp spec fn blake3_hash(bytes: Seq<u8>) -> Seq<u8>;

/// `blake3::hash`: the 32-byte hash of the whole input, a function of the input
/// alone.
#[verifier::external_body]
fn hash_bytes(bytes: &[u8]) -> (hash: [u8; 32])
    ensures
        hash@ == blake3_hash(bytes@),
{
    *blake3::hash(bytes).as_bytes()
}

/// What the identity of a request binds: its state, its candidates, its exact
/// bytes, where it would be sent and under which versions.
#[derive(Clone, Debug)]
pub struct RequestFingerprintInput {
    pub stage: RequestStage,
    pub canonical_redacted_state: Vec<u8>,
    pub candidates: Vec<CandidateDigest>,
    pub questions_digest: [u8; 32],
    pub endpoint_url: String,
    pub model: String,
    pub prompt_version: String,
    pub adapter_version: &'static str,
    pub privacy_policy_version: &'static str,
    pub excerpt_strategy: &'static str,
}

/// The identity of a request of `stage` with these exact bytes.
pub fn fingerprint_input(
    stage: RequestStage,
    state: Vec<u8>,
    members: &Vec<SetMember>,
    request: &[u8],
    endpoint_url: &str,
    model: &str,
    prompt_version: &str,
) -> (input: RequestFingerprintInput)
    ensures
        input.stage == stage,
        input.canonical_redacted_state@ == state@,
        are_digests(input.candidates@, set_member_views(members@)),
        input.questions_digest@ == blake3_hash(request@),
        input.endpoint_url@ == endpoint_url@,
        input.model@ == model@,
        input.prompt_version@ == prompt_version@,
        input.adapter_version@ == "v1"@,
        input.privacy_policy_version@ == "v1"@,
        input.excerpt_strategy@ == "default"@,
{
    RequestFingerprintInput {
        stage,
        canonical_redacted_state: state,
        candidates: candidate_digests(members),
        questions_digest: hash_bytes(request),
        endpoint_url: copy_text(endpoint_url),
        model: copy_text(model),
        prompt_version: copy_text(prompt_version),
        adapter_version: "v1",
        privacy_policy_version: "v1",
        excerpt_strategy: "default",
    }
}

/// How long an answer may be reused: ten minutes.
pub const CACHE_TTL_SECONDS: u64 = 600;

/// A validated answer as it is recorded.
#[derive(Clone, Debug)]
pub struct CachedResponseEntry {
    pub stage: RequestStage,
    pub request_fingerprint: [u8; 32],
    pub response_bytes: Vec<u8>,
    pub received_at_unix_ms: u64,
    pub ttl_seconds: u64,
    /// The requested model alias that it answered.
    pub model: String,
    pub model_revision: Option<String>,
    pub original_usage: Usage,
    pub attempt_id: Option<String>,
}

/// Record an answer as received now, for at most ten minutes.
pub fn cache_entry(
    stage: RequestStage,
    fingerprint: [u8; 32],
    response: Vec<u8>,
    model: &str,
    usage: Usage,
    now_unix_ms: u64,
) -> (entry: CachedResponseEntry)
    ensures
        entry.stage == stage,
        entry.request_fingerprint@ == fingerprint@,
        entry.response_bytes@ == response@,
        entry.received_at_unix_ms == now_unix_ms,
        entry.ttl_seconds == CACHE_TTL_SECONDS,
        entry.model@ == model@,
        entry.model_revision is None,
        entry.original_usage == usage,
        entry.attempt_id is None,
{
    CachedResponseEntry {
        stage,
        request_fingerprint: fingerprint,
        response_bytes: response,
        received_at_unix_ms: now_unix_ms,
        ttl_seconds: CACHE_TTL_SECONDS,
        model: copy_text(model),
        model_revision: None,
        original_usage: usage,
        attempt_id: None,
    }
}

} // verus!
