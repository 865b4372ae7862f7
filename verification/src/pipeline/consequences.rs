//! What a failure leads to, and what an invocation is charged for.
use crate::pipeline::document::{metrics_after, ExecutionMetrics, StageCost};
use crate::pipeline::failure::{
    load_failure, policy_failure, roster_failure, send_failure, stage_failure, transport_failure,
    Exit, LoadFailure, PolicyGate, Refusal, RetryErrorKind, Revalidation, RevalidationError,
    RosterGate, SendStage, TransportErrorKind,
};
use crate::pipeline::reuse::{metrics_with_pair, pair_of, reading_of, CachedRerank, CachedWide};
use crate::pipeline::flow::{LookupReading, Stop};
use crate::pipeline::reports::{action_failure, ActionFailure};
use vstd::prelude::*;

verus! {

/// The words of failures that a transport leads to.
proof fn transport_kinds_differ()
    ensures
        "timeout"@ != "authentication"@,
        "timeout"@ != "provider-cooldown"@,
        "timeout"@ != "provider-failure"@,
        "timeout"@ != "network-failure"@,
        "timeout"@ != "invalid-provider-response"@,
        "authentication"@ != "provider-cooldown"@,
        "authentication"@ != "provider-failure"@,
        "authentication"@ != "network-failure"@,
        "authentication"@ != "invalid-provider-response"@,
        "provider-cooldown"@ != "provider-failure"@,
        "provider-cooldown"@ != "network-failure"@,
        "provider-cooldown"@ != "invalid-provider-response"@,
{
    reveal_strlit("timeout");
    reveal_strlit("authentication");
    reveal_strlit("provider-cooldown");
    reveal_strlit("provider-failure");
    reveal_strlit("network-failure");
    reveal_strlit("invalid-provider-response");
    assert("timeout"@.len() == 7 && "authentication"@.len() == 14 && "provider-cooldown"@.len()
        == 17 && "provider-failure"@.len() == 16 && "network-failure"@.len() == 15
        && "invalid-provider-response"@.len() == 25);
}

/// A request that ran out of time fails as a timeout, one that the provider did
/// not authorize fails its authentication, and one that came too soon cools
/// down; nothing else fails so. A local refusal is reported as itself.
pub proof fn transport_failures_tell_their_cause(kind: TransportErrorKind)
    ensures
        ({
            let f = transport_failure(kind);
            &&& kind is Admission ==> f.exit == Exit::OfKind && f.kind
                == kind->Admission_0.kind@ && f.message == kind->Admission_0.message@
            &&& !(kind is Admission) ==> (f.kind == "timeout"@ <==> kind is Deadline
                || kind is Cancelled)
            &&& !(kind is Admission) ==> (f.exit == Exit::Code(6) <==> kind is Deadline
                || kind is Cancelled)
            &&& !(kind is Admission) ==> (f.kind == "authentication"@ <==> kind
                is CredentialOriginMismatch || kind == TransportErrorKind::HttpStatus(401)
                || kind == TransportErrorKind::HttpStatus(403))
            &&& !(kind is Admission) ==> (f.kind == "provider-cooldown"@ <==> kind
                == TransportErrorKind::HttpStatus(429))
            &&& !(kind is Admission) ==> (f.exit == Exit::Code(10) <==> kind is Response)
        }),
{
    transport_kinds_differ();
}

/// A retried stage fails with the cause of its last attempt, where there is
/// one, and a stopped retry says no more than that attempt did.
pub proof fn retried_stages_tell_their_cause(
    cause: TransportErrorKind,
    last: Option<TransportErrorKind>,
)
    ensures
        stage_failure(RetryErrorKind::Transport(cause), last) == transport_failure(cause),
        stage_failure(RetryErrorKind::RetryStopped, Some(cause)) == transport_failure(cause),
        stage_failure(RetryErrorKind::PolicyChanged, last).exit == Exit::Code(3),
        stage_failure(RetryErrorKind::ModelPairMismatch, last).exit == stage_failure(
            RetryErrorKind::Transport(TransportErrorKind::Response),
            last,
        ).exit,
        stage_failure(RetryErrorKind::ModelPairMismatch, last).kind == stage_failure(
            RetryErrorKind::Transport(TransportErrorKind::Response),
            last,
        ).kind,
{
}

/// A policy that is still current refuses nothing; one that became invalid or
/// was superseded always refuses, before a send as before a publication, and
/// for the same reason.
pub proof fn changed_policies_always_refuse(
    found: Revalidation,
    gate: PolicyGate,
    refusal: Option<Refusal>,
    stage: SendStage,
)
    ensures
        policy_failure(found, gate) is None <==> found is Current,
        send_failure(found, refusal, stage) is None <==> found is Current && refusal is None,
        found is InvalidConfiguration ==> policy_failure(found, gate)->0.exit == Exit::Code(2)
            && send_failure(found, refusal, stage)->0.exit == Exit::Code(2),
        found is Superseded ==> policy_failure(found, gate)->0.exit == Exit::Code(3),
        found is Superseded && refusal is None ==> send_failure(found, refusal, stage)->0.exit
            == Exit::Code(3),
        !(found is InvalidConfiguration) && refusal is Some ==> send_failure(
            found,
            refusal,
            stage,
        )->0.kind == refusal->0.kind@ && send_failure(found, refusal, stage)->0.exit
            == Exit::OfKind,
{
}

/// A roster fails as a timeout exactly where there was no time left; all its
/// other failures share one exit, and a reload says the same as a run.
pub proof fn roster_failures_tell_their_cause(error: RevalidationError, load: LoadFailure)
    ensures
        roster_failure(error, RosterGate::Run).exit == roster_failure(
            error,
            RosterGate::Reload,
        ).exit,
        roster_failure(error, RosterGate::Run).kind == roster_failure(
            error,
            RosterGate::Reload,
        ).kind,
        error is Deadline <==> roster_failure(error, RosterGate::Run).exit == Exit::Code(6),
        !(error is Deadline) <==> roster_failure(error, RosterGate::Run).exit == Exit::Code(5),
        error is Changed <==> roster_failure(error, RosterGate::Run).kind == "roster-changed"@,
        error is Incomplete <==> roster_failure(error, RosterGate::Run).kind
            == "incomplete-roster"@,
        load is Deadline <==> load_failure(load).exit == Exit::Code(6),
        !(load is Deadline) <==> load_failure(load).exit == Exit::Code(5),
{
    reveal_strlit("roster-changed");
    reveal_strlit("incomplete-roster");
    reveal_strlit("timeout");
    reveal_strlit("unusable-roster");
    assert("roster-changed"@.len() == 14 && "incomplete-roster"@.len() == 17 && "timeout"@.len()
        == 7 && "unusable-roster"@.len() == 15);
}

/// A stage is charged what the allowance says, and one request exactly where it
/// sent something; what was found in the cache stays found.
pub proof fn stages_are_charged_what_they_sent(
    metrics: ExecutionMetrics,
    sent_before: u32,
    cost: StageCost,
)
    requires
        metrics.requests < u64::MAX,
    ensures
        ({
            let after = metrics_after(metrics, sent_before, cost);
            &&& cost.sent_attempts > sent_before ==> after.requests == metrics.requests + 1
            &&& cost.sent_attempts <= sent_before ==> after.requests == metrics.requests
            &&& after.http_attempts == cost.sent_attempts
            &&& after.input_tokens == cost.input_tokens
            &&& after.output_tokens == cost.output_tokens
            &&& after.unknown_usage_attempts == cost.unknown_usage_attempts
            &&& after.cache_hit == metrics.cache_hit
            &&& after.wide_hit == metrics.wide_hit
            &&& after.rerank_hit == metrics.rerank_hit
            &&& after.cache_age_ms == metrics.cache_age_ms
        }),
{
}

/// A cached answer is used exactly where it can stand alone: a fresh one of low
/// need, or a fresh shortlist together with its fresh rerank. It is a hit of
/// its own age, and costs nothing.
pub proof fn cached_answers_are_used_whole(
    metrics: ExecutionMetrics,
    wide: CachedWide,
    rerank: CachedRerank,
)
    ensures
        ({
            let pair = pair_of(wide, rerank);
            let after = metrics_with_pair(metrics, pair);
            &&& pair is Some <==> wide is LowNeed || (wide is Shortlist && rerank is Answer)
            &&& pair is Some ==> (pair->0.with_rerank <==> wide is Shortlist)
            &&& wide matches CachedWide::LowNeed { age_ms } ==> after.cache_age_ms == Some(age_ms)
            &&& wide matches CachedWide::Shortlist { age_ms } ==> (rerank is Answer
                ==> after.cache_age_ms == Some(age_ms))
            &&& pair is Some ==> after.cache_hit && after.wide_hit
            &&& pair is None ==> after == metrics
            &&& after.requests == metrics.requests && after.input_tokens == metrics.input_tokens
                && after.output_tokens == metrics.output_tokens
            &&& reading_of(pair) is Miss <==> pair is None
            &&& reading_of(pair) == (LookupReading::Hit { with_rerank: true }) <==> wide is Shortlist
                && rerank is Answer
        }),
{
}

/// What goes wrong with an action exits by where it went wrong: the clock, the
/// input, the roster, the provider's answer or what was asked.
pub proof fn actions_fail_by_their_place(failed: ActionFailure)
    ensures
        ({
            let exit = action_failure(failed).exit;
            &&& exit == Exit::Code(6) <==> failed is NoRuntime || failed is NoRequestContext
                || failed is LateResult
            &&& exit == Exit::Code(7) <==> failed is InvalidContext || failed is InputUnread
                || failed is InputOversized || failed is Transcript
            &&& exit == Exit::Code(5) <==> failed is RosterFile || failed is Plan
                || failed is Import || failed is Resolution || failed is Unresolved
                || failed is Trace || failed is Dependencies
            &&& exit == Exit::Code(10) <==> failed is WideAnswer || failed is RerankAnswer
                || failed is Scoring || failed is Contract
            &&& exit == Exit::Code(2) <==> failed is Explicit || failed is Client
                || failed is Shortlist
            &&& exit == Exit::Code(4) <==> failed is CredentialOrigin
            &&& failed matches ActionFailure::Source { kind, message } ==> action_failure(
                failed,
            ).kind == kind@ && action_failure(failed).message == message@
        }),
{
}

/// Every stop but a reported one is worded, and its exit tells where it lies.
pub proof fn stops_are_worded(stop: Stop, hook_hint: Seq<char>, sizes: Seq<char>)
    ensures
        ({
            let report = stop.report_view(hook_hint, sizes);
            &&& report is None <==> stop == Stop::Reported
            &&& report is Some ==> {
                let exit = report->0.exit;
                &&& exit == Exit::Code(6) <==> stop == Stop::DeadlineBeforeStart
                &&& exit == Exit::Code(9) <==> stop == Stop::NoFingerprintKey
                &&& exit == Exit::Code(7) <==> stop == Stop::ArchiveSource
                &&& stop == Stop::InvalidSizes || stop == Stop::InvalidWorkspace || stop
                    == Stop::AmbiguousSession || stop == Stop::HookSource || stop
                    == Stop::InvalidEndpoint ==> exit == Exit::Code(2)
                &&& stop == Stop::MissingTask || stop == Stop::OversizedRequest || stop
                    == Stop::ConflictingDirectives || stop == Stop::RenderUnsupported || stop
                    == Stop::RenderUnsafe || stop == Stop::RenderUnserializable || stop
                    == Stop::ContextDoesNotFit ==> exit == Exit::OfKind
            }
        }),
{
}

} // verus!
