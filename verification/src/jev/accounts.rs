//! What the attempts of an invocation cost, and when one is refused.
use crate::jev::admission::{
    AdmissionEvent, AdmissionView, ClockReading, CostReceipt, RankingStage, Usage,
};
use vstd::prelude::*;

verus! {

/// A response adds exactly its own tokens and one completed attempt to what is
/// known; a failure adds one attempt of unknown usage and nothing to what is
/// known; neither touches what the other counts.
pub proof fn receipts_add_what_is_known(receipt: CostReceipt, usage: Usage)
    requires
        receipt.known_usage.input_tokens + usage.input_tokens <= u64::MAX,
        receipt.known_usage.output_tokens + usage.output_tokens <= u64::MAX,
        receipt.completed_attempts < u32::MAX,
        receipt.unknown_usage_attempts < u32::MAX,
    ensures
        ({
            let answered = receipt.with_success(usage);
            let failed = receipt.with_failure();
            &&& answered.known_usage.input_tokens == receipt.known_usage.input_tokens
                + usage.input_tokens
            &&& answered.known_usage.output_tokens == receipt.known_usage.output_tokens
                + usage.output_tokens
            &&& answered.completed_attempts == receipt.completed_attempts + 1
            &&& answered.unknown_usage_attempts == receipt.unknown_usage_attempts
            &&& answered.has_unknown_usage == receipt.has_unknown_usage
            &&& answered.admitted_attempts == receipt.admitted_attempts
            &&& answered.sent_attempts == receipt.sent_attempts
            &&& failed.known_usage == receipt.known_usage
            &&& failed.completed_attempts == receipt.completed_attempts
            &&& failed.unknown_usage_attempts == receipt.unknown_usage_attempts + 1
            &&& failed.has_unknown_usage
            &&& failed.admitted_attempts == receipt.admitted_attempts
            &&& failed.sent_attempts == receipt.sent_attempts
        }),
        CostReceipt::empty(true).known_usage.input_tokens == 0,
        CostReceipt::empty(true).known_usage.output_tokens == 0,
        CostReceipt::empty(true).admitted_attempts == 0,
        CostReceipt::empty(true).sent_attempts == 0,
        CostReceipt::empty(true).cache_served,
        !CostReceipt::empty(false).cache_served,
{
}

/// Sums that do not fit stay at the largest number: no usage ever lowers a
/// count.
pub proof fn counts_never_fall(receipt: CostReceipt, usage: Usage)
    ensures
        receipt.with_success(usage).known_usage.input_tokens >= receipt.known_usage.input_tokens,
        receipt.with_success(usage).known_usage.input_tokens >= usage.input_tokens,
        receipt.with_success(usage).known_usage.output_tokens >= receipt.known_usage.output_tokens,
        receipt.with_success(usage).known_usage.output_tokens >= usage.output_tokens,
        receipt.with_success(usage).completed_attempts >= receipt.completed_attempts,
        receipt.with_failure().unknown_usage_attempts >= receipt.unknown_usage_attempts,
{
}

/// An attempt is refused exactly where there is no time for it, where a rerank
/// comes before the wide answer, where it would open one request too many or be
/// one attempt too many, or where its name was given before.
pub proof fn refusals_have_a_reason(a: AdmissionView, stage: RankingStage, clock: ClockReading)
    ensures
        a.refusal(stage, clock) is Some <==> {
            ||| clock.now_ms is None
            ||| clock.remaining_before_cleanup_ms < a.budget.min_attempt_reserve_ms
            ||| stage == RankingStage::Rerank && !a.wide_completed
            ||| a.current_stage != Some(stage) && a.budget.max_logical_requests
                <= a.logical_started
            ||| a.budget.max_http_attempts <= a.receipt.admitted_attempts
            ||| exists|i: int| 0 <= i < a.issued.len() && #[trigger] a.issued[i] == a.next_id()
        },
        a.refusal(stage, clock) is Some && a.refusal(stage, clock)->0 is AttemptsExhausted
            ==> a.budget.max_http_attempts <= a.receipt.admitted_attempts,
        a.refusal(stage, clock) is Some && a.refusal(stage, clock)->0 is LogicalRequestsExhausted
            ==> a.budget.max_logical_requests <= a.logical_started && a.current_stage != Some(
            stage,
        ),
        a.refusal(stage, clock) is Some && a.refusal(stage, clock)->0 is StageOrderingViolation
            ==> stage == RankingStage::Rerank && !a.wide_completed,
        a.refusal(stage, clock) is Some && a.refusal(stage, clock)->0 is InsufficientDeadline
            <==> clock.now_ms is None || clock.remaining_before_cleanup_ms
            < a.budget.min_attempt_reserve_ms,
{
    if a.issued.contains(a.next_id()) {
        let i = a.issued.index_of(a.next_id());
        assert(a.issued[i] == a.next_id());
    }
    if exists|i: int| 0 <= i < a.issued.len() && #[trigger] a.issued[i] == a.next_id() {
        let i = choose|i: int| 0 <= i < a.issued.len() && #[trigger] a.issued[i] == a.next_id();
        assert(a.issued.contains(a.next_id()));
    }
}

/// An admitted attempt uses one attempt up, and one logical request only where
/// it is the first of its stage in a row; its name is the last one issued.
pub proof fn attempts_are_charged_once(a: AdmissionView, stage: RankingStage, clock: ClockReading)
    requires
        a.refusal(stage, clock) is None,
    ensures
        ({
            let b = a.after(AdmissionEvent::Attempt { stage, clock });
            &&& b.receipt.admitted_attempts == a.receipt.admitted_attempts + 1
            &&& a.current_stage == Some(stage) ==> b.logical_started == a.logical_started
            &&& a.current_stage != Some(stage) ==> b.logical_started == a.logical_started + 1
            &&& b.current_stage == Some(stage)
            &&& b.has_active_permit
            &&& b.wide_completed == a.wide_completed
            &&& b.issued == a.issued.push(a.next_id())
            &&& b.receipt.known_usage == a.receipt.known_usage
            &&& b.receipt.sent_attempts == a.receipt.sent_attempts
            &&& b.budget == a.budget
            &&& b.guard_generation == a.guard_generation
        }),
{
}

/// A refused attempt costs nothing: no attempt, no name, no usage.
pub proof fn refused_attempts_cost_nothing(a: AdmissionView, stage: RankingStage, clock: ClockReading)
    requires
        a.refusal(stage, clock) is Some,
    ensures
        ({
            let b = a.after(AdmissionEvent::Attempt { stage, clock });
            &&& b.receipt == a.receipt
            &&& b.issued == a.issued
            &&& b.wide_completed == a.wide_completed
            &&& b.has_active_permit == a.has_active_permit
            &&& b.budget == a.budget
        }),
{
}

/// What happens to an attempt that was never issued changes nothing; and only
/// the answer to a wide attempt completes the wide stage.
pub proof fn only_issued_attempts_count(
    a: AdmissionView,
    attempt_id: Seq<char>,
    stage: RankingStage,
    usage: Usage,
)
    ensures
        !a.issued.contains(attempt_id) ==> {
            &&& a.after(AdmissionEvent::Sent { attempt_id }) == a
            &&& a.after(AdmissionEvent::Response { attempt_id, stage, usage }) == a
            &&& a.after(AdmissionEvent::Failure { attempt_id }) == a
            &&& a.after(AdmissionEvent::Discard { attempt_id }) == a
        },
        a.issued.contains(attempt_id) ==> {
            let answered = a.after(AdmissionEvent::Response { attempt_id, stage, usage });
            let failed = a.after(AdmissionEvent::Failure { attempt_id });
            let sent = a.after(AdmissionEvent::Sent { attempt_id });
            let discarded = a.after(AdmissionEvent::Discard { attempt_id });
            &&& answered.wide_completed <==> a.wide_completed || stage == RankingStage::Wide
            &&& answered.receipt == a.receipt.with_success(usage)
            &&& failed.receipt == a.receipt.with_failure()
            &&& !failed.wide_completed || a.wide_completed
            &&& a.receipt.sent_attempts < u32::MAX ==> sent.receipt.sent_attempts
                == a.receipt.sent_attempts + 1
            &&& sent.receipt.known_usage == a.receipt.known_usage
            &&& discarded.receipt == a.receipt
            &&& !answered.has_active_permit && !failed.has_active_permit && !sent.has_active_permit
                && !discarded.has_active_permit
        },
{
}

} // verus!
