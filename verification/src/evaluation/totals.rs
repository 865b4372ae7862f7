//! What the totals of an evaluation add up to: how one more case changes a
//! report, and what each case's own report says.
use crate::evaluation::batch::{
    every_case_is_counted_once, frame_tally, frame_totals_are_bounded, is_batch_report,
    is_frame_report, losses_fit, report_views, saturating_sum, selected_below, tally, BatchConfig,
    CaseObservation, EvaluationBatchReport, EvidenceOrigin, GateStatus, JudgedCase, LabelStatus,
    ReplayCase, ReplayPolicy, RunStatus, StatusView, WideRecord,
};
use vstd::prelude::*;

verus! {

/// One, where it holds.
pub open spec fn one_if(holds: bool) -> nat {
    if holds {
        1
    } else {
        0
    }
}

proof fn frame_tally_extends(cases: Seq<JudgedCase>, case: JudgedCase, n: int)
    requires
        0 <= n <= cases.len(),
    ensures
        frame_tally(cases.push(case), n) == frame_tally(cases, n),
    decreases n,
{
    if n > 0 {
        frame_tally_extends(cases, case, n - 1);
        assert(cases.push(case)[n - 1] == cases[n - 1]);
    }
}

/// One more judged case raises the total loss by exactly its loss, and each
/// count by one where the case belongs to it: attempted where it has a loss,
/// failed where it has one from a failed operation, not estimable where it has
/// no judgment and did not fail, completed where it is judged or has a loss.
pub proof fn frames_add_their_losses(
    cases: Seq<JudgedCase>,
    case: JudgedCase,
    reconciled: bool,
    shorter: EvaluationBatchReport,
    longer: EvaluationBatchReport,
)
    requires
        losses_fit(cases.push(case)),
        is_frame_report(shorter, cases, reconciled),
        is_frame_report(longer, cases.push(case), reconciled),
    ensures
        longer.loss_summary.total_loss == shorter.loss_summary.total_loss + (match case.loss {
            Some(loss) => loss as int,
            None => 0,
        }),
        longer.loss_summary.attempted_cases == shorter.loss_summary.attempted_cases + one_if(
            case.loss is Some,
        ),
        longer.loss_summary.operational_failures == shorter.loss_summary.operational_failures
            + one_if(case.loss is Some && case.operational_failure),
        longer.loss_summary.not_estimable_cases == shorter.loss_summary.not_estimable_cases
            + one_if(
            case.label != LabelStatus::Resolved && !(case.loss is Some && case.operational_failure),
        ),
        longer.completeness.cases_requested == shorter.completeness.cases_requested + 1,
        longer.completeness.cases_completed == shorter.completeness.cases_completed + one_if(
            case.label == LabelStatus::Resolved || case.loss is Some,
        ),
        longer.loss_summary.unfinished_cases == 0,
        longer.cases@.len() == shorter.cases@.len() + 1,
        forall|i: int|
            0 <= i < shorter.cases@.len() ==> (#[trigger] longer.cases@[i])@ == shorter.cases@[i]@,
{
    let more = cases.push(case);
    let n = cases.len() as int;
    frame_tally_extends(cases, case, n);
    assert(more[n] == case);
    assert forall|i: int| 0 <= i < cases.len() && (#[trigger] cases[i]).loss is Some implies
        cases[i].loss->0 <= crate::evaluation::batch::MAX_CASE_LOSS by {
        assert(more[i] == cases[i]);
    }
    frame_totals_are_bounded(cases, n);
    frame_totals_are_bounded(more, n + 1);
    assert(report_views(shorter.cases@).len() == n);
    assert(report_views(longer.cases@).len() == n + 1);
    assert forall|i: int| 0 <= i < shorter.cases@.len() implies (#[trigger] longer.cases@[i])@
        == shorter.cases@[i]@ by {
        assert(report_views(longer.cases@)[i] == more[i].report());
        assert(report_views(shorter.cases@)[i] == cases[i].report());
    }
}

/// An empty frame has lost nothing and is complete.
pub proof fn empty_frames_lose_nothing(reconciled: bool, report: EvaluationBatchReport)
    requires
        is_frame_report(report, Seq::empty(), reconciled),
    ensures
        report.loss_summary.total_loss == 0,
        report.loss_summary.attempted_cases == 0,
        report.loss_summary.operational_failures == 0,
        report.loss_summary.not_estimable_cases == 0,
        report.loss_summary.unfinished_cases == 0,
        report.completeness.cases_requested == 0,
        report.completeness.cases_completed == 0,
        report.cases@.len() == 0,
        report.run_status == RunStatus::Complete,
{
    assert(report_views(report.cases@).len() == 0);
}

/// The report of a frame shows each case under its own name, in order, with its
/// loss: as a failure, as not estimable, or as completed with its recorded
/// decision.
pub proof fn frames_report_each_case(
    cases: Seq<JudgedCase>,
    reconciled: bool,
    report: EvaluationBatchReport,
    i: int,
)
    requires
        is_frame_report(report, cases, reconciled),
        0 <= i < cases.len(),
    ensures
        report.cases@.len() == cases.len(),
        report.cases@[i]@.case_id == cases[i].case_id@,
        report.cases@[i]@.family_id == Some(cases[i].family_id@),
        report.cases@[i]@.elapsed_ms == 0,
        ({
            let status = report.cases@[i]@.status;
            let failed = cases[i].operational_failure && cases[i].loss is Some;
            let judged = cases[i].label == LabelStatus::Resolved;
            &&& failed <==> status == (StatusView::OperationalFailure {
                error_kind: "operational-failure"@,
                loss: cases[i].loss->0,
            }) && cases[i].loss is Some
            &&& failed <==> status is OperationalFailure
            &&& !failed && !judged <==> status is NotEstimable
            &&& !failed && judged <==> status is Completed
            &&& !failed && judged ==> status == (StatusView::Completed {
                decision: cases[i].decision@,
                recomputed: None,
                loss: cases[i].loss,
            })
            &&& !failed && cases[i].label == LabelStatus::NullKey ==> status == (
            StatusView::NotEstimable { reason: "case key is incomplete"@ })
            &&& !failed && cases[i].label == LabelStatus::Unjudged ==> status == (
            StatusView::NotEstimable { reason: "no independent judgment for this case"@ })
        }),
{
    assert(report_views(report.cases@)[i] == cases[i].report());
    assert(report_views(report.cases@).len() == cases.len());
}

proof fn scored_frames(cases: Seq<JudgedCase>, n: int)
    requires
        0 <= n <= cases.len(),
    ensures
        frame_tally(cases, n).scored <= n,
        frame_tally(cases, n).scored == n <==> forall|i: int|
            0 <= i < n ==> (#[trigger] cases[i]).label == LabelStatus::Resolved || cases[i].loss
                is Some,
    decreases n,
{
    if n > 0 {
        scored_frames(cases, n - 1);
        let last = cases[n - 1];
        if frame_tally(cases, n).scored == n {
            assert forall|i: int| 0 <= i < n implies (#[trigger] cases[i]).label
                == LabelStatus::Resolved || cases[i].loss is Some by {
                if i == n - 1 {
                    assert(last.is_scored());
                }
            }
        }
    }
}

/// A frame is complete where every case is judged or has a loss, and partial
/// otherwise. Its evidence is recorded, and it never passes a gate by itself.
pub proof fn frames_are_complete_with_their_judgments(
    cases: Seq<JudgedCase>,
    reconciled: bool,
    report: EvaluationBatchReport,
)
    requires
        is_frame_report(report, cases, reconciled),
    ensures
        report.run_status == RunStatus::Complete <==> forall|i: int|
            0 <= i < cases.len() ==> (#[trigger] cases[i]).label == LabelStatus::Resolved
                || cases[i].loss is Some,
        report.completeness.evidence_compatible == reconciled,
        report.gate_status == GateStatus::NotEstablished,
        report.evidence_origin@ == "recorded"@,
        !report.actionable,
        report.error is None,
{
    scored_frames(cases, cases.len() as int);
}

proof fn tally_extends(
    cases: Seq<ReplayCase>,
    case: ReplayCase,
    seen: Seq<CaseObservation>,
    observed: CaseObservation,
    config: BatchConfig,
    expires: u64,
    n: int,
)
    requires
        0 <= n <= cases.len(),
        seen.len() == cases.len(),
    ensures
        tally(cases.push(case), seen.push(observed), config, expires, n) == tally(
            cases,
            seen,
            config,
            expires,
            n,
        ),
    decreases n,
{
    if n > 0 {
        tally_extends(cases, case, seen, observed, config, expires, n - 1);
        assert(cases.push(case)[n - 1] == cases[n - 1]);
        assert(seen.push(observed)[n - 1] == seen[n - 1]);
    }
}

/// One more replayed case raises exactly one count, that of its own status; only
/// a failed operation costs anything, and it costs two. The cases before it are
/// reported as before.
pub proof fn batches_count_each_case(
    cases: Seq<ReplayCase>,
    case: ReplayCase,
    seen: Seq<CaseObservation>,
    observed: CaseObservation,
    config: BatchConfig,
    entered_ms: u64,
    shorter: EvaluationBatchReport,
    longer: EvaluationBatchReport,
)
    requires
        seen.len() == cases.len(),
        2 * (cases.len() + 1) <= u32::MAX,
        is_batch_report(shorter, cases, seen, config, entered_ms),
        is_batch_report(longer, cases.push(case), seen.push(observed), config, entered_ms),
    ensures
        longer.cases@.len() == shorter.cases@.len() + 1,
        forall|i: int|
            0 <= i < shorter.cases@.len() ==> (#[trigger] longer.cases@[i])@ == shorter.cases@[i]@,
        ({
            let status = longer.cases@[cases.len() as int]@.status;
            let failed = one_if(status is OperationalFailure);
            &&& longer.completeness.cases_requested == shorter.completeness.cases_requested + 1
            &&& longer.completeness.cases_completed == shorter.completeness.cases_completed
                + one_if(status is Completed)
            &&& longer.loss_summary.not_estimable_cases == shorter.loss_summary.not_estimable_cases
                + one_if(status is NotEstimable)
            &&& longer.loss_summary.unfinished_cases == shorter.loss_summary.unfinished_cases
                + one_if(status is Unfinished)
            &&& longer.loss_summary.operational_failures
                == shorter.loss_summary.operational_failures + failed
            &&& longer.loss_summary.attempted_cases == shorter.loss_summary.attempted_cases + failed
            &&& longer.loss_summary.total_loss == shorter.loss_summary.total_loss + 2 * failed
            &&& longer.error is Some <==> shorter.error is Some || status is Unfinished
            &&& longer.completeness.evidence_compatible <==>
                shorter.completeness.evidence_compatible && !(status is NotEstimable)
        }),
{
    let more = cases.push(case);
    let n = cases.len() as int;
    let expires = saturating_sum(entered_ms, config.max_runtime_ms);
    tally_extends(cases, case, seen, observed, config, expires, n);
    every_case_is_counted_once(cases, seen, config, expires, n);
    every_case_is_counted_once(more, seen.push(observed), config, expires, n + 1);
    assert(more[n] == case);
    assert(seen.push(observed)[n] == observed);
    assert(report_views(shorter.cases@).len() == n);
    assert(report_views(longer.cases@).len() == n + 1);
    assert(report_views(longer.cases@)[n] == longer.cases@[n]@);
    assert forall|i: int| 0 <= i < shorter.cases@.len() implies (#[trigger] longer.cases@[i])@
        == shorter.cases@[i]@ by {
        assert(report_views(longer.cases@)[i] == longer.cases@[i]@);
        assert(report_views(shorter.cases@)[i] == shorter.cases@[i]@);
        assert(more[i] == cases[i] && seen.push(observed)[i] == seen[i]);
    }
}

/// An empty batch has nothing to count.
pub proof fn empty_batches_count_nothing(
    config: BatchConfig,
    entered_ms: u64,
    report: EvaluationBatchReport,
)
    requires
        is_batch_report(report, Seq::empty(), Seq::empty(), config, entered_ms),
    ensures
        report.cases@.len() == 0,
        report.completeness.cases_requested == 0,
        report.completeness.cases_completed == 0,
        report.completeness.stages_required == 0,
        report.completeness.stages_completed == 0,
        report.completeness.evidence_compatible,
        report.loss_summary.total_loss == 0,
        report.loss_summary.attempted_cases == 0,
        report.loss_summary.operational_failures == 0,
        report.loss_summary.not_estimable_cases == 0,
        report.loss_summary.unfinished_cases == 0,
        report.error is None,
        report.run_status == RunStatus::Complete,
{
    assert(report_views(report.cases@).len() == 0);
}

/// The stages of one more case count as required by what it recorded: none for
/// an explicit one, one or two for another. They count as completed only where
/// the case was replayed in time and the answers were recorded.
pub proof fn batches_count_each_stage(
    cases: Seq<ReplayCase>,
    case: ReplayCase,
    seen: Seq<CaseObservation>,
    observed: CaseObservation,
    config: BatchConfig,
    entered_ms: u64,
    shorter: EvaluationBatchReport,
    longer: EvaluationBatchReport,
)
    requires
        seen.len() == cases.len(),
        2 * (cases.len() + 1) <= u32::MAX,
        is_batch_report(shorter, cases, seen, config, entered_ms),
        is_batch_report(longer, cases.push(case), seen.push(observed), config, entered_ms),
    ensures
        ({
            let required = longer.completeness.stages_required
                - shorter.completeness.stages_required;
            let completed = longer.completeness.stages_completed
                - shorter.completeness.stages_completed;
            let late = observed.started_ms >= entered_ms + config.max_runtime_ms
                || observed.replayed_ms >= entered_ms + config.max_runtime_ms || (
            config.per_case_timeout_ms is Some && observed.replayed_ms >= observed.started_ms
                + config.per_case_timeout_ms->0) || observed.started_ms == u64::MAX
                || observed.replayed_ms == u64::MAX;
            &&& required == 0 <==> case.historical_decision is Some
                && case.historical_decision->0@ == "explicit"@
            &&& 0 <= completed <= required <= 2
            &&& required > 0 && case.wide is None ==> required == 2
            &&& late || case.wide is None ==> completed == 0
            &&& !late && case.wide is Some && case.has_rerank ==> completed == required
            &&& !late && case.wide is Some && !case.has_rerank && required > 0 ==> completed == 1
        }),
{
    let more = cases.push(case);
    let n = cases.len() as int;
    let expires = saturating_sum(entered_ms, config.max_runtime_ms);
    tally_extends(cases, case, seen, observed, config, expires, n);
    every_case_is_counted_once(cases, seen, config, expires, n);
    every_case_is_counted_once(more, seen.push(observed), config, expires, n + 1);
    assert(more[n] == case);
    assert(seen.push(observed)[n] == observed);
}

/// A case is unfinished exactly where the batch was over when it began. One that
/// began in time is a failed operation only where it was replayed late, and is
/// completed only with the decision that was recomputed for it.
pub proof fn batches_report_each_case(
    cases: Seq<ReplayCase>,
    seen: Seq<CaseObservation>,
    config: BatchConfig,
    entered_ms: u64,
    report: EvaluationBatchReport,
    i: int,
)
    requires
        seen.len() == cases.len(),
        is_batch_report(report, cases, seen, config, entered_ms),
        0 <= i < cases.len(),
    ensures
        report.cases@.len() == cases.len(),
        ({
            let shown = report.cases@[i]@;
            let over = seen[i].started_ms >= entered_ms + config.max_runtime_ms
                || seen[i].started_ms == u64::MAX;
            let late = seen[i].replayed_ms >= entered_ms + config.max_runtime_ms
                || seen[i].replayed_ms == u64::MAX || (config.per_case_timeout_ms is Some
                && seen[i].replayed_ms >= seen[i].started_ms + config.per_case_timeout_ms->0);
            let explicit = cases[i].historical_decision is Some
                && cases[i].historical_decision->0@ == "explicit"@;
            let missing = !explicit && cases[i].wide is None;
            &&& shown.case_id == cases[i].case_id@
            &&& shown.family_id is None
            &&& seen[i].reported_ms >= seen[i].started_ms ==> shown.elapsed_ms + seen[i].started_ms
                == seen[i].reported_ms
            &&& seen[i].reported_ms < seen[i].started_ms ==> shown.elapsed_ms == 0
            &&& over <==> shown.status is Unfinished
            &&& over ==> shown.status == (StatusView::Unfinished {
                reason: "batch runtime deadline expired"@,
            })
            &&& !over && missing ==> shown.status == (StatusView::NotEstimable {
                reason: "missing wide recorded response"@,
            })
            &&& !over && !missing && late <==> shown.status is OperationalFailure
            &&& !over && !missing && late ==> shown.status == (StatusView::OperationalFailure {
                error_kind: "deadline-expired"@,
                loss: 2,
            })
            &&& shown.status is Completed <==> {
                &&& !over && !missing && !late
                &&& seen[i].outcome is Ok
                &&& seen[i].outcome->Ok_0.complete
                &&& seen[i].outcome->Ok_0.recomputed_decision is Some
            }
            &&& shown.status is Completed ==> {
                &&& shown.status->Completed_decision
                    == seen[i].outcome->Ok_0.recomputed_decision->0@
                &&& shown.status->Completed_loss is None
            }
            &&& !over && !missing && !late && seen[i].outcome is Err ==> shown.status == (
            StatusView::NotEstimable { reason: seen[i].outcome->Err_0@ })
        }),
{
    assert(report_views(report.cases@).len() == cases.len());
    assert(report_views(report.cases@)[i] == report.cases@[i]@);
}

/// A batch is complete exactly where every case is completed and every required
/// stage is; synthetic evidence never establishes a gate, nor does a replay.
pub proof fn batches_are_complete_with_their_cases(
    cases: Seq<ReplayCase>,
    seen: Seq<CaseObservation>,
    config: BatchConfig,
    entered_ms: u64,
    report: EvaluationBatchReport,
)
    requires
        seen.len() == cases.len(),
        2 * cases.len() <= u32::MAX,
        is_batch_report(report, cases, seen, config, entered_ms),
    ensures
        report.run_status == RunStatus::Complete <==> report.completeness.cases_completed
            == cases.len() && report.completeness.stages_completed
            == report.completeness.stages_required,
        report.completeness.cases_completed + report.loss_summary.not_estimable_cases
            + report.loss_summary.unfinished_cases + report.loss_summary.operational_failures
            == cases.len(),
        report.gate_status == GateStatus::NotApplicable <==> report.run_status
            == RunStatus::Complete && report.evidence_origin@ == "synthetic"@,
        report.gate_status == GateStatus::NotApplicable || report.gate_status
            == GateStatus::NotEstablished,
        !report.actionable,
        report.accounting.requests == 0,
        report.accounting.http_attempts == 0,
{
    let expires = saturating_sum(entered_ms, config.max_runtime_ms);
    every_case_is_counted_once(cases, seen, config, expires, cases.len() as int);
    reveal_strlit("synthetic");
    reveal_strlit("recorded");
    assert("synthetic"@[0] != "recorded"@[0]);
}

/// A sample's representatives are exactly the places of the selected keys, in
/// the order of the frame.
pub proof fn representatives_are_the_selected_keys(
    keys: Seq<Seq<char>>,
    selected: Seq<Seq<char>>,
    n: int,
)
    requires
        0 <= n <= keys.len(),
    ensures
        forall|p: int|
            #[trigger] selected_below(keys, selected, n).contains(p) <==> 0 <= p < n
                && selected.contains(keys[p]),
        forall|i: int, j: int|
            0 <= i < j < selected_below(keys, selected, n).len() ==> #[trigger] selected_below(
                keys,
                selected,
                n,
            )[i] < #[trigger] selected_below(keys, selected, n)[j],
    decreases n,
{
    if n > 0 {
        representatives_are_the_selected_keys(keys, selected, n - 1);
        let before = selected_below(keys, selected, n - 1);
        let places = selected_below(keys, selected, n);
        assert forall|p: int| #[trigger] places.contains(p) <==> 0 <= p < n && selected.contains(
            keys[p],
        ) by {
            assert(before.contains(p) <==> 0 <= p < n - 1 && selected.contains(keys[p]));
            if selected.contains(keys[n - 1]) {
                assert(places[before.len() as int] == n - 1);
                if places.contains(p) {
                    let k = places.index_of(p);
                    assert(k < before.len() ==> before[k] == p);
                }
                if before.contains(p) {
                    assert(places[before.index_of(p)] == p);
                }
            }
        }
        assert forall|i: int, j: int| 0 <= i < j < places.len() implies #[trigger] places[i]
            < #[trigger] places[j] by {
            assert(i < before.len() ==> before.contains(before[i]));
        }
    }
}

/// A recorded case needs one stage exactly where its wide answer stays below
/// the threshold of every policy, and two otherwise; the policy's threshold
/// comes before the recorded one, and a recorded score before the complement.
pub proof fn gates_save_the_second_stage(case: ReplayCase, config: BatchConfig, wide: WideRecord)
    requires
        case.historical_decision is None || case.historical_decision->0@ != "explicit"@,
        case.wide == Some(wide),
        config.compare_policy is None,
    ensures
        ({
            let score = match wide.gate_score {
                Some(gate) => gate,
                None => wide.none_complement,
            };
            let threshold = match config.policy {
                Some(policy) => match policy.gate_threshold {
                    Some(own) => own,
                    None => case.gate_threshold,
                },
                None => case.gate_threshold,
            };
            &&& case.stages(config) == 1 <==> score.lt_spec(threshold)
            &&& case.stages(config) == 2 <==> !score.lt_spec(threshold)
        }),
{
}

/// A second policy can only ask for more: a case that needs both stages under
/// one of two policies needs both.
pub proof fn compared_policies_need_both_stages(
    case: ReplayCase,
    config: BatchConfig,
    other: ReplayPolicy,
)
    ensures
        ({
            let alone = BatchConfig { compare_policy: None, ..config };
            let both = BatchConfig { compare_policy: Some(other), ..config };
            let second = BatchConfig { policy: Some(other), compare_policy: None, ..config };
            &&& case.stages(alone) <= case.stages(both)
            &&& case.stages(second) <= case.stages(both)
            &&& case.stages(both) == case.stages(alone) || case.stages(both) == case.stages(second)
        }),
{
}

/// A batch is run offline, from evidence that is not live, within a day and with
/// a positive time for each case; any other is refused.
pub proof fn batches_are_run_within_limits(config: BatchConfig)
    ensures
        config.complaint() is None <==> {
            &&& !config.online
            &&& config.evidence_origin != EvidenceOrigin::Live
            &&& 0 < config.max_runtime_ms <= 86_400_000
            &&& config.per_case_timeout_ms is None || config.per_case_timeout_ms->0 > 0
        },
{
}

/// The evidence of a batch is synthetic where the batch or any case of it says
/// so, and recorded otherwise.
pub proof fn synthetic_evidence_taints_a_batch(
    cases: Seq<ReplayCase>,
    seen: Seq<CaseObservation>,
    config: BatchConfig,
    entered_ms: u64,
    report: EvaluationBatchReport,
)
    requires
        is_batch_report(report, cases, seen, config, entered_ms),
    ensures
        report.evidence_origin@ == "synthetic"@ <==> config.evidence_origin
            == EvidenceOrigin::Synthetic || exists|i: int|
            0 <= i < cases.len() && (#[trigger] cases[i]).evidence_origin@ == "synthetic"@,
        report.evidence_origin@ == "synthetic"@ || report.evidence_origin@ == "recorded"@,
{
    reveal_strlit("synthetic");
    reveal_strlit("recorded");
    assert("synthetic"@[0] != "recorded"@[0]);
}

} // verus!
