use skillranker::evaluation::batch::{
    checked_report, draft_batch_report, draft_frame_report,
    execute_evaluation_batch, execute_labeled_frame_evaluation, is_blank_line, required_stages,
    sampled_scope, selected_representatives, validate_batch_config, BatchConfig, CaseExecutionStatus,
    CaseIntake, CaseObservation, EvaluationError, EvidenceOrigin, FrameKey, FrameSampling,
    GateStatus, JudgedCase, LabelStatus, ReplayCase, ReplayOutcome, RunStatus, WideRecord,
};
use skillranker::evaluation::explanation::{
    explain_report, owes_design_weights, DesignStatus, ReportFacts,
};
use skillranker::score::Score;

fn score(value: f64) -> Score {
    Score {
        bits: value.to_bits(),
    }
}

fn config() -> BatchConfig {
    BatchConfig {
        max_requests: None,
        max_runtime_ms: 1_000,
        per_case_timeout_ms: Some(100),
        online: false,
        allow_network: false,
        evidence_origin: EvidenceOrigin::Recorded,
        policy: None,
        compare_policy: None,
    }
}

fn case(id: &str, decision: &str, wide: Option<f64>) -> ReplayCase {
    ReplayCase {
        case_id: id.to_string(),
        historical_decision: Some(decision.to_string()),
        gate_threshold: score(0.5),
        wide: wide.map(|gate| WideRecord {
            gate_score: Some(score(gate)),
            none_complement: score(1.0),
        }),
        has_rerank: true,
        evidence_origin: "recorded".to_string(),
    }
}

fn seen(started_ms: u64, replayed_ms: u64) -> CaseObservation {
    CaseObservation {
        started_ms,
        replayed_ms,
        reported_ms: replayed_ms + 1,
        outcome: Ok(ReplayOutcome {
            complete: true,
            recomputed_decision: Some("ranked".to_string()),
            explanation: None,
        }),
    }
}

#[test]
fn modes_and_limits_are_validated_first() {
    assert!(validate_batch_config(&config()).is_ok());
    let mut online = config();
    online.online = true;
    assert!(validate_batch_config(&online).is_err());
    online.allow_network = true;
    assert!(validate_batch_config(&online).is_err());
    online.max_requests = Some(4);
    assert!(validate_batch_config(&online).is_err());
    let mut live = config();
    live.evidence_origin = EvidenceOrigin::Live;
    assert!(validate_batch_config(&live).is_err());
    for runtime in [0, 86_400_001] {
        let mut bad = config();
        bad.max_runtime_ms = runtime;
        assert!(validate_batch_config(&bad).is_err());
    }
}

#[test]
fn stages_follow_the_recorded_answers() {
    assert_eq!(required_stages(&case("a", "explicit", None), &config()), 0);
    assert_eq!(required_stages(&case("a", "abstain", Some(0.4)), &config()), 1);
    assert_eq!(required_stages(&case("a", "ranked", Some(0.5)), &config()), 2);
    assert_eq!(required_stages(&case("a", "ranked", None), &config()), 2);
}

#[test]
fn every_case_is_counted_once() {
    let cases = vec![
        case("done", "ranked", Some(0.9)),
        case("missing", "ranked", None),
        case("slow", "ranked", Some(0.9)),
        case("late", "ranked", Some(0.9)),
    ];
    let observed = vec![seen(0, 10), seen(20, 30), seen(40, 140), seen(1_000, 1_001)];
    let report = execute_evaluation_batch(&cases, &observed, &config(), 0, None).unwrap();
    assert!(matches!(
        &report.cases[0].status,
        CaseExecutionStatus::Completed { decision, loss: None, .. } if decision == "ranked"
    ));
    assert!(matches!(
        &report.cases[1].status,
        CaseExecutionStatus::NotEstimable { reason } if reason == "missing wide recorded response"
    ));
    assert!(matches!(
        &report.cases[2].status,
        CaseExecutionStatus::OperationalFailure { loss: 2, .. }
    ));
    assert!(matches!(&report.cases[3].status, CaseExecutionStatus::Unfinished { .. }));
    assert_eq!(report.completeness.cases_completed, 1);
    assert_eq!(report.loss_summary.not_estimable_cases, 1);
    assert_eq!(report.loss_summary.operational_failures, 1);
    assert_eq!(report.loss_summary.unfinished_cases, 1);
    assert_eq!(report.run_status, RunStatus::Partial);
    assert!(!report.actionable);
    assert_eq!(report.cases[0].elapsed_ms, 11);
}

#[test]
fn cases_are_taken_in_once_and_bounded() {
    let mut intake = CaseIntake::new();
    assert!(intake.push(Ok(case("a", "ranked", None)), 2).is_ok());
    assert!(intake.push(Ok(case("a", "ranked", None)), 2).is_err());
    assert!(intake.push(Err("bad".to_string()), 2).is_err());
    assert!(intake.push(Ok(case("b", "ranked", None)), 2).is_ok());
    assert!(matches!(
        intake.push(Ok(case("c", "ranked", None)), 2),
        Err(EvaluationError::RecordLimitReached { .. })
    ));
    assert_eq!(intake.into_cases().len(), 2);
    assert!(is_blank_line("  \t"));
    assert!(!is_blank_line("{}"));
}

#[test]
fn frames_are_sampled_within_one_scope() {
    let key = |split: &str, policy: &str| FrameKey {
        split: split.to_string(),
        policy_id: policy.to_string(),
    };
    let request = FrameSampling {
        sample_size: 2,
        seed: None,
    };
    assert_eq!(
        sampled_scope(&vec![key("s", "p"), key("s", "p")], request).ok(),
        Some(("s".to_string(), "p".to_string()))
    );
    assert!(sampled_scope(&vec![key("s", "p"), key("s", "q")], request).is_err());
    assert!(sampled_scope(&vec![], request).is_err());
    let empty = FrameSampling {
        sample_size: 0,
        seed: Some(1),
    };
    assert!(sampled_scope(&vec![key("s", "p")], empty).is_err());
    let keys: Vec<String> = ["x", "y", "z"].iter().map(|s| s.to_string()).collect();
    let selected: Vec<String> = ["z", "x"].iter().map(|s| s.to_string()).collect();
    assert_eq!(selected_representatives(&keys, &selected), vec![0, 2]);
}

fn judged(id: &str, label: LabelStatus, loss: Option<u32>) -> JudgedCase {
    JudgedCase {
        case_id: id.to_string(),
        family_id: "f".to_string(),
        decision: "ranked".to_string(),
        label,
        operational_failure: false,
        loss,
    }
}

#[test]
fn unjudged_cases_leave_a_frame_partial() {
    let report = execute_labeled_frame_evaluation(
        &vec![
            judged("a", LabelStatus::Resolved, Some(1)),
            judged("b", LabelStatus::Unjudged, None),
        ],
        true,
        None,
    )
    .unwrap();
    assert_eq!(report.run_status, RunStatus::Partial);
    assert_eq!(report.gate_status, GateStatus::NotEstablished);
    assert_eq!(report.loss_summary.total_loss, 1);
    assert_eq!(report.completeness.cases_requested, 2);
    assert_eq!(report.completeness.cases_completed, 1);
    let full = execute_labeled_frame_evaluation(
        &vec![judged("a", LabelStatus::Resolved, Some(0))],
        true,
        None,
    )
    .unwrap();
    assert_eq!(full.run_status, RunStatus::Complete);
}

#[test]
fn fixed_seeds_carry_no_design_weights() {
    assert!(!owes_design_weights(None));
    assert!(!owes_design_weights(Some(DesignStatus::DiagnosticFixed)));
    assert!(owes_design_weights(Some(DesignStatus::StratifiedProbabilitySample)));
    assert!(owes_design_weights(Some(DesignStatus::FullCensus)));
    let explanation = explain_report(&ReportFacts {
        labeled: true,
        total_loss: 3,
        attempted_cases: 4,
        mean_loss: Some(score(0.75)),
        mean_loss_text: Some("0.75".to_string()),
        mean_normalized_loss: Some(score(0.375)),
        sample: None,
        cases_requested: 5,
        cases_completed: 4,
        gate_status: GateStatus::NotEstablished,
    });
    assert!(!explanation.quantities.is_empty());
    assert_eq!(explanation.quantities[0].value, Some(score(0.75)));
}

#[test]
fn reports_that_violate_the_contract_are_refused() {
    let why = || Some("too many cases".to_string());
    let refused = execute_evaluation_batch(&vec![], &vec![], &config(), 0, why());
    assert!(matches!(
        refused,
        Err(EvaluationError::InvalidField(text))
            if text == "batch report exceeds or violates output contract: too many cases"
    ));
    let refused = execute_labeled_frame_evaluation(&vec![], true, why());
    assert!(matches!(
        refused,
        Err(EvaluationError::InvalidField(text))
            if text == "evaluation report exceeds or violates output contract: too many cases"
    ));
    let mut unusable = config();
    unusable.max_runtime_ms = 0;
    let first = execute_evaluation_batch(&vec![], &vec![], &unusable, 0, why());
    assert!(matches!(
        first,
        Err(EvaluationError::InvalidField(text)) if !text.contains("output contract")
    ));
    let draft = draft_batch_report(&vec![], &vec![], &config(), 0).unwrap();
    assert_eq!(draft.run_status, RunStatus::Complete);
    assert!(checked_report(draft, false, None).is_ok());
    assert!(!draft_frame_report(&vec![], true).actionable);
}
