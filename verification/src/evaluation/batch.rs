//! Bounded offline replay batches.
//!
//! Recorded decisions are observations, not independent usefulness labels:
//! replay success cannot pass a quality gate. A labeled case frame is scored
//! against independent judgments.
use crate::score::Score;
use crate::text::{
    contains_text, copy_optional, copy_text, is_blank, join, optional_text, same_text, texts, trim,
};
use vstd::prelude::*;

verus! {

/// Origin class of evidence evaluated in a batch.
#[derive(Clone, Copy, Debug, PartialEq, Eq, Structural)]
pub enum EvidenceOrigin {
    Synthetic,
    Recorded,
    Live,
}

impl EvidenceOrigin {
    pub open spec fn label(self) -> Seq<char> {
        match self {
            EvidenceOrigin::Synthetic => "synthetic"@,
            EvidenceOrigin::Recorded => "recorded"@,
            EvidenceOrigin::Live => "live"@,
        }
    }

    pub fn as_str(&self) -> (label: &'static str)
        ensures
            label@ == self.label(),
    {
        match self {
            EvidenceOrigin::Synthetic => "synthetic",
            EvidenceOrigin::Recorded => "recorded",
            EvidenceOrigin::Live => "live",
        }
    }
}

/// Why an evaluation input was refused.
#[derive(Clone, Debug)]
pub enum EvaluationError {
    InvalidField(String),
    RecordLimitReached { count: usize, max: usize },
    CardinalityViolation(String),
    SamplingFailure(String),
}

pub enum EvaluationErrorView {
    InvalidField(Seq<char>),
    RecordLimitReached { count: nat, max: nat },
    CardinalityViolation(Seq<char>),
    SamplingFailure(Seq<char>),
}

impl View for EvaluationError {
    type V = EvaluationErrorView;

    open spec fn view(&self) -> EvaluationErrorView {
        match self {
            EvaluationError::InvalidField(text) => EvaluationErrorView::InvalidField(text@),
            EvaluationError::RecordLimitReached { count, max } =>
                EvaluationErrorView::RecordLimitReached { count: *count as nat, max: *max as nat },
            EvaluationError::CardinalityViolation(text) =>
                EvaluationErrorView::CardinalityViolation(text@),
            EvaluationError::SamplingFailure(text) => EvaluationErrorView::SamplingFailure(text@),
        }
    }
}

/// A policy override; its gate threshold where it sets one.
#[derive(Clone, Copy, Debug)]
pub struct ReplayPolicy {
    pub gate_threshold: Option<Score>,
}

/// Configuration of an evaluation batch.
#[derive(Clone, Copy, Debug)]
pub struct BatchConfig {
    /// Maximum HTTP attempts across a live batch.
    pub max_requests: Option<u32>,
    /// Maximum runtime of the whole batch in milliseconds.
    pub max_runtime_ms: u64,
    /// Optional deadline per case in milliseconds.
    pub per_case_timeout_ms: Option<u64>,
    /// Whether to run live against the provider.
    pub online: bool,
    /// Explicit network consent.
    pub allow_network: bool,
    pub evidence_origin: EvidenceOrigin,
    pub policy: Option<ReplayPolicy>,
    pub compare_policy: Option<ReplayPolicy>,
}

/// The longest batch runtime, one day in milliseconds.
pub const MAX_BATCH_RUNTIME_MS: u64 = 86_400_000;

impl BatchConfig {
    /// The complaint about a configuration, if any.
    pub open spec fn complaint(self) -> Option<Seq<char>> {
        if self.online {
            if !self.allow_network {
                Some("online live evaluation requires --allow-network or trusted network consent"@)
            } else if self.max_requests is None || self.max_requests->0 == 0 {
                Some("online live evaluation requires an explicit --max-requests cap"@)
            } else {
                Some("live batch execution is not implemented; supply recorded replay cases in offline mode"@)
            }
        } else if self.evidence_origin == EvidenceOrigin::Live {
            Some("offline replay cannot claim fresh live evidence"@)
        } else if self.max_runtime_ms == 0 || self.max_runtime_ms > MAX_BATCH_RUNTIME_MS {
            Some("batch_runtime must be positive and at most 86400000 ms"@)
        } else if self.per_case_timeout_ms == Some(0u64) {
            Some("per-case timeout must be positive"@)
        } else {
            None
        }
    }
}

/// Validate mode and limits before any evaluation input is opened.
pub fn validate_batch_config(config: &BatchConfig) -> (r: Result<(), EvaluationError>)
    ensures
        match r {
            Ok(_) => config.complaint() is None,
            Err(error) => config.complaint() is Some && error@ == EvaluationErrorView::InvalidField(
                config.complaint()->0,
            ),
        },
{
    if config.online {
        if !config.allow_network {
            return Err(
                EvaluationError::InvalidField(
                    copy_text(
                        "online live evaluation requires --allow-network or trusted network consent",
                    ),
                ),
            );
        }
        let capped: bool = match config.max_requests {
            Some(n) => n != 0,
            None => false,
        };
        if !capped {
            return Err(
                EvaluationError::InvalidField(
                    copy_text("online live evaluation requires an explicit --max-requests cap"),
                ),
            );
        }
        return Err(
            EvaluationError::InvalidField(
                copy_text(
                    "live batch execution is not implemented; supply recorded replay cases in offline mode",
                ),
            ),
        );
    }
    if config.evidence_origin == EvidenceOrigin::Live {
        return Err(
            EvaluationError::InvalidField(
                copy_text("offline replay cannot claim fresh live evidence"),
            ),
        );
    }
    if config.max_runtime_ms == 0 || config.max_runtime_ms > MAX_BATCH_RUNTIME_MS {
        return Err(
            EvaluationError::InvalidField(
                copy_text("batch_runtime must be positive and at most 86400000 ms"),
            ),
        );
    }
    match config.per_case_timeout_ms {
        Some(0) => Err(
            EvaluationError::InvalidField(copy_text("per-case timeout must be positive")),
        ),
        _ => Ok(()),
    }
}

/// The recorded answer of the wide stage.
#[derive(Clone, Copy, Debug)]
pub struct WideRecord {
    pub gate_score: Option<Score>,
    /// One less the recorded probability of the none option.
    pub none_complement: Score,
}

/// What a replay reads of a recorded case.
#[derive(Clone, Debug)]
pub struct ReplayCase {
    pub case_id: String,
    /// The recorded decision, where it is a text.
    pub historical_decision: Option<String>,
    /// The need threshold of the recorded scoring profile.
    pub gate_threshold: Score,
    pub wide: Option<WideRecord>,
    pub has_rerank: bool,
    pub evidence_origin: String,
}

impl ReplayCase {
    pub open spec fn is_explicit(self) -> bool {
        optional_text(self.historical_decision) == Some("explicit"@)
    }

    /// Did the recorded wide answer stay below the threshold of this policy?
    pub open spec fn gated_out(self, policy: Option<ReplayPolicy>) -> bool {
        let threshold = if policy is Some && policy->0.gate_threshold is Some {
            policy->0.gate_threshold->0
        } else {
            self.gate_threshold
        };
        self.wide is Some && (if self.wide->0.gate_score is Some {
            self.wide->0.gate_score->0
        } else {
            self.wide->0.none_complement
        }).lt_spec(threshold)
    }

    /// The model stages that a replay of the case needs: none for a local
    /// explicit resolution, only the wide one where every policy's gate is
    /// missed, else both.
    pub open spec fn stages(self, config: BatchConfig) -> nat {
        if self.is_explicit() {
            0
        } else if self.gated_out(config.policy) && (config.compare_policy is None
            || self.gated_out(config.compare_policy)) {
            1
        } else {
            2
        }
    }
}

fn gate_missed(case: &ReplayCase, policy: &Option<ReplayPolicy>) -> (r: bool)
    ensures
        r == case.gated_out(*policy),
{
    let threshold: Score = match policy {
        Some(p) => match p.gate_threshold {
            Some(threshold) => threshold,
            None => case.gate_threshold,
        },
        None => case.gate_threshold,
    };
    match case.wide {
        Some(wide) => {
            let gate: Score = match wide.gate_score {
                Some(score) => score,
                None => wide.none_complement,
            };
            gate.less_than(threshold)
        },
        None => false,
    }
}

/// The model stages that a replay of the case needs.
pub fn required_stages(case: &ReplayCase, config: &BatchConfig) -> (n: usize)
    ensures
        n == case.stages(*config),
{
    let explicit: bool = match &case.historical_decision {
        Some(decision) => same_text(decision.as_str(), "explicit"),
        None => false,
    };
    if explicit {
        return 0;
    }
    let base: bool = gate_missed(case, &config.policy);
    let compared: bool = match config.compare_policy {
        Some(_) => gate_missed(case, &config.compare_policy),
        None => true,
    };
    if base && compared {
        1
    } else {
        2
    }
}

/// The cases accepted so far from a dataset.
pub struct CaseIntake {
    cases: Vec<ReplayCase>,
}

pub open spec fn case_ids(cases: Seq<ReplayCase>) -> Seq<Seq<char>> {
    cases.map_values(|c: ReplayCase| c.case_id@)
}

impl CaseIntake {
    pub closed spec fn accepted(self) -> Seq<ReplayCase> {
        self.cases@
    }

    /// No two accepted cases share an identity.
    pub open spec fn wf(self) -> bool {
        case_ids(self.accepted()).no_duplicates()
    }

    pub fn new() -> (intake: CaseIntake)
        ensures
            intake.accepted().len() == 0,
            intake.wf(),
    {
        CaseIntake { cases: Vec::new() }
    }

    /// Take in the next dataset record, given what its bytes parse to. A
    /// record past the limit is refused before it is looked at.
    pub fn push(&mut self, parsed: Result<ReplayCase, String>, max_records: usize) -> (r: Result<
        (),
        EvaluationError,
    >)
        requires
            old(self).wf(),
        ensures
            final(self).wf(),
            ({
                let before = old(self).accepted();
                if before.len() >= max_records {
                    r is Err && final(self).accepted() == before && (before.len() < usize::MAX
                        ==> r->Err_0@ == (EvaluationErrorView::RecordLimitReached {
                        count: before.len() + 1,
                        max: max_records as nat,
                    }))
                } else {
                    match parsed {
                        Err(reason) => r is Err && final(self).accepted() == before && r->Err_0@
                            == EvaluationErrorView::InvalidField(
                            "malformed replay case: "@ + reason@,
                        ),
                        Ok(case) => if trim(case.case_id@).len() == 0 || case_ids(before).contains(
                            case.case_id@,
                        ) {
                            r is Err && final(self).accepted() == before && r->Err_0@
                                == EvaluationErrorView::CardinalityViolation(
                                "empty or duplicate replay case ID"@,
                            )
                        } else {
                            r is Ok && final(self).accepted() == before.push(case)
                        },
                    }
                }
            }),
    {
        let n: usize = self.cases.len();
        if n >= max_records {
            let count: usize = if n < usize::MAX {
                n + 1
            } else {
                n
            };
            return Err(EvaluationError::RecordLimitReached { count, max: max_records });
        }
        let case: ReplayCase = match parsed {
            Ok(case) => case,
            Err(reason) => {
                return Err(
                    EvaluationError::InvalidField(join("malformed replay case: ", reason.as_str())),
                );
            },
        };
        if is_blank(case.case_id.as_str()) || self.has_case(case.case_id.as_str()) {
            return Err(
                EvaluationError::CardinalityViolation(
                    copy_text("empty or duplicate replay case ID"),
                ),
            );
        }
        let ghost before = self.cases@;
        self.cases.push(case);
        proof {
            let ids = case_ids(self.cases@);
            assert(ids =~= case_ids(before).push(case.case_id@));
            assert forall|i: int, j: int| 0 <= i < j < ids.len() implies ids[i] != ids[j] by {
                if j == before.len() {
                    assert(case_ids(before)[i] == ids[i]);
                    assert(case_ids(before).contains(ids[i]));
                }
            }
        }
        Ok(())
    }

    fn has_case(&self, id: &str) -> (r: bool)
        ensures
            r == case_ids(self.accepted()).contains(id@),
    {
        let mut i: usize = 0;
        while i < self.cases.len()
            invariant
                i <= self.cases@.len(),
                forall|j: int| 0 <= j < i ==> self.cases@[j].case_id@ != id@,
            decreases self.cases@.len() - i,
        {
            if same_text(self.cases[i].case_id.as_str(), id) {
                assert(case_ids(self.cases@)[i as int] == id@);
                return true;
            }
            i += 1;
        }
        assert forall|j: int| 0 <= j < case_ids(self.cases@).len() implies case_ids(self.cases@)[j]
            != id@ by {}
        false
    }

    pub fn into_cases(self) -> (cases: Vec<ReplayCase>)
        ensures
            cases@ == self.accepted(),
    {
        self.cases
    }
}

/// Is a dataset line blank? Only spaces, tabs and line ends count.
pub open spec fn is_dataset_blank(c: char) -> bool {
    c == ' ' || c == '\t' || c == '\r' || c == '\n'
}

/// Skip a line that holds nothing but spaces, tabs and line ends.
pub fn is_blank_line(line: &str) -> (blank: bool)
    ensures
        blank == forall|i: int| 0 <= i < line@.len() ==> is_dataset_blank(#[trigger] line@[i]),
{
    let mut blank: bool = true;
    for c in it: line.chars()
        invariant
            it.seq() == line@,
            blank == forall|i: int| 0 <= i < it.index() ==> is_dataset_blank(#[trigger] line@[i]),
    {
        if !(c == ' ' || c == '\t' || c == '\r' || c == '\n') {
            assert(!is_dataset_blank(line@[it.index() as int]));
            blank = false;
        }
    }
    blank
}

/// Execution status of one case in a batch. A loss is in half units of the
/// normalized loss.
#[derive(Clone, Debug)]
pub enum CaseExecutionStatus {
    /// The case was evaluated to completion.
    Completed { decision: String, recomputed: Option<String>, loss: Option<u32> },
    /// A required recorded stage was missing.
    NotEstimable { reason: String },
    /// The case failed operationally.
    OperationalFailure { error_kind: String, loss: u32 },
    /// The case was not started because the batch deadline had passed.
    Unfinished { reason: String },
}

pub enum StatusView {
    Completed { decision: Seq<char>, recomputed: Option<Seq<char>>, loss: Option<u32> },
    NotEstimable { reason: Seq<char> },
    OperationalFailure { error_kind: Seq<char>, loss: u32 },
    Unfinished { reason: Seq<char> },
}

impl View for CaseExecutionStatus {
    type V = StatusView;

    open spec fn view(&self) -> StatusView {
        match self {
            CaseExecutionStatus::Completed { decision, recomputed, loss } => StatusView::Completed {
                decision: decision@,
                recomputed: optional_text(*recomputed),
                loss: *loss,
            },
            CaseExecutionStatus::NotEstimable { reason } => StatusView::NotEstimable {
                reason: reason@,
            },
            CaseExecutionStatus::OperationalFailure { error_kind, loss } =>
                StatusView::OperationalFailure { error_kind: error_kind@, loss: *loss },
            CaseExecutionStatus::Unfinished { reason } => StatusView::Unfinished { reason: reason@ },
        }
    }
}

/// Execution report of one case.
#[derive(Clone, Debug)]
pub struct BatchCaseReport {
    pub case_id: String,
    pub family_id: Option<String>,
    pub status: CaseExecutionStatus,
    pub elapsed_ms: u64,
}

pub struct CaseReportView {
    pub case_id: Seq<char>,
    pub family_id: Option<Seq<char>>,
    pub status: StatusView,
    pub elapsed_ms: nat,
}

impl View for BatchCaseReport {
    type V = CaseReportView;

    open spec fn view(&self) -> CaseReportView {
        CaseReportView {
            case_id: self.case_id@,
            family_id: optional_text(self.family_id),
            status: self.status@,
            elapsed_ms: self.elapsed_ms as nat,
        }
    }
}

pub open spec fn report_views(cases: Seq<BatchCaseReport>) -> Seq<CaseReportView> {
    cases.map_values(|c: BatchCaseReport| c@)
}

/// How much of a requested batch was completed.
#[derive(Clone, Copy, Debug, PartialEq, Eq, Structural)]
pub struct CompletenessReport {
    pub cases_requested: usize,
    pub cases_completed: usize,
    pub stages_required: usize,
    pub stages_completed: usize,
    pub evidence_compatible: bool,
}

/// HTTP attempts and token usage of a batch.
#[derive(Clone, Copy, Debug, PartialEq, Eq, Structural)]
pub struct BatchAccounting {
    pub requests: usize,
    pub http_attempts: usize,
    pub unknown_usage_attempts: usize,
    pub input_tokens: u64,
    pub output_tokens: u64,
}

/// Loss totals of a batch.
#[derive(Clone, Copy, Debug, PartialEq, Eq, Structural)]
pub struct BatchLossSummary {
    pub attempted_cases: usize,
    pub total_loss: u32,
    pub not_estimable_cases: usize,
    pub unfinished_cases: usize,
    pub operational_failures: usize,
}

/// Error envelope of a partial batch.
#[derive(Clone, Debug)]
pub struct ReportError {
    pub code: u8,
    pub kind: String,
    pub message: String,
    pub hint: String,
    pub retryable: bool,
}

impl ReportError {
    /// The error of a batch whose runtime deadline passed.
    pub open spec fn is_deadline(self) -> bool {
        &&& self.code == 6
        &&& self.kind@ == "deadline-expired"@
        &&& self.message@ == "Evaluation batch exceeded max-runtime-ms deadline"@
        &&& self.hint@ == "Increase --max-runtime-ms or reduce dataset size"@
        &&& !self.retryable
    }
}

#[derive(Clone, Copy, Debug, PartialEq, Eq, Structural)]
pub enum RunStatus {
    Complete,
    Partial,
}

#[derive(Clone, Copy, Debug, PartialEq, Eq, Structural)]
pub enum GateStatus {
    Passed,
    Failed,
    NotApplicable,
    NotEstablished,
}

/// The report of an evaluation batch.
#[derive(Clone, Debug)]
pub struct EvaluationBatchReport {
    pub kind: String,
    pub actionable: bool,
    pub run_status: RunStatus,
    pub gate_status: GateStatus,
    pub evidence_origin: String,
    pub completeness: CompletenessReport,
    pub loss_summary: BatchLossSummary,
    pub accounting: BatchAccounting,
    pub cases: Vec<BatchCaseReport>,
    pub error: Option<ReportError>,
}

/// What a replay of one case led to.
#[derive(Clone, Debug)]
pub struct ReplayOutcome {
    pub complete: bool,
    pub recomputed_decision: Option<String>,
    pub explanation: Option<String>,
}

/// What was seen of one case: the clock before it, after its replay and at
/// its report, and what its replay led to.
#[derive(Debug)]
pub struct CaseObservation {
    pub started_ms: u64,
    pub replayed_ms: u64,
    pub reported_ms: u64,
    pub outcome: Result<ReplayOutcome, String>,
}

/// The sum, or the largest number where it is larger.
pub open spec fn saturating_sum(a: u64, b: u64) -> u64 {
    if a + b > u64::MAX {
        u64::MAX
    } else {
        (a + b) as u64
    }
}

fn add_saturating(a: u64, b: u64) -> (sum: u64)
    ensures
        sum == saturating_sum(a, b),
{
    if b > u64::MAX - a {
        u64::MAX
    } else {
        a + b
    }
}

/// When the work on a case that started at `started` is late.
pub open spec fn case_deadline(config: BatchConfig, started: u64, expires: u64) -> u64 {
    match config.per_case_timeout_ms {
        Some(ms) => if saturating_sum(started, ms) < expires {
            saturating_sum(started, ms)
        } else {
            expires
        },
        None => expires,
    }
}

/// The status of one case.
pub open spec fn case_status(
    case: ReplayCase,
    config: BatchConfig,
    expires: u64,
    seen: CaseObservation,
) -> StatusView {
    if seen.started_ms >= expires {
        StatusView::Unfinished { reason: "batch runtime deadline expired"@ }
    } else if case.stages(config) > 0 && case.wide is None {
        StatusView::NotEstimable { reason: "missing wide recorded response"@ }
    } else if seen.replayed_ms >= case_deadline(config, seen.started_ms, expires) {
        StatusView::OperationalFailure { error_kind: "deadline-expired"@, loss: 2 }
    } else {
        match seen.outcome {
            Ok(outcome) => if outcome.complete && outcome.recomputed_decision is Some {
                StatusView::Completed {
                    decision: outcome.recomputed_decision->0@,
                    recomputed: optional_text(outcome.explanation),
                    loss: None,
                }
            } else {
                StatusView::NotEstimable {
                    reason: match outcome.explanation {
                        Some(text) => text@,
                        None => "recorded evidence is incomplete"@,
                    },
                }
            },
            Err(reason) => StatusView::NotEstimable { reason: reason@ },
        }
    }
}

/// The required stages of a case whose recorded answers were replayed in time.
pub open spec fn stage_credit(
    case: ReplayCase,
    config: BatchConfig,
    expires: u64,
    seen: CaseObservation,
) -> nat {
    let required = case.stages(config);
    if seen.started_ms >= expires || (required > 0 && case.wide is None) || seen.replayed_ms
        >= case_deadline(config, seen.started_ms, expires) {
        0
    } else {
        (if required >= 1 && case.wide is Some {
            1nat
        } else {
            0nat
        }) + (if required >= 2 && case.has_rerank {
            1nat
        } else {
            0nat
        })
    }
}

pub open spec fn case_report(
    case: ReplayCase,
    config: BatchConfig,
    expires: u64,
    seen: CaseObservation,
) -> CaseReportView {
    CaseReportView {
        case_id: case.case_id@,
        family_id: None,
        status: case_status(case, config, expires, seen),
        elapsed_ms: if seen.reported_ms > seen.started_ms {
            (seen.reported_ms - seen.started_ms) as nat
        } else {
            0
        },
    }
}

/// The totals over the first `n` cases.
pub struct Tally {
    pub completed: nat,
    pub not_estimable: nat,
    pub unfinished: nat,
    pub failed: nat,
    pub stages_required: nat,
    pub stages_completed: nat,
}

impl Tally {
    pub open spec fn zero() -> Tally {
        Tally {
            completed: 0,
            not_estimable: 0,
            unfinished: 0,
            failed: 0,
            stages_required: 0,
            stages_completed: 0,
        }
    }

    pub open spec fn with_status(self, status: StatusView) -> Tally {
        match status {
            StatusView::Completed { .. } => Tally { completed: self.completed + 1, ..self },
            StatusView::NotEstimable { .. } => Tally {
                not_estimable: self.not_estimable + 1,
                ..self
            },
            StatusView::OperationalFailure { .. } => Tally { failed: self.failed + 1, ..self },
            StatusView::Unfinished { .. } => Tally { unfinished: self.unfinished + 1, ..self },
        }
    }
}

pub open spec fn tally(
    cases: Seq<ReplayCase>,
    seen: Seq<CaseObservation>,
    config: BatchConfig,
    expires: u64,
    n: int,
) -> Tally
    decreases n,
{
    if n <= 0 {
        Tally::zero()
    } else {
        let before = tally(cases, seen, config, expires, n - 1);
        let case = cases[n - 1];
        let observed = seen[n - 1];
        let counted = before.with_status(case_status(case, config, expires, observed));
        Tally {
            stages_required: before.stages_required + case.stages(config),
            stages_completed: before.stages_completed + stage_credit(
                case,
                config,
                expires,
                observed,
            ),
            ..counted
        }
    }
}

/// Every case ends in exactly one way, and no more stages are completed than
/// required.
pub proof fn every_case_is_counted_once(
    cases: Seq<ReplayCase>,
    seen: Seq<CaseObservation>,
    config: BatchConfig,
    expires: u64,
    n: int,
)
    requires
        0 <= n <= cases.len(),
    ensures
        ({
            let t = tally(cases, seen, config, expires, n);
            &&& t.completed + t.not_estimable + t.unfinished + t.failed == n
            &&& t.stages_completed <= t.stages_required <= 2 * n
        }),
    decreases n,
{
    if n > 0 {
        every_case_is_counted_once(cases, seen, config, expires, n - 1);
    }
}

/// Is the evidence of a batch synthetic, by its configuration or any case?
pub open spec fn is_synthetic(cases: Seq<ReplayCase>, config: BatchConfig) -> bool {
    config.evidence_origin == EvidenceOrigin::Synthetic || exists|i: int|
        0 <= i < cases.len() && (#[trigger] cases[i]).evidence_origin@ == "synthetic"@
}

fn evaluate_case(case: &ReplayCase, config: &BatchConfig, expires: u64, seen: &CaseObservation) -> (r:
    (BatchCaseReport, usize, usize))
    ensures
        r.0@ == case_report(*case, *config, expires, *seen),
        r.1 == case.stages(*config),
        r.2 == stage_credit(*case, *config, expires, *seen),
{
    let required: usize = required_stages(case, config);
    let mut credit: usize = 0;
    let status: CaseExecutionStatus = if seen.started_ms >= expires {
        CaseExecutionStatus::Unfinished { reason: copy_text("batch runtime deadline expired") }
    } else if required > 0 && case.wide.is_none() {
        CaseExecutionStatus::NotEstimable { reason: copy_text("missing wide recorded response") }
    } else {
        let deadline: u64 = match config.per_case_timeout_ms {
            Some(ms) => {
                let own: u64 = add_saturating(seen.started_ms, ms);
                if own < expires {
                    own
                } else {
                    expires
                }
            },
            None => expires,
        };
        if seen.replayed_ms >= deadline {
            CaseExecutionStatus::OperationalFailure {
                error_kind: copy_text("deadline-expired"),
                loss: 2,
            }
        } else {
            if required >= 1 && case.wide.is_some() {
                credit += 1;
            }
            if required >= 2 && case.has_rerank {
                credit += 1;
            }
            match &seen.outcome {
                Ok(outcome) => match &outcome.recomputed_decision {
                    Some(decision) if outcome.complete => CaseExecutionStatus::Completed {
                        decision: copy_text(decision.as_str()),
                        recomputed: copy_optional(&outcome.explanation),
                        loss: None,
                    },
                    _ => CaseExecutionStatus::NotEstimable {
                        reason: match &outcome.explanation {
                            Some(text) => copy_text(text.as_str()),
                            None => copy_text("recorded evidence is incomplete"),
                        },
                    },
                },
                Err(reason) => CaseExecutionStatus::NotEstimable {
                    reason: copy_text(reason.as_str()),
                },
            }
        }
    };
    let elapsed_ms: u64 = if seen.reported_ms > seen.started_ms {
        seen.reported_ms - seen.started_ms
    } else {
        0
    };
    let report = BatchCaseReport {
        case_id: copy_text(case.case_id.as_str()),
        family_id: None,
        status,
        elapsed_ms,
    };
    (report, required, credit)
}

/// The report of a replayed batch, from what was seen of each case.
pub open spec fn is_batch_report(
    report: EvaluationBatchReport,
    cases: Seq<ReplayCase>,
    seen: Seq<CaseObservation>,
    config: BatchConfig,
    entered_ms: u64,
) -> bool {
    let expires = saturating_sum(entered_ms, config.max_runtime_ms);
    let n = cases.len();
    let total = tally(cases, seen, config, expires, n as int);
    let complete = total.completed == n && total.stages_completed == total.stages_required;
    &&& report_views(report.cases@) == Seq::new(
        n,
        |i: int| case_report(cases[i], config, expires, seen[i]),
    )
    &&& report.completeness == (CompletenessReport {
        cases_requested: n as usize,
        cases_completed: total.completed as usize,
        stages_required: total.stages_required as usize,
        stages_completed: total.stages_completed as usize,
        evidence_compatible: total.not_estimable == 0,
    })
    &&& report.loss_summary == (BatchLossSummary {
        attempted_cases: total.failed as usize,
        total_loss: (2 * total.failed) as u32,
        not_estimable_cases: total.not_estimable as usize,
        unfinished_cases: total.unfinished as usize,
        operational_failures: total.failed as usize,
    })
    &&& report.kind@ == "report"@
    &&& !report.actionable
    &&& report.run_status == (if complete {
        RunStatus::Complete
    } else {
        RunStatus::Partial
    })
    &&& report.gate_status == (if complete && is_synthetic(cases, config) {
        GateStatus::NotApplicable
    } else {
        GateStatus::NotEstablished
    })
    &&& report.evidence_origin@ == (if is_synthetic(cases, config) {
        "synthetic"@
    } else {
        "recorded"@
    })
    &&& report.accounting == (BatchAccounting {
        requests: 0,
        http_attempts: 0,
        unknown_usage_attempts: 0,
        input_tokens: 0,
        output_tokens: 0,
    })
    &&& report.error is Some <==> total.unfinished > 0
    &&& report.error is Some ==> report.error->0.is_deadline()
}

/// Recompute recorded cases, given what was seen of each, and report on them.
/// `entered_ms` is the clock when the batch began. Independent judgments are no
/// part of a replay: quality loss stays unknown, and no gate is passed. The
/// report is a draft until the output contract was held against it.
pub fn draft_batch_report(
    cases: &Vec<ReplayCase>,
    seen: &Vec<CaseObservation>,
    config: &BatchConfig,
    entered_ms: u64,
) -> (r: Result<EvaluationBatchReport, EvaluationError>)
    requires
        seen@.len() == cases@.len(),
        2 * cases@.len() <= u32::MAX,
    ensures
        match r {
            Err(error) => config.complaint() is Some && error@ == EvaluationErrorView::InvalidField(
                config.complaint()->0,
            ),
            Ok(report) => config.complaint() is None && is_batch_report(
                report,
                cases@,
                seen@,
                *config,
                entered_ms,
            ),
        },
{
    match validate_batch_config(config) {
        Ok(_) => {},
        Err(error) => {
            return Err(error);
        },
    }
    let expires: u64 = add_saturating(entered_ms, config.max_runtime_ms);
    let n: usize = cases.len();
    let mut synthetic: bool = config.evidence_origin == EvidenceOrigin::Synthetic;
    let mut reports: Vec<BatchCaseReport> = Vec::new();
    let mut completed: usize = 0;
    let mut not_estimable: usize = 0;
    let mut unfinished: usize = 0;
    let mut failed: usize = 0;
    let mut stages_required: usize = 0;
    let mut stages_completed: usize = 0;
    let mut i: usize = 0;
    while i < n
        invariant
            i <= n,
            n == cases@.len(),
            n == seen@.len(),
            2 * n <= u32::MAX,
            reports@.len() == i,
            forall|j: int|
                0 <= j < i ==> (#[trigger] reports@[j])@ == case_report(
                    cases@[j],
                    *config,
                    expires,
                    seen@[j],
                ),
            synthetic == (config.evidence_origin == EvidenceOrigin::Synthetic || exists|j: int|
                0 <= j < i && (#[trigger] cases@[j]).evidence_origin@ == "synthetic"@),
            tally(cases@, seen@, *config, expires, i as int) == (Tally {
                completed: completed as nat,
                not_estimable: not_estimable as nat,
                unfinished: unfinished as nat,
                failed: failed as nat,
                stages_required: stages_required as nat,
                stages_completed: stages_completed as nat,
            }),
        decreases n - i,
    {
        proof {
            every_case_is_counted_once(cases@, seen@, *config, expires, i as int);
            every_case_is_counted_once(cases@, seen@, *config, expires, i as int + 1);
        }
        let case: &ReplayCase = &cases[i];
        if same_text(case.evidence_origin.as_str(), "synthetic") {
            synthetic = true;
        }
        let (report, required, credit): (BatchCaseReport, usize, usize) = evaluate_case(
            case,
            config,
            expires,
            &seen[i],
        );
        match &report.status {
            CaseExecutionStatus::Completed { .. } => {
                completed += 1;
            },
            CaseExecutionStatus::NotEstimable { .. } => {
                not_estimable += 1;
            },
            CaseExecutionStatus::OperationalFailure { .. } => {
                failed += 1;
            },
            CaseExecutionStatus::Unfinished { .. } => {
                unfinished += 1;
            },
        }
        stages_required += required;
        stages_completed += credit;
        reports.push(report);
        i += 1;
    }
    proof {
        every_case_is_counted_once(cases@, seen@, *config, expires, n as int);
    }
    assert(report_views(reports@) =~= Seq::new(
        n as nat,
        |i: int| case_report(cases@[i], *config, expires, seen@[i]),
    ));
    let complete: bool = completed == n && stages_completed == stages_required;
    let error: Option<ReportError> = if unfinished > 0 {
        Some(
            ReportError {
                code: 6,
                kind: copy_text("deadline-expired"),
                message: copy_text("Evaluation batch exceeded max-runtime-ms deadline"),
                hint: copy_text("Increase --max-runtime-ms or reduce dataset size"),
                retryable: false,
            },
        )
    } else {
        None
    };
    let total_loss: u32 = 2 * (failed as u32);
    Ok(
        EvaluationBatchReport {
            kind: copy_text("report"),
            actionable: false,
            run_status: if complete {
                RunStatus::Complete
            } else {
                RunStatus::Partial
            },
            gate_status: if synthetic && complete {
                GateStatus::NotApplicable
            } else {
                GateStatus::NotEstablished
            },
            evidence_origin: if synthetic {
                copy_text("synthetic")
            } else {
                copy_text("recorded")
            },
            completeness: CompletenessReport {
                cases_requested: n,
                cases_completed: completed,
                stages_required,
                stages_completed,
                evidence_compatible: not_estimable == 0,
            },
            loss_summary: BatchLossSummary {
                attempted_cases: failed,
                total_loss,
                not_estimable_cases: not_estimable,
                unfinished_cases: unfinished,
                operational_failures: failed,
            },
            accounting: BatchAccounting {
                requests: 0,
                http_attempts: 0,
                unknown_usage_attempts: 0,
                input_tokens: 0,
                output_tokens: 0,
            },
            cases: reports,
            error,
        },
    )
}

/// Replay a batch and report on it, given how its report violates the output
/// contract, if it does. A configuration that cannot be used is refused first.
pub fn execute_evaluation_batch(
    cases: &Vec<ReplayCase>,
    seen: &Vec<CaseObservation>,
    config: &BatchConfig,
    entered_ms: u64,
    violation: Option<String>,
) -> (r: Result<EvaluationBatchReport, EvaluationError>)
    requires
        seen@.len() == cases@.len(),
        2 * cases@.len() <= u32::MAX,
    ensures
        match r {
            Ok(report) => config.complaint() is None && violation is None && is_batch_report(
                report,
                cases@,
                seen@,
                *config,
                entered_ms,
            ),
            Err(error) => match config.complaint() {
                Some(reason) => error@ == EvaluationErrorView::InvalidField(reason),
                None => violation is Some && error@ == contract_error(false, violation->0@),
            },
        },
{
    match draft_batch_report(cases, seen, config, entered_ms) {
        Ok(report) => checked_report(report, false, violation),
        Err(error) => Err(error),
    }
}

/// A requested stratified sample of a labeled frame's task families.
#[derive(Clone, Copy, Debug, PartialEq, Eq, Structural)]
pub struct FrameSampling {
    /// Families to select, capped by the frame's family count.
    pub sample_size: usize,
    /// A supplied seed reproduces a selection for diagnosis; it is no
    /// probability-sampling evidence.
    pub seed: Option<u64>,
}

/// The split and policy of a case of a labeled frame.
#[derive(Clone, Debug)]
pub struct FrameKey {
    pub split: String,
    pub policy_id: String,
}

/// All cases of the frame agree with the first in split and policy.
pub open spec fn is_uniform(keys: Seq<FrameKey>) -> bool {
    keys.len() > 0 && forall|i: int|
        0 <= i < keys.len() ==> (#[trigger] keys[i]).split@ == keys[0].split@ && keys[i].policy_id@
            == keys[0].policy_id@
}

/// The split and policy that a sample is drawn from: a frame is sampled only
/// where it has one of each.
pub fn sampled_scope(keys: &Vec<FrameKey>, request: FrameSampling) -> (r: Result<
    (String, String),
    EvaluationError,
>)
    ensures
        match r {
            Ok((split, policy)) => request.sample_size > 0 && is_uniform(keys@) && split@
                == keys@[0].split@ && policy@ == keys@[0].policy_id@,
            Err(error) => error@ == EvaluationErrorView::SamplingFailure(
                if request.sample_size == 0 {
                    "sample size must be positive"@
                } else {
                    "sampling needs a non-empty frame with exactly one split and one policy"@
                },
            ) && (request.sample_size == 0 || !is_uniform(keys@)),
        },
{
    if request.sample_size == 0 {
        return Err(EvaluationError::SamplingFailure(copy_text("sample size must be positive")));
    }
    let mut uniform: bool = keys.len() > 0;
    let mut i: usize = 0;
    while i < keys.len() && uniform
        invariant
            i <= keys@.len(),
            uniform ==> keys@.len() > 0 && forall|j: int|
                0 <= j < i ==> (#[trigger] keys@[j]).split@ == keys@[0].split@ && keys@[j].policy_id@
                    == keys@[0].policy_id@,
            !uniform ==> !is_uniform(keys@),
        decreases keys@.len() - i,
    {
        if !same_text(keys[i].split.as_str(), keys[0].split.as_str()) || !same_text(
            keys[i].policy_id.as_str(),
            keys[0].policy_id.as_str(),
        ) {
            uniform = false;
            assert(!(keys@[i as int].split@ == keys@[0].split@ && keys@[i as int].policy_id@
                == keys@[0].policy_id@));
        }
        i += 1;
    }
    if !uniform {
        return Err(
            EvaluationError::SamplingFailure(
                copy_text("sampling needs a non-empty frame with exactly one split and one policy"),
            ),
        );
    }
    Ok((copy_text(keys[0].split.as_str()), copy_text(keys[0].policy_id.as_str())))
}

/// The places below `n` whose key is selected, in order.
pub open spec fn selected_below(
    keys: Seq<Seq<char>>,
    selected: Seq<Seq<char>>,
    n: int,
) -> Seq<int>
    decreases n,
{
    if n <= 0 {
        Seq::empty()
    } else if selected.contains(keys[n - 1]) {
        selected_below(keys, selected, n - 1).push(n - 1)
    } else {
        selected_below(keys, selected, n - 1)
    }
}

/// The representatives that a frozen sample selected, by their places.
pub fn selected_representatives(keys: &Vec<String>, selected: &Vec<String>) -> (places: Vec<usize>)
    ensures
        places@.map_values(|p: usize| p as int) == selected_below(
            texts(keys@),
            texts(selected@),
            keys@.len() as int,
        ),
{
    let mut places: Vec<usize> = Vec::new();
    let mut i: usize = 0;
    assert(places@.map_values(|p: usize| p as int) =~= Seq::<int>::empty());
    while i < keys.len()
        invariant
            i <= keys@.len(),
            places@.map_values(|p: usize| p as int) == selected_below(
                texts(keys@),
                texts(selected@),
                i as int,
            ),
        decreases keys@.len() - i,
    {
        assert(texts(keys@)[i as int] == keys@[i as int]@);
        if contains_text(selected, keys[i].as_str()) {
            let ghost before = places@.map_values(|p: usize| p as int);
            places.push(i);
            assert(places@.map_values(|p: usize| p as int) =~= before.push(i as int));
        }
        i += 1;
    }
    places
}

/// How a case's independent label stands.
#[derive(Clone, Copy, Debug, PartialEq, Eq, Structural)]
pub enum LabelStatus {
    Resolved,
    NullKey,
    Unjudged,
}

/// A case of a labeled frame joined with its label. The loss is what the
/// evaluation policy assigns: nothing for explicit and unjudged cases.
#[derive(Clone, Debug)]
pub struct JudgedCase {
    pub case_id: String,
    pub family_id: String,
    pub decision: String,
    pub label: LabelStatus,
    pub operational_failure: bool,
    pub loss: Option<u32>,
}

/// The largest loss of one case.
pub const MAX_CASE_LOSS: u32 = 2;

impl JudgedCase {
    pub open spec fn is_judged(self) -> bool {
        self.label == LabelStatus::Resolved
    }

    pub open spec fn is_scored(self) -> bool {
        self.is_judged() || self.loss is Some
    }

    pub open spec fn status(self) -> StatusView {
        if self.operational_failure && self.loss is Some {
            StatusView::OperationalFailure {
                error_kind: "operational-failure"@,
                loss: self.loss->0,
            }
        } else if !self.is_judged() {
            StatusView::NotEstimable {
                reason: if self.label == LabelStatus::NullKey {
                    "case key is incomplete"@
                } else {
                    "no independent judgment for this case"@
                },
            }
        } else {
            StatusView::Completed { decision: self.decision@, recomputed: None, loss: self.loss }
        }
    }

    pub open spec fn report(self) -> CaseReportView {
        CaseReportView {
            case_id: self.case_id@,
            family_id: Some(self.family_id@),
            status: self.status(),
            elapsed_ms: 0,
        }
    }
}

/// The totals over the first `n` judged cases.
pub struct FrameTally {
    pub scored: nat,
    pub attempted: nat,
    pub total_loss: nat,
    pub not_estimable: nat,
    pub failed: nat,
}

pub open spec fn frame_tally(cases: Seq<JudgedCase>, n: int) -> FrameTally
    decreases n,
{
    if n <= 0 {
        FrameTally { scored: 0, attempted: 0, total_loss: 0, not_estimable: 0, failed: 0 }
    } else {
        let before = frame_tally(cases, n - 1);
        let case = cases[n - 1];
        FrameTally {
            scored: before.scored + if case.is_scored() {
                1nat
            } else {
                0nat
            },
            attempted: before.attempted + if case.loss is Some {
                1nat
            } else {
                0nat
            },
            total_loss: before.total_loss + if case.loss is Some {
                case.loss->0 as nat
            } else {
                0nat
            },
            not_estimable: before.not_estimable + if case.status() is NotEstimable {
                1nat
            } else {
                0nat
            },
            failed: before.failed + if case.status() is OperationalFailure {
                1nat
            } else {
                0nat
            },
        }
    }
}

/// No total exceeds what its cases can contribute.
pub proof fn frame_totals_are_bounded(cases: Seq<JudgedCase>, n: int)
    requires
        0 <= n <= cases.len(),
        forall|i: int|
            0 <= i < cases.len() && (#[trigger] cases[i]).loss is Some ==> cases[i].loss->0
                <= MAX_CASE_LOSS,
    ensures
        ({
            let t = frame_tally(cases, n);
            &&& t.attempted <= t.scored <= n
            &&& t.total_loss <= MAX_CASE_LOSS * t.attempted
            &&& t.failed <= t.attempted
            &&& t.not_estimable <= n
        }),
    decreases n,
{
    if n > 0 {
        frame_totals_are_bounded(cases, n - 1);
        assert(cases[n - 1].loss is Some ==> cases[n - 1].loss->0 <= MAX_CASE_LOSS);
    }
}

/// The losses of a frame are within their bounds.
pub open spec fn losses_fit(cases: Seq<JudgedCase>) -> bool {
    &&& 2 * cases.len() <= u32::MAX
    &&& forall|i: int|
        0 <= i < cases.len() && (#[trigger] cases[i]).loss is Some ==> cases[i].loss->0
            <= MAX_CASE_LOSS
}

/// The report of a labeled frame.
pub open spec fn is_frame_report(
    report: EvaluationBatchReport,
    cases: Seq<JudgedCase>,
    reconciled: bool,
) -> bool {
    let n = cases.len();
    let total = frame_tally(cases, n as int);
    &&& report_views(report.cases@) == Seq::new(n, |i: int| cases[i].report())
    &&& report.completeness == (CompletenessReport {
        cases_requested: n as usize,
        cases_completed: total.scored as usize,
        stages_required: 0,
        stages_completed: 0,
        evidence_compatible: reconciled,
    })
    &&& report.loss_summary == (BatchLossSummary {
        attempted_cases: total.attempted as usize,
        total_loss: total.total_loss as u32,
        not_estimable_cases: total.not_estimable as usize,
        unfinished_cases: 0,
        operational_failures: total.failed as usize,
    })
    &&& report.run_status == (if total.scored == n {
        RunStatus::Complete
    } else {
        RunStatus::Partial
    })
    &&& report.gate_status == GateStatus::NotEstablished
    &&& report.evidence_origin@ == "recorded"@
    &&& report.kind@ == "report"@
    &&& !report.actionable
    &&& report.error is None
    &&& report.accounting == (BatchAccounting {
        requests: 0,
        http_attempts: 0,
        unknown_usage_attempts: 0,
        input_tokens: 0,
        output_tokens: 0,
    })
}

/// Score the recorded decisions of a labeled frame against independent
/// judgments, and report on them. Explicit requests and unjudged cases carry no
/// loss, and unjudged cases leave the run partial. The report is evidence for a
/// promotion, not a passed one, and a draft until the output contract was held
/// against it.
pub fn draft_frame_report(cases: &Vec<JudgedCase>, reconciled: bool) -> (report:
    EvaluationBatchReport)
    requires
        losses_fit(cases@),
    ensures
        is_frame_report(report, cases@, reconciled),
{
    let n: usize = cases.len();
    let mut reports: Vec<BatchCaseReport> = Vec::new();
    let mut scored: usize = 0;
    let mut attempted: usize = 0;
    let mut total_loss: u32 = 0;
    let mut not_estimable: usize = 0;
    let mut failed: usize = 0;
    let mut i: usize = 0;
    while i < n
        invariant
            i <= n,
            n == cases@.len(),
            2 * n <= u32::MAX,
            forall|i: int|
                0 <= i < cases@.len() && (#[trigger] cases@[i]).loss is Some ==> cases@[i].loss->0
                    <= MAX_CASE_LOSS,
            reports@.len() == i,
            forall|j: int| 0 <= j < i ==> (#[trigger] reports@[j])@ == cases@[j].report(),
            frame_tally(cases@, i as int) == (FrameTally {
                scored: scored as nat,
                attempted: attempted as nat,
                total_loss: total_loss as nat,
                not_estimable: not_estimable as nat,
                failed: failed as nat,
            }),
        decreases n - i,
    {
        proof {
            frame_totals_are_bounded(cases@, i as int);
            frame_totals_are_bounded(cases@, i as int + 1);
        }
        let case: &JudgedCase = &cases[i];
        assert(cases@[i as int].loss is Some ==> cases@[i as int].loss->0 <= MAX_CASE_LOSS);
        let judged: bool = case.label == LabelStatus::Resolved;
        let status: CaseExecutionStatus = match case.loss {
            Some(loss) if case.operational_failure => {
                failed += 1;
                CaseExecutionStatus::OperationalFailure {
                    error_kind: copy_text("operational-failure"),
                    loss,
                }
            },
            loss => if !judged {
                not_estimable += 1;
                CaseExecutionStatus::NotEstimable {
                    reason: if case.label == LabelStatus::NullKey {
                        copy_text("case key is incomplete")
                    } else {
                        copy_text("no independent judgment for this case")
                    },
                }
            } else {
                CaseExecutionStatus::Completed {
                    decision: copy_text(case.decision.as_str()),
                    recomputed: None,
                    loss,
                }
            },
        };
        if judged || case.loss.is_some() {
            scored += 1;
        }
        match case.loss {
            Some(loss) => {
                attempted += 1;
                total_loss += loss;
            },
            None => {},
        }
        let report = BatchCaseReport {
            case_id: copy_text(case.case_id.as_str()),
            family_id: Some(copy_text(case.family_id.as_str())),
            status,
            elapsed_ms: 0,
        };
        assert(report@ == case.report());
        reports.push(report);
        i += 1;
    }
    proof {
        frame_totals_are_bounded(cases@, n as int);
    }
    assert(report_views(reports@) =~= Seq::new(n as nat, |i: int| cases@[i].report()));
    EvaluationBatchReport {
        kind: copy_text("report"),
        actionable: false,
        run_status: if scored == n {
            RunStatus::Complete
        } else {
            RunStatus::Partial
        },
        gate_status: GateStatus::NotEstablished,
        evidence_origin: copy_text("recorded"),
        completeness: CompletenessReport {
            cases_requested: n,
            cases_completed: scored,
            stages_required: 0,
            stages_completed: 0,
            evidence_compatible: reconciled,
        },
        loss_summary: BatchLossSummary {
            attempted_cases: attempted,
            total_loss,
            not_estimable_cases: not_estimable,
            unfinished_cases: 0,
            operational_failures: failed,
        },
        accounting: BatchAccounting {
            requests: 0,
            http_attempts: 0,
            unknown_usage_attempts: 0,
            input_tokens: 0,
            output_tokens: 0,
        },
        cases: reports,
        error: None,
    }
}

/// How a report that violates the output contract is refused.
pub open spec fn contract_error(labeled: bool, details: Seq<char>) -> EvaluationErrorView {
    EvaluationErrorView::InvalidField(
        (if labeled {
            "evaluation report exceeds or violates output contract: "@
        } else {
            "batch report exceeds or violates output contract: "@
        }) + details,
    )
}

/// A report of a batch, or of labeled frames, where it keeps to the output
/// contract; `violation` tells how it does not.
pub fn checked_report(report: EvaluationBatchReport, labeled: bool, violation: Option<String>) -> (r:
    Result<EvaluationBatchReport, EvaluationError>)
    ensures
        match violation {
            None => r == Ok::<EvaluationBatchReport, EvaluationError>(report),
            Some(details) => r is Err && r->Err_0@ == contract_error(labeled, details@),
        },
{
    match violation {
        None => Ok(report),
        Some(details) => Err(
            EvaluationError::InvalidField(
                join(
                    if labeled {
                        "evaluation report exceeds or violates output contract: "
                    } else {
                        "batch report exceeds or violates output contract: "
                    },
                    details.as_str(),
                ),
            ),
        ),
    }
}

/// Score a labeled frame and report on it, given how its report violates the
/// output contract, if it does.
pub fn execute_labeled_frame_evaluation(
    cases: &Vec<JudgedCase>,
    reconciled: bool,
    violation: Option<String>,
) -> (r: Result<EvaluationBatchReport, EvaluationError>)
    requires
        losses_fit(cases@),
    ensures
        match r {
            Ok(report) => violation is None && is_frame_report(report, cases@, reconciled),
            Err(error) => violation is Some && error@ == contract_error(true, violation->0@),
        },
{
    checked_report(draft_frame_report(cases, reconciled), true, violation)
}

} // verus!
