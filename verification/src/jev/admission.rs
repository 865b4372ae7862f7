//! Invocation-wide provider attempt admission, permits and cost receipts.
//!
//! Every attempt acquires a single-use permit before transmission. An
//! invocation makes a bounded number of logical requests and of HTTP attempts.
//! Returned token counts are accumulated exactly; an attempt that fails after
//! bytes were sent leaves an unknown-usage mark, which is never counted as
//! zero. Rerank is admitted only after the wide stage completed.
use crate::identity::{has_control, is_control, MAX_ID_BYTES};
use crate::jev::endpoint::{CanonicalOrigin, OriginView};
use crate::output::ErrorKind;
use crate::text::{
    byte_len, byte_length, chars_of, contains_text, copy_text, decimal, decimal_text,
    decimals_are_told_apart, is_blank, join, string_of, texts, trim, trimmed,
};
use vstd::prelude::*;
use vstd::string::*;

verus! {

/// Minimum time before the cleanup reserve that admits a provider attempt.
pub const DEFAULT_MIN_ATTEMPT_RESERVE_MS: u64 = 50;

/// Generation of process-local admission before shared coordination.
pub const DEFAULT_GUARD_GENERATION: u64 = 1;

/// Logical requests of one invocation: the wide stage and the rerank stage.
pub const DEFAULT_LOGICAL_REQUESTS: u32 = 2;

/// HTTP attempts of one invocation, retries included.
pub const DEFAULT_HTTP_ATTEMPTS: u32 = 4;

/// Ranking stages.
#[derive(Clone, Copy, Debug, PartialEq, Eq, Structural)]
pub enum RankingStage {
    /// Broad gate over the admitted candidates.
    Wide,
    /// Detailed rerank over the shortlist.
    Rerank,
    /// Health probe of a half-open circuit breaker.
    Probe,
    /// Live evaluation request.
    Evaluation,
}

impl RankingStage {
    pub open spec fn label(self) -> Seq<char> {
        match self {
            RankingStage::Wide => "wide"@,
            RankingStage::Rerank => "rerank"@,
            RankingStage::Probe => "probe"@,
            RankingStage::Evaluation => "evaluation"@,
        }
    }

    pub fn as_str(self) -> (label: &'static str)
        ensures
            label@ == self.label(),
    {
        match self {
            RankingStage::Wide => "wide",
            RankingStage::Rerank => "rerank",
            RankingStage::Probe => "probe",
            RankingStage::Evaluation => "evaluation",
        }
    }

    pub fn is_wide(self) -> (r: bool)
        ensures
            r == (self == RankingStage::Wide),
    {
        self == RankingStage::Wide
    }

    pub fn is_rerank(self) -> (r: bool)
        ensures
            r == (self == RankingStage::Rerank),
    {
        self == RankingStage::Rerank
    }
}

/// A limit that cannot be used.
#[derive(Clone, Debug)]
pub enum BudgetError {
    /// Zero does not mean unlimited.
    ZeroIsNotUnlimited { name: &'static str },
    AttemptsBelowLogicalRequests { logical_requests: u32, http_attempts: u32 },
}

/// What went wrong while a permit was used or a receipt kept.
#[derive(Clone, Debug)]
pub enum AdmissionError {
    PermitAlreadyConsumed,
    AttemptNotActive,
    InvalidAttemptId(String),
    InvalidBudget(BudgetError),
}

impl AdmissionError {
    pub open spec fn is_invalid_id(self, reason: Seq<char>) -> bool {
        self is InvalidAttemptId && self->InvalidAttemptId_0@ == reason
    }

    /// The text of every error that is not a limit's own.
    pub open spec fn text(self) -> Option<Seq<char>> {
        match self {
            AdmissionError::PermitAlreadyConsumed => Some("attempt permit was already consumed"@),
            AdmissionError::AttemptNotActive => Some(
                "attempt was not found or is no longer in-flight"@,
            ),
            AdmissionError::InvalidAttemptId(reason) => Some("invalid attempt ID: "@ + reason@),
            AdmissionError::InvalidBudget(_) => None,
        }
    }

    pub fn message(&self) -> (text: Option<String>)
        ensures
            match text {
                Some(t) => self.text() == Some(t@),
                None => self.text() is None,
            },
    {
        match self {
            AdmissionError::PermitAlreadyConsumed => Some(
                copy_text("attempt permit was already consumed"),
            ),
            AdmissionError::AttemptNotActive => Some(
                copy_text("attempt was not found or is no longer in-flight"),
            ),
            AdmissionError::InvalidAttemptId(reason) => Some(
                join("invalid attempt ID: ", reason.as_str()),
            ),
            AdmissionError::InvalidBudget(_) => None,
        }
    }
}

/// Identifier of an admitted HTTP attempt.
#[derive(Clone, Debug)]
pub struct AttemptId {
    text: String,
}

impl View for AttemptId {
    type V = Seq<char>;

    closed spec fn view(&self) -> Seq<char> {
        self.text@
    }
}

/// The attempt identifier of a place in an invocation's sequence.
pub open spec fn sequential_id(invocation: Seq<char>, sequence: nat) -> Seq<char> {
    invocation + "-att-"@ + decimal(sequence)
}

impl AttemptId {
    /// A validated attempt identifier: trimmed, neither empty nor too long,
    /// and without control characters.
    pub fn parse(value: &str) -> (r: Result<AttemptId, AdmissionError>)
        ensures
            ({
                let id = trim(value@);
                if id.len() == 0 {
                    r is Err && r->Err_0.is_invalid_id("attempt ID cannot be empty"@)
                } else if byte_length(id) > MAX_ID_BYTES {
                    r is Err && r->Err_0.is_invalid_id("attempt ID exceeds maximum byte limit"@)
                } else if exists|i: int| 0 <= i < id.len() && is_control(#[trigger] id[i]) {
                    r is Err && r->Err_0.is_invalid_id(
                        "attempt ID cannot contain control characters"@,
                    )
                } else {
                    r is Ok && r->Ok_0@ == id
                }
            }),
    {
        let chars: Vec<char> = chars_of(value);
        let text: String = string_of(trimmed(chars.as_slice()));
        if text.as_str().is_empty() {
            return Err(AdmissionError::InvalidAttemptId(copy_text("attempt ID cannot be empty")));
        }
        if byte_len(text.as_str()) > MAX_ID_BYTES {
            return Err(
                AdmissionError::InvalidAttemptId(copy_text("attempt ID exceeds maximum byte limit")),
            );
        }
        if has_control(text.as_str()) {
            return Err(
                AdmissionError::InvalidAttemptId(
                    copy_text("attempt ID cannot contain control characters"),
                ),
            );
        }
        Ok(AttemptId { text })
    }

    /// The attempt identifier of a place in an invocation's sequence.
    pub fn new_sequential(invocation_id: &str, sequence: u32) -> (id: AttemptId)
        ensures
            id@ == sequential_id(invocation_id@, sequence as nat),
    {
        let number: String = decimal_text(sequence as u64);
        AttemptId { text: join(invocation_id, "-att-").concat(number.as_str()) }
    }

    pub fn as_str(&self) -> (text: &str)
        ensures
            text@ == self@,
    {
        self.text.as_str()
    }

    fn copied(&self) -> (copy: AttemptId)
        ensures
            copy@ == self@,
    {
        AttemptId { text: copy_text(self.text.as_str()) }
    }
}

/// Invocation-wide attempt limits.
#[derive(Clone, Copy, Debug, PartialEq, Eq, Structural)]
pub struct AttemptBudget {
    pub max_logical_requests: u32,
    pub max_http_attempts: u32,
    pub min_attempt_reserve_ms: u64,
}

impl AttemptBudget {
    /// A validated budget: both limits positive, and no fewer attempts than
    /// logical requests.
    pub fn new(max_logical_requests: u32, max_http_attempts: u32) -> (r: Result<
        AttemptBudget,
        AdmissionError,
    >)
        ensures
            match r {
                Ok(budget) => 0 < max_logical_requests <= max_http_attempts && budget == (
                AttemptBudget {
                    max_logical_requests,
                    max_http_attempts,
                    min_attempt_reserve_ms: DEFAULT_MIN_ATTEMPT_RESERVE_MS,
                }),
                Err(error) => error is InvalidBudget && match error->InvalidBudget_0 {
                    BudgetError::ZeroIsNotUnlimited { name } => (max_logical_requests == 0 && name@
                        == "max_logical_requests"@) || (max_logical_requests > 0
                        && max_http_attempts == 0 && name@ == "max_http_attempts"@),
                    BudgetError::AttemptsBelowLogicalRequests { logical_requests, http_attempts } =>
                    0 < max_http_attempts < max_logical_requests && logical_requests
                        == max_logical_requests && http_attempts == max_http_attempts,
                },
            },
    {
        if max_logical_requests == 0 {
            return Err(
                AdmissionError::InvalidBudget(
                    BudgetError::ZeroIsNotUnlimited { name: "max_logical_requests" },
                ),
            );
        }
        if max_http_attempts == 0 {
            return Err(
                AdmissionError::InvalidBudget(
                    BudgetError::ZeroIsNotUnlimited { name: "max_http_attempts" },
                ),
            );
        }
        if max_http_attempts < max_logical_requests {
            return Err(
                AdmissionError::InvalidBudget(
                    BudgetError::AttemptsBelowLogicalRequests {
                        logical_requests: max_logical_requests,
                        http_attempts: max_http_attempts,
                    },
                ),
            );
        }
        Ok(
            AttemptBudget {
                max_logical_requests,
                max_http_attempts,
                min_attempt_reserve_ms: DEFAULT_MIN_ATTEMPT_RESERVE_MS,
            },
        )
    }

    pub open spec fn default_spec() -> AttemptBudget {
        AttemptBudget {
            max_logical_requests: DEFAULT_LOGICAL_REQUESTS,
            max_http_attempts: DEFAULT_HTTP_ATTEMPTS,
            min_attempt_reserve_ms: DEFAULT_MIN_ATTEMPT_RESERVE_MS,
        }
    }

    pub fn default_invocation() -> (budget: AttemptBudget)
        ensures
            budget == AttemptBudget::default_spec(),
    {
        AttemptBudget {
            max_logical_requests: DEFAULT_LOGICAL_REQUESTS,
            max_http_attempts: DEFAULT_HTTP_ATTEMPTS,
            min_attempt_reserve_ms: DEFAULT_MIN_ATTEMPT_RESERVE_MS,
        }
    }

    /// The budget with another time margin before the cleanup reserve.
    pub fn with_min_reserve_ms(self, ms: u64) -> (budget: AttemptBudget)
        ensures
            budget == (AttemptBudget { min_attempt_reserve_ms: ms, ..self }),
    {
        AttemptBudget {
            max_logical_requests: self.max_logical_requests,
            max_http_attempts: self.max_http_attempts,
            min_attempt_reserve_ms: ms,
        }
    }

    pub fn max_logical_requests(&self) -> (n: u32)
        ensures
            n == self.max_logical_requests,
    {
        self.max_logical_requests
    }

    pub fn max_http_attempts(&self) -> (n: u32)
        ensures
            n == self.max_http_attempts,
    {
        self.max_http_attempts
    }

    pub fn min_attempt_reserve_ms(&self) -> (ms: u64)
        ensures
            ms == self.min_attempt_reserve_ms,
    {
        self.min_attempt_reserve_ms
    }
}

impl Default for AttemptBudget {
    fn default() -> (budget: AttemptBudget)
        ensures
            budget == AttemptBudget::default_spec(),
    {
        AttemptBudget::default_invocation()
    }
}

/// Why an attempt was not admitted: an operational refusal, not an abstention.
#[derive(Clone, Debug)]
pub enum AdmissionRefusal {
    AttemptsExhausted { attempts_used: u32, limit: u32 },
    LogicalRequestsExhausted { logical_used: u32, limit: u32 },
    InsufficientDeadline { remaining_ms: u64, required_ms: u64 },
    StageOrderingViolation { stage: RankingStage, reason: &'static str },
    ProviderCooldown { cooldown_ms: u64 },
    BudgetStateUnavailable,
    DuplicateAttemptId { attempt_id: String },
}

pub enum RefusalView {
    AttemptsExhausted { attempts_used: u32, limit: u32 },
    LogicalRequestsExhausted { logical_used: u32, limit: u32 },
    InsufficientDeadline { remaining_ms: u64, required_ms: u64 },
    StageOrderingViolation { stage: RankingStage, reason: Seq<char> },
    ProviderCooldown { cooldown_ms: u64 },
    BudgetStateUnavailable,
    DuplicateAttemptId { attempt_id: Seq<char> },
}

impl View for AdmissionRefusal {
    type V = RefusalView;

    open spec fn view(&self) -> RefusalView {
        match self {
            AdmissionRefusal::AttemptsExhausted { attempts_used, limit } =>
                RefusalView::AttemptsExhausted { attempts_used: *attempts_used, limit: *limit },
            AdmissionRefusal::LogicalRequestsExhausted { logical_used, limit } =>
                RefusalView::LogicalRequestsExhausted {
                    logical_used: *logical_used,
                    limit: *limit,
                },
            AdmissionRefusal::InsufficientDeadline { remaining_ms, required_ms } =>
                RefusalView::InsufficientDeadline {
                    remaining_ms: *remaining_ms,
                    required_ms: *required_ms,
                },
            AdmissionRefusal::StageOrderingViolation { stage, reason } =>
                RefusalView::StageOrderingViolation { stage: *stage, reason: reason@ },
            AdmissionRefusal::ProviderCooldown { cooldown_ms } => RefusalView::ProviderCooldown {
                cooldown_ms: *cooldown_ms,
            },
            AdmissionRefusal::BudgetStateUnavailable => RefusalView::BudgetStateUnavailable,
            AdmissionRefusal::DuplicateAttemptId { attempt_id } =>
                RefusalView::DuplicateAttemptId { attempt_id: attempt_id@ },
        }
    }
}

impl RefusalView {
    pub open spec fn kind(self) -> ErrorKind {
        match self {
            RefusalView::AttemptsExhausted { .. } => ErrorKind::RequestBudget,
            RefusalView::LogicalRequestsExhausted { .. } => ErrorKind::RequestBudget,
            RefusalView::InsufficientDeadline { .. } => ErrorKind::Timeout,
            RefusalView::StageOrderingViolation { .. } => ErrorKind::InvalidUsage,
            RefusalView::DuplicateAttemptId { .. } => ErrorKind::InvalidUsage,
            RefusalView::ProviderCooldown { .. } => ErrorKind::ProviderCooldown,
            RefusalView::BudgetStateUnavailable => ErrorKind::BudgetState,
        }
    }

    pub open spec fn message(self) -> Seq<char> {
        match self {
            RefusalView::AttemptsExhausted { attempts_used, limit } =>
                "HTTP attempt budget exhausted ("@ + decimal(attempts_used as nat) + "/"@ + decimal(
                limit as nat,
            ) + " attempts used)"@,
            RefusalView::LogicalRequestsExhausted { logical_used, limit } =>
                "logical requests budget exhausted ("@ + decimal(logical_used as nat) + "/"@
                + decimal(limit as nat) + " requests used)"@,
            RefusalView::InsufficientDeadline { remaining_ms, required_ms } =>
                "insufficient deadline to admit provider attempt ("@ + decimal(remaining_ms as nat)
                + "ms remaining, "@ + decimal(required_ms as nat) + "ms required)"@,
            RefusalView::StageOrderingViolation { stage, reason } =>
                "stage ordering violation for "@ + stage.label() + ": "@ + reason,
            RefusalView::ProviderCooldown { cooldown_ms } =>
                "provider circuit breaker active; in cooldown for "@ + decimal(cooldown_ms as nat)
                + "ms"@,
            RefusalView::BudgetStateUnavailable =>
                "budget accounting state is unavailable or corrupt"@,
            RefusalView::DuplicateAttemptId { attempt_id } => "duplicate attempt ID rejected: "@
                + attempt_id,
        }
    }
}

impl AdmissionRefusal {
    pub fn error_kind(&self) -> (kind: ErrorKind)
        ensures
            kind == self@.kind(),
    {
        match self {
            AdmissionRefusal::AttemptsExhausted { .. } => ErrorKind::RequestBudget,
            AdmissionRefusal::LogicalRequestsExhausted { .. } => ErrorKind::RequestBudget,
            AdmissionRefusal::InsufficientDeadline { .. } => ErrorKind::Timeout,
            AdmissionRefusal::StageOrderingViolation { .. } => ErrorKind::InvalidUsage,
            AdmissionRefusal::DuplicateAttemptId { .. } => ErrorKind::InvalidUsage,
            AdmissionRefusal::ProviderCooldown { .. } => ErrorKind::ProviderCooldown,
            AdmissionRefusal::BudgetStateUnavailable => ErrorKind::BudgetState,
        }
    }

    /// The exit code: the provider is unavailable, except where the caller
    /// misused the admission or ran out of time.
    pub fn exit_code(&self) -> (code: u8)
        ensures
            code == (match self@.kind() {
                ErrorKind::Timeout => 6u8,
                ErrorKind::InvalidUsage => 2u8,
                _ => 4u8,
            }),
    {
        match self.error_kind() {
            ErrorKind::Timeout => 6,
            ErrorKind::InvalidUsage => 2,
            _ => 4,
        }
    }

    pub fn message(&self) -> (text: String)
        ensures
            text@ == self@.message(),
    {
        match self {
            AdmissionRefusal::AttemptsExhausted { attempts_used, limit } => {
                let used: String = decimal_text(*attempts_used as u64);
                let cap: String = decimal_text(*limit as u64);
                join("HTTP attempt budget exhausted (", used.as_str()).concat("/").concat(
                    cap.as_str(),
                ).concat(" attempts used)")
            },
            AdmissionRefusal::LogicalRequestsExhausted { logical_used, limit } => {
                let used: String = decimal_text(*logical_used as u64);
                let cap: String = decimal_text(*limit as u64);
                join("logical requests budget exhausted (", used.as_str()).concat("/").concat(
                    cap.as_str(),
                ).concat(" requests used)")
            },
            AdmissionRefusal::InsufficientDeadline { remaining_ms, required_ms } => {
                let remaining: String = decimal_text(*remaining_ms);
                let required: String = decimal_text(*required_ms);
                join(
                    "insufficient deadline to admit provider attempt (",
                    remaining.as_str(),
                ).concat("ms remaining, ").concat(required.as_str()).concat("ms required)")
            },
            AdmissionRefusal::StageOrderingViolation { stage, reason } => join(
                "stage ordering violation for ",
                stage.as_str(),
            ).concat(": ").concat(reason),
            AdmissionRefusal::ProviderCooldown { cooldown_ms } => {
                let ms: String = decimal_text(*cooldown_ms);
                join("provider circuit breaker active; in cooldown for ", ms.as_str()).concat("ms")
            },
            AdmissionRefusal::BudgetStateUnavailable => copy_text(
                "budget accounting state is unavailable or corrupt",
            ),
            AdmissionRefusal::DuplicateAttemptId { attempt_id } => join(
                "duplicate attempt ID rejected: ",
                attempt_id.as_str(),
            ),
        }
    }
}

/// Authorization to make one HTTP attempt. It is consumed by being sent or
/// discarded.
#[derive(Debug)]
pub struct AttemptPermit {
    attempt_id: AttemptId,
    stage: RankingStage,
    endpoint: CanonicalOrigin,
    guard_generation: u64,
    admitted_at_ms: u64,
    deadline_remaining_ms: u64,
    consumed: bool,
}

/// What a permit binds.
pub struct PermitView {
    pub attempt_id: Seq<char>,
    pub stage: RankingStage,
    pub endpoint: OriginView,
    pub guard_generation: u64,
    pub admitted_at_ms: u64,
    pub deadline_remaining_ms: u64,
    pub consumed: bool,
}

impl View for AttemptPermit {
    type V = PermitView;

    closed spec fn view(&self) -> PermitView {
        PermitView {
            attempt_id: self.attempt_id@,
            stage: self.stage,
            endpoint: self.endpoint@,
            guard_generation: self.guard_generation,
            admitted_at_ms: self.admitted_at_ms,
            deadline_remaining_ms: self.deadline_remaining_ms,
            consumed: self.consumed,
        }
    }
}

impl AttemptPermit {
    pub fn attempt_id(&self) -> (id: &AttemptId)
        ensures
            id@ == self@.attempt_id,
    {
        &self.attempt_id
    }

    pub fn stage(&self) -> (stage: RankingStage)
        ensures
            stage == self@.stage,
    {
        self.stage
    }

    pub fn endpoint(&self) -> (endpoint: &CanonicalOrigin)
        ensures
            endpoint@ == self@.endpoint,
    {
        &self.endpoint
    }

    pub fn guard_generation(&self) -> (generation: u64)
        ensures
            generation == self@.guard_generation,
    {
        self.guard_generation
    }

    pub fn admitted_at(&self) -> (ms: u64)
        ensures
            ms == self@.admitted_at_ms,
    {
        self.admitted_at_ms
    }

    pub fn deadline_remaining_ms(&self) -> (ms: u64)
        ensures
            ms == self@.deadline_remaining_ms,
    {
        self.deadline_remaining_ms
    }

    pub fn is_consumed(&self) -> (r: bool)
        ensures
            r == self@.consumed,
    {
        self.consumed
    }

    /// The attempt goes across the wire. From here on its failure counts as
    /// unknown usage.
    pub fn mark_sent(self) -> (r: Result<SentAttempt, AdmissionError>)
        ensures
            match r {
                Ok(sent) => !self@.consumed && sent@ == (SentView {
                    attempt_id: self@.attempt_id,
                    stage: self@.stage,
                    sent_at_ms: self@.admitted_at_ms,
                }),
                Err(error) => self@.consumed && error is PermitAlreadyConsumed,
            },
    {
        if self.consumed {
            return Err(AdmissionError::PermitAlreadyConsumed);
        }
        Ok(
            SentAttempt {
                attempt_id: self.attempt_id,
                stage: self.stage,
                sent_at_ms: self.admitted_at_ms,
            },
        )
    }

    /// The attempt is given up before any byte was sent. It keeps its slot but
    /// leaves no unknown usage.
    pub fn discard_before_send(self, reason: &str) -> (discarded: DiscardedAttempt)
        ensures
            discarded@ == (DiscardedView {
                attempt_id: self@.attempt_id,
                stage: self@.stage,
                reason: reason@,
            }),
    {
        DiscardedAttempt {
            attempt_id: self.attempt_id,
            stage: self.stage,
            reason: copy_text(reason),
        }
    }
}

/// An attempt that was sent.
#[derive(Clone, Debug)]
pub struct SentAttempt {
    attempt_id: AttemptId,
    stage: RankingStage,
    sent_at_ms: u64,
}

pub struct SentView {
    pub attempt_id: Seq<char>,
    pub stage: RankingStage,
    pub sent_at_ms: u64,
}

impl View for SentAttempt {
    type V = SentView;

    closed spec fn view(&self) -> SentView {
        SentView {
            attempt_id: self.attempt_id@,
            stage: self.stage,
            sent_at_ms: self.sent_at_ms,
        }
    }
}

impl SentAttempt {
    pub fn attempt_id(&self) -> (id: &AttemptId)
        ensures
            id@ == self@.attempt_id,
    {
        &self.attempt_id
    }

    pub fn stage(&self) -> (stage: RankingStage)
        ensures
            stage == self@.stage,
    {
        self.stage
    }

    pub fn sent_at(&self) -> (ms: u64)
        ensures
            ms == self@.sent_at_ms,
    {
        self.sent_at_ms
    }
}

/// An attempt that was admitted but never sent.
#[derive(Clone, Debug)]
pub struct DiscardedAttempt {
    attempt_id: AttemptId,
    stage: RankingStage,
    reason: String,
}

pub struct DiscardedView {
    pub attempt_id: Seq<char>,
    pub stage: RankingStage,
    pub reason: Seq<char>,
}

impl View for DiscardedAttempt {
    type V = DiscardedView;

    closed spec fn view(&self) -> DiscardedView {
        DiscardedView {
            attempt_id: self.attempt_id@,
            stage: self.stage,
            reason: self.reason@,
        }
    }
}

impl DiscardedAttempt {
    pub fn attempt_id(&self) -> (id: &AttemptId)
        ensures
            id@ == self@.attempt_id,
    {
        &self.attempt_id
    }

    pub fn stage(&self) -> (stage: RankingStage)
        ensures
            stage == self@.stage,
    {
        self.stage
    }

    pub fn reason(&self) -> (reason: &str)
        ensures
            reason@ == self@.reason,
    {
        self.reason.as_str()
    }
}

/// Token usage that a provider reported.
#[derive(Clone, Copy, Debug, PartialEq, Eq, Structural)]
pub struct Usage {
    pub input_tokens: u64,
    pub output_tokens: u64,
}

/// The sum, or the largest number where it is larger.
pub open spec fn capped_sum(a: u64, b: u64) -> u64 {
    if a + b > u64::MAX {
        u64::MAX
    } else {
        (a + b) as u64
    }
}

fn add_capped(a: u64, b: u64) -> (sum: u64)
    ensures
        sum == capped_sum(a, b),
{
    if b > u64::MAX - a {
        u64::MAX
    } else {
        a + b
    }
}

/// One more, or the largest number.
pub open spec fn capped_next(n: u32) -> u32 {
    if n < u32::MAX {
        (n + 1) as u32
    } else {
        n
    }
}

fn next_capped(n: u32) -> (next: u32)
    ensures
        next == capped_next(n),
{
    if n < u32::MAX {
        n + 1
    } else {
        n
    }
}

/// Cost and token usage of one invocation.
#[derive(Clone, Copy, Debug, PartialEq, Eq, Structural)]
pub struct CostReceipt {
    pub admitted_attempts: u32,
    pub sent_attempts: u32,
    pub completed_attempts: u32,
    pub known_usage: Usage,
    pub unknown_usage_attempts: u32,
    pub has_unknown_usage: bool,
    pub cache_served: bool,
}

impl CostReceipt {
    pub open spec fn empty(cache_served: bool) -> CostReceipt {
        CostReceipt {
            admitted_attempts: 0,
            sent_attempts: 0,
            completed_attempts: 0,
            known_usage: Usage { input_tokens: 0, output_tokens: 0 },
            unknown_usage_attempts: 0,
            has_unknown_usage: false,
            cache_served,
        }
    }

    /// Unknown usage is marked exactly where an attempt left some.
    pub open spec fn wf(self) -> bool {
        self.has_unknown_usage == (self.unknown_usage_attempts > 0)
    }

    /// The receipt of an exact cache hit: no attempts and no tokens.
    pub fn zero_cost_cache_hit() -> (receipt: CostReceipt)
        ensures
            receipt == CostReceipt::empty(true),
            receipt.wf(),
    {
        CostReceipt {
            admitted_attempts: 0,
            sent_attempts: 0,
            completed_attempts: 0,
            known_usage: Usage { input_tokens: 0, output_tokens: 0 },
            unknown_usage_attempts: 0,
            has_unknown_usage: false,
            cache_served: true,
        }
    }

    pub fn new() -> (receipt: CostReceipt)
        ensures
            receipt == CostReceipt::empty(false),
            receipt.wf(),
    {
        CostReceipt {
            admitted_attempts: 0,
            sent_attempts: 0,
            completed_attempts: 0,
            known_usage: Usage { input_tokens: 0, output_tokens: 0 },
            unknown_usage_attempts: 0,
            has_unknown_usage: false,
            cache_served: false,
        }
    }

    pub open spec fn with_success(self, usage: Usage) -> CostReceipt {
        CostReceipt {
            completed_attempts: capped_next(self.completed_attempts),
            known_usage: Usage {
                input_tokens: capped_sum(self.known_usage.input_tokens, usage.input_tokens),
                output_tokens: capped_sum(self.known_usage.output_tokens, usage.output_tokens),
            },
            ..self
        }
    }

    pub open spec fn with_failure(self) -> CostReceipt {
        CostReceipt {
            unknown_usage_attempts: capped_next(self.unknown_usage_attempts),
            has_unknown_usage: true,
            ..self
        }
    }

    /// Record a completed attempt with the usage that the provider reported.
    pub fn record_success(&mut self, usage: Usage)
        ensures
            *final(self) == old(self).with_success(usage),
            old(self).wf() ==> final(self).wf(),
    {
        self.completed_attempts = next_capped(self.completed_attempts);
        self.known_usage = Usage {
            input_tokens: add_capped(self.known_usage.input_tokens, usage.input_tokens),
            output_tokens: add_capped(self.known_usage.output_tokens, usage.output_tokens),
        };
    }

    /// Record the failure of a sent attempt: known usage stays, and an
    /// unknown-usage mark is added.
    pub fn record_terminal_error(&mut self)
        ensures
            *final(self) == old(self).with_failure(),
            final(self).wf(),
    {
        self.unknown_usage_attempts = next_capped(self.unknown_usage_attempts);
        self.has_unknown_usage = true;
    }

    /// Known tokens, input and output.
    pub fn total_tokens(&self) -> (n: u64)
        ensures
            n == capped_sum(self.known_usage.input_tokens, self.known_usage.output_tokens),
    {
        add_capped(self.known_usage.input_tokens, self.known_usage.output_tokens)
    }

    /// Was no attempt ever admitted?
    pub fn is_empty(&self) -> (r: bool)
        ensures
            r == (self.admitted_attempts == 0),
    {
        self.admitted_attempts == 0
    }
}

impl Default for CostReceipt {
    fn default() -> (receipt: CostReceipt)
        ensures
            receipt == CostReceipt::empty(false),
    {
        CostReceipt::new()
    }
}

/// What the entry clock says when an attempt asks for admission: the time, if
/// new work may start at all, and the time left before the cleanup reserve.
#[derive(Clone, Copy, Debug)]
pub struct ClockReading {
    pub now_ms: Option<u64>,
    pub remaining_before_cleanup_ms: u64,
}

/// The single admission seam of an invocation.
#[derive(Debug)]
pub struct AttemptAdmission {
    budget: AttemptBudget,
    invocation_id: String,
    guard_generation: u64,
    receipt: CostReceipt,
    logical_requests_started: u32,
    current_stage: Option<RankingStage>,
    wide_completed: bool,
    issued_attempt_ids: Vec<String>,
    has_active_permit: bool,
}

pub struct AdmissionView {
    pub budget: AttemptBudget,
    pub invocation_id: Seq<char>,
    pub guard_generation: u64,
    pub receipt: CostReceipt,
    pub logical_started: u32,
    pub current_stage: Option<RankingStage>,
    pub wide_completed: bool,
    pub issued: Seq<Seq<char>>,
    pub has_active_permit: bool,
}

impl View for AttemptAdmission {
    type V = AdmissionView;

    closed spec fn view(&self) -> AdmissionView {
        AdmissionView {
            budget: self.budget,
            invocation_id: self.invocation_id@,
            guard_generation: self.guard_generation,
            receipt: self.receipt,
            logical_started: self.logical_requests_started,
            current_stage: self.current_stage,
            wide_completed: self.wide_completed,
            issued: texts(self.issued_attempt_ids@),
            has_active_permit: self.has_active_permit,
        }
    }
}

impl AdmissionView {
    /// The limits hold, no identifier was issued twice, and unknown usage is
    /// marked.
    pub open spec fn wf(self) -> bool {
        &&& self.receipt.admitted_attempts <= self.budget.max_http_attempts
        &&& self.logical_started <= self.budget.max_logical_requests
        &&& self.issued.no_duplicates()
        &&& self.receipt.wf()
    }

    pub open spec fn attempts_left(self) -> nat {
        if self.budget.max_http_attempts > self.receipt.admitted_attempts {
            (self.budget.max_http_attempts - self.receipt.admitted_attempts) as nat
        } else {
            0
        }
    }

    pub open spec fn requests_left(self) -> nat {
        if self.budget.max_logical_requests > self.logical_started {
            (self.budget.max_logical_requests - self.logical_started) as nat
        } else {
            0
        }
    }

    pub open spec fn opens_stage(self, stage: RankingStage) -> bool {
        self.current_stage != Some(stage)
    }

    /// The admission once the stage counts as the current logical request.
    pub open spec fn entering(self, stage: RankingStage) -> AdmissionView {
        if self.opens_stage(stage) {
            AdmissionView {
                logical_started: capped_next(self.logical_started),
                current_stage: Some(stage),
                ..self
            }
        } else {
            self
        }
    }

    pub open spec fn next_id(self) -> Seq<char> {
        sequential_id(
            self.invocation_id,
            capped_next(self.receipt.admitted_attempts) as nat,
        )
    }

    /// Why an attempt is refused, if it is. Checks run in this order: time,
    /// stage order, logical requests, attempts, identity.
    pub open spec fn refusal(self, stage: RankingStage, clock: ClockReading) -> Option<RefusalView> {
        let required_ms = self.budget.min_attempt_reserve_ms;
        if clock.now_ms is None {
            Some(RefusalView::InsufficientDeadline { remaining_ms: 0, required_ms })
        } else if clock.remaining_before_cleanup_ms < required_ms {
            Some(
                RefusalView::InsufficientDeadline {
                    remaining_ms: clock.remaining_before_cleanup_ms,
                    required_ms,
                },
            )
        } else if stage == RankingStage::Rerank && !self.wide_completed {
            Some(
                RefusalView::StageOrderingViolation {
                    stage,
                    reason: "rerank stage requires successful wide stage completion first"@,
                },
            )
        } else if self.opens_stage(stage) && self.logical_started
            >= self.budget.max_logical_requests {
            Some(
                RefusalView::LogicalRequestsExhausted {
                    logical_used: self.logical_started,
                    limit: self.budget.max_logical_requests,
                },
            )
        } else if self.receipt.admitted_attempts >= self.budget.max_http_attempts {
            Some(
                RefusalView::AttemptsExhausted {
                    attempts_used: self.receipt.admitted_attempts,
                    limit: self.budget.max_http_attempts,
                },
            )
        } else if self.issued.contains(self.next_id()) {
            Some(RefusalView::DuplicateAttemptId { attempt_id: self.next_id() })
        } else {
            None
        }
    }

    /// The admission once the attempt is admitted.
    pub open spec fn admitting(self, stage: RankingStage) -> AdmissionView {
        let entered = self.entering(stage);
        AdmissionView {
            receipt: CostReceipt {
                admitted_attempts: capped_next(self.receipt.admitted_attempts),
                ..self.receipt
            },
            issued: self.issued.push(self.next_id()),
            has_active_permit: true,
            ..entered
        }
    }

    /// The admission after a refusal: a stage whose logical request was
    /// granted stays entered although its attempt was not.
    pub open spec fn refusing(self, stage: RankingStage, clock: ClockReading) -> AdmissionView {
        match self.refusal(stage, clock) {
            Some(RefusalView::AttemptsExhausted { .. }) => self.entering(stage),
            Some(RefusalView::DuplicateAttemptId { .. }) => self.entering(stage),
            _ => self,
        }
    }
}

impl AttemptAdmission {
    /// The admission of one invocation.
    pub fn new(budget: AttemptBudget, invocation_id: &str) -> (r: Result<
        AttemptAdmission,
        AdmissionError,
    >)
        ensures
            match r {
                Ok(admission) => trim(invocation_id@).len() > 0 && admission@ == (AdmissionView {
                    budget,
                    invocation_id: invocation_id@,
                    guard_generation: DEFAULT_GUARD_GENERATION,
                    receipt: CostReceipt::empty(false),
                    logical_started: 0,
                    current_stage: None,
                    wide_completed: false,
                    issued: Seq::empty(),
                    has_active_permit: false,
                }) && admission@.wf(),
                Err(error) => trim(invocation_id@).len() == 0 && error.is_invalid_id(
                    "invocation ID cannot be empty"@,
                ),
            },
    {
        if is_blank(invocation_id) {
            return Err(AdmissionError::InvalidAttemptId(copy_text("invocation ID cannot be empty")));
        }
        Ok(AttemptAdmission::fresh(budget, invocation_id))
    }

    fn fresh(budget: AttemptBudget, invocation_id: &str) -> (admission: AttemptAdmission)
        ensures
            admission@ == fresh_admission(budget, invocation_id@),
            admission@.wf(),
    {
        let admission = AttemptAdmission {
            budget,
            invocation_id: copy_text(invocation_id),
            guard_generation: DEFAULT_GUARD_GENERATION,
            receipt: CostReceipt::new(),
            logical_requests_started: 0,
            current_stage: None,
            wide_completed: false,
            issued_attempt_ids: Vec::new(),
            has_active_permit: false,
        };
        assert(texts(admission.issued_attempt_ids@) =~= Seq::empty());
        admission
    }

    /// The admission of an invocation with the default budget.
    pub fn default_invocation(invocation_id: &str) -> (admission: AttemptAdmission)
        requires
            trim(invocation_id@).len() > 0,
        ensures
            admission@ == (AdmissionView {
                budget: AttemptBudget::default_spec(),
                invocation_id: invocation_id@,
                guard_generation: DEFAULT_GUARD_GENERATION,
                receipt: CostReceipt::empty(false),
                logical_started: 0,
                current_stage: None,
                wide_completed: false,
                issued: Seq::empty(),
                has_active_permit: false,
            }),
            admission@.wf(),
    {
        AttemptAdmission::fresh(AttemptBudget::default_invocation(), invocation_id)
    }

    pub fn budget(&self) -> (budget: AttemptBudget)
        ensures
            budget == self@.budget,
    {
        self.budget
    }

    pub fn receipt(&self) -> (receipt: &CostReceipt)
        ensures
            *receipt == self@.receipt,
    {
        &self.receipt
    }

    pub fn guard_generation(&self) -> (generation: u64)
        ensures
            generation == self@.guard_generation,
    {
        self.guard_generation
    }

    pub fn set_guard_generation(&mut self, generation: u64)
        ensures
            final(self)@ == old(self)@.after(AdmissionEvent::Guard { generation }),
            final(self)@ == (AdmissionView { guard_generation: generation, ..old(self)@ }),
    {
        self.guard_generation = generation;
    }

    pub fn remaining_http_attempts(&self) -> (n: u32)
        ensures
            n == self@.attempts_left(),
    {
        if self.budget.max_http_attempts > self.receipt.admitted_attempts {
            self.budget.max_http_attempts - self.receipt.admitted_attempts
        } else {
            0
        }
    }

    pub fn remaining_logical_requests(&self) -> (n: u32)
        ensures
            n == self@.requests_left(),
    {
        if self.budget.max_logical_requests > self.logical_requests_started {
            self.budget.max_logical_requests - self.logical_requests_started
        } else {
            0
        }
    }

    pub fn is_wide_completed(&self) -> (r: bool)
        ensures
            r == self@.wide_completed,
    {
        self.wide_completed
    }

    /// Could the rerank stage still be admitted?
    pub fn can_attempt_rerank(&self) -> (r: bool)
        ensures
            r == (self@.wide_completed && self@.attempts_left() > 0 && self@.requests_left() > 0),
    {
        self.wide_completed && self.remaining_http_attempts() > 0
            && self.remaining_logical_requests() > 0
    }

    /// Ask for admission of one HTTP attempt.
    pub fn admit_attempt(
        &mut self,
        stage: RankingStage,
        endpoint: &CanonicalOrigin,
        clock: ClockReading,
    ) -> (r: Result<AttemptPermit, AdmissionRefusal>)
        ensures
            final(self)@ == old(self)@.after(AdmissionEvent::Attempt { stage, clock }),
            match r {
                Ok(permit) => old(self)@.refusal(stage, clock) is None && final(self)@ == old(self)@.admitting(stage) && permit@ == (PermitView {
                    attempt_id: old(self)@.next_id(),
                    stage,
                    endpoint: endpoint@,
                    guard_generation: old(self)@.guard_generation,
                    admitted_at_ms: clock.now_ms->0,
                    deadline_remaining_ms: clock.remaining_before_cleanup_ms,
                    consumed: false,
                }),
                Err(refusal) => old(self)@.refusal(stage, clock) == Some(refusal@) && final(self)@
                    == old(self)@.refusing(stage, clock),
            },
            old(self)@.wf() ==> final(self)@.wf(),
    {
        let required_ms: u64 = self.budget.min_attempt_reserve_ms;
        let now_ms: u64 = match clock.now_ms {
            Some(now) => now,
            None => {
                return Err(AdmissionRefusal::InsufficientDeadline { remaining_ms: 0, required_ms });
            },
        };
        let remaining_ms: u64 = clock.remaining_before_cleanup_ms;
        if remaining_ms < required_ms {
            return Err(AdmissionRefusal::InsufficientDeadline { remaining_ms, required_ms });
        }
        if stage == RankingStage::Rerank && !self.wide_completed {
            return Err(
                AdmissionRefusal::StageOrderingViolation {
                    stage,
                    reason: "rerank stage requires successful wide stage completion first",
                },
            );
        }
        let opens: bool = match self.current_stage {
            Some(current) => current != stage,
            None => true,
        };
        if opens {
            if self.logical_requests_started >= self.budget.max_logical_requests {
                return Err(
                    AdmissionRefusal::LogicalRequestsExhausted {
                        logical_used: self.logical_requests_started,
                        limit: self.budget.max_logical_requests,
                    },
                );
            }
            self.logical_requests_started = next_capped(self.logical_requests_started);
            self.current_stage = Some(stage);
        }
        if self.receipt.admitted_attempts >= self.budget.max_http_attempts {
            return Err(
                AdmissionRefusal::AttemptsExhausted {
                    attempts_used: self.receipt.admitted_attempts,
                    limit: self.budget.max_http_attempts,
                },
            );
        }
        let sequence: u32 = next_capped(self.receipt.admitted_attempts);
        let attempt_id: AttemptId = AttemptId::new_sequential(
            self.invocation_id.as_str(),
            sequence,
        );
        if contains_text(&self.issued_attempt_ids, attempt_id.as_str()) {
            return Err(
                AdmissionRefusal::DuplicateAttemptId { attempt_id: copy_text(attempt_id.as_str()) },
            );
        }
        let ghost before = texts(self.issued_attempt_ids@);
        self.issued_attempt_ids.push(copy_text(attempt_id.as_str()));
        assert(texts(self.issued_attempt_ids@) =~= before.push(attempt_id@));
        self.receipt.admitted_attempts = sequence;
        self.has_active_permit = true;
        Ok(
            AttemptPermit {
                attempt_id,
                stage,
                endpoint: endpoint.copied(),
                guard_generation: self.guard_generation,
                admitted_at_ms: now_ms,
                deadline_remaining_ms: remaining_ms,
                consumed: false,
            },
        )
    }

    /// Record that an admitted attempt was sent.
    pub fn record_sent(&mut self, sent: &SentAttempt) -> (r: Result<(), AdmissionError>)
        ensures
            final(self)@ == old(self)@.after(AdmissionEvent::Sent { attempt_id: sent@.attempt_id }),
            r is Ok <==> old(self)@.issued.contains(sent@.attempt_id),
            r is Err ==> r->Err_0 is AttemptNotActive && final(self)@ == old(self)@,
            r is Ok ==> final(self)@ == (AdmissionView {
                receipt: CostReceipt {
                    sent_attempts: capped_next(old(self)@.receipt.sent_attempts),
                    ..old(self)@.receipt
                },
                has_active_permit: false,
                ..old(self)@
            }),
            old(self)@.wf() ==> final(self)@.wf(),
    {
        if !contains_text(&self.issued_attempt_ids, sent.attempt_id.as_str()) {
            return Err(AdmissionError::AttemptNotActive);
        }
        self.receipt.sent_attempts = next_capped(self.receipt.sent_attempts);
        self.has_active_permit = false;
        Ok(())
    }

    /// Record a response with known usage. A wide response completes the wide
    /// stage.
    pub fn record_response(&mut self, sent: &SentAttempt, usage: Usage) -> (r: Result<
        (),
        AdmissionError,
    >)
        ensures
            final(self)@ == old(self)@.after(
                AdmissionEvent::Response {
                    attempt_id: sent@.attempt_id,
                    stage: sent@.stage,
                    usage,
                },
            ),
            r is Ok <==> old(self)@.issued.contains(sent@.attempt_id),
            r is Err ==> r->Err_0 is AttemptNotActive && final(self)@ == old(self)@,
            r is Ok ==> final(self)@ == (AdmissionView {
                receipt: old(self)@.receipt.with_success(usage),
                wide_completed: old(self)@.wide_completed || sent@.stage == RankingStage::Wide,
                has_active_permit: false,
                ..old(self)@
            }),
            old(self)@.wf() ==> final(self)@.wf(),
    {
        if !contains_text(&self.issued_attempt_ids, sent.attempt_id.as_str()) {
            return Err(AdmissionError::AttemptNotActive);
        }
        self.receipt.record_success(usage);
        if sent.stage.is_wide() {
            self.wide_completed = true;
        }
        self.has_active_permit = false;
        Ok(())
    }

    /// Record the failure of an attempt that was sent.
    pub fn record_terminal_failure(&mut self, sent: &SentAttempt) -> (r: Result<
        (),
        AdmissionError,
    >)
        ensures
            final(self)@ == old(self)@.after(
                AdmissionEvent::Failure { attempt_id: sent@.attempt_id },
            ),
            r is Ok <==> old(self)@.issued.contains(sent@.attempt_id),
            r is Err ==> r->Err_0 is AttemptNotActive && final(self)@ == old(self)@,
            r is Ok ==> final(self)@ == (AdmissionView {
                receipt: old(self)@.receipt.with_failure(),
                has_active_permit: false,
                ..old(self)@
            }),
            old(self)@.wf() ==> final(self)@.wf(),
    {
        if !contains_text(&self.issued_attempt_ids, sent.attempt_id.as_str()) {
            return Err(AdmissionError::AttemptNotActive);
        }
        self.receipt.record_terminal_error();
        self.has_active_permit = false;
        Ok(())
    }

    /// Record an attempt that was never sent: no usage, known or unknown.
    pub fn record_discard(&mut self, discarded: &DiscardedAttempt) -> (r: Result<
        (),
        AdmissionError,
    >)
        ensures
            final(self)@ == old(self)@.after(
                AdmissionEvent::Discard { attempt_id: discarded@.attempt_id },
            ),
            r is Ok <==> old(self)@.issued.contains(discarded@.attempt_id),
            r is Err ==> r->Err_0 is AttemptNotActive && final(self)@ == old(self)@,
            r is Ok ==> final(self)@ == (AdmissionView { has_active_permit: false, ..old(self)@ }),
            old(self)@.wf() ==> final(self)@.wf(),
    {
        if !contains_text(&self.issued_attempt_ids, discarded.attempt_id.as_str()) {
            return Err(AdmissionError::AttemptNotActive);
        }
        self.has_active_permit = false;
        Ok(())
    }

    /// Record an exact cache hit: no attempts and no tokens.
    pub fn record_cache_hit(&mut self)
        ensures
            final(self)@ == old(self)@.after(AdmissionEvent::CacheHit),
            final(self)@ == (AdmissionView { receipt: CostReceipt::empty(true), ..old(self)@ }),
            old(self)@.wf() ==> final(self)@.wf(),
    {
        self.receipt = CostReceipt::zero_cost_cache_hit();
    }

    pub fn into_receipt(self) -> (receipt: CostReceipt)
        ensures
            receipt == self@.receipt,
    {
        self.receipt
    }
}

/// Rerank is never admitted before a wide response was recorded.
pub proof fn rerank_waits_for_wide(a: AdmissionView, clock: ClockReading)
    requires
        a.refusal(RankingStage::Rerank, clock) is None,
    ensures
        a.wide_completed,
{
}

/// An exhausted attempt budget refuses every stage.
pub proof fn exhausted_budget_admits_nothing(
    a: AdmissionView,
    stage: RankingStage,
    clock: ClockReading,
)
    requires
        a.receipt.admitted_attempts >= a.budget.max_http_attempts,
    ensures
        a.refusal(stage, clock) is Some,
{
}

/// Admitting never exceeds the attempts or logical requests of the budget,
/// and never repeats an identifier.
pub proof fn admission_keeps_the_limits(a: AdmissionView, stage: RankingStage, clock: ClockReading)
    requires
        a.wf(),
        a.refusal(stage, clock) is None,
    ensures
        a.admitting(stage).wf(),
        a.admitting(stage).attempts_left() + 1 == a.attempts_left(),
{
}

/// A failure after bytes were sent never reads as zero cost.
pub proof fn failures_are_not_free(receipt: CostReceipt)
    ensures
        receipt.with_failure().has_unknown_usage,
        receipt.with_failure().unknown_usage_attempts > 0,
        receipt.with_failure().known_usage == receipt.known_usage,
{
}

/// An admission that is just made.
pub open spec fn fresh_admission(budget: AttemptBudget, invocation_id: Seq<char>) -> AdmissionView {
    AdmissionView {
        budget,
        invocation_id,
        guard_generation: DEFAULT_GUARD_GENERATION,
        receipt: CostReceipt::empty(false),
        logical_started: 0,
        current_stage: None,
        wide_completed: false,
        issued: Seq::empty(),
        has_active_permit: false,
    }
}

/// What happens to an admission.
pub enum AdmissionEvent {
    Attempt { stage: RankingStage, clock: ClockReading },
    Sent { attempt_id: Seq<char> },
    Response { attempt_id: Seq<char>, stage: RankingStage, usage: Usage },
    Failure { attempt_id: Seq<char> },
    Discard { attempt_id: Seq<char> },
    CacheHit,
    Guard { generation: u64 },
}

impl AdmissionView {
    /// The admission after an event. Reports on attempts that were never issued
    /// change nothing.
    pub open spec fn after(self, event: AdmissionEvent) -> AdmissionView {
        match event {
            AdmissionEvent::Attempt { stage, clock } => if self.refusal(stage, clock) is None {
                self.admitting(stage)
            } else {
                self.refusing(stage, clock)
            },
            AdmissionEvent::Sent { attempt_id } => if self.issued.contains(attempt_id) {
                AdmissionView {
                    receipt: CostReceipt {
                        sent_attempts: capped_next(self.receipt.sent_attempts),
                        ..self.receipt
                    },
                    has_active_permit: false,
                    ..self
                }
            } else {
                self
            },
            AdmissionEvent::Response { attempt_id, stage, usage } => if self.issued.contains(
                attempt_id,
            ) {
                AdmissionView {
                    receipt: self.receipt.with_success(usage),
                    wide_completed: self.wide_completed || stage == RankingStage::Wide,
                    has_active_permit: false,
                    ..self
                }
            } else {
                self
            },
            AdmissionEvent::Failure { attempt_id } => if self.issued.contains(attempt_id) {
                AdmissionView {
                    receipt: self.receipt.with_failure(),
                    has_active_permit: false,
                    ..self
                }
            } else {
                self
            },
            AdmissionEvent::Discard { attempt_id } => if self.issued.contains(attempt_id) {
                AdmissionView { has_active_permit: false, ..self }
            } else {
                self
            },
            AdmissionEvent::CacheHit => AdmissionView { receipt: CostReceipt::empty(true), ..self },
            AdmissionEvent::Guard { generation } => AdmissionView {
                guard_generation: generation,
                ..self
            },
        }
    }

    /// The issued identifiers are numbered from 1 on.
    pub open spec fn is_numbered(self) -> bool {
        forall|i: int|
            0 <= i < self.issued.len() ==> #[trigger] self.issued[i] == sequential_id(
                self.invocation_id,
                (i + 1) as nat,
            )
    }
}

/// The admission after a life of events.
pub open spec fn lived(start: AdmissionView, events: Seq<AdmissionEvent>) -> AdmissionView
    decreases events.len(),
{
    if events.len() == 0 {
        start
    } else {
        lived(start, events.drop_last()).after(events.last())
    }
}

proof fn identifiers_are_told_apart(invocation: Seq<char>, n: nat, m: nat)
    requires
        sequential_id(invocation, n) == sequential_id(invocation, m),
    ensures
        n == m,
{
    let start = invocation + "-att-"@;
    assert(sequential_id(invocation, n).skip(start.len() as int) =~= decimal(n));
    assert(sequential_id(invocation, m).skip(start.len() as int) =~= decimal(m));
    decimals_are_told_apart(n, m);
}

/// In any life the issued identifiers are numbered 1 to n, in the order in
/// which their attempts were admitted, and the budget bounds them.
proof fn lives_are_regular(
    budget: AttemptBudget,
    invocation_id: Seq<char>,
    events: Seq<AdmissionEvent>,
)
    ensures
        ({
            let a = lived(fresh_admission(budget, invocation_id), events);
            &&& a.is_numbered()
            &&& a.invocation_id == invocation_id
            &&& a.budget == budget
            &&& a.receipt.admitted_attempts <= a.issued.len()
            &&& a.issued.len() <= budget.max_http_attempts
            &&& a.logical_started <= budget.max_logical_requests
        }),
    decreases events.len(),
{
    if events.len() > 0 {
        lives_are_regular(budget, invocation_id, events.drop_last());
        let a = lived(fresh_admission(budget, invocation_id), events.drop_last());
        let b = a.after(events.last());
        if let AdmissionEvent::Attempt { stage, clock } = events.last() {
            if a.refusal(stage, clock) is None {
                let n = a.receipt.admitted_attempts as int;
                if n < a.issued.len() {
                    assert(a.issued[n] == a.next_id());
                    assert(a.issued.contains(a.next_id()));
                }
                assert forall|i: int| 0 <= i < b.issued.len() implies #[trigger] b.issued[i]
                    == sequential_id(b.invocation_id, (i + 1) as nat) by {
                    if i < a.issued.len() {
                        assert(b.issued[i] == a.issued[i]);
                    }
                }
            }
        }
    }
}

/// In any life the issued identifiers are numbered 1 to n, in the order in
/// which their attempts were admitted.
pub proof fn attempts_are_numbered(
    budget: AttemptBudget,
    invocation_id: Seq<char>,
    events: Seq<AdmissionEvent>,
)
    ensures
        lived(fresh_admission(budget, invocation_id), events).is_numbered(),
        lived(fresh_admission(budget, invocation_id), events).invocation_id == invocation_id,
{
    lives_are_regular(budget, invocation_id, events);
}

/// The attempts of a life that were admitted.
pub open spec fn admissions(start: AdmissionView, events: Seq<AdmissionEvent>) -> nat
    decreases events.len(),
{
    if events.len() == 0 {
        0
    } else {
        admissions(start, events.drop_last()) + match events.last() {
            AdmissionEvent::Attempt { stage, clock } => if lived(
                start,
                events.drop_last(),
            ).refusal(stage, clock) is None {
                1nat
            } else {
                0nat
            },
            _ => 0nat,
        }
    }
}

proof fn admissions_are_issued(
    budget: AttemptBudget,
    invocation_id: Seq<char>,
    events: Seq<AdmissionEvent>,
)
    ensures
        admissions(fresh_admission(budget, invocation_id), events) == lived(
            fresh_admission(budget, invocation_id),
            events,
        ).issued.len(),
    decreases events.len(),
{
    if events.len() > 0 {
        admissions_are_issued(budget, invocation_id, events.drop_last());
    }
}

/// Whatever happens in a life, retries, failures, discards and cache hits
/// included, no more attempts are admitted than the budget's HTTP attempts, and
/// no more logical requests are started than it allows.
pub proof fn lives_keep_the_budget(
    budget: AttemptBudget,
    invocation_id: Seq<char>,
    events: Seq<AdmissionEvent>,
)
    ensures
        admissions(fresh_admission(budget, invocation_id), events) <= budget.max_http_attempts,
        lived(fresh_admission(budget, invocation_id), events).logical_started
            <= budget.max_logical_requests,
{
    lives_are_regular(budget, invocation_id, events);
    admissions_are_issued(budget, invocation_id, events);
}

/// Where a rerank can still be attempted and there is time for it, it is
/// admitted, unless a cache hit has set the count of attempts back.
pub proof fn possible_reranks_are_admitted(
    budget: AttemptBudget,
    invocation_id: Seq<char>,
    events: Seq<AdmissionEvent>,
    clock: ClockReading,
)
    requires
        ({
            let a = lived(fresh_admission(budget, invocation_id), events);
            &&& a.wide_completed && a.attempts_left() > 0 && a.requests_left() > 0
            &&& clock.now_ms is Some
            &&& clock.remaining_before_cleanup_ms >= budget.min_attempt_reserve_ms
            &&& a.receipt.admitted_attempts == a.issued.len()
        }),
    ensures
        lived(fresh_admission(budget, invocation_id), events).refusal(RankingStage::Rerank, clock)
            is None,
{
    lives_are_regular(budget, invocation_id, events);
    let a = lived(fresh_admission(budget, invocation_id), events);
    if a.issued.contains(a.next_id()) {
        let i = choose|i: int| 0 <= i < a.issued.len() && a.issued[i] == a.next_id();
        identifiers_are_told_apart(
            a.invocation_id,
            (i + 1) as nat,
            capped_next(a.receipt.admitted_attempts) as nat,
        );
    }
}

} // verus!
