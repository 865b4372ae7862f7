//! Failures of a ranking, as they are reported.
use crate::text::{copy_text, decimal, decimal_text, join};
use vstd::prelude::*;

verus! {

/// How a process that failed exits: with this code, or with the one that the
/// public table gives to the failure's kind.
#[derive(Clone, Copy, Debug, PartialEq, Eq, Structural)]
pub enum Exit {
    Code(u8),
    OfKind,
}

/// A failure: its exit, its public kind and its message.
#[derive(Clone, Debug)]
pub struct PipelineFailure {
    pub exit: Exit,
    pub kind: String,
    pub message: String,
}

/// A failure as characters.
pub struct FailureView {
    pub exit: Exit,
    pub kind: Seq<char>,
    pub message: Seq<char>,
}

impl View for PipelineFailure {
    type V = FailureView;

    open spec fn view(&self) -> FailureView {
        FailureView { exit: self.exit, kind: self.kind@, message: self.message@ }
    }
}

pub open spec fn failing(code: u8, kind: Seq<char>, message: Seq<char>) -> FailureView {
    FailureView { exit: Exit::Code(code), kind, message }
}

/// A failure whose exit comes from its kind.
pub open spec fn failing_as(kind: Seq<char>, message: Seq<char>) -> FailureView {
    FailureView { exit: Exit::OfKind, kind, message }
}

pub fn failure(code: u8, kind: &str, message: &str) -> (f: PipelineFailure)
    ensures
        f@ == failing(code, kind@, message@),
{
    PipelineFailure { exit: Exit::Code(code), kind: copy_text(kind), message: copy_text(message) }
}

/// A typed input failure.
pub fn input_failure(kind: &str, message: &str) -> (f: PipelineFailure)
    ensures
        f@ == failing_as(kind@, message@),
{
    PipelineFailure { exit: Exit::OfKind, kind: copy_text(kind), message: copy_text(message) }
}

/// A failure whose message ends in what was reported from outside.
pub open spec fn failing_with(
    code: u8,
    kind: Seq<char>,
    prefix: Seq<char>,
    details: Seq<char>,
) -> FailureView {
    failing(code, kind, prefix + details)
}

pub fn failure_with(code: u8, kind: &str, prefix: &str, details: &str) -> (f: PipelineFailure)
    ensures
        f@ == failing_with(code, kind@, prefix@, details@),
{
    let message: String = join(prefix, details);
    PipelineFailure { exit: Exit::Code(code), kind: copy_text(kind), message }
}

/// A refusal to send, as its own kind and message.
#[derive(Clone, Debug)]
pub struct Refusal {
    pub kind: String,
    pub message: String,
}

/// Offline is a cache miss, missing consent a privacy denial and a missing
/// credential an authentication failure: the refusal's kind says which.
pub fn admission_refusal(refusal: &Refusal) -> (f: PipelineFailure)
    ensures
        f@ == failing_as(refusal.kind@, refusal.message@),
{
    input_failure(refusal.kind.as_str(), refusal.message.as_str())
}

/// How a request to the provider failed.
#[derive(Clone, Debug)]
pub enum TransportErrorKind {
    Deadline,
    Cancelled,
    Admission(Refusal),
    Response,
    CredentialOriginMismatch,
    HttpStatus(u16),
    /// Any other failure, as it describes itself.
    Other(String),
}

pub open spec fn transport_failure(kind: TransportErrorKind) -> FailureView {
    match kind {
        TransportErrorKind::Deadline => failing(6, "timeout"@, "Jev request exceeded deadline"@),
        TransportErrorKind::Cancelled => failing(6, "timeout"@, "Jev request exceeded deadline"@),
        TransportErrorKind::Admission(refusal) => failing_as(refusal.kind@, refusal.message@),
        TransportErrorKind::Response => failing(
            10,
            "invalid-provider-response"@,
            "The provider response failed validation"@,
        ),
        TransportErrorKind::CredentialOriginMismatch => failing(
            4,
            "authentication"@,
            "Credential origin mismatch"@,
        ),
        TransportErrorKind::HttpStatus(code) => if code == 401 || code == 403 {
            failing(4, "authentication"@, "Invalid credentials"@)
        } else if code == 429 {
            failing(4, "provider-cooldown"@, "Rate limited by provider"@)
        } else {
            failing(4, "provider-failure"@, "HTTP error "@ + decimal(code as nat))
        },
        TransportErrorKind::Other(details) => failing(
            4,
            "network-failure"@,
            "Transport error: "@ + details@,
        ),
    }
}

pub fn map_transport_error(kind: &TransportErrorKind) -> (f: PipelineFailure)
    ensures
        f@ == transport_failure(*kind),
{
    match kind {
        TransportErrorKind::Deadline | TransportErrorKind::Cancelled => failure(
            6,
            "timeout",
            "Jev request exceeded deadline",
        ),
        TransportErrorKind::Admission(refusal) => admission_refusal(refusal),
        TransportErrorKind::Response => failure(
            10,
            "invalid-provider-response",
            "The provider response failed validation",
        ),
        TransportErrorKind::CredentialOriginMismatch => failure(
            4,
            "authentication",
            "Credential origin mismatch",
        ),
        TransportErrorKind::HttpStatus(code) => if *code == 401 || *code == 403 {
            failure(4, "authentication", "Invalid credentials")
        } else if *code == 429 {
            failure(4, "provider-cooldown", "Rate limited by provider")
        } else {
            let number: String = decimal_text(*code as u64);
            failure_with(4, "provider-failure", "HTTP error ", number.as_str())
        },
        TransportErrorKind::Other(details) => failure_with(
            4,
            "network-failure",
            "Transport error: ",
            details.as_str(),
        ),
    }
}

/// Why a stage ended without an answer.
#[derive(Clone, Debug)]
pub enum RetryErrorKind {
    Transport(TransportErrorKind),
    Admission(Refusal),
    Accounting,
    PolicyChanged,
    RetryStopped,
    ModelPairMismatch,
}

pub open spec fn stage_failure(kind: RetryErrorKind, last: Option<TransportErrorKind>) -> FailureView {
    match kind {
        RetryErrorKind::Transport(cause) => transport_failure(cause),
        RetryErrorKind::Admission(refusal) => failing_as(refusal.kind@, refusal.message@),
        RetryErrorKind::Accounting => failing_as("budget-state"@, "Attempt accounting failed"@),
        RetryErrorKind::PolicyChanged => failing(3, "superseded"@, "Policy changed before send"@),
        RetryErrorKind::RetryStopped => match last {
            Some(cause) => transport_failure(cause),
            None => failing(4, "provider-failure"@, "The provider request failed"@),
        },
        RetryErrorKind::ModelPairMismatch => failing(
            10,
            "invalid-provider-response"@,
            "Wide and rerank answers came from different models"@,
        ),
    }
}

/// The terminal reason of a stage that exhausted or stopped its retries. A
/// transient failure with no retry left is reported as that failure.
pub fn retry_failure(kind: &RetryErrorKind, last: &Option<TransportErrorKind>) -> (f: PipelineFailure)
    ensures
        f@ == stage_failure(*kind, *last),
{
    match kind {
        RetryErrorKind::Transport(cause) => map_transport_error(cause),
        RetryErrorKind::Admission(refusal) => admission_refusal(refusal),
        RetryErrorKind::Accounting => input_failure("budget-state", "Attempt accounting failed"),
        RetryErrorKind::PolicyChanged => failure(3, "superseded", "Policy changed before send"),
        RetryErrorKind::RetryStopped => match last {
            Some(cause) => map_transport_error(cause),
            None => failure(4, "provider-failure", "The provider request failed"),
        },
        RetryErrorKind::ModelPairMismatch => failure(
            10,
            "invalid-provider-response",
            "Wide and rerank answers came from different models",
        ),
    }
}

/// What re-reading the policy found.
#[derive(Clone, Debug)]
pub enum Revalidation {
    Current,
    InvalidConfiguration,
    /// Relevant fields changed, as they describe themselves.
    Superseded(String),
}

/// Where a changed policy stops a run, and what the failure says then.
#[derive(Clone, Copy, Debug, PartialEq, Eq, Structural)]
pub enum PolicyGate {
    /// Before a result that explicit requirements or low need settled.
    EarlyPublication,
    /// Before a ranked result.
    RankedPublication,
}

pub open spec fn policy_failure(found: Revalidation, gate: PolicyGate) -> Option<FailureView> {
    match found {
        Revalidation::Current => None,
        Revalidation::InvalidConfiguration => Some(
            failing(
                2,
                "invalid-configuration"@,
                "Configuration became invalid before publication"@,
            ),
        ),
        Revalidation::Superseded(fields) => Some(
            failing(
                3,
                "superseded"@,
                (match gate {
                    PolicyGate::EarlyPublication => "Policy changed during evaluation: "@,
                    PolicyGate::RankedPublication => "Policy superseded before publication: "@,
                }) + fields@,
            ),
        ),
    }
}

/// May a result be published under the policy as it now is?
pub fn check_policy(found: &Revalidation, gate: PolicyGate) -> (r: Result<(), PipelineFailure>)
    ensures
        match r {
            Ok(_) => policy_failure(*found, gate) is None,
            Err(f) => policy_failure(*found, gate) == Some(f@),
        },
{
    match found {
        Revalidation::Current => Ok(()),
        Revalidation::InvalidConfiguration => Err(
            failure(
                2,
                "invalid-configuration",
                "Configuration became invalid before publication",
            ),
        ),
        Revalidation::Superseded(fields) => {
            let prefix: &str = match gate {
                PolicyGate::EarlyPublication => "Policy changed during evaluation: ",
                PolicyGate::RankedPublication => "Policy superseded before publication: ",
            };
            Err(failure_with(3, "superseded", prefix, fields.as_str()))
        },
    }
}

/// The stage of a provider request.
#[derive(Clone, Copy, Debug, PartialEq, Eq, Structural)]
pub enum SendStage {
    Wide,
    Rerank,
}

impl SendStage {
    pub open spec fn text(self) -> Seq<char> {
        match self {
            SendStage::Wide => "wide"@,
            SendStage::Rerank => "rerank"@,
        }
    }

    pub fn as_str(self) -> (text: &'static str)
        ensures
            text@ == self.text(),
    {
        match self {
            SendStage::Wide => "wide",
            SendStage::Rerank => "rerank",
        }
    }
}

/// Why a request may not be sent: an invalid configuration comes first, then a
/// refusal of its own kind, then any other change of policy.
pub open spec fn send_failure(
    found: Revalidation,
    refusal: Option<Refusal>,
    stage: SendStage,
) -> Option<FailureView> {
    match found {
        Revalidation::InvalidConfiguration => Some(
            failing(
                2,
                "invalid-configuration"@,
                "Configuration invalid before "@ + stage.text() + " send"@,
            ),
        ),
        _ => match refusal {
            Some(reason) => Some(failing_as(reason.kind@, reason.message@)),
            None => match found {
                Revalidation::Superseded(fields) => Some(
                    failing(
                        3,
                        "superseded"@,
                        "Policy changed before "@ + stage.text() + " send: "@ + fields@,
                    ),
                ),
                _ => None,
            },
        },
    }
}

/// Decide on a send from the policy as it now is and the refusal that it gives.
pub fn authorize_send(found: &Revalidation, refusal: &Option<Refusal>, stage: SendStage) -> (r: Result<
    (),
    PipelineFailure,
>)
    ensures
        match r {
            Ok(_) => send_failure(*found, *refusal, stage) is None,
            Err(f) => send_failure(*found, *refusal, stage) == Some(f@),
        },
{
    match found {
        Revalidation::InvalidConfiguration => {
            let prefix: String = join("Configuration invalid before ", stage.as_str());
            return Err(failure_with(2, "invalid-configuration", prefix.as_str(), " send"));
        },
        _ => {},
    }
    match refusal {
        Some(reason) => {
            return Err(admission_refusal(reason));
        },
        None => {},
    }
    match found {
        Revalidation::Superseded(fields) => {
            let prefix: String = join("Policy changed before ", stage.as_str()).concat(" send: ");
            Err(failure_with(3, "superseded", prefix.as_str(), fields.as_str()))
        },
        _ => Ok(()),
    }
}

/// How a roster was found to differ from the one that was ranked.
#[derive(Clone, Debug)]
pub enum RevalidationError {
    Changed,
    Incomplete,
    Deadline,
    /// Any other failure, as it describes itself.
    Other(String),
}

/// Where a roster is validated: by the run itself, or by a reload of the same
/// source.
#[derive(Clone, Copy, Debug, PartialEq, Eq, Structural)]
pub enum RosterGate {
    Run,
    Reload,
}

pub open spec fn roster_failure(error: RevalidationError, gate: RosterGate) -> FailureView {
    match error {
        RevalidationError::Changed => failing(
            5,
            "roster-changed"@,
            match gate {
                RosterGate::Run => "Roster changed during ranking"@,
                RosterGate::Reload => "Roster changed before publication"@,
            },
        ),
        RevalidationError::Incomplete => failing(
            5,
            "incomplete-roster"@,
            "Roster scope incomplete during revalidation"@,
        ),
        RevalidationError::Deadline => failing(
            6,
            "timeout"@,
            match gate {
                RosterGate::Run => "Deadline exceeded during revalidation"@,
                RosterGate::Reload => "Deadline exceeded during roster validation"@,
            },
        ),
        RevalidationError::Other(details) => failing(
            5,
            "unusable-roster"@,
            (match gate {
                RosterGate::Run => "Revalidation failed: "@,
                RosterGate::Reload => "Roster validation failed: "@,
            }) + details@,
        ),
    }
}

pub fn validation_error(error: &RevalidationError, gate: RosterGate) -> (f: PipelineFailure)
    ensures
        f@ == roster_failure(*error, gate),
{
    match error {
        RevalidationError::Changed => match gate {
            RosterGate::Run => failure(5, "roster-changed", "Roster changed during ranking"),
            RosterGate::Reload => failure(5, "roster-changed", "Roster changed before publication"),
        },
        RevalidationError::Incomplete => failure(
            5,
            "incomplete-roster",
            "Roster scope incomplete during revalidation",
        ),
        RevalidationError::Deadline => match gate {
            RosterGate::Run => failure(6, "timeout", "Deadline exceeded during revalidation"),
            RosterGate::Reload => failure(
                6,
                "timeout",
                "Deadline exceeded during roster validation",
            ),
        },
        RevalidationError::Other(details) => match gate {
            RosterGate::Run => failure_with(
                5,
                "unusable-roster",
                "Revalidation failed: ",
                details.as_str(),
            ),
            RosterGate::Reload => failure_with(
                5,
                "unusable-roster",
                "Roster validation failed: ",
                details.as_str(),
            ),
        },
    }
}

/// How a roster could not be loaded.
#[derive(Clone, Debug)]
pub enum LoadFailure {
    Deadline,
    Plan,
    Import(String),
    Resolution(String),
}

pub open spec fn load_failure(error: LoadFailure) -> FailureView {
    match error {
        LoadFailure::Deadline => roster_failure(RevalidationError::Deadline, RosterGate::Reload),
        LoadFailure::Plan => failing(
            5,
            "unusable-roster"@,
            "Failed to create roster source plan"@,
        ),
        LoadFailure::Import(details) => failing(
            5,
            "unusable-roster"@,
            "Failed to import roster: "@ + details@,
        ),
        LoadFailure::Resolution(details) => failing(
            5,
            "unusable-roster"@,
            "Failed to resolve roster: "@ + details@,
        ),
    }
}

/// Report a roster that could not be loaded. A passed deadline is a timeout,
/// whatever was being loaded.
pub fn import_error(error: &LoadFailure) -> (f: PipelineFailure)
    ensures
        f@ == load_failure(*error),
{
    match error {
        LoadFailure::Deadline => validation_error(
            &RevalidationError::Deadline,
            RosterGate::Reload,
        ),
        LoadFailure::Plan => failure(5, "unusable-roster", "Failed to create roster source plan"),
        LoadFailure::Import(details) => failure_with(
            5,
            "unusable-roster",
            "Failed to import roster: ",
            details.as_str(),
        ),
        LoadFailure::Resolution(details) => failure_with(
            5,
            "unusable-roster",
            "Failed to resolve roster: ",
            details.as_str(),
        ),
    }
}

/// Why an input file was not read.
#[derive(Clone, Copy, Debug, PartialEq, Eq, Structural)]
pub enum InputReadError {
    TooLarge,
    /// It is not a readable regular file under its own directory.
    Unsupported,
}

/// Report an input file that was not read. The report names no path.
pub fn input_file_failure(error: InputReadError) -> (f: PipelineFailure)
    ensures
        f@ == (match error {
            InputReadError::TooLarge => failing(
                7,
                "oversized-input"@,
                "The input file exceeds its size limit"@,
            ),
            InputReadError::Unsupported => failing(
                7,
                "unsupported-input"@,
                "The input is not a readable regular file"@,
            ),
        }),
{
    match error {
        InputReadError::TooLarge => failure(
            7,
            "oversized-input",
            "The input file exceeds its size limit",
        ),
        InputReadError::Unsupported => failure(
            7,
            "unsupported-input",
            "The input is not a readable regular file",
        ),
    }
}

/// How retrieval failed.
#[derive(Clone, Debug)]
pub enum RetrievalError {
    Empty,
    Deadline,
    Other(String),
}

pub fn retrieval_failure(error: &RetrievalError) -> (f: PipelineFailure)
    ensures
        f@ == (match *error {
            RetrievalError::Empty => failing(
                5,
                "retrieval-empty"@,
                "Quill retrieval yielded 0 matches"@,
            ),
            RetrievalError::Deadline => failing(6, "timeout"@, "Retrieval exceeded deadline"@),
            RetrievalError::Other(details) => failing(
                5,
                "retrieval-failure"@,
                "Retrieval error: "@ + details@,
            ),
        }),
{
    match error {
        RetrievalError::Empty => failure(
            5,
            "retrieval-empty",
            "Quill retrieval yielded 0 matches",
        ),
        RetrievalError::Deadline => failure(6, "timeout", "Retrieval exceeded deadline"),
        RetrievalError::Other(details) => failure_with(
            5,
            "retrieval-failure",
            "Retrieval error: ",
            details.as_str(),
        ),
    }
}

/// A retried stage never hides what stopped it: a policy change is reported as
/// such, and a stopped retry as its last transport failure, the same report
/// that the failure itself would get.
pub proof fn stopped_retries_report_their_cause(cause: TransportErrorKind)
    ensures
        stage_failure(RetryErrorKind::RetryStopped, Some(cause)) == transport_failure(cause),
        stage_failure(RetryErrorKind::Transport(cause), None) == transport_failure(cause),
{
}

/// Nothing is sent while the policy is anything but current and permitting.
pub proof fn sends_need_a_current_policy(
    found: Revalidation,
    refusal: Option<Refusal>,
    stage: SendStage,
)
    ensures
        send_failure(found, refusal, stage) is None <==> found is Current && refusal is None,
{
}

} // verus!
