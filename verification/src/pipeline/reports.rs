//! How the failures and the local endings of a ranking are reported.
use crate::json::{
    json_array, json_count, json_object, json_text, json_views, member_views, push_member, Json,
    JsonView, Member,
};
use crate::pipeline::document::count_view;
use crate::pipeline::failure::{
    failing, failing_as, failing_with, failure, failure_with, input_failure, retry_failure,
    stage_failure, FailureView, PipelineFailure, RetryErrorKind, TransportErrorKind,
};
use crate::pipeline::flow::{Ending, StartRefusal};
use crate::pipeline::publication::{unresolved_message, unresolved_text};
use crate::text::{copy_text, decimal, decimal_text, join, optional_text, texts};
use vstd::prelude::*;

verus! {

/// How an action of a ranking failed. A text is what was reported from
/// outside.
#[derive(Clone, Debug)]
pub enum ActionFailure {
    /// No source, under its own public kind.
    Source { kind: String, message: String },
    /// The normalized context could not be read.
    InvalidContext(String),
    InputUnread,
    InputOversized,
    NoRuntime,
    NoRequestContext,
    Transcript(String),
    RosterFile(String),
    Plan(String),
    Import(String),
    Resolution(String),
    Explicit(String),
    /// The references that stay unresolved do not fit the document.
    Unresolved(String),
    Trace(String),
    Dependencies(String),
    /// A request that could not be built, under its own public kind.
    WideBuild { kind: String, details: String },
    RerankBuild { kind: String, details: String },
    Disclosure,
    Preview,
    Client(String),
    CredentialOrigin,
    Allowance,
    WideAnswer(String),
    RerankAnswer(String),
    Scoring(String),
    LateResult(String),
    Contract(String),
    /// Shortlist identities that a preview cannot take, with their limit.
    Shortlist { limit: u64 },
}

pub open spec fn action_failure(failed: ActionFailure) -> FailureView {
    match failed {
        ActionFailure::Source { kind, message } => failing_as(kind@, message@),
        ActionFailure::InvalidContext(details) => failing_with(
            7,
            "malformed-input"@,
            "Invalid normalized context: "@,
            details@,
        ),
        ActionFailure::InputUnread => failing(7, "malformed-input"@, "Failed to read context from stdin"@),
        ActionFailure::InputOversized => failing(7, "oversized-input"@, "Normalized context on stdin exceeds 1 MiB"@),
        ActionFailure::NoRuntime => failing(6, "timeout"@, "Deadline exceeded creating runtime"@),
        ActionFailure::NoRequestContext => failing(6, "timeout"@, "Deadline exceeded creating context"@),
        ActionFailure::Transcript(details) => failing_with(
            7,
            "malformed-input"@,
            "Transcript snapshot failed: "@,
            details@,
        ),
        ActionFailure::RosterFile(details) => failing_with(
            5,
            "unusable-roster"@,
            "Failed to read roster file: "@,
            details@,
        ),
        ActionFailure::Plan(details) => failing_with(
            5,
            "unusable-roster"@,
            "Failed to create discovery plan: "@,
            details@,
        ),
        ActionFailure::Import(details) => failing_with(
            5,
            "unusable-roster"@,
            "Failed to import roster: "@,
            details@,
        ),
        ActionFailure::Resolution(details) => failing_with(
            5,
            "unusable-roster"@,
            "Failed to resolve discovery plan: "@,
            details@,
        ),
        ActionFailure::Explicit(details) => failing_with(
            2,
            "invalid-usage"@,
            "Explicit resolution error: "@,
            details@,
        ),
        ActionFailure::Unresolved(details) => failing_with(
            5,
            "unresolved-explicit"@,
            "Contract error: "@,
            details@,
        ),
        ActionFailure::Trace(details) => failing_with(
            5,
            "contract-violation"@,
            "Trace contract error: "@,
            details@,
        ),
        ActionFailure::Dependencies(details) => failing_with(
            5,
            "unusable-roster"@,
            "Failed to capture dependencies: "@,
            details@,
        ),
        ActionFailure::WideBuild { kind, details } => failing_as(
            kind@,
            "Wide build failed: "@ + details@,
        ),
        ActionFailure::RerankBuild { kind, details } => failing_as(
            kind@,
            "Rerank build failed: "@ + details@,
        ),
        ActionFailure::Disclosure => failing_as("output-limit"@, "Disclosure receipt could not be encoded"@),
        ActionFailure::Preview => failing_as("output-limit"@, "The preview exceeds the output contract"@),
        ActionFailure::Client(details) => failing_with(
            2,
            "invalid-configuration"@,
            "Client init failed: "@,
            details@,
        ),
        ActionFailure::CredentialOrigin => failing(4, "authentication"@, "Credential origin mismatch"@),
        ActionFailure::Allowance => failing_as("budget-state"@, "The attempt allowance could not be opened"@),
        ActionFailure::WideAnswer(details) => failing_with(
            10,
            "invalid-provider-response"@,
            "Wide evaluation failed: "@,
            details@,
        ),
        ActionFailure::RerankAnswer(details) => failing_with(
            10,
            "invalid-provider-response"@,
            "Rerank evaluation failed: "@,
            details@,
        ),
        ActionFailure::Scoring(details) => failing_with(
            10,
            "invalid-provider-response"@,
            "Scoring failed: "@,
            details@,
        ),
        ActionFailure::LateResult(details) => failing_with(
            6,
            "timeout"@,
            "Runtime suppressed late result: "@,
            details@,
        ),
        ActionFailure::Contract(details) => failing_with(
            10,
            "invalid-provider-response"@,
            "Output contract validation failed: "@,
            details@,
        ),
        ActionFailure::Shortlist { limit } => failing_with(
            2,
            "invalid-usage"@,
            "Shortlist IDs must be distinct wide candidates, at most "@,
            decimal(limit as nat),
        ),
    }
}

/// Report the failure of an action.
pub fn report_action(failed: &ActionFailure) -> (f: PipelineFailure)
    ensures
        f@ == action_failure(*failed),
{
    match failed {
        ActionFailure::Source { kind, message } => input_failure(kind.as_str(), message.as_str()),
        ActionFailure::InvalidContext(details) => failure_with(
            7,
            "malformed-input",
            "Invalid normalized context: ",
            details.as_str(),
        ),
        ActionFailure::InputUnread => failure(7, "malformed-input", "Failed to read context from stdin"),
        ActionFailure::InputOversized => failure(7, "oversized-input", "Normalized context on stdin exceeds 1 MiB"),
        ActionFailure::NoRuntime => failure(6, "timeout", "Deadline exceeded creating runtime"),
        ActionFailure::NoRequestContext => failure(6, "timeout", "Deadline exceeded creating context"),
        ActionFailure::Transcript(details) => failure_with(
            7,
            "malformed-input",
            "Transcript snapshot failed: ",
            details.as_str(),
        ),
        ActionFailure::RosterFile(details) => failure_with(
            5,
            "unusable-roster",
            "Failed to read roster file: ",
            details.as_str(),
        ),
        ActionFailure::Plan(details) => failure_with(
            5,
            "unusable-roster",
            "Failed to create discovery plan: ",
            details.as_str(),
        ),
        ActionFailure::Import(details) => failure_with(
            5,
            "unusable-roster",
            "Failed to import roster: ",
            details.as_str(),
        ),
        ActionFailure::Resolution(details) => failure_with(
            5,
            "unusable-roster",
            "Failed to resolve discovery plan: ",
            details.as_str(),
        ),
        ActionFailure::Explicit(details) => failure_with(
            2,
            "invalid-usage",
            "Explicit resolution error: ",
            details.as_str(),
        ),
        ActionFailure::Unresolved(details) => failure_with(
            5,
            "unresolved-explicit",
            "Contract error: ",
            details.as_str(),
        ),
        ActionFailure::Trace(details) => failure_with(
            5,
            "contract-violation",
            "Trace contract error: ",
            details.as_str(),
        ),
        ActionFailure::Dependencies(details) => failure_with(
            5,
            "unusable-roster",
            "Failed to capture dependencies: ",
            details.as_str(),
        ),
        ActionFailure::WideBuild { kind, details } => input_failure(
            kind.as_str(),
            join("Wide build failed: ", details.as_str()).as_str(),
        ),
        ActionFailure::RerankBuild { kind, details } => input_failure(
            kind.as_str(),
            join("Rerank build failed: ", details.as_str()).as_str(),
        ),
        ActionFailure::Disclosure => input_failure("output-limit", "Disclosure receipt could not be encoded"),
        ActionFailure::Preview => input_failure("output-limit", "The preview exceeds the output contract"),
        ActionFailure::Client(details) => failure_with(
            2,
            "invalid-configuration",
            "Client init failed: ",
            details.as_str(),
        ),
        ActionFailure::CredentialOrigin => failure(4, "authentication", "Credential origin mismatch"),
        ActionFailure::Allowance => input_failure("budget-state", "The attempt allowance could not be opened"),
        ActionFailure::WideAnswer(details) => failure_with(
            10,
            "invalid-provider-response",
            "Wide evaluation failed: ",
            details.as_str(),
        ),
        ActionFailure::RerankAnswer(details) => failure_with(
            10,
            "invalid-provider-response",
            "Rerank evaluation failed: ",
            details.as_str(),
        ),
        ActionFailure::Scoring(details) => failure_with(
            10,
            "invalid-provider-response",
            "Scoring failed: ",
            details.as_str(),
        ),
        ActionFailure::LateResult(details) => failure_with(
            6,
            "timeout",
            "Runtime suppressed late result: ",
            details.as_str(),
        ),
        ActionFailure::Contract(details) => failure_with(
            10,
            "invalid-provider-response",
            "Output contract validation failed: ",
            details.as_str(),
        ),
        ActionFailure::Shortlist { limit } => failure_with(
            2,
            "invalid-usage",
            "Shortlist IDs must be distinct wide candidates, at most ",
            decimal_text(*limit).as_str(),
        ),
    }
}

/// The failure of a provider stage. A changed policy is reported as the
/// refusal that it caused, where there is one.
pub fn provider_failure(
    kind: &RetryErrorKind,
    last: &Option<TransportErrorKind>,
    refusal: Option<PipelineFailure>,
) -> (f: PipelineFailure)
    ensures
        f@ == (if *kind is PolicyChanged && refusal is Some {
            refusal->0@
        } else {
            stage_failure(*kind, *last)
        }),
{
    match (kind, refusal) {
        (RetryErrorKind::PolicyChanged, Some(refused)) => refused,
        _ => retry_failure(kind, last),
    }
}

pub open spec fn start_failure(refusal: StartRefusal, conflict: Option<Seq<char>>) -> FailureView {
    failing(
        2,
        "invalid-usage"@,
        match refusal {
            StartRefusal::ConflictingFlags => match conflict {
                Some(text) => text,
                None => "conflicting effect flags"@,
            },
            StartRefusal::ShortlistWithoutPreview =>
                "Shortlist IDs are stage-2 evidence for --dry-run only"@,
        },
    )
}

/// Report a ranking that may not start, with the first conflict among its
/// effects.
pub fn report_start(refusal: StartRefusal, conflict: &Option<String>) -> (f: PipelineFailure)
    ensures
        f@ == start_failure(refusal, optional_text(*conflict)),
{
    match refusal {
        StartRefusal::ConflictingFlags => match conflict {
            Some(text) => failure(2, "invalid-usage", text.as_str()),
            None => failure(2, "invalid-usage", "conflicting effect flags"),
        },
        StartRefusal::ShortlistWithoutPreview => failure(
            2,
            "invalid-usage",
            "Shortlist IDs are stage-2 evidence for --dry-run only",
        ),
    }
}

/// What a ranking that ends without a ranked or explicit result says.
#[derive(Clone, Debug)]
pub enum Closing {
    /// It abstains for this reason.
    Abstains(String),
    /// It is unavailable: the public kind, the message and a hint.
    Unavailable { kind: String, message: String, hint: String },
    /// Another document tells how it ended.
    Elsewhere,
}

pub enum ClosingView {
    Abstains(Seq<char>),
    Unavailable { kind: Seq<char>, message: Seq<char>, hint: Seq<char> },
    Elsewhere,
}

impl View for Closing {
    type V = ClosingView;

    open spec fn view(&self) -> ClosingView {
        match *self {
            Closing::Abstains(reason) => ClosingView::Abstains(reason@),
            Closing::Unavailable { kind, message, hint } => ClosingView::Unavailable {
                kind: kind@,
                message: message@,
                hint: hint@,
            },
            Closing::Elsewhere => ClosingView::Elsewhere,
        }
    }
}

pub open spec fn closing_of(
    ending: Ending,
    kind: Seq<char>,
    reason: Seq<char>,
    targets: Seq<Seq<char>>,
) -> ClosingView {
    match ending {
        Ending::AdmissionAbstains => ClosingView::Abstains(reason),
        Ending::RerankAbstains => ClosingView::Abstains(reason),
        Ending::NoShortlistMatch => ClosingView::Abstains("no-shortlist-match"@),
        Ending::LowNeed => ClosingView::Abstains("low-need"@),
        Ending::EmptyRoster => ClosingView::Unavailable {
            kind: "empty-roster"@,
            message: "No eligible skills found in roster"@,
            hint: "Check skill directory paths or frontmatter syntax."@,
        },
        Ending::AdmissionUnavailable => ClosingView::Unavailable {
            kind,
            message: "Candidate unavailable: "@ + reason,
            hint: "Check candidate eligibility and loaded state."@,
        },
        Ending::RerankUnavailable => ClosingView::Unavailable {
            kind,
            message: "Candidate unavailable after rerank: "@ + reason,
            hint: "Check candidate eligibility after rerank."@,
        },
        Ending::Unresolved => ClosingView::Unavailable {
            kind: "unresolved-explicit"@,
            message: unresolved_text(targets),
            hint: "Inspect available skills in the roster or configure skill roots."@,
        },
        _ => ClosingView::Elsewhere,
    }
}

/// What an ending says, given the verdict's reason with its public kind, and
/// the explicit targets that stay unresolved.
pub fn closing(ending: Ending, kind: &str, reason: &str, targets: &Vec<String>) -> (c: Closing)
    ensures
        c@ == closing_of(ending, kind@, reason@, texts(targets@)),
{
    match ending {
        Ending::AdmissionAbstains => Closing::Abstains(copy_text(reason)),
        Ending::RerankAbstains => Closing::Abstains(copy_text(reason)),
        Ending::NoShortlistMatch => Closing::Abstains(copy_text("no-shortlist-match")),
        Ending::LowNeed => Closing::Abstains(copy_text("low-need")),
        Ending::EmptyRoster => Closing::Unavailable {
            kind: copy_text("empty-roster"),
            message: copy_text("No eligible skills found in roster"),
            hint: copy_text("Check skill directory paths or frontmatter syntax."),
        },
        Ending::AdmissionUnavailable => Closing::Unavailable {
            kind: copy_text(kind),
            message: join("Candidate unavailable: ", reason),
            hint: copy_text("Check candidate eligibility and loaded state."),
        },
        Ending::RerankUnavailable => Closing::Unavailable {
            kind: copy_text(kind),
            message: join("Candidate unavailable after rerank: ", reason),
            hint: copy_text("Check candidate eligibility after rerank."),
        },
        Ending::Unresolved => Closing::Unavailable {
            kind: copy_text("unresolved-explicit"),
            message: unresolved_message(targets),
            hint: copy_text("Inspect available skills in the roster or configure skill roots."),
        },
        _ => Closing::Elsewhere,
    }
}

/// What a wide request left out to fit.
#[derive(Clone, Copy, Debug, PartialEq, Eq, Structural)]
pub struct Trimming {
    pub dropped_messages: u64,
    pub description_cap: u64,
    pub omitted_description_scalars: u64,
    pub redactions: u64,
}

pub open spec fn trimming_json(t: Trimming) -> JsonView {
    JsonView::Object(
        seq![
            ("description_cap"@, count_view(t.description_cap as nat)),
            ("dropped_messages"@, count_view(t.dropped_messages as nat)),
            ("omitted_description_scalars"@, count_view(t.omitted_description_scalars as nat)),
            ("redactions"@, count_view(t.redactions as nat)),
        ],
    )
}

fn trimming_value(t: Trimming) -> (json: Json)
    ensures
        json@ == trimming_json(t),
{
    let mut members: Vec<Member> = Vec::new();
    push_member(&mut members, "description_cap", json_count(t.description_cap));
    push_member(&mut members, "dropped_messages", json_count(t.dropped_messages));
    push_member(
        &mut members,
        "omitted_description_scalars",
        json_count(t.omitted_description_scalars),
    );
    push_member(&mut members, "redactions", json_count(t.redactions));
    assert(member_views(members@) =~= trimming_json(t)->Object_0);
    json_object(members)
}

pub open spec fn previewed_request(
    model: Seq<char>,
    stages: Seq<JsonView>,
    trimming: Trimming,
) -> JsonView {
    JsonView::Object(
        seq![
            ("model"@, JsonView::Text(model)),
            ("stages"@, JsonView::Array(stages)),
            ("trimming"@, trimming_json(trimming)),
        ],
    )
}

/// The requests that a dry run previews.
pub fn preview_request(model: &str, stages: Vec<Json>, trimming: Trimming) -> (json: Json)
    ensures
        json@ == previewed_request(model@, json_views(stages@), trimming),
{
    let ghost expected = previewed_request(model@, json_views(stages@), trimming);
    let mut members: Vec<Member> = Vec::new();
    push_member(&mut members, "model", json_text(model));
    push_member(&mut members, "stages", json_array(stages));
    push_member(&mut members, "trimming", trimming_value(trimming));
    assert(member_views(members@) =~= expected->Object_0);
    json_object(members)
}

/// Exactly the endings that publish neither a ranked nor an explicit result,
/// a preview nor a failure have a closing of their own.
pub proof fn every_local_ending_says_why(
    ending: Ending,
    kind: Seq<char>,
    reason: Seq<char>,
    targets: Seq<Seq<char>>,
)
    ensures
        closing_of(ending, kind, reason, targets) is Elsewhere <==> ending is Failed
            || ending is Explicit || ending is Preview || ending is Ranked,
{
}

} // verus!
