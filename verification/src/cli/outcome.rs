//! How a command's outcome reaches the user.
use crate::json::{
    json_bool, json_count, json_object, json_text, member_views, push_member, Json, JsonView,
    Member,
};
use crate::output::{fallback_kind, kind_of_code, ErrorKind};
use crate::pipeline::document::count_view;
use crate::pipeline::failure::{
    failing, failing_as, failure, input_failure, FailureView, PipelineFailure,
};
use crate::text::{
    chars_of, contains_text, copy_text, join, same_text, texts, trim_start, trimmed_start,
};
use vstd::prelude::*;

verus! {

/// A kind of failure under its public label.
#[derive(Clone, Debug)]
pub struct KnownKind {
    pub label: String,
    pub kind: ErrorKind,
}

/// The kind of a label: the first that bears it, else the one that the exit
/// code stands for.
pub open spec fn kind_of(kinds: Seq<KnownKind>, label: Seq<char>, code: u8) -> ErrorKind
    decreases kinds.len(),
{
    if kinds.len() == 0 {
        kind_of_code(code)
    } else if kinds[0].label@ == label {
        kinds[0].kind
    } else {
        kind_of(kinds.drop_first(), label, code)
    }
}

fn find_kind(kinds: &Vec<KnownKind>, label: &str, code: u8) -> (kind: ErrorKind)
    ensures
        kind == kind_of(kinds@, label@, code),
{
    let mut i: usize = 0;
    assert(kinds@.skip(0) =~= kinds@);
    while i < kinds.len()
        invariant
            i <= kinds@.len(),
            kind_of(kinds@, label@, code) == kind_of(kinds@.skip(i as int), label@, code),
        decreases kinds@.len() - i,
    {
        assert(kinds@.skip(i as int)[0] == kinds@[i as int]);
        assert(kinds@.skip(i as int).drop_first() =~= kinds@.skip(i + 1));
        if same_text(kinds[i].label.as_str(), label) {
            return kinds[i].kind;
        }
        i += 1;
    }
    fallback_kind(code)
}

/// What is written of a failure.
#[derive(Clone, Debug)]
pub enum ErrorReport {
    /// The message is a whole document: write it to the output as it is.
    Document(String),
    /// Write a failure document to the output.
    Failure { kind: ErrorKind, message: String, hint: &'static str },
    /// Write a line to the diagnostics.
    Diagnostic(String),
}

pub enum ErrorReportView {
    Document(Seq<char>),
    Failure { kind: ErrorKind, message: Seq<char>, hint: Seq<char> },
    Diagnostic(Seq<char>),
}

impl View for ErrorReport {
    type V = ErrorReportView;

    open spec fn view(&self) -> ErrorReportView {
        match *self {
            ErrorReport::Document(text) => ErrorReportView::Document(text@),
            ErrorReport::Failure { kind, message, hint } => ErrorReportView::Failure {
                kind,
                message: message@,
                hint: hint@,
            },
            ErrorReport::Diagnostic(line) => ErrorReportView::Diagnostic(line@),
        }
    }
}

/// Does a text open an object?
pub open spec fn opens_object(text: Seq<char>) -> bool {
    trim_start(text).len() > 0 && trim_start(text)[0] == '{'
}

fn object_opens(text: &str) -> (r: bool)
    ensures
        r == opens_object(text@),
{
    let chars: Vec<char> = chars_of(text);
    let rest: &[char] = trimmed_start(chars.as_slice());
    rest.len() > 0 && rest[0] == '{'
}

/// Report a failure. `is_document` tells whether its message is an output
/// document; what does not open an object is none.
pub fn report_error(
    code: u8,
    kind: &str,
    message: &str,
    json: bool,
    is_document: bool,
    kinds: &Vec<KnownKind>,
) -> (report: ErrorReport)
    ensures
        report@ == (if !json {
            ErrorReportView::Diagnostic("sr: "@ + message@)
        } else if opens_object(message@) && is_document {
            ErrorReportView::Document(message@)
        } else {
            ErrorReportView::Failure {
                kind: kind_of(kinds@, kind@, code),
                message: message@,
                hint: "Use sr --help; inspect trusted-user and project configuration."@,
            }
        }),
{
    if !json {
        return ErrorReport::Diagnostic(join("sr: ", message));
    }
    if object_opens(message) && is_document {
        return ErrorReport::Document(copy_text(message));
    }
    ErrorReport::Failure {
        kind: find_kind(kinds, kind, code),
        message: copy_text(message),
        hint: "Use sr --help; inspect trusted-user and project configuration.",
    }
}

/// The error of a document.
pub open spec fn error_text(document: JsonView, key: Seq<char>) -> Option<Seq<char>> {
    match document.get("error"@) {
        Some(error) => error.text_at(key),
        None => None,
    }
}

/// The failure that an unavailable ranking ends in: under its own kind where
/// that is known, with the whole document as its message where the output is
/// JSON.
pub fn unavailable_failure(
    code: u8,
    document: &Json,
    rendered: &str,
    json: bool,
    known_kinds: &Vec<String>,
) -> (f: PipelineFailure)
    ensures
        ({
            let named = error_text(document@, "kind"@);
            let kind = if named is Some && texts(known_kinds@).contains(named->0) {
                named->0
            } else {
                "unavailable"@
            };
            let message = if json {
                rendered@
            } else {
                match error_text(document@, "message"@) {
                    Some(text) => text,
                    None => "Unavailable"@,
                }
            };
            f@ == failing(code, kind, message)
        }),
{
    let mut kind: &str = "unavailable";
    let mut message: &str = "Unavailable";
    match document.get("error") {
        Some(error) => {
            match error.text_at("kind") {
                Some(text) => {
                    if contains_text(known_kinds, text) {
                        kind = text;
                    }
                },
                None => {},
            }
            match error.text_at("message") {
                Some(text) => {
                    message = text;
                },
                None => {},
            }
        },
        None => {},
    }
    failure(
        code,
        kind,
        if json {
            rendered
        } else {
            message
        },
    )
}

/// A command that cannot be carried out, whatever is asked of it.
#[derive(Clone, Copy, Debug, PartialEq, Eq, Structural)]
pub enum CommandFault {
    /// The arguments do not parse.
    Arguments,
    /// A top-level flag beside a command.
    Misplaced,
    NoRuntime,
    /// The endpoint that the settings name is none.
    Endpoint,
    NoWorkspace,
    /// A comparison that could not be written out.
    Comparison,
    /// Snapshots cannot be saved here.
    NoExport,
}

pub open spec fn fault_view(fault: CommandFault) -> FailureView {
    match fault {
        CommandFault::Arguments => failing(
            2,
            "invalid-usage"@,
            "Unsupported or conflicting arguments; use --help"@,
        ),
        CommandFault::Misplaced => failing(
            2,
            "invalid-usage"@,
            "Top-level flags cannot accompany a command"@,
        ),
        CommandFault::NoRuntime => failing(6, "timeout"@, "Local runtime unavailable"@),
        CommandFault::Endpoint => failing(
            2,
            "invalid-configuration"@,
            "The endpoint override is not a valid origin"@,
        ),
        CommandFault::NoWorkspace => failing(
            5,
            "unusable-roster"@,
            "The workspace directory is unavailable"@,
        ),
        CommandFault::Comparison => failing(
            5,
            "unusable-roster"@,
            "The comparison could not be rendered"@,
        ),
        CommandFault::NoExport => failing(
            9,
            "storage-failure"@,
            "Snapshot export is not qualified on this platform"@,
        ),
    }
}

pub fn command_failure(fault: CommandFault) -> (f: PipelineFailure)
    ensures
        f@ == fault_view(fault),
{
    match fault {
        CommandFault::Arguments => failure(
            2,
            "invalid-usage",
            "Unsupported or conflicting arguments; use --help",
        ),
        CommandFault::Misplaced => failure(
            2,
            "invalid-usage",
            "Top-level flags cannot accompany a command",
        ),
        CommandFault::NoRuntime => failure(6, "timeout", "Local runtime unavailable"),
        CommandFault::Endpoint => failure(
            2,
            "invalid-configuration",
            "The endpoint override is not a valid origin",
        ),
        CommandFault::NoWorkspace => failure(
            5,
            "unusable-roster",
            "The workspace directory is unavailable",
        ),
        CommandFault::Comparison => failure(
            5,
            "unusable-roster",
            "The comparison could not be rendered",
        ),
        CommandFault::NoExport => failure(
            9,
            "storage-failure",
            "Snapshot export is not qualified on this platform",
        ),
    }
}

/// How the skill roots of a workspace could not be resolved.
#[derive(Clone, Copy, Debug, PartialEq, Eq, Structural)]
pub enum RosterFault {
    /// The roots could not be planned.
    Unplanned,
    NoRuntime,
    /// The deadline passed, or the run was cancelled.
    Late,
    Unresolved,
}

pub fn roster_failure(fault: RosterFault) -> (f: PipelineFailure)
    ensures
        f@ == (match fault {
            RosterFault::Unplanned => failing(
                5,
                "unusable-roster"@,
                "The documented skill roots could not be planned"@,
            ),
            RosterFault::NoRuntime => failing(
                5,
                "unusable-roster"@,
                "The local runtime is unavailable"@,
            ),
            RosterFault::Late => failing(6, "timeout"@, "Local inspection deadline exceeded"@),
            RosterFault::Unresolved => failing(
                5,
                "unusable-roster"@,
                "The roster could not be resolved"@,
            ),
        }),
{
    match fault {
        RosterFault::Unplanned => failure(
            5,
            "unusable-roster",
            "The documented skill roots could not be planned",
        ),
        RosterFault::NoRuntime => failure(
            5,
            "unusable-roster",
            "The local runtime is unavailable",
        ),
        RosterFault::Late => failure(6, "timeout", "Local inspection deadline exceeded"),
        RosterFault::Unresolved => failure(
            5,
            "unusable-roster",
            "The roster could not be resolved",
        ),
    }
}

/// How a snapshot could not be saved.
#[derive(Clone, Copy, Debug, PartialEq, Eq, Structural)]
pub enum ExportError {
    TargetAlreadyExists,
    Oversized,
    InvalidDirectory,
    Permissions,
    Io,
    Durability,
}

impl ExportError {
    pub open spec fn message_view(self) -> Seq<char> {
        match self {
            ExportError::TargetAlreadyExists =>
                "The snapshot target already exists; refusing to overwrite it"@,
            ExportError::Oversized => "The snapshot exceeds 32 MiB"@,
            ExportError::InvalidDirectory | ExportError::Permissions =>
                "The snapshot directory is missing or not private enough"@,
            ExportError::Io => "The snapshot could not be written"@,
            ExportError::Durability =>
                "The snapshot was published, but durability could not be confirmed; inspect the target before retrying"@,
        }
    }
}

/// Report a snapshot that could not be saved, under its public kind.
pub fn export_failure(error: ExportError, kind: &str) -> (f: PipelineFailure)
    ensures
        f@ == failing_as(kind@, error.message_view()),
{
    input_failure(
        kind,
        match error {
            ExportError::TargetAlreadyExists =>
                "The snapshot target already exists; refusing to overwrite it",
            ExportError::Oversized => "The snapshot exceeds 32 MiB",
            ExportError::InvalidDirectory | ExportError::Permissions =>
                "The snapshot directory is missing or not private enough",
            ExportError::Io => "The snapshot could not be written",
            ExportError::Durability =>
                "The snapshot was published, but durability could not be confirmed; inspect the target before retrying",
        },
    )
}

/// The receipt of a saved snapshot.
pub fn export_receipt(schema: &str, records: u64, snapshot: &str, partial: bool) -> (json: Json)
    ensures
        json@ == JsonView::Object(
            seq![
                ("exported"@, JsonView::Bool(true)),
                ("partial"@, JsonView::Bool(partial)),
                ("records"@, count_view(records as nat)),
                ("schema"@, JsonView::Text(schema@)),
                ("snapshot"@, JsonView::Text(snapshot@)),
            ],
        ),
{
    let mut members: Vec<Member> = Vec::new();
    push_member(&mut members, "exported", json_bool(true));
    push_member(&mut members, "partial", json_bool(partial));
    push_member(&mut members, "records", json_count(records));
    push_member(&mut members, "schema", json_text(schema));
    push_member(&mut members, "snapshot", json_text(snapshot));
    assert(member_views(members@) =~= seq![
        ("exported"@, JsonView::Bool(true)),
        ("partial"@, JsonView::Bool(partial)),
        ("records"@, count_view(records as nat)),
        ("schema"@, JsonView::Text(schema@)),
        ("snapshot"@, JsonView::Text(snapshot@)),
    ]);
    json_object(members)
}

} // verus!
