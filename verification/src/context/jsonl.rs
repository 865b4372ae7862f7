//! Bounded native JSONL snapshots and cursor generations.
//!
//! A snapshot covers the complete records of a file at one length and defers
//! an incomplete final line. Replacement, truncation and a changed parser
//! version rebuild bounded state instead of continuing from an invalid offset.
//! Ranking tails and observation deltas use distinct cursors and caps. Neither
//! cursor advances across unprocessed bytes.
use crate::context::{
    event_views, EventKind, EventView, NormalizedEvent, Role, ToolEvent, ToolStatus, ToolView,
};
use crate::identity::{is_identifier, valid_identifier};
use crate::json::{decoded, parsed_json, DecodeError, Json, JsonView};
use crate::runtime::RuntimeError;
use crate::text::{copy_optional, copy_text, optional_text, same_text};
use vstd::prelude::*;
use vstd::slice::slice_subrange;

pub mod records;

verus! {

pub const PARSER_VERSION: u32 = 1;

/// The bounds within which transcripts are read.
#[derive(Clone, Copy, Debug)]
pub struct TranscriptLimits {
    pub tail_bytes: u64,
    pub tail_records: usize,
    pub observation_bytes: u64,
    pub record_bytes: usize,
}

#[derive(Clone, Copy, Debug, PartialEq, Eq, Structural)]
pub enum CursorKind {
    Ranking,
    Observation,
}

impl CursorKind {
    pub open spec fn byte_cap_spec(self, limits: TranscriptLimits) -> u64 {
        match self {
            CursorKind::Ranking => limits.tail_bytes,
            CursorKind::Observation => limits.observation_bytes,
        }
    }

    pub fn byte_cap(self, limits: &TranscriptLimits) -> (cap: u64)
        ensures
            cap == self.byte_cap_spec(*limits),
    {
        match self {
            CursorKind::Ranking => limits.tail_bytes,
            CursorKind::Observation => limits.observation_bytes,
        }
    }

    pub fn record_cap(self, limits: &TranscriptLimits) -> (cap: usize)
        ensures
            cap == limits.tail_records,
    {
        limits.tail_records
    }
}

#[derive(Clone, Copy, Debug, PartialEq, Eq, Structural)]
pub struct FileIdentity {
    pub dev: u64,
    pub ino: u64,
}

#[derive(Clone, Debug)]
pub struct JsonlCursor {
    pub kind: CursorKind,
    pub identity: FileIdentity,
    pub generation: u64,
    pub byte_offset: u64,
    pub last_event_id: Option<String>,
    pub parser_version: u32,
}

#[derive(Clone, Copy, Debug, PartialEq, Eq, Structural)]
pub enum SkipKind {
    Oversize,
    Corrupt,
    DuplicateKey,
    /// A record of the harness's own that carries no conversation.
    Unmodeled,
}

#[derive(Clone, Copy, Debug, PartialEq, Eq, Structural)]
pub struct SkippedRecord {
    pub byte_offset: u64,
    pub kind: SkipKind,
}

#[derive(Clone, Debug)]
pub struct JsonlSnapshot {
    pub cursor: JsonlCursor,
    pub events: Vec<NormalizedEvent>,
    pub incomplete_tail: bool,
    pub truncated_history: bool,
    pub missing_tool_counterpart: bool,
    pub unread_backlog: bool,
    pub rebuilt: bool,
    pub skipped: Vec<SkippedRecord>,
}

#[derive(Clone, Copy, Debug, PartialEq, Eq, Structural)]
pub enum JsonlError {
    UnsafePath,
    Io,
    Deadline,
    Cancelled,
}

impl JsonlError {
    pub open spec fn text(self) -> Seq<char> {
        match self {
            JsonlError::UnsafePath => "transcript path is not a regular file"@,
            JsonlError::Io => "transcript could not be read"@,
            JsonlError::Deadline => "transcript read reached the cleanup reserve"@,
            JsonlError::Cancelled => "transcript read cancelled"@,
        }
    }

    /// What stopping an invocation means for a transcript that it reads.
    pub fn from_runtime(error: RuntimeError) -> (r: JsonlError)
        ensures
            r == (match error {
                RuntimeError::Cancelled => JsonlError::Cancelled,
                RuntimeError::LateResultSuppressed => JsonlError::Cancelled,
                RuntimeError::Deadline(_) => JsonlError::Deadline,
                RuntimeError::StdinTimeout => JsonlError::Deadline,
                _ => JsonlError::Io,
            }),
    {
        match error {
            RuntimeError::Cancelled => JsonlError::Cancelled,
            RuntimeError::LateResultSuppressed => JsonlError::Cancelled,
            RuntimeError::Deadline(_) => JsonlError::Deadline,
            RuntimeError::StdinTimeout => JsonlError::Deadline,
            _ => JsonlError::Io,
        }
    }

    pub fn as_str(self) -> (text: &'static str)
        ensures
            text@ == self.text(),
    {
        match self {
            JsonlError::UnsafePath => "transcript path is not a regular file",
            JsonlError::Io => "transcript could not be read",
            JsonlError::Deadline => "transcript read reached the cleanup reserve",
            JsonlError::Cancelled => "transcript read cancelled",
        }
    }
}

/// Which bytes to read of a file, and what its next cursor starts from.
#[derive(Clone, Debug)]
pub struct ReadPlan {
    pub start: u64,
    pub to_read: u64,
    pub align_to_record: bool,
    pub context: WindowContext,
}

/// What a window is read for, beyond its bytes.
#[derive(Clone, Debug)]
pub struct WindowContext {
    pub identity: FileIdentity,
    pub kind: CursorKind,
    pub generation: u64,
    pub last_event_id: Option<String>,
    pub truncated_history: bool,
    pub unread_backlog: bool,
    pub rebuilt: bool,
}

/// A previous cursor from which reading may go on.
pub open spec fn continues(
    cursor: JsonlCursor,
    identity: FileIdentity,
    kind: CursorKind,
    snapshot_len: u64,
) -> bool {
    cursor.parser_version == PARSER_VERSION && cursor.identity == identity && cursor.kind == kind
        && snapshot_len >= cursor.byte_offset
}

/// Generations start at one, grow by one at each rebuild, and saturate.
pub open spec fn next_generation(previous: Option<JsonlCursor>, rebuilt: bool) -> int {
    match previous {
        None => 1,
        Some(cursor) => if rebuilt && cursor.generation < u64::MAX {
            cursor.generation + 1
        } else if cursor.generation < 1 {
            1
        } else {
            cursor.generation as int
        },
    }
}

fn generation_after(previous: &Option<JsonlCursor>, rebuilt: bool) -> (generation: u64)
    ensures
        generation == next_generation(*previous, rebuilt),
{
    match previous {
        None => 1,
        Some(cursor) => {
            let generation: u64 = if rebuilt && cursor.generation < u64::MAX {
                cursor.generation + 1
            } else {
                cursor.generation
            };
            if generation < 1 {
                1
            } else {
                generation
            }
        },
    }
}

/// The read that goes on from a cursor, or begins again.
pub open spec fn is_read_plan(
    plan: ReadPlan,
    previous: Option<JsonlCursor>,
    identity: FileIdentity,
    kind: CursorKind,
    snapshot_len: u64,
    limits: TranscriptLimits,
) -> bool {
    let cap = kind.byte_cap_spec(limits);
    let goes_on = previous is Some && continues(
        previous->0,
        identity,
        kind,
        snapshot_len,
    );
    let start: int = if goes_on {
        previous->0.byte_offset as int
    } else if kind == CursorKind::Ranking && snapshot_len > cap {
        snapshot_len - cap
    } else {
        0
    };
    let available = snapshot_len - start;
    &&& plan.start == start
    &&& plan.to_read == (if available < cap {
        available
    } else {
        cap as int
    })
    &&& plan.align_to_record == (!goes_on && kind == CursorKind::Ranking && start > 0)
    &&& plan.context.identity == identity
    &&& plan.context.kind == kind
    &&& plan.context.rebuilt == (previous is Some && !goes_on)
    &&& plan.context.generation == next_generation(previous, plan.context.rebuilt)
    &&& optional_text(plan.context.last_event_id) == (if goes_on {
        optional_text(previous->0.last_event_id)
    } else {
        None
    })
    &&& plan.context.truncated_history == (start > 0)
    &&& plan.context.unread_backlog == (available > cap)
}

/// Decide which part of a file of `snapshot_len` bytes to read.
pub fn plan_read(
    previous: &Option<JsonlCursor>,
    identity: FileIdentity,
    kind: CursorKind,
    snapshot_len: u64,
    limits: &TranscriptLimits,
) -> (plan: ReadPlan)
    ensures
        is_read_plan(plan, *previous, identity, kind, snapshot_len, *limits),
        plan.start + plan.to_read <= snapshot_len,
{
    let cap: u64 = kind.byte_cap(limits);
    let goes_on: bool = match previous {
        Some(cursor) => cursor.parser_version == PARSER_VERSION && cursor.identity == identity
            && cursor.kind == kind && snapshot_len >= cursor.byte_offset,
        None => false,
    };
    let (start, last_event_id): (u64, Option<String>) = match previous {
        Some(cursor) if goes_on => (cursor.byte_offset, copy_optional(&cursor.last_event_id)),
        _ => {
            let start: u64 = match kind {
                CursorKind::Ranking => if snapshot_len > cap {
                    snapshot_len - cap
                } else {
                    0
                },
                CursorKind::Observation => 0,
            };
            (start, None)
        },
    };
    let rebuilt: bool = previous.is_some() && !goes_on;
    let available: u64 = snapshot_len - start;
    let to_read: u64 = if available < cap {
        available
    } else {
        cap
    };
    ReadPlan {
        start,
        to_read,
        align_to_record: !goes_on && kind == CursorKind::Ranking && start > 0,
        context: WindowContext {
            identity,
            kind,
            generation: generation_after(previous, rebuilt),
            last_event_id,
            truncated_history: start > 0,
            unread_backlog: available > to_read,
            rebuilt,
        },
    }
}

/// A rebuilt cursor never keeps the generation of the one that it replaces,
/// short of the largest number.
pub proof fn rebuild_raises_the_generation(previous: JsonlCursor)
    requires
        previous.generation < u64::MAX,
    ensures
        next_generation(Some(previous), true) > previous.generation,
        next_generation(Some(previous), false) >= previous.generation,
{
}

/// The role and kind that a native record type stands for.
pub open spec fn native_type(name: Seq<char>) -> (Role, EventKind) {
    if name == "user"@ {
        (Role::User, EventKind::Message)
    } else if name == "assistant"@ {
        (Role::Assistant, EventKind::Message)
    } else if name == "tool_use"@ || name == "tool_invocation"@ {
        (Role::Tool, EventKind::ToolInvocation)
    } else if name == "tool_result"@ {
        (Role::Tool, EventKind::ToolResult)
    } else if name == "compaction"@ {
        (Role::System, EventKind::Compaction)
    } else if name == "resume"@ {
        (Role::System, EventKind::Resume)
    } else {
        (Role::System, EventKind::Message)
    }
}

fn map_native_type(name: &str) -> (r: (Role, EventKind))
    ensures
        r == native_type(name@),
{
    if same_text(name, "user") {
        (Role::User, EventKind::Message)
    } else if same_text(name, "assistant") {
        (Role::Assistant, EventKind::Message)
    } else if same_text(name, "tool_use") || same_text(name, "tool_invocation") {
        (Role::Tool, EventKind::ToolInvocation)
    } else if same_text(name, "tool_result") {
        (Role::Tool, EventKind::ToolResult)
    } else if same_text(name, "compaction") {
        (Role::System, EventKind::Compaction)
    } else if same_text(name, "resume") {
        (Role::System, EventKind::Resume)
    } else {
        (Role::System, EventKind::Message)
    }
}

/// The text under the first of two keys that has one.
pub open spec fn either_text(value: JsonView, first: Seq<char>, second: Seq<char>) -> Option<
    Seq<char>,
> {
    if value.text_at(first) is Some {
        value.text_at(first)
    } else {
        value.text_at(second)
    }
}

/// A text that is an identifier, else nothing.
pub open spec fn identifier_or_none(text: Option<Seq<char>>) -> Option<Seq<char>> {
    if text is Some && is_identifier(text->0) {
        text
    } else {
        None
    }
}

fn string_field<'a>(value: &'a Json, first: &str, second: &str) -> (text: Option<&'a str>)
    ensures
        match text {
            Some(t) => either_text(value@, first@, second@) == Some(t@),
            None => either_text(value@, first@, second@) is None,
        },
{
    match value.text_at(first) {
        Some(text) => Some(text),
        None => value.text_at(second),
    }
}

fn id_field(value: &Json, first: &str, second: &str) -> (id: Option<String>)
    ensures
        optional_text(id) == identifier_or_none(either_text(value@, first@, second@)),
{
    match string_field(value, first, second) {
        Some(text) => if valid_identifier(text) {
            Some(copy_text(text))
        } else {
            None
        },
        None => None,
    }
}

/// The prose of a native record.
pub open spec fn native_text_of(value: JsonView) -> Seq<char> {
    if value.text_at("text"@) is Some {
        value.text_at("text"@)->0
    } else {
        match value.get("message"@) {
            Some(JsonView::Text(text)) => text,
            Some(message) => match message.text_at("content"@) {
                Some(content) => content,
                None => ""@,
            },
            None => ""@,
        }
    }
}

fn native_text(value: &Json) -> (text: String)
    ensures
        text@ == native_text_of(value@),
{
    match value.text_at("text") {
        Some(text) => {
            return copy_text(text);
        },
        None => {},
    }
    match value.get("message") {
        Some(message) => match message.as_str() {
            Some(text) => copy_text(text),
            None => match message.text_at("content") {
                Some(content) => copy_text(content),
                None => copy_text(""),
            },
        },
        None => copy_text(""),
    }
}

/// The tool evidence of a native record.
pub open spec fn native_tool_of(value: JsonView, kind: EventKind) -> Option<ToolView> {
    if kind == EventKind::ToolInvocation || kind == EventKind::ToolResult {
        Some(
            ToolView {
                call_id: identifier_or_none(either_text(value, "call_id"@, "tool_use_id"@)),
                name: match either_text(value, "name"@, "tool_name"@) {
                    Some(name) => name,
                    None => "tool"@,
                },
                status: if kind == EventKind::ToolResult {
                    ToolStatus::Unknown
                } else {
                    ToolStatus::Attempted
                },
                arguments: None,
                result: None,
            },
        )
    } else {
        None
    }
}

fn native_tool(value: &Json, kind: EventKind) -> (tool: Option<ToolEvent>)
    ensures
        crate::context::optional_tool(tool) == native_tool_of(value@, kind),
{
    if kind != EventKind::ToolInvocation && kind != EventKind::ToolResult {
        return None;
    }
    let name: String = match string_field(value, "name", "tool_name") {
        Some(name) => copy_text(name),
        None => copy_text("tool"),
    };
    Some(
        ToolEvent {
            call_id: id_field(value, "call_id", "tool_use_id"),
            name,
            status: if kind == EventKind::ToolResult {
                ToolStatus::Unknown
            } else {
                ToolStatus::Attempted
            },
            arguments: None,
            result: None,
        },
    )
}

/// The event of a record in a harness's own format.
pub open spec fn native_event(value: JsonView) -> EventView {
    let (role, kind) = native_type(
        match value.text_at("type"@) {
            Some(name) => name,
            None => "message"@,
        },
    );
    EventView {
        event_id: identifier_or_none(either_text(value, "event_id"@, "uuid"@)),
        parent_id: identifier_or_none(either_text(value, "parent_id"@, "parentUuid"@)),
        turn_id: identifier_or_none(value.text_at("turn_id"@)),
        agent_id: None,
        branch_id: None,
        role,
        kind,
        timestamp_unix_ms: match value.get("timestamp_unix_ms"@) {
            Some(time) => time.signed(),
            None => None,
        },
        text: native_text_of(value),
        tool: native_tool_of(value, kind),
    }
}

/// A field that may be absent or null: its text, or nothing where it has none;
/// `Err` where it holds anything else.
pub open spec fn optional_field(value: JsonView, key: Seq<char>) -> Result<Option<Seq<char>>, ()> {
    match value.get(key) {
        None => Ok(None),
        Some(JsonView::Null) => Ok(None),
        Some(JsonView::Text(text)) => Ok(Some(text)),
        Some(_) => Err(()),
    }
}

/// An optional field whose text must be an identifier.
pub open spec fn optional_id(value: JsonView, key: Seq<char>) -> Result<Option<Seq<char>>, ()> {
    match optional_field(value, key) {
        Ok(Some(text)) => if is_identifier(text) {
            Ok(Some(text))
        } else {
            Err(())
        },
        other => other,
    }
}

fn read_optional(value: &Json, key: &str) -> (r: Result<Option<String>, ()>)
    ensures
        match r {
            Ok(text) => optional_field(value@, key@) == Ok::<Option<Seq<char>>, ()>(
                optional_text(text),
            ),
            Err(_) => optional_field(value@, key@) is Err,
        },
{
    match value.get(key) {
        None => Ok(None),
        Some(field) => match field {
            Json::Null => Ok(None),
            Json::Text(text) => Ok(Some(copy_text(text.as_str()))),
            _ => Err(()),
        },
    }
}

fn read_optional_id(value: &Json, key: &str) -> (r: Result<Option<String>, ()>)
    ensures
        match r {
            Ok(text) => optional_id(value@, key@) == Ok::<Option<Seq<char>>, ()>(
                optional_text(text),
            ),
            Err(_) => optional_id(value@, key@) is Err,
        },
{
    match read_optional(value, key) {
        Ok(Some(text)) => if valid_identifier(text.as_str()) {
            Ok(Some(text))
        } else {
            Err(())
        },
        other => other,
    }
}

pub open spec fn role_named(name: Option<Seq<char>>) -> Option<Role> {
    match name {
        None => None,
        Some(name) => if name == "user"@ {
            Some(Role::User)
        } else if name == "assistant"@ {
            Some(Role::Assistant)
        } else if name == "tool"@ {
            Some(Role::Tool)
        } else if name == "system"@ {
            Some(Role::System)
        } else {
            None
        },
    }
}

pub open spec fn kind_named(name: Option<Seq<char>>) -> Option<EventKind> {
    match name {
        None => None,
        Some(name) => if name == "message"@ {
            Some(EventKind::Message)
        } else if name == "tool_invocation"@ {
            Some(EventKind::ToolInvocation)
        } else if name == "tool_result"@ {
            Some(EventKind::ToolResult)
        } else if name == "compaction"@ {
            Some(EventKind::Compaction)
        } else if name == "resume"@ {
            Some(EventKind::Resume)
        } else if name == "task_boundary"@ {
            Some(EventKind::TaskBoundary)
        } else {
            None
        },
    }
}

pub open spec fn status_named(name: Option<Seq<char>>) -> Option<ToolStatus> {
    match name {
        None => None,
        Some(name) => if name == "attempted"@ {
            Some(ToolStatus::Attempted)
        } else if name == "succeeded"@ {
            Some(ToolStatus::Succeeded)
        } else if name == "failed"@ {
            Some(ToolStatus::Failed)
        } else if name == "unknown"@ {
            Some(ToolStatus::Unknown)
        } else {
            None
        },
    }
}

fn read_role(value: &Json) -> (role: Option<Role>)
    ensures
        role == role_named(value@.text_at("role"@)),
{
    match value.text_at("role") {
        None => None,
        Some(name) => if same_text(name, "user") {
            Some(Role::User)
        } else if same_text(name, "assistant") {
            Some(Role::Assistant)
        } else if same_text(name, "tool") {
            Some(Role::Tool)
        } else if same_text(name, "system") {
            Some(Role::System)
        } else {
            None
        },
    }
}

fn read_kind(value: &Json) -> (kind: Option<EventKind>)
    ensures
        kind == kind_named(value@.text_at("kind"@)),
{
    match value.text_at("kind") {
        None => None,
        Some(name) => if same_text(name, "message") {
            Some(EventKind::Message)
        } else if same_text(name, "tool_invocation") {
            Some(EventKind::ToolInvocation)
        } else if same_text(name, "tool_result") {
            Some(EventKind::ToolResult)
        } else if same_text(name, "compaction") {
            Some(EventKind::Compaction)
        } else if same_text(name, "resume") {
            Some(EventKind::Resume)
        } else if same_text(name, "task_boundary") {
            Some(EventKind::TaskBoundary)
        } else {
            None
        },
    }
}

fn read_status(value: &Json) -> (status: Option<ToolStatus>)
    ensures
        status == status_named(value@.text_at("status"@)),
{
    match value.text_at("status") {
        None => None,
        Some(name) => if same_text(name, "attempted") {
            Some(ToolStatus::Attempted)
        } else if same_text(name, "succeeded") {
            Some(ToolStatus::Succeeded)
        } else if same_text(name, "failed") {
            Some(ToolStatus::Failed)
        } else if same_text(name, "unknown") {
            Some(ToolStatus::Unknown)
        } else {
            None
        },
    }
}

/// The tool part of a normalized record.
pub open spec fn normalized_tool(value: JsonView) -> Result<Option<ToolView>, ()> {
    match value.get("tool"@) {
        None => Ok(None),
        Some(JsonView::Null) => Ok(None),
        Some(tool) => match (
            optional_id(tool, "call_id"@),
            tool.text_at("name"@),
            status_named(tool.text_at("status"@)),
            optional_field(tool, "arguments"@),
            optional_field(tool, "result"@),
        ) {
            (Ok(call_id), Some(name), Some(status), Ok(arguments), Ok(result)) => Ok(
                Some(ToolView { call_id, name, status, arguments, result }),
            ),
            _ => Err(()),
        },
    }
}

fn read_tool(value: &Json) -> (r: Result<Option<ToolEvent>, ()>)
    ensures
        match r {
            Ok(tool) => normalized_tool(value@) == Ok::<Option<ToolView>, ()>(
                crate::context::optional_tool(tool),
            ),
            Err(_) => normalized_tool(value@) is Err,
        },
{
    let tool: &Json = match value.get("tool") {
        None => {
            return Ok(None);
        },
        Some(tool) => match tool {
            Json::Null => {
                return Ok(None);
            },
            other => other,
        },
    };
    match (
        read_optional_id(tool, "call_id"),
        tool.text_at("name"),
        read_status(tool),
        read_optional(tool, "arguments"),
        read_optional(tool, "result"),
    ) {
        (Ok(call_id), Some(name), Some(status), Ok(arguments), Ok(result)) => Ok(
            Some(ToolEvent { call_id, name: copy_text(name), status, arguments, result }),
        ),
        _ => Err(()),
    }
}

/// A signed time, which may be absent or null.
pub open spec fn normalized_time(value: JsonView) -> Result<Option<i64>, ()> {
    match value.get("timestamp_unix_ms"@) {
        None => Ok(None),
        Some(JsonView::Null) => Ok(None),
        Some(time) => match time.signed() {
            Some(ms) => Ok(Some(ms)),
            None => Err(()),
        },
    }
}

fn read_time(value: &Json) -> (r: Result<Option<i64>, ()>)
    ensures
        r == normalized_time(value@),
{
    match value.get("timestamp_unix_ms") {
        None => Ok(None),
        Some(time) => match time {
            Json::Null => Ok(None),
            other => match other.as_i64() {
                Some(ms) => Ok(Some(ms)),
                None => Err(()),
            },
        },
    }
}

/// The event of a record that is already normalized.
pub open spec fn normalized_event(value: JsonView) -> Option<EventView> {
    match (
        optional_id(value, "event_id"@),
        optional_id(value, "parent_id"@),
        optional_id(value, "turn_id"@),
        optional_id(value, "agent_id"@),
        optional_id(value, "branch_id"@),
    ) {
        (Ok(event_id), Ok(parent_id), Ok(turn_id), Ok(agent_id), Ok(branch_id)) => match (
            role_named(value.text_at("role"@)),
            kind_named(value.text_at("kind"@)),
            normalized_time(value),
            value.text_at("text"@),
            normalized_tool(value),
        ) {
            (Some(role), Some(kind), Ok(timestamp_unix_ms), Some(text), Ok(tool)) => Some(
                EventView {
                    event_id,
                    parent_id,
                    turn_id,
                    agent_id,
                    branch_id,
                    role,
                    kind,
                    timestamp_unix_ms,
                    text,
                    tool,
                },
            ),
            _ => None,
        },
        _ => None,
    }
}

fn read_normalized(value: &Json) -> (event: Option<NormalizedEvent>)
    ensures
        match event {
            Some(e) => normalized_event(value@) == Some(e@),
            None => normalized_event(value@) is None,
        },
{
    match (
        read_optional_id(value, "event_id"),
        read_optional_id(value, "parent_id"),
        read_optional_id(value, "turn_id"),
        read_optional_id(value, "agent_id"),
        read_optional_id(value, "branch_id"),
    ) {
        (Ok(event_id), Ok(parent_id), Ok(turn_id), Ok(agent_id), Ok(branch_id)) => match (
            read_role(value),
            read_kind(value),
            read_time(value),
            value.text_at("text"),
            read_tool(value),
        ) {
            (Some(role), Some(kind), Ok(timestamp_unix_ms), Some(text), Ok(tool)) => Some(
                NormalizedEvent {
                    event_id,
                    parent_id,
                    turn_id,
                    agent_id,
                    branch_id,
                    role,
                    kind,
                    timestamp_unix_ms,
                    text: copy_text(text),
                    tool,
                },
            ),
            _ => None,
        },
        _ => None,
    }
}

/// The event of a record: a normalized one where it names a role and a kind,
/// else a native one. Only objects are records.
pub open spec fn event_of(value: JsonView) -> Option<EventView> {
    if !(value is Object) {
        None
    } else if value.get("role"@) is Some && value.get("kind"@) is Some {
        normalized_event(value)
    } else {
        Some(native_event(value))
    }
}

pub fn event_from_value(value: &Json) -> (event: Option<NormalizedEvent>)
    ensures
        match event {
            Some(e) => event_of(value@) == Some(e@),
            None => event_of(value@) is None,
        },
{
    if !value.is_object() {
        return None;
    }
    if value.get("role").is_some() && value.get("kind").is_some() {
        return read_normalized(value);
    }
    let (role, kind): (Role, EventKind) = match value.text_at("type") {
        Some(name) => map_native_type(name),
        None => map_native_type("message"),
    };
    let turn_id: Option<String> = match value.text_at("turn_id") {
        Some(text) => if valid_identifier(text) {
            Some(copy_text(text))
        } else {
            None
        },
        None => None,
    };
    let timestamp_unix_ms: Option<i64> = match value.get("timestamp_unix_ms") {
        Some(time) => time.as_i64(),
        None => None,
    };
    Some(
        NormalizedEvent {
            event_id: id_field(value, "event_id", "uuid"),
            parent_id: id_field(value, "parent_id", "parentUuid"),
            turn_id,
            agent_id: None,
            branch_id: None,
            role,
            kind,
            timestamp_unix_ms,
            text: native_text(value),
            tool: native_tool(value, kind),
        },
    )
}

/// What one line holds, given what its bytes parse to.
pub open spec fn line_event(
    line: Seq<u8>,
    record_bytes: nat,
    parsed: Option<JsonView>,
) -> Result<EventView, SkipKind> {
    if line.len() > record_bytes {
        Err(SkipKind::Oversize)
    } else if line.len() == 0 {
        Err(SkipKind::Corrupt)
    } else {
        match decoded(line, record_bytes, parsed) {
            Err(DecodeError::DuplicateKey) => Err(SkipKind::DuplicateKey),
            Err(_) => Err(SkipKind::Corrupt),
            Ok(value) => match event_of(value) {
                Some(event) => Ok(event),
                None => Err(SkipKind::Corrupt),
            },
        }
    }
}

/// Classify one line by what the bounded decoder made of it.
pub fn classify_line(line: &[u8], record_bytes: usize, value: Result<Json, DecodeError>) -> (r:
    Result<NormalizedEvent, SkipKind>)
    ensures
        line@.len() > record_bytes ==> r == Err::<NormalizedEvent, SkipKind>(SkipKind::Oversize),
        line@.len() == 0 ==> r == Err::<NormalizedEvent, SkipKind>(
            SkipKind::Corrupt,
        ),
        0 < line@.len() <= record_bytes ==> match value {
            Err(DecodeError::DuplicateKey) => r == Err::<NormalizedEvent, SkipKind>(
                SkipKind::DuplicateKey,
            ),
            Err(_) => r == Err::<NormalizedEvent, SkipKind>(SkipKind::Corrupt),
            Ok(json) => match r {
                Ok(event) => event_of(json@) == Some(event@),
                Err(kind) => event_of(json@) is None && kind == SkipKind::Corrupt,
            },
        },
{
    if line.len() > record_bytes {
        return Err(SkipKind::Oversize);
    }
    if line.len() == 0 {
        return Err(SkipKind::Corrupt);
    }
    match value {
        Err(DecodeError::DuplicateKey) => Err(SkipKind::DuplicateKey),
        Err(_) => Err(SkipKind::Corrupt),
        Ok(json) => match event_from_value(&json) {
            Some(event) => Ok(event),
            None => Err(SkipKind::Corrupt),
        },
    }
}

/// Parse one line of a transcript.
pub fn parse_line(line: &[u8], record_bytes: usize) -> (r: Result<NormalizedEvent, SkipKind>)
    ensures
        match r {
            Ok(event) => line_event(line@, record_bytes as nat, parsed_json(line@)) == Ok::<
                EventView,
                SkipKind,
            >(event@),
            Err(kind) => line_event(line@, record_bytes as nat, parsed_json(line@)) == Err::<
                EventView,
                SkipKind,
            >(kind),
        },
{
    if line.len() > record_bytes {
        return Err(SkipKind::Oversize);
    }
    if line.len() == 0 {
        return Err(SkipKind::Corrupt);
    }
    classify_line(line, record_bytes, crate::json::decode_json(line, record_bytes))
}

/// A newline byte.
pub const NEWLINE: u8 = 0x0a;

/// `k` is the first newline at or after `from`.
pub open spec fn is_next_newline(buf: Seq<u8>, from: int, k: int) -> bool {
    from <= k < buf.len() && buf[k] == NEWLINE && forall|j: int|
        from <= j < k ==> #[trigger] buf[j] != NEWLINE
}

pub open spec fn has_newline(buf: Seq<u8>, from: int) -> bool {
    exists|k: int| is_next_newline(buf, from, k)
}

pub open spec fn next_newline(buf: Seq<u8>, from: int) -> int {
    choose|k: int| is_next_newline(buf, from, k)
}

/// Find the first newline at or after `from`.
pub fn find_newline(buf: &[u8], from: usize) -> (k: Option<usize>)
    requires
        from <= buf@.len(),
    ensures
        match k {
            Some(k) => has_newline(buf@, from as int) && next_newline(buf@, from as int) == k
                && is_next_newline(buf@, from as int, k as int),
            None => !has_newline(buf@, from as int),
        },
{
    let mut k: usize = from;
    while k < buf.len()
        invariant
            from <= k <= buf@.len(),
            forall|j: int| from <= j < k ==> #[trigger] buf@[j] != NEWLINE,
        decreases buf@.len() - k,
    {
        if buf[k] == NEWLINE {
            assert(is_next_newline(buf@, from as int, k as int));
            let ghost c = next_newline(buf@, from as int);
            assert(c == k) by {
                if c < k {
                    assert(buf@[c] != NEWLINE);
                }
                if c > k {
                    assert(buf@[k as int] != NEWLINE);
                }
            }
            return Some(k);
        }
        k += 1;
    }
    None
}

/// The complete records of a window, up to the record cap.
pub struct Records {
    pub events: Seq<EventView>,
    pub skipped: Seq<SkippedRecord>,
    /// Just past the last processed record.
    pub end: int,
    pub hit_record_cap: bool,
}

/// Process complete lines from `offset` on, after `done`.
pub open spec fn read_records(
    buf: Seq<u8>,
    start: int,
    limits: TranscriptLimits,
    done: Records,
) -> Records
    decreases buf.len() - done.end,
{
    if done.end < 0 || done.end >= buf.len() || !has_newline(buf, done.end) {
        done
    } else if done.events.len() >= limits.tail_records {
        Records { hit_record_cap: true, ..done }
    } else {
        let newline = next_newline(buf, done.end);
        let line = buf.subrange(done.end, newline);
        if newline < done.end {
            done
        } else {
            match line_event(line, limits.record_bytes as nat, parsed_json(line)) {
                Ok(event) => read_records(
                    buf,
                    start,
                    limits,
                    Records { events: done.events.push(event), end: newline + 1, ..done },
                ),
                Err(kind) => read_records(
                    buf,
                    start,
                    limits,
                    Records {
                        skipped: done.skipped.push(
                            SkippedRecord { byte_offset: (start + done.end) as u64, kind },
                        ),
                        end: newline + 1,
                        ..done
                    },
                ),
            }
        }
    }
}

/// The identity of the last identified event, else `before`.
pub open spec fn last_identity(events: Seq<EventView>, before: Option<Seq<char>>) -> Option<
    Seq<char>,
>
    decreases events.len(),
{
    if events.len() == 0 {
        before
    } else if events.last().event_id is Some {
        events.last().event_id
    } else {
        last_identity(events.drop_last(), before)
    }
}

/// A tool result whose call is not among the events.
pub open spec fn lacks_counterpart(events: Seq<EventView>) -> bool {
    exists|i: int| 0 <= i < events.len() && !#[trigger] has_counterpart(events, i)
}

pub open spec fn has_counterpart(events: Seq<EventView>, i: int) -> bool {
    events[i].kind == EventKind::ToolResult && events[i].call_id() is Some ==> exists|j: int|
        0 <= j < events.len() && (#[trigger] events[j]).kind == EventKind::ToolInvocation
            && events[j].call_id() == events[i].call_id()
}

fn find_missing_counterpart(events: &Vec<NormalizedEvent>) -> (missing: bool)
    ensures
        missing == lacks_counterpart(event_views(events@)),
{
    let ghost all = event_views(events@);
    let mut i: usize = 0;
    while i < events.len()
        invariant
            i <= events@.len(),
            all == event_views(events@),
            forall|k: int| 0 <= k < i ==> #[trigger] has_counterpart(all, k),
        decreases events@.len() - i,
    {
        let result: &NormalizedEvent = &events[i];
        assert(all[i as int] == result@);
        let has_call: bool = match &result.tool {
            Some(tool) => tool.call_id.is_some(),
            None => false,
        };
        if result.kind == EventKind::ToolResult && has_call {
            let mut found: bool = false;
            let mut j: usize = 0;
            while j < events.len()
                invariant
                    j <= events@.len(),
                    all == event_views(events@),
                    result@.call_id() is Some,
                    found == exists|k: int|
                        0 <= k < j && (#[trigger] all[k]).kind == EventKind::ToolInvocation
                            && all[k].call_id() == result@.call_id(),
                decreases events@.len() - j,
            {
                assert(all[j as int] == events@[j as int]@);
                if events[j].kind == EventKind::ToolInvocation && result.shares_call_with(
                    &events[j],
                ) {
                    found = true;
                }
                j += 1;
            }
            if !found {
                assert(!has_counterpart(all, i as int));
                return true;
            }
        }
        i += 1;
    }
    false
}

/// Where the records of a window begin: past the first newline where the
/// window starts inside a record.
pub open spec fn first_record(buf: Seq<u8>, align_to_record: bool) -> int {
    if align_to_record && has_newline(buf, 0) {
        next_newline(buf, 0) + 1
    } else {
        0
    }
}

/// The records of a whole window.
pub open spec fn window_records(
    buf: Seq<u8>,
    start: int,
    align_to_record: bool,
    limits: TranscriptLimits,
) -> Records {
    read_records(
        buf,
        start,
        limits,
        Records {
            events: Seq::empty(),
            skipped: Seq::empty(),
            end: first_record(buf, align_to_record),
            hit_record_cap: false,
        },
    )
}

/// Parse the window `buf`, which begins at byte `start` of its file.
pub fn parse_window(
    buf: &[u8],
    start: u64,
    align_to_record: bool,
    context: WindowContext,
    limits: &TranscriptLimits,
) -> (snapshot: JsonlSnapshot)
    requires
        start + buf@.len() <= u64::MAX,
    ensures
        snapshot.cursor.kind == context.kind,
        snapshot.cursor.identity == context.identity,
        snapshot.cursor.generation == context.generation,
        snapshot.cursor.parser_version == PARSER_VERSION,
        snapshot.truncated_history == context.truncated_history,
        snapshot.rebuilt == context.rebuilt,
        align_to_record && !has_newline(buf@, 0) ==> {
            &&& snapshot.cursor.byte_offset == start
            &&& optional_text(snapshot.cursor.last_event_id) == optional_text(
                context.last_event_id,
            )
            &&& snapshot.events@.len() == 0
            &&& snapshot.skipped@.len() == 0
            &&& snapshot.incomplete_tail == (buf@.len() > 0)
            &&& !snapshot.missing_tool_counterpart
            &&& snapshot.unread_backlog == context.unread_backlog
        },
        !(align_to_record && !has_newline(buf@, 0)) ==> {
            let records = window_records(buf@, start as int, align_to_record, *limits);
            &&& snapshot.cursor.byte_offset == start + records.end
            &&& optional_text(snapshot.cursor.last_event_id) == last_identity(
                records.events,
                optional_text(context.last_event_id),
            )
            &&& event_views(snapshot.events@) == records.events
            &&& snapshot.skipped@ == records.skipped
            &&& snapshot.incomplete_tail == (records.end < buf@.len() && !records.hit_record_cap)
            &&& snapshot.missing_tool_counterpart == lacks_counterpart(records.events)
            &&& snapshot.unread_backlog == (context.unread_backlog || records.hit_record_cap)
        },
{
    let total: usize = buf.len();
    let mut offset: usize = 0;
    if align_to_record {
        match find_newline(buf, 0) {
            Some(k) => {
                offset = k + 1;
            },
            None => {
                return JsonlSnapshot {
                    cursor: JsonlCursor {
                        kind: context.kind,
                        identity: context.identity,
                        generation: context.generation,
                        byte_offset: start,
                        last_event_id: context.last_event_id,
                        parser_version: PARSER_VERSION,
                    },
                    events: Vec::new(),
                    incomplete_tail: total > 0,
                    truncated_history: context.truncated_history,
                    missing_tool_counterpart: false,
                    unread_backlog: context.unread_backlog,
                    rebuilt: context.rebuilt,
                    skipped: Vec::new(),
                };
            },
        }
    }
    let ghost all = window_records(buf@, start as int, align_to_record, *limits);
    let ghost before = optional_text(context.last_event_id);
    let mut events: Vec<NormalizedEvent> = Vec::new();
    let mut skipped: Vec<SkippedRecord> = Vec::new();
    let mut last_event_id: Option<String> = copy_optional(&context.last_event_id);
    let mut hit_record_cap: bool = false;
    let mut done: bool = false;
    assert(event_views(events@) =~= Seq::empty());
    assert(skipped@ =~= Seq::empty());
    while !done
        invariant
            start + buf@.len() <= u64::MAX,
            total == buf@.len(),
            offset <= buf@.len(),
            ({
                let so_far = Records {
                    events: event_views(events@),
                    skipped: skipped@,
                    end: offset as int,
                    hit_record_cap,
                };
                &&& !done ==> all == read_records(buf@, start as int, *limits, so_far)
                &&& done ==> all == so_far
            }),
            optional_text(last_event_id) == last_identity(event_views(events@), before),
            !done ==> !hit_record_cap,
        decreases (if done {
                0int
            } else {
                1int
            }), buf@.len() - offset,
    {
        match find_newline(buf, offset) {
            None => {
                done = true;
            },
            Some(newline) => {
                if events.len() >= limits.tail_records {
                    hit_record_cap = true;
                    done = true;
                } else {
                    let line: &[u8] = slice_subrange(buf, offset, newline);
                    let ghost earlier = event_views(events@);
                    match parse_line(line, limits.record_bytes) {
                        Ok(event) => {
                            if event.event_id.is_some() {
                                last_event_id = copy_optional(&event.event_id);
                            }
                            events.push(event);
                            assert(event_views(events@) =~= earlier.push(event@));
                            assert(event_views(events@).drop_last() =~= earlier);
                        },
                        Err(kind) => {
                            skipped.push(
                                SkippedRecord { byte_offset: start + offset as u64, kind },
                            );
                        },
                    }
                    offset = newline + 1;
                }
            },
        }
    }
    let missing_tool_counterpart: bool = find_missing_counterpart(&events);
    JsonlSnapshot {
        cursor: JsonlCursor {
            kind: context.kind,
            identity: context.identity,
            generation: context.generation,
            byte_offset: start + offset as u64,
            last_event_id,
            parser_version: PARSER_VERSION,
        },
        events,
        incomplete_tail: offset < total && !hit_record_cap,
        truncated_history: context.truncated_history,
        missing_tool_counterpart,
        unread_backlog: context.unread_backlog || hit_record_cap,
        rebuilt: context.rebuilt,
        skipped,
    }
}

/// A window's cursor stops just past a newline, or where its records begin,
/// and a record cap bounds the events. No byte before the cursor is left
/// unprocessed: what lies between is whole lines.
pub proof fn cursor_stops_at_a_record_boundary(
    buf: Seq<u8>,
    start: int,
    align_to_record: bool,
    limits: TranscriptLimits,
)
    ensures
        ({
            let records = window_records(buf, start, align_to_record, limits);
            let first = first_record(buf, align_to_record);
            &&& first <= records.end <= buf.len()
            &&& records.end > first ==> buf[records.end - 1] == NEWLINE
            &&& records.events.len() <= limits.tail_records
            &&& !records.hit_record_cap ==> !has_newline(buf, records.end)
        }),
{
    let first = first_record(buf, align_to_record);
    if align_to_record && has_newline(buf, 0) {
        assert(is_next_newline(buf, 0, next_newline(buf, 0)));
    }
    records_stop_at_newlines(
        buf,
        start,
        limits,
        Records {
            events: Seq::empty(),
            skipped: Seq::empty(),
            end: first,
            hit_record_cap: false,
        },
    );
}

proof fn records_stop_at_newlines(
    buf: Seq<u8>,
    start: int,
    limits: TranscriptLimits,
    done: Records,
)
    requires
        0 <= done.end <= buf.len(),
        done.events.len() <= limits.tail_records,
        !done.hit_record_cap,
    ensures
        ({
            let records = read_records(buf, start, limits, done);
            &&& done.end <= records.end <= buf.len()
            &&& records.end > done.end ==> buf[records.end - 1] == NEWLINE
            &&& records.events.len() <= limits.tail_records
            &&& !records.hit_record_cap ==> !has_newline(buf, records.end)
        }),
    decreases buf.len() - done.end,
{
    if done.end >= buf.len() {
        assert forall|k: int| !is_next_newline(buf, done.end, k) by {}
    } else if has_newline(buf, done.end) && done.events.len() < limits.tail_records {
        let newline = next_newline(buf, done.end);
        assert(is_next_newline(buf, done.end, newline));
        let line = buf.subrange(done.end, newline);
        match line_event(line, limits.record_bytes as nat, parsed_json(line)) {
            Ok(event) => {
                records_stop_at_newlines(
                    buf,
                    start,
                    limits,
                    Records { events: done.events.push(event), end: newline + 1, ..done },
                );
            },
            Err(kind) => {
                records_stop_at_newlines(
                    buf,
                    start,
                    limits,
                    Records {
                        skipped: done.skipped.push(
                            SkippedRecord { byte_offset: (start + done.end) as u64, kind },
                        ),
                        end: newline + 1,
                        ..done
                    },
                );
            },
        }
    }
}

/// A longer window begins with the records of a shorter one.
proof fn longer_windows_go_on(
    buf: Seq<u8>,
    n: int,
    start: int,
    limits: TranscriptLimits,
    done: Records,
)
    requires
        0 <= n <= buf.len(),
        0 <= done.end <= n,
        !done.hit_record_cap,
        !read_records(buf, start, limits, done).hit_record_cap,
    ensures
        ({
            let first = read_records(buf.take(n), start, limits, done);
            &&& !first.hit_record_cap
            &&& 0 <= first.end <= n
            &&& read_records(buf, start, limits, first) == read_records(buf, start, limits, done)
        }),
    decreases buf.len() - done.end,
{
    let short = buf.take(n);
    if done.end < n && has_newline(short, done.end) {
        let newline = next_newline(short, done.end);
        assert(is_next_newline(short, done.end, newline));
        assert forall|j: int| done.end <= j < newline implies #[trigger] buf[j] != NEWLINE by {
            assert(short[j] != NEWLINE);
        }
        assert(buf[newline] == short[newline]);
        assert(is_next_newline(buf, done.end, newline));
        one_next_newline(buf, done.end, newline);
        assert(short.subrange(done.end, newline) =~= buf.subrange(done.end, newline));
        if done.events.len() < limits.tail_records {
            let line = buf.subrange(done.end, newline);
            let next = match line_event(line, limits.record_bytes as nat, parsed_json(line)) {
                Ok(event) => Records { events: done.events.push(event), end: newline + 1, ..done },
                Err(kind) => Records {
                    skipped: done.skipped.push(
                        SkippedRecord { byte_offset: (start + done.end) as u64, kind },
                    ),
                    end: newline + 1,
                    ..done
                },
            };
            longer_windows_go_on(buf, n, start, limits, next);
        }
    }
}

proof fn one_next_newline(buf: Seq<u8>, from: int, k: int)
    requires
        is_next_newline(buf, from, k),
    ensures
        has_newline(buf, from),
        next_newline(buf, from) == k,
{
    let c = next_newline(buf, from);
    assert(is_next_newline(buf, from, c));
    if c < k {
        assert(buf[c] != NEWLINE);
    }
    if k < c {
        assert(buf[k] != NEWLINE);
    }
}

/// Records read from the middle of a window are those of a window that begins
/// there.
proof fn windows_can_begin_later(
    buf: Seq<u8>,
    e: int,
    start: int,
    limits: TranscriptLimits,
    before: Records,
    done: Records,
)
    requires
        0 <= e <= buf.len(),
        0 <= done.end <= buf.len() - e,
        !done.hit_record_cap,
        !read_records(
            buf,
            start,
            limits,
            (Records {
                events: before.events + done.events,
                skipped: before.skipped + done.skipped,
                end: e + done.end,
                hit_record_cap: false,
            }),
        ).hit_record_cap,
    ensures
        ({
            let whole = read_records(
                buf,
                start,
                limits,
                Records {
                    events: before.events + done.events,
                    skipped: before.skipped + done.skipped,
                    end: e + done.end,
                    hit_record_cap: false,
                },
            );
            let later = read_records(buf.skip(e), start + e, limits, done);
            &&& !later.hit_record_cap
            &&& whole.events == before.events + later.events
            &&& whole.skipped == before.skipped + later.skipped
            &&& whole.end == e + later.end
        }),
    decreases buf.len() - e - done.end,
{
    let rest = buf.skip(e);
    let here = Records {
        events: before.events + done.events,
        skipped: before.skipped + done.skipped,
        end: e + done.end,
        hit_record_cap: false,
    };
    if done.end < rest.len() && has_newline(rest, done.end) {
        let k = next_newline(rest, done.end);
        assert(is_next_newline(rest, done.end, k));
        assert forall|j: int| e + done.end <= j < e + k implies #[trigger] buf[j] != NEWLINE by {
            assert(rest[j - e] != NEWLINE);
        }
        assert(buf[e + k] == rest[k]);
        assert(is_next_newline(buf, e + done.end, e + k));
        one_next_newline(buf, e + done.end, e + k);
        let line = rest.subrange(done.end, k);
        assert(line =~= buf.subrange(e + done.end, e + k));
        assert(here.events.len() < limits.tail_records);
        match line_event(line, limits.record_bytes as nat, parsed_json(line)) {
            Ok(event) => {
                let next = Records { events: done.events.push(event), end: k + 1, ..done };
                assert(before.events + next.events =~= here.events.push(event));
                windows_can_begin_later(buf, e, start, limits, before, next);
            },
            Err(kind) => {
                let skip = SkippedRecord { byte_offset: (start + e + done.end) as u64, kind };
                let next = Records { skipped: done.skipped.push(skip), end: k + 1, ..done };
                assert(before.skipped + next.skipped =~= here.skipped.push(skip));
                windows_can_begin_later(buf, e, start, limits, before, next);
            },
        }
    } else {
        if here.end < buf.len() && has_newline(buf, here.end) {
            let k = next_newline(buf, here.end);
            assert(is_next_newline(buf, here.end, k));
            assert forall|j: int| done.end <= j < k - e implies #[trigger] rest[j] != NEWLINE by {
                assert(buf[e + j] != NEWLINE);
            }
            assert(rest[k - e] == buf[k]);
            assert(is_next_newline(rest, done.end, k - e));
        }
    }
}

/// Reading a growing file in two steps gives what reading it at once gives:
/// the second read goes on where the cursor of the first stands, and nothing
/// is lost or read twice.
pub proof fn resumed_reading_is_whole_reading(
    file: Seq<u8>,
    n: int,
    start: int,
    limits: TranscriptLimits,
)
    requires
        0 <= n <= file.len(),
        !window_records(file, start, false, limits).hit_record_cap,
    ensures
        ({
            let first = window_records(file.take(n), start, false, limits);
            let second = window_records(file.skip(first.end), start + first.end, false, limits);
            let whole = window_records(file, start, false, limits);
            &&& 0 <= first.end <= n
            &&& whole.events == first.events + second.events
            &&& whole.skipped == first.skipped + second.skipped
            &&& whole.end == first.end + second.end
        }),
{
    let none = Records {
        events: Seq::empty(),
        skipped: Seq::empty(),
        end: 0,
        hit_record_cap: false,
    };
    longer_windows_go_on(file, n, start, limits, none);
    let first = read_records(file.take(n), start, limits, none);
    assert(first.events + none.events =~= first.events);
    assert(first.skipped + none.skipped =~= first.skipped);
    windows_can_begin_later(file, first.end, start, limits, first, none);
}

} // verus!
