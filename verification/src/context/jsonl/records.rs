//! What the records of a transcript mean, and what a read of them covers.
use crate::context::jsonl::{
    event_of, is_next_newline, is_read_plan, last_identity, line_event, next_newline, read_records,
    window_records, CursorKind, FileIdentity, JsonlCursor, ReadPlan, Records, SkippedRecord,
    TranscriptLimits,
};
use crate::context::{EventKind, EventView, Role, ToolStatus};
use crate::identity::is_identifier;
use crate::json::{parsed_json, JsonView};
use vstd::prelude::*;

verus! {

/// A record of the harness's own: an object that does not name both a role and
/// a kind.
pub open spec fn is_native(value: JsonView) -> bool {
    value is Object && !(value.get("role"@) is Some && value.get("kind"@) is Some)
}

pub open spec fn is_text(value: JsonView, key: Seq<char>, text: Seq<char>) -> bool {
    value.get(key) == Some(JsonView::Text(text))
}

/// A native record is always an event. What a user or an assistant says is a
/// message of theirs, a tool's call and its result are the tool's, and anything
/// else is the system's.
pub proof fn native_records_tell_who_spoke(value: JsonView)
    requires
        is_native(value),
    ensures
        event_of(value) is Some,
        ({
            let e = event_of(value)->0;
            &&& is_text(value, "type"@, "user"@) ==> e.role == Role::User && e.kind
                == EventKind::Message
            &&& is_text(value, "type"@, "assistant"@) ==> e.role == Role::Assistant && e.kind
                == EventKind::Message
            &&& is_text(value, "type"@, "tool_use"@) || is_text(
                value,
                "type"@,
                "tool_invocation"@,
            ) ==> e.role == Role::Tool && e.kind == EventKind::ToolInvocation
            &&& is_text(value, "type"@, "tool_result"@) ==> e.role == Role::Tool && e.kind
                == EventKind::ToolResult
            &&& is_text(value, "type"@, "compaction"@) ==> e.role == Role::System && e.kind
                == EventKind::Compaction
            &&& is_text(value, "type"@, "resume"@) ==> e.role == Role::System && e.kind
                == EventKind::Resume
            &&& e.role == Role::User ==> is_text(value, "type"@, "user"@)
            &&& e.role == Role::Assistant ==> is_text(value, "type"@, "assistant"@)
            &&& e.kind == EventKind::ToolInvocation || e.kind == EventKind::ToolResult <==> e.role
                == Role::Tool
            &&& e.role == Role::Tool <==> e.tool is Some
            &&& e.agent_id is None && e.branch_id is None
        }),
{
    reveal_strlit("user");
    reveal_strlit("assistant");
    reveal_strlit("tool_use");
    reveal_strlit("tool_invocation");
    reveal_strlit("tool_result");
    reveal_strlit("compaction");
    reveal_strlit("resume");
    reveal_strlit("message");
    assert("user"@.len() == 4 && "assistant"@.len() == 9 && "tool_use"@.len() == 8
        && "tool_invocation"@.len() == 15 && "tool_result"@.len() == 11 && "compaction"@.len() == 10
        && "resume"@.len() == 6 && "message"@.len() == 7);
}

/// A native record says what it holds as text; without one, its message, or
/// that message's content.
pub proof fn native_records_tell_what_was_said(value: JsonView, text: Seq<char>)
    requires
        is_native(value),
    ensures
        is_text(value, "text"@, text) ==> event_of(value)->0.text == text,
        value.get("text"@) is None && is_text(value, "message"@, text) ==> event_of(value)->0.text
            == text,
        value.get("text"@) is None && value.get("message"@) is Some && is_text(
            value.get("message"@)->0,
            "content"@,
            text,
        ) ==> event_of(value)->0.text == text,
        value.get("text"@) is None && value.get("message"@) is None ==> event_of(
            value,
        )->0.text.len() == 0,
{
    reveal_strlit("");
}

/// A native record's identities are those that it gives, under either spelling,
/// where they are valid identifiers; an invalid one counts as none.
pub proof fn native_records_keep_valid_identities(value: JsonView, id: Seq<char>)
    requires
        is_native(value),
    ensures
        ({
            let e = event_of(value)->0;
            &&& is_text(value, "event_id"@, id) ==> (e.event_id == Some(id) <==> is_identifier(id))
            &&& value.get("event_id"@) is None && is_text(value, "uuid"@, id) ==> (e.event_id
                == Some(id) <==> is_identifier(id))
            &&& value.get("event_id"@) is None && value.get("uuid"@) is None
                ==> e.event_id is None
            &&& is_text(value, "parent_id"@, id) ==> (e.parent_id == Some(id) <==> is_identifier(
                id,
            ))
            &&& value.get("parent_id"@) is None && is_text(value, "parentUuid"@, id) ==> (
            e.parent_id == Some(id) <==> is_identifier(id))
            &&& value.get("parent_id"@) is None && value.get("parentUuid"@) is None
                ==> e.parent_id is None
            &&& is_text(value, "turn_id"@, id) ==> (e.turn_id == Some(id) <==> is_identifier(id))
            &&& e.event_id is Some ==> is_identifier(e.event_id->0)
            &&& e.parent_id is Some ==> is_identifier(e.parent_id->0)
        }),
{
}

/// A native tool record carries the call that it belongs to and the tool's
/// name. A call is attempted; of a result nothing is known.
pub proof fn native_tools_are_attempted(value: JsonView, text: Seq<char>)
    requires
        is_native(value),
        event_of(value)->0.tool is Some,
    ensures
        ({
            let e = event_of(value)->0;
            let tool = e.tool->0;
            &&& e.kind == EventKind::ToolResult ==> tool.status == ToolStatus::Unknown
            &&& e.kind == EventKind::ToolInvocation ==> tool.status == ToolStatus::Attempted
            &&& is_text(value, "call_id"@, text) ==> (tool.call_id == Some(text) <==> is_identifier(
                text,
            ))
            &&& value.get("call_id"@) is None && is_text(value, "tool_use_id"@, text) ==> (
            tool.call_id == Some(text) <==> is_identifier(text))
            &&& is_text(value, "name"@, text) ==> tool.name == text
            &&& value.get("name"@) is None && is_text(value, "tool_name"@, text) ==> tool.name
                == text
            &&& tool.arguments is None && tool.result is None
        }),
{
    native_records_tell_who_spoke(value);
}

/// A member that holds an identity or nothing.
pub open spec fn gives_id(value: JsonView, key: Seq<char>, id: Option<Seq<char>>) -> bool {
    match id {
        Some(text) => is_text(value, key, text) && is_identifier(text),
        None => value.get(key) is None || value.get(key) == Some(JsonView::Null),
    }
}

/// A record that names a role and a kind is taken at its word: its event has
/// exactly the identities and the text that the record gives.
pub proof fn normalized_records_are_taken_at_their_word(value: JsonView)
    requires
        value is Object,
        value.get("role"@) is Some,
        value.get("kind"@) is Some,
        event_of(value) is Some,
    ensures
        ({
            let e = event_of(value)->0;
            &&& gives_id(value, "event_id"@, e.event_id)
            &&& gives_id(value, "parent_id"@, e.parent_id)
            &&& gives_id(value, "turn_id"@, e.turn_id)
            &&& gives_id(value, "agent_id"@, e.agent_id)
            &&& gives_id(value, "branch_id"@, e.branch_id)
            &&& is_text(value, "text"@, e.text)
            &&& is_text(value, "role"@, "user"@) <==> e.role == Role::User
            &&& is_text(value, "role"@, "assistant"@) <==> e.role == Role::Assistant
            &&& is_text(value, "role"@, "tool"@) <==> e.role == Role::Tool
            &&& is_text(value, "role"@, "system"@) <==> e.role == Role::System
        }),
{
    reveal_strlit("user");
    reveal_strlit("assistant");
    reveal_strlit("tool");
    reveal_strlit("system");
    assert("user"@[0] == 'u' && "tool"@[0] == 't');
    assert("assistant"@.len() == 9 && "system"@.len() == 6 && "user"@.len() == 4 && "tool"@.len()
        == 4);
}

/// The kind of a record that names one is that kind.
pub proof fn normalized_records_keep_their_kind(value: JsonView)
    requires
        value is Object,
        value.get("role"@) is Some,
        value.get("kind"@) is Some,
        event_of(value) is Some,
    ensures
        ({
            let kind = event_of(value)->0.kind;
            &&& is_text(value, "kind"@, "message"@) <==> kind == EventKind::Message
            &&& is_text(value, "kind"@, "tool_invocation"@) <==> kind == EventKind::ToolInvocation
            &&& is_text(value, "kind"@, "tool_result"@) <==> kind == EventKind::ToolResult
            &&& is_text(value, "kind"@, "compaction"@) <==> kind == EventKind::Compaction
            &&& is_text(value, "kind"@, "resume"@) <==> kind == EventKind::Resume
            &&& is_text(value, "kind"@, "task_boundary"@) <==> kind == EventKind::TaskBoundary
        }),
{
    reveal_strlit("message");
    reveal_strlit("tool_invocation");
    reveal_strlit("tool_result");
    reveal_strlit("compaction");
    reveal_strlit("resume");
    reveal_strlit("task_boundary");
    assert("message"@.len() == 7 && "tool_invocation"@.len() == 15 && "tool_result"@.len() == 11
        && "compaction"@.len() == 10 && "resume"@.len() == 6 && "task_boundary"@.len() == 13);
}

/// A plain record that names a role and a kind is never refused: a message
/// with a text and no other members at odds with their kind is an event.
pub proof fn plain_normalized_records_are_events(value: JsonView, text: Seq<char>)
    requires
        value is Object,
        is_text(value, "role"@, "user"@) || is_text(value, "role"@, "assistant"@) || is_text(
            value,
            "role"@,
            "system"@,
        ) || is_text(value, "role"@, "tool"@),
        is_text(value, "kind"@, "message"@) || is_text(value, "kind"@, "compaction"@) || is_text(
            value,
            "kind"@,
            "resume"@,
        ) || is_text(value, "kind"@, "task_boundary"@) || is_text(
            value,
            "kind"@,
            "tool_invocation"@,
        ) || is_text(value, "kind"@, "tool_result"@),
        is_text(value, "text"@, text),
        value.get("tool"@) is None || value.get("tool"@) == Some(JsonView::Null),
        value.get("timestamp_unix_ms"@) is None || value.get("timestamp_unix_ms"@) == Some(
            JsonView::Null,
        ),
        exists|id: Option<Seq<char>>| #[trigger] gives_id(value, "event_id"@, id),
        exists|id: Option<Seq<char>>| #[trigger] gives_id(value, "parent_id"@, id),
        exists|id: Option<Seq<char>>| #[trigger] gives_id(value, "turn_id"@, id),
        exists|id: Option<Seq<char>>| #[trigger] gives_id(value, "agent_id"@, id),
        exists|id: Option<Seq<char>>| #[trigger] gives_id(value, "branch_id"@, id),
    ensures
        event_of(value) is Some,
        event_of(value)->0.tool is None,
        event_of(value)->0.timestamp_unix_ms is None,
{
}

/// One whole line is one record: an event, or a skipped record at its place.
/// A line without an end is left for the next read.
pub proof fn lines_are_records(line: Seq<u8>, start: int, limits: TranscriptLimits)
    requires
        forall|i: int| 0 <= i < line.len() ==> #[trigger] line[i] != 10u8,
        limits.tail_records > 0,
        0 <= start <= u64::MAX,
    ensures
        ({
            let read = line_event(line, limits.record_bytes as nat, parsed_json(line));
            let whole = window_records(line.push(10u8), start, false, limits);
            let part = window_records(line, start, false, limits);
            &&& whole.end == line.len() + 1
            &&& !whole.hit_record_cap
            &&& read matches Ok(event) ==> whole.events == seq![event] && whole.skipped.len() == 0
            &&& read matches Err(kind) ==> whole.events.len() == 0 && whole.skipped == seq![
                SkippedRecord { byte_offset: start as u64, kind },
            ]
            &&& part.end == 0 && part.events.len() == 0 && part.skipped.len() == 0
        }),
{
    let buf = line.push(10u8);
    let n = line.len() as int;
    assert(buf[n] == 10u8);
    assert forall|j: int| 0 <= j < n implies #[trigger] buf[j] != 10u8 by {
        assert(buf[j] == line[j]);
    }
    assert(is_next_newline(buf, 0, n));
    let k = next_newline(buf, 0);
    assert(is_next_newline(buf, 0, k));
    assert(k == n) by {
        if k < n {
            assert(buf[k] != 10u8);
        }
    }
    assert(buf.subrange(0, n) =~= line);
    let none = Records {
        events: Seq::empty(),
        skipped: Seq::empty(),
        end: 0,
        hit_record_cap: false,
    };
    let read = line_event(line, limits.record_bytes as nat, parsed_json(line));
    match read {
        Ok(event) => {
            let done = Records { events: none.events.push(event), end: n + 1, ..none };
            assert(read_records(buf, start, limits, done) == done);
            assert(done.events =~= seq![event]);
        },
        Err(kind) => {
            let own = SkippedRecord { byte_offset: (start + 0) as u64, kind };
            let done = Records { skipped: none.skipped.push(own), end: n + 1, ..none };
            assert(read_records(buf, start, limits, done) == done);
            assert(done.skipped =~= seq![own]);
        },
    }
    assert(!(exists|j: int| is_next_newline(line, 0, j))) by {
        assert forall|j: int| !is_next_newline(line, 0, j) by {
            if 0 <= j < line.len() {
                assert(line[j] != 10u8);
            }
        }
    }
}

/// The last identity is that of the last event that has one.
pub proof fn the_last_identity_is_the_latest(
    events: Seq<EventView>,
    before: Option<Seq<char>>,
    at: int,
)
    requires
        -1 <= at < events.len(),
        at >= 0 ==> events[at].event_id is Some,
        forall|i: int| at < i < events.len() ==> (#[trigger] events[i]).event_id is None,
    ensures
        at >= 0 ==> last_identity(events, before) == events[at].event_id,
        at < 0 ==> last_identity(events, before) == before,
    decreases events.len(),
{
    if events.len() > 0 && at < events.len() - 1 {
        assert(events.last().event_id is None);
        the_last_identity_is_the_latest(events.drop_last(), before, at);
    }
}

/// A read goes on where its cursor stands, as long as the file, the parser and
/// the use are the same and the file did not shrink. It reads no more than its
/// allowance, and says whether anything is left.
pub proof fn reads_go_on_at_the_cursor(
    plan: ReadPlan,
    cursor: JsonlCursor,
    identity: FileIdentity,
    kind: CursorKind,
    snapshot_len: u64,
    limits: TranscriptLimits,
)
    requires
        is_read_plan(plan, Some(cursor), identity, kind, snapshot_len, limits),
    ensures
        ({
            let same = cursor.parser_version == 1 && cursor.identity == identity && cursor.kind
                == kind && cursor.byte_offset <= snapshot_len;
            &&& same ==> plan.start == cursor.byte_offset && !plan.align_to_record
                && !plan.context.rebuilt
            &&& !same ==> plan.context.rebuilt && plan.context.last_event_id is None
            &&& plan.context.rebuilt && cursor.generation < u64::MAX ==> plan.context.generation
                > cursor.generation
            &&& !plan.context.rebuilt && cursor.generation > 0 ==> plan.context.generation
                == cursor.generation
        }),
{
}

/// A read stays within the file and its allowance, and what it does not reach is
/// told: a ranking that begins behind the start of its file reads up to the end.
pub proof fn reads_cover_their_allowance(
    plan: ReadPlan,
    previous: Option<JsonlCursor>,
    identity: FileIdentity,
    kind: CursorKind,
    snapshot_len: u64,
    limits: TranscriptLimits,
)
    requires
        is_read_plan(plan, previous, identity, kind, snapshot_len, limits),
    ensures
        plan.start + plan.to_read <= snapshot_len,
        kind == CursorKind::Ranking ==> plan.to_read <= limits.tail_bytes,
        kind == CursorKind::Observation ==> plan.to_read <= limits.observation_bytes,
        plan.context.unread_backlog <==> plan.start + plan.to_read < snapshot_len,
        plan.context.truncated_history <==> plan.start > 0,
        previous is None && kind == CursorKind::Observation ==> plan.start == 0,
        previous is None && kind == CursorKind::Ranking ==> plan.start + plan.to_read
            == snapshot_len && (plan.to_read == limits.tail_bytes || plan.start == 0),
        previous is None ==> plan.context.generation == 1 && !plan.context.rebuilt,
        plan.context.identity == identity,
        plan.context.kind == kind,
{
}

} // verus!
