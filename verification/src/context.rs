//! Normalized session context: events, roles and tool evidence.
use crate::text::{copy_optional, copy_text, optional_text, same_optional, same_text};
use vstd::prelude::*;

pub mod anchor;
pub mod branch;
pub mod cass;
pub mod discovery;
pub mod jsonl;
pub mod overlay;
pub mod render;
pub mod tool;

verus! {

/// Who an event speaks for.
#[derive(Clone, Copy, Debug, PartialEq, Eq, Structural)]
pub enum Role {
    User,
    Assistant,
    Tool,
    System,
}

/// What an event records.
#[derive(Clone, Copy, Debug, PartialEq, Eq, Structural)]
pub enum EventKind {
    Message,
    ToolInvocation,
    ToolResult,
    Compaction,
    Resume,
    TaskBoundary,
}

/// How far a tool call is known to have got.
#[derive(Clone, Copy, Debug, PartialEq, Eq, Structural)]
pub enum ToolStatus {
    Attempted,
    Succeeded,
    Failed,
    Unknown,
}

/// The tool part of an event.
#[derive(Clone, Debug)]
pub struct ToolEvent {
    pub call_id: Option<String>,
    pub name: String,
    pub status: ToolStatus,
    pub arguments: Option<String>,
    pub result: Option<String>,
}

/// One event of a session, independent of the harness that wrote it.
#[derive(Clone, Debug)]
pub struct NormalizedEvent {
    pub event_id: Option<String>,
    pub parent_id: Option<String>,
    pub turn_id: Option<String>,
    pub agent_id: Option<String>,
    pub branch_id: Option<String>,
    pub role: Role,
    pub kind: EventKind,
    pub timestamp_unix_ms: Option<i64>,
    pub text: String,
    pub tool: Option<ToolEvent>,
}

/// A tool part with its texts as character sequences.
pub struct ToolView {
    pub call_id: Option<Seq<char>>,
    pub name: Seq<char>,
    pub status: ToolStatus,
    pub arguments: Option<Seq<char>>,
    pub result: Option<Seq<char>>,
}

/// An event with its texts as character sequences.
pub struct EventView {
    pub event_id: Option<Seq<char>>,
    pub parent_id: Option<Seq<char>>,
    pub turn_id: Option<Seq<char>>,
    pub agent_id: Option<Seq<char>>,
    pub branch_id: Option<Seq<char>>,
    pub role: Role,
    pub kind: EventKind,
    pub timestamp_unix_ms: Option<i64>,
    pub text: Seq<char>,
    pub tool: Option<ToolView>,
}

impl View for ToolEvent {
    type V = ToolView;

    open spec fn view(&self) -> ToolView {
        ToolView {
            call_id: optional_text(self.call_id),
            name: self.name@,
            status: self.status,
            arguments: optional_text(self.arguments),
            result: optional_text(self.result),
        }
    }
}

pub open spec fn optional_tool(tool: Option<ToolEvent>) -> Option<ToolView> {
    match tool {
        Some(t) => Some(t@),
        None => None,
    }
}

impl View for NormalizedEvent {
    type V = EventView;

    open spec fn view(&self) -> EventView {
        EventView {
            event_id: optional_text(self.event_id),
            parent_id: optional_text(self.parent_id),
            turn_id: optional_text(self.turn_id),
            agent_id: optional_text(self.agent_id),
            branch_id: optional_text(self.branch_id),
            role: self.role,
            kind: self.kind,
            timestamp_unix_ms: self.timestamp_unix_ms,
            text: self.text@,
            tool: optional_tool(self.tool),
        }
    }
}

/// The events of a log, text by text.
pub open spec fn event_views(events: Seq<NormalizedEvent>) -> Seq<EventView> {
    events.map_values(|e: NormalizedEvent| e@)
}

impl EventView {
    /// The identity of the tool call that the event is about, if any.
    pub open spec fn call_id(self) -> Option<Seq<char>> {
        match self.tool {
            Some(tool) => tool.call_id,
            None => None,
        }
    }
}

impl ToolEvent {
    pub fn copied(&self) -> (copy: ToolEvent)
        ensures
            copy@ == self@,
    {
        ToolEvent {
            call_id: copy_optional(&self.call_id),
            name: copy_text(self.name.as_str()),
            status: self.status,
            arguments: copy_optional(&self.arguments),
            result: copy_optional(&self.result),
        }
    }

    pub fn same(&self, other: &ToolEvent) -> (r: bool)
        ensures
            r == (self@ == other@),
    {
        same_optional(&self.call_id, &other.call_id) && same_text(
            self.name.as_str(),
            other.name.as_str(),
        ) && self.status == other.status && same_optional(&self.arguments, &other.arguments)
            && same_optional(&self.result, &other.result)
    }
}

impl NormalizedEvent {
    pub fn copied(&self) -> (copy: NormalizedEvent)
        ensures
            copy@ == self@,
    {
        let tool: Option<ToolEvent> = match &self.tool {
            Some(t) => Some(t.copied()),
            None => None,
        };
        NormalizedEvent {
            event_id: copy_optional(&self.event_id),
            parent_id: copy_optional(&self.parent_id),
            turn_id: copy_optional(&self.turn_id),
            agent_id: copy_optional(&self.agent_id),
            branch_id: copy_optional(&self.branch_id),
            role: self.role,
            kind: self.kind,
            timestamp_unix_ms: self.timestamp_unix_ms,
            text: copy_text(self.text.as_str()),
            tool,
        }
    }

    /// Do two events agree in every field?
    pub fn same(&self, other: &NormalizedEvent) -> (r: bool)
        ensures
            r == (self@ == other@),
    {
        let same_tool: bool = match (&self.tool, &other.tool) {
            (None, None) => true,
            (Some(a), Some(b)) => a.same(b),
            _ => false,
        };
        let same_time: bool = match (self.timestamp_unix_ms, other.timestamp_unix_ms) {
            (None, None) => true,
            (Some(a), Some(b)) => a == b,
            _ => false,
        };
        same_tool && same_time && self.role == other.role && self.kind == other.kind
            && same_optional(&self.event_id, &other.event_id) && same_optional(
            &self.parent_id,
            &other.parent_id,
        ) && same_optional(&self.turn_id, &other.turn_id) && same_optional(
            &self.agent_id,
            &other.agent_id,
        ) && same_optional(&self.branch_id, &other.branch_id) && same_text(
            self.text.as_str(),
            other.text.as_str(),
        )
    }

    /// Is this the tool call with the same identity as `other`'s?
    pub fn shares_call_with(&self, other: &NormalizedEvent) -> (r: bool)
        ensures
            r == (self@.call_id() is Some && self@.call_id() == other@.call_id()),
    {
        match (&self.tool, &other.tool) {
            (Some(a), Some(b)) => match (&a.call_id, &b.call_id) {
                (Some(x), Some(y)) => same_text(x.as_str(), y.as_str()),
                _ => false,
            },
            _ => false,
        }
    }
}

/// The request that is being ranked.
#[derive(Clone, Debug)]
pub struct CurrentRequest {
    pub event_id: Option<String>,
    pub text: String,
    pub attachments_omitted: bool,
    pub essential_attachment_missing: bool,
}

/// A session as one envelope: its scope, its request and its events.
#[derive(Clone, Debug)]
pub struct NormalizedContext {
    pub schema_version: u64,
    pub harness: String,
    pub producer_id: Option<String>,
    pub workspace_root: Option<String>,
    pub session_id: Option<String>,
    pub agent_id: Option<String>,
    pub branch_id: Option<String>,
    pub context_epoch: Option<String>,
    pub current_request: CurrentRequest,
    pub events: Vec<NormalizedEvent>,
    pub explicit_skill_references: Vec<String>,
    pub supplied_loads: Vec<String>,
}

/// A copy of a log.
pub fn copy_events(events: &Vec<NormalizedEvent>) -> (copy: Vec<NormalizedEvent>)
    ensures
        event_views(copy@) == event_views(events@),
{
    let mut copy: Vec<NormalizedEvent> = Vec::new();
    let mut i: usize = 0;
    while i < events.len()
        invariant
            i <= events@.len(),
            copy@.len() == i,
            forall|j: int| 0 <= j < i ==> (#[trigger] copy@[j])@ == events@[j]@,
        decreases events@.len() - i,
    {
        copy.push(events[i].copied());
        i += 1;
    }
    assert(event_views(copy@) =~= event_views(events@));
    copy
}

} // verus!
