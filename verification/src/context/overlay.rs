//! Authoritative prompt overlay and transcript validation.
//!
//! The submitted prompt is authoritative for the new request; it may not yet
//! appear in the transcript on disk. It is overlaid once into the session
//! history, by event identity and never by equal text. A transcript that does
//! not exist yet is a valid first turn; a malformed one is refused; a
//! transcript of another session is never used.
use crate::context::branch::laws::resolved_branch_is_one_chain;
use crate::context::branch::lineage::lineage_of;
use crate::context::branch::{
    resolve_active_branch, ActiveBranch, BranchResolution, BranchResolutionTarget, BranchView,
    TargetView,
};
use crate::context::jsonl::{
    find_newline, has_newline, identifier_or_none, line_event, next_newline, parse_line, SkipKind,
    NEWLINE,
};
use crate::context::{
    event_views, CurrentRequest, EventKind, EventView, NormalizedEvent, Role,
};
use crate::identity::valid_identifier;
use crate::json::{decode_json, decoded, parsed_json, Json, JsonView};
use crate::output::ContextQuality;
use crate::text::{
    contains_text, copy_optional, copy_text, is_blank, optional_text, same_optional, same_text,
    texts, trim,
};
use vstd::prelude::*;
use vstd::slice::slice_subrange;
use vstd::string::*;

pub mod before;
pub mod conversation;

verus! {

/// Why a prompt could not be overlaid.
#[derive(Clone, Debug)]
pub enum OverlayError {
    InvalidHookEvent(String),
    MissingPrompt,
    TranscriptPathForbidden(String),
    TranscriptIsDirectory(String),
    TranscriptIsDeviceOrFifo(String),
    MalformedTranscript(String),
    SessionMismatch { hook_session: String, transcript_session: String },
    CrossSessionReadForbidden,
    AmbiguousBranch,
    Deadline,
}

pub enum OverlayErrorView {
    InvalidHookEvent(Seq<char>),
    MissingPrompt,
    TranscriptPathForbidden(Seq<char>),
    TranscriptIsDirectory(Seq<char>),
    TranscriptIsDeviceOrFifo(Seq<char>),
    MalformedTranscript(Seq<char>),
    SessionMismatch { hook_session: Seq<char>, transcript_session: Seq<char> },
    CrossSessionReadForbidden,
    AmbiguousBranch,
    Deadline,
}

impl View for OverlayError {
    type V = OverlayErrorView;

    open spec fn view(&self) -> OverlayErrorView {
        match self {
            OverlayError::InvalidHookEvent(name) => OverlayErrorView::InvalidHookEvent(name@),
            OverlayError::MissingPrompt => OverlayErrorView::MissingPrompt,
            OverlayError::TranscriptPathForbidden(reason) =>
                OverlayErrorView::TranscriptPathForbidden(reason@),
            OverlayError::TranscriptIsDirectory(path) =>
                OverlayErrorView::TranscriptIsDirectory(path@),
            OverlayError::TranscriptIsDeviceOrFifo(path) =>
                OverlayErrorView::TranscriptIsDeviceOrFifo(path@),
            OverlayError::MalformedTranscript(detail) =>
                OverlayErrorView::MalformedTranscript(detail@),
            OverlayError::SessionMismatch { hook_session, transcript_session } =>
                OverlayErrorView::SessionMismatch {
                    hook_session: hook_session@,
                    transcript_session: transcript_session@,
                },
            OverlayError::CrossSessionReadForbidden => OverlayErrorView::CrossSessionReadForbidden,
            OverlayError::AmbiguousBranch => OverlayErrorView::AmbiguousBranch,
            OverlayError::Deadline => OverlayErrorView::Deadline,
        }
    }
}

impl OverlayErrorView {
    /// The diagnostic, which never names a path.
    pub open spec fn message(self) -> Seq<char> {
        match self {
            OverlayErrorView::InvalidHookEvent(name) => "unsupported hook event: "@ + name,
            OverlayErrorView::MissingPrompt => "hook stdin payload is missing prompt text"@,
            OverlayErrorView::TranscriptPathForbidden(reason) => "transcript path is forbidden: "@
                + reason,
            OverlayErrorView::TranscriptIsDirectory(_) => "transcript path is a directory"@,
            OverlayErrorView::TranscriptIsDeviceOrFifo(_) =>
                "transcript path is a device or FIFO"@,
            OverlayErrorView::MalformedTranscript(detail) =>
                "existing transcript file is malformed: "@ + detail,
            OverlayErrorView::SessionMismatch { .. } =>
                "transcript session does not match hook session"@,
            OverlayErrorView::AmbiguousBranch => "transcript branch cannot be resolved"@,
            OverlayErrorView::Deadline => "transcript overlay deadline exhausted"@,
            OverlayErrorView::CrossSessionReadForbidden =>
                "cross-session transcript read is forbidden"@,
        }
    }
}

impl OverlayError {
    pub fn message(&self) -> (text: String)
        ensures
            text@ == self@.message(),
    {
        match self {
            OverlayError::InvalidHookEvent(name) => copy_text("unsupported hook event: ").concat(
                name.as_str(),
            ),
            OverlayError::MissingPrompt => copy_text("hook stdin payload is missing prompt text"),
            OverlayError::TranscriptPathForbidden(reason) => copy_text(
                "transcript path is forbidden: ",
            ).concat(reason.as_str()),
            OverlayError::TranscriptIsDirectory(_) => copy_text("transcript path is a directory"),
            OverlayError::TranscriptIsDeviceOrFifo(_) => copy_text(
                "transcript path is a device or FIFO",
            ),
            OverlayError::MalformedTranscript(detail) => copy_text(
                "existing transcript file is malformed: ",
            ).concat(detail.as_str()),
            OverlayError::SessionMismatch { .. } => copy_text(
                "transcript session does not match hook session",
            ),
            OverlayError::AmbiguousBranch => copy_text("transcript branch cannot be resolved"),
            OverlayError::Deadline => copy_text("transcript overlay deadline exhausted"),
            OverlayError::CrossSessionReadForbidden => copy_text(
                "cross-session transcript read is forbidden",
            ),
        }
    }
}

/// The prompt that a hook submits.
#[derive(Clone, Debug)]
pub struct ClaudeUserPromptSubmit {
    pub prompt: String,
    pub prompt_id: Option<String>,
    pub session_id: Option<String>,
    pub transcript_path: Option<String>,
}

/// Configuration and inputs for applying the prompt overlay.
#[derive(Clone, Debug)]
pub struct ClaudeOverlayRequest {
    pub hook_input: ClaudeUserPromptSubmit,
    /// Explicit override for the transcript path; defaults to the hook's own.
    pub transcript_path: Option<String>,
    /// Optional directory root outside of which transcript reads are forbidden.
    pub authorized_root: Option<String>,
}

impl ClaudeOverlayRequest {
    pub open spec fn path(self) -> Option<Seq<char>> {
        if self.transcript_path is Some {
            optional_text(self.transcript_path)
        } else {
            optional_text(self.hook_input.transcript_path)
        }
    }

    /// The transcript to read; nothing where the hook names none. A blank
    /// prompt is refused before any path is looked at.
    pub fn transcript(&self) -> (r: Result<Option<String>, OverlayError>)
        ensures
            match r {
                Ok(path) => trim(self.hook_input.prompt@).len() > 0 && optional_text(path)
                    == self.path(),
                Err(error) => trim(self.hook_input.prompt@).len() == 0 && error@
                    == OverlayErrorView::MissingPrompt,
            },
    {
        if is_blank(self.hook_input.prompt.as_str()) {
            return Err(OverlayError::MissingPrompt);
        }
        if self.transcript_path.is_some() {
            Ok(copy_optional(&self.transcript_path))
        } else {
            Ok(copy_optional(&self.hook_input.transcript_path))
        }
    }
}

/// What opening a transcript path within its authorized root led to.
#[derive(Clone, Copy, Debug, PartialEq, Eq, Structural)]
pub enum OpenOutcome {
    Opened,
    NotFound,
    RelativePath,
    NoParent,
    RootUnavailable,
    Directory,
    DeviceOrFifo,
    EscapesRoot,
    Failed,
}

/// May the overlay go on, and is there a transcript to read?
pub fn transcript_access(path: &str, outcome: OpenOutcome) -> (r: Result<bool, OverlayError>)
    ensures
        match r {
            Ok(exists) => (outcome is Opened && exists) || (outcome is NotFound && !exists),
            Err(error) => match outcome {
                OpenOutcome::Opened => false,
                OpenOutcome::NotFound => false,
                OpenOutcome::RelativePath => error@ == OverlayErrorView::TranscriptPathForbidden(
                    "absolute path required"@,
                ),
                OpenOutcome::NoParent => error@ == OverlayErrorView::CrossSessionReadForbidden,
                OpenOutcome::RootUnavailable => error@
                    == OverlayErrorView::TranscriptPathForbidden("authorized root unavailable"@),
                OpenOutcome::Directory => error@ == OverlayErrorView::TranscriptIsDirectory(path@),
                OpenOutcome::DeviceOrFifo => error@ == OverlayErrorView::TranscriptIsDeviceOrFifo(
                    path@,
                ),
                OpenOutcome::EscapesRoot => error@ == OverlayErrorView::CrossSessionReadForbidden,
                OpenOutcome::Failed => error@ == OverlayErrorView::TranscriptPathForbidden(
                    "cannot open authorized transcript"@,
                ),
            },
        },
{
    match outcome {
        OpenOutcome::Opened => Ok(true),
        OpenOutcome::NotFound => Ok(false),
        OpenOutcome::RelativePath => Err(
            OverlayError::TranscriptPathForbidden(copy_text("absolute path required")),
        ),
        OpenOutcome::NoParent => Err(OverlayError::CrossSessionReadForbidden),
        OpenOutcome::RootUnavailable => Err(
            OverlayError::TranscriptPathForbidden(copy_text("authorized root unavailable")),
        ),
        OpenOutcome::Directory => Err(OverlayError::TranscriptIsDirectory(copy_text(path))),
        OpenOutcome::DeviceOrFifo => Err(OverlayError::TranscriptIsDeviceOrFifo(copy_text(path))),
        OpenOutcome::EscapesRoot => Err(OverlayError::CrossSessionReadForbidden),
        OpenOutcome::Failed => Err(
            OverlayError::TranscriptPathForbidden(copy_text("cannot open authorized transcript")),
        ),
    }
}

/// Did a transcript shrink, or change at the same length, while it was read?
pub fn changed_during_read(
    before_len: u64,
    before_modified: Option<i128>,
    after_len: u64,
    after_modified: Option<i128>,
) -> (changed: bool)
    ensures
        changed == (after_len < before_len || (after_len == before_len && before_modified
            != after_modified)),
{
    let same_time: bool = match (before_modified, after_modified) {
        (None, None) => true,
        (Some(a), Some(b)) => a == b,
        _ => false,
    };
    after_len < before_len || (after_len == before_len && !same_time)
}

/// Result of applying the prompt overlay.
#[derive(Clone, Debug)]
pub struct ClaudeOverlayResult {
    pub session_id: Option<String>,
    pub branch_id: Option<String>,
    pub current_request: CurrentRequest,
    /// Merged event history containing the overlaid prompt exactly once.
    pub events: Vec<NormalizedEvent>,
    pub active_branch: Option<ActiveBranch>,
    pub context_quality: ContextQuality,
    pub prompt_overlaid: bool,
    pub deduplicated_by_event_id: bool,
}

/// The parts of an overlay result that depend on the transcript.
pub struct OverlayView {
    pub branch_id: Option<Seq<char>>,
    pub events: Seq<EventView>,
    pub active_branch: Option<BranchView>,
    pub context_quality: ContextQuality,
    pub deduplicated_by_event_id: bool,
}

impl ClaudeOverlayResult {
    pub open spec fn history(self) -> OverlayView {
        OverlayView {
            branch_id: optional_text(self.branch_id),
            events: event_views(self.events@),
            active_branch: match self.active_branch {
                Some(branch) => Some(branch@),
                None => None,
            },
            context_quality: self.context_quality,
            deduplicated_by_event_id: self.deduplicated_by_event_id,
        }
    }

    /// The result is about this hook's session and request.
    pub open spec fn serves(self, hook: ClaudeUserPromptSubmit) -> bool {
        &&& optional_text(self.session_id) == optional_text(hook.session_id)
        &&& optional_text(self.current_request.event_id) == optional_text(hook.prompt_id)
        &&& self.current_request.text@ == hook.prompt@
        &&& !self.current_request.attachments_omitted
        &&& !self.current_request.essential_attachment_missing
        &&& self.prompt_overlaid
    }
}

/// The event of a submitted prompt below `parent`.
pub open spec fn prompt_event(
    prompt: Seq<char>,
    prompt_id: Option<Seq<char>>,
    parent: Option<Seq<char>>,
) -> EventView {
    EventView {
        event_id: prompt_id,
        parent_id: parent,
        turn_id: None,
        agent_id: None,
        branch_id: None,
        role: Role::User,
        kind: EventKind::Message,
        timestamp_unix_ms: None,
        text: prompt,
        tool: None,
    }
}

fn new_prompt_event(hook: &ClaudeUserPromptSubmit, parent_id: Option<String>) -> (e: NormalizedEvent)
    ensures
        e@ == prompt_event(
            hook.prompt@,
            optional_text(hook.prompt_id),
            optional_text(parent_id),
        ),
{
    NormalizedEvent {
        event_id: copy_optional(&hook.prompt_id),
        parent_id,
        turn_id: None,
        agent_id: None,
        branch_id: None,
        role: Role::User,
        kind: EventKind::Message,
        timestamp_unix_ms: None,
        text: copy_text(hook.prompt.as_str()),
        tool: None,
    }
}

fn request_of(hook: &ClaudeUserPromptSubmit) -> (request: CurrentRequest)
    ensures
        optional_text(request.event_id) == optional_text(hook.prompt_id),
        request.text@ == hook.prompt@,
        !request.attachments_omitted,
        !request.essential_attachment_missing,
{
    CurrentRequest {
        event_id: copy_optional(&hook.prompt_id),
        text: copy_text(hook.prompt.as_str()),
        attachments_omitted: false,
        essential_attachment_missing: false,
    }
}

/// Rank on the prompt alone: no transcript was named, or it does not exist yet.
pub fn prompt_only(hook: &ClaudeUserPromptSubmit) -> (result: ClaudeOverlayResult)
    ensures
        result.serves(*hook),
        result.history() == (OverlayView {
            branch_id: None,
            events: seq![prompt_event(hook.prompt@, optional_text(hook.prompt_id), None)],
            active_branch: None,
            context_quality: ContextQuality::PromptOnly,
            deduplicated_by_event_id: false,
        }),
{
    let mut events: Vec<NormalizedEvent> = Vec::new();
    events.push(new_prompt_event(hook, None));
    assert(event_views(events@) =~= seq![
        prompt_event(hook.prompt@, optional_text(hook.prompt_id), None),
    ]);
    ClaudeOverlayResult {
        session_id: copy_optional(&hook.session_id),
        branch_id: None,
        current_request: request_of(hook),
        events,
        active_branch: None,
        context_quality: ContextQuality::PromptOnly,
        prompt_overlaid: true,
        deduplicated_by_event_id: false,
    }
}

/// One transcript record as the overlay sees it.
#[derive(Debug)]
pub enum OverlayRecord {
    Event { event: NormalizedEvent, value: Json },
    /// A record of the harness's own, where its bytes could be decoded.
    Unmodeled { value: Option<Json> },
    Oversize,
    DuplicateKey,
    Corrupt,
}

pub enum OverlayRecordView {
    Event { event: EventView, value: JsonView },
    Unmodeled { value: Option<JsonView> },
    Oversize,
    DuplicateKey,
    Corrupt,
}

impl View for OverlayRecord {
    type V = OverlayRecordView;

    open spec fn view(&self) -> OverlayRecordView {
        match self {
            OverlayRecord::Event { event, value } => OverlayRecordView::Event {
                event: event@,
                value: value@,
            },
            OverlayRecord::Unmodeled { value } => OverlayRecordView::Unmodeled {
                value: match value {
                    Some(v) => Some(v@),
                    None => None,
                },
            },
            OverlayRecord::Oversize => OverlayRecordView::Oversize,
            OverlayRecord::DuplicateKey => OverlayRecordView::DuplicateKey,
            OverlayRecord::Corrupt => OverlayRecordView::Corrupt,
        }
    }
}

/// What the records read so far amount to.
pub struct OverlayProgress {
    pub events: Seq<EventView>,
    pub sidechains: Seq<Seq<char>>,
    pub native_lineage: bool,
}

pub open spec fn malformed(detail: Seq<char>) -> OverlayErrorView {
    OverlayErrorView::MalformedTranscript(detail)
}

/// The complaint about one session key of a record, if any.
pub open spec fn session_key_error(
    value: JsonView,
    key: Seq<char>,
    session: Option<Seq<char>>,
) -> Option<OverlayErrorView> {
    match value.get(key) {
        None => None,
        Some(observed) => if identifier_or_none(observed.text()) is None {
            Some(malformed("invalid transcript session identity"@))
        } else {
            match session {
                None => Some(OverlayErrorView::CrossSessionReadForbidden),
                Some(expected) => if expected == observed.text()->0 {
                    None
                } else {
                    Some(
                        OverlayErrorView::SessionMismatch {
                            hook_session: expected,
                            transcript_session: observed.text()->0,
                        },
                    )
                },
            }
        },
    }
}

/// The complaint about a record's session, if any.
pub open spec fn session_error(value: JsonView, session: Option<Seq<char>>) -> Option<
    OverlayErrorView,
> {
    match session_key_error(value, "sessionId"@, session) {
        Some(error) => Some(error),
        None => session_key_error(value, "session_id"@, session),
    }
}

/// The identifier under the first of two keys that is present.
pub open spec fn present_id(value: JsonView, first: Seq<char>, second: Seq<char>) -> Option<
    Seq<char>,
> {
    match value.get(first) {
        Some(field) => identifier_or_none(field.text()),
        None => match value.get(second) {
            Some(field) => identifier_or_none(field.text()),
            None => None,
        },
    }
}

/// An empty system event that keeps a record's place in the graph.
pub open spec fn placeholder(id: Seq<char>, parent: Option<Seq<char>>) -> EventView {
    EventView {
        event_id: Some(id),
        parent_id: parent,
        turn_id: None,
        agent_id: None,
        branch_id: None,
        role: Role::System,
        kind: EventKind::Message,
        timestamp_unix_ms: None,
        text: ""@,
        tool: None,
    }
}

impl OverlayProgress {
    pub open spec fn defines(self, id: Option<Seq<char>>) -> bool {
        id is Some && exists|i: int|
            0 <= i < self.events.len() && (#[trigger] self.events[i]).event_id == id
    }

    /// Take in one event with the record that it came from.
    pub open spec fn with_event(self, event: EventView, value: JsonView) -> OverlayProgress {
        OverlayProgress {
            events: self.events.push(event),
            sidechains: if value.boolean_at("isSidechain"@) == Some(true) && event.event_id is Some {
                self.sidechains.push(event.event_id->0)
            } else {
                self.sidechains
            },
            native_lineage: self.native_lineage || value.get("parentUuid"@) is Some,
        }
    }

    /// Take in one record.
    pub open spec fn step(self, record: OverlayRecordView, session: Option<Seq<char>>) -> Result<
        OverlayProgress,
        OverlayErrorView,
    > {
        match record {
            OverlayRecordView::Oversize => Err(malformed("transcript record exceeds byte limit"@)),
            OverlayRecordView::DuplicateKey => Err(malformed("duplicate key in transcript record"@)),
            OverlayRecordView::Corrupt => Err(malformed("corrupt transcript JSON record"@)),
            OverlayRecordView::Unmodeled { value: None } => Err(
                malformed("corrupt, duplicate or oversized transcript record"@),
            ),
            OverlayRecordView::Unmodeled { value: Some(value) } => {
                let id = present_id(value, "uuid"@, "event_id"@);
                let parent = present_id(value, "parentUuid"@, "parent_id"@);
                if session_error(value, session) is Some {
                    Err(session_error(value, session)->0)
                } else if id is None {
                    Ok(self)
                } else if self.defines(id) {
                    Err(malformed("duplicate transcript event identity"@))
                } else {
                    Ok(self.with_event(placeholder(id->0, parent), value))
                }
            },
            OverlayRecordView::Event { event, value } => if session_error(value, session) is Some {
                Err(session_error(value, session)->0)
            } else if self.defines(event.event_id) {
                Err(malformed("duplicate transcript event identity"@))
            } else {
                Ok(self.with_event(event, value))
            },
        }
    }

    /// Does any record link to a parent?
    pub open spec fn linked(self) -> bool {
        self.native_lineage || exists|i: int|
            0 <= i < self.events.len() && (#[trigger] self.events[i]).parent_id is Some
    }

    /// The events off the sidechains, in order.
    pub open spec fn main_chain(self, events: Seq<EventView>) -> Seq<EventView>
        decreases events.len(),
    {
        if events.len() == 0 {
            Seq::empty()
        } else if events.last().event_id is Some && self.sidechains.contains(
            events.last().event_id->0,
        ) {
            self.main_chain(events.drop_last())
        } else {
            self.main_chain(events.drop_last()).push(events.last())
        }
    }

    /// The events that the prompt is overlaid on.
    pub open spec fn base(self) -> Seq<EventView> {
        if self.linked() {
            self.main_chain(self.events)
        } else {
            self.events
        }
    }
}

/// The identity of the last identified event.
pub open spec fn last_id(events: Seq<EventView>) -> Option<Seq<char>>
    decreases events.len(),
{
    if events.len() == 0 {
        None
    } else if events.last().event_id is Some {
        events.last().event_id
    } else {
        last_id(events.drop_last())
    }
}

/// `k` is the first event with the prompt's identity.
pub open spec fn is_prompt_place(events: Seq<EventView>, prompt_id: Option<Seq<char>>, k: int) -> bool {
    prompt_id is Some && 0 <= k < events.len() && events[k].event_id == prompt_id && forall|j: int|
        0 <= j < k ==> (#[trigger] events[j]).event_id != prompt_id
}

pub open spec fn no_target() -> TargetView {
    TargetView { event: None, branch: None, agent: None }
}

pub open spec fn prompt_target(prompt_id: Option<Seq<char>>) -> TargetView {
    TargetView { event: prompt_id, branch: None, agent: None }
}

/// The work events once the prompt is among them, and whether it was there
/// already.
pub open spec fn with_prompt(
    base: Seq<EventView>,
    linked: bool,
    prompt: Seq<char>,
    prompt_id: Option<Seq<char>>,
) -> Result<(Seq<EventView>, bool), OverlayErrorView> {
    if exists|k: int| is_prompt_place(base, prompt_id, k) {
        let k = choose|k: int| is_prompt_place(base, prompt_id, k);
        if base[k].role != Role::User || base[k].kind != EventKind::Message {
            Err(malformed("prompt identity refers to a non-user message"@))
        } else {
            Ok((base.update(k, EventView { text: prompt, ..base[k] }), true))
        }
    } else if linked {
        match lineage_of(base, Seq::empty()).resolution(no_target()) {
            Err(_) => Err(OverlayErrorView::AmbiguousBranch),
            Ok(branch) => Ok(
                (base.push(prompt_event(prompt, prompt_id, branch.leaf_event_id)), false),
            ),
        }
    } else {
        Ok((base.push(prompt_event(prompt, prompt_id, last_id(base))), false))
    }
}

/// The branch that the overlaid prompt ends. A prompt without identity is no
/// node of the graph: it is appended to the branch that the others form.
pub open spec fn prompted_branch(
    work: Seq<EventView>,
    linked: bool,
    prompt_id: Option<Seq<char>>,
) -> Option<BranchView> {
    let anonymous = linked && prompt_id is None;
    let nodes = if anonymous {
        work.drop_last()
    } else {
        work
    };
    match lineage_of(nodes, Seq::empty()).resolution(prompt_target(prompt_id)) {
        Err(_) => None,
        Ok(branch) => if anonymous {
            Some(
                BranchView {
                    events: branch.events.push(work.last()),
                    leaf_event_id: None,
                    ..branch
                },
            )
        } else {
            Some(branch)
        },
    }
}

impl OverlayProgress {
    /// Overlay the prompt on what was read. `partial` tells whether the read
    /// left records out.
    pub open spec fn finish(
        self,
        prompt: Seq<char>,
        prompt_id: Option<Seq<char>>,
        partial: bool,
    ) -> Result<OverlayView, OverlayErrorView> {
        match with_prompt(self.base(), self.linked(), prompt, prompt_id) {
            Err(error) => Err(error),
            Ok((work, deduplicated)) => {
                let branch = prompted_branch(work, self.linked(), prompt_id);
                if self.linked() && branch is None {
                    Err(OverlayErrorView::AmbiguousBranch)
                } else {
                    Ok(
                        OverlayView {
                            branch_id: match branch {
                                Some(b) => b.branch_id,
                                None => None,
                            },
                            events: if self.linked() {
                                branch->0.events
                            } else {
                                work
                            },
                            active_branch: branch,
                            context_quality: if partial || (self.linked()
                                && branch->0.ancestor_chain_truncated) {
                                ContextQuality::Partial
                            } else {
                                ContextQuality::Complete
                            },
                            deduplicated_by_event_id: deduplicated,
                        },
                    )
                }
            },
        }
    }
}

fn refuse(detail: &str) -> (error: OverlayError)
    ensures
        error@ == malformed(detail@),
{
    OverlayError::MalformedTranscript(copy_text(detail))
}

fn check_session_key(value: &Json, key: &str, session: &Option<String>) -> (r: Result<
    (),
    OverlayError,
>)
    ensures
        match r {
            Ok(_) => session_key_error(value@, key@, optional_text(*session)) is None,
            Err(error) => session_key_error(value@, key@, optional_text(*session)) == Some(error@),
        },
{
    let observed: &Json = match value.get(key) {
        None => {
            return Ok(());
        },
        Some(observed) => observed,
    };
    match observed.as_str() {
        Some(text) => {
            if !valid_identifier(text) {
                return Err(refuse("invalid transcript session identity"));
            }
            match session {
                None => Err(OverlayError::CrossSessionReadForbidden),
                Some(expected) => if same_text(expected.as_str(), text) {
                    Ok(())
                } else {
                    Err(
                        OverlayError::SessionMismatch {
                            hook_session: copy_text(expected.as_str()),
                            transcript_session: copy_text(text),
                        },
                    )
                },
            }
        },
        None => Err(refuse("invalid transcript session identity")),
    }
}

fn check_session(value: &Json, session: &Option<String>) -> (r: Result<(), OverlayError>)
    ensures
        match r {
            Ok(_) => session_error(value@, optional_text(*session)) is None,
            Err(error) => session_error(value@, optional_text(*session)) == Some(error@),
        },
{
    match check_session_key(value, "sessionId", session) {
        Err(error) => Err(error),
        Ok(_) => check_session_key(value, "session_id", session),
    }
}

fn read_present_id(value: &Json, first: &str, second: &str) -> (id: Option<String>)
    ensures
        optional_text(id) == present_id(value@, first@, second@),
{
    let field: &Json = match value.get(first) {
        Some(field) => field,
        None => match value.get(second) {
            Some(field) => field,
            None => {
                return None;
            },
        },
    };
    match field.as_str() {
        Some(text) => if valid_identifier(text) {
            Some(copy_text(text))
        } else {
            None
        },
        None => None,
    }
}

/// The records of a transcript taken in so far.
#[derive(Debug)]
pub struct OverlayState {
    session: Option<String>,
    events: Vec<NormalizedEvent>,
    sidechain_ids: Vec<String>,
    native_lineage: bool,
}

impl OverlayState {
    pub closed spec fn hook_session(self) -> Option<Seq<char>> {
        optional_text(self.session)
    }

    pub closed spec fn progress(self) -> OverlayProgress {
        OverlayProgress {
            events: event_views(self.events@),
            sidechains: texts(self.sidechain_ids@),
            native_lineage: self.native_lineage,
        }
    }

    /// Nothing read yet of a transcript for this hook.
    pub fn new(hook: &ClaudeUserPromptSubmit) -> (state: OverlayState)
        ensures
            state.hook_session() == optional_text(hook.session_id),
            state.progress() == (OverlayProgress {
                events: Seq::empty(),
                sidechains: Seq::empty(),
                native_lineage: false,
            }),
    {
        let state = OverlayState {
            session: copy_optional(&hook.session_id),
            events: Vec::new(),
            sidechain_ids: Vec::new(),
            native_lineage: false,
        };
        assert(event_views(state.events@) =~= Seq::empty());
        assert(texts(state.sidechain_ids@) =~= Seq::empty());
        state
    }

    fn defines(&self, id: &Option<String>) -> (r: bool)
        ensures
            r == self.progress().defines(optional_text(*id)),
    {
        let ghost all = self.progress().events;
        if id.is_none() {
            return false;
        }
        let mut i: usize = 0;
        while i < self.events.len()
            invariant
                i <= self.events@.len(),
                all == event_views(self.events@),
                all == self.progress().events,
                *id is Some,
                forall|j: int|
                    0 <= j < i ==> (#[trigger] all[j]).event_id != optional_text(*id),
            decreases self.events@.len() - i,
        {
            assert(all[i as int] == self.events@[i as int]@);
            if same_optional(&self.events[i].event_id, id) {
                return true;
            }
            i += 1;
        }
        false
    }

    fn take_in(&mut self, event: NormalizedEvent, value: &Json)
        ensures
            final(self).hook_session() == old(self).hook_session(),
            final(self).progress() == old(self).progress().with_event(event@, value@),
    {
        let ghost before = *self;
        let sidechain: bool = match value.bool_at("isSidechain") {
            Some(flag) => flag,
            None => false,
        };
        if sidechain {
            match &event.event_id {
                Some(id) => {
                    self.sidechain_ids.push(copy_text(id.as_str()));
                },
                None => {},
            }
        }
        if value.get("parentUuid").is_some() {
            self.native_lineage = true;
        }
        self.events.push(event);
        assert(event_views(self.events@) =~= event_views(before.events@).push(event@));
        assert(sidechain && event@.event_id is Some ==> texts(self.sidechain_ids@) =~= texts(
            before.sidechain_ids@,
        ).push(event@.event_id->0));
    }

    /// Take in one more record.
    pub fn push_record(&mut self, record: OverlayRecord) -> (r: Result<(), OverlayError>)
        ensures
            final(self).hook_session() == old(self).hook_session(),
            match r {
                Ok(_) => old(self).progress().step(record@, old(self).hook_session()) == Ok::<
                    OverlayProgress,
                    OverlayErrorView,
                >(final(self).progress()),
                Err(error) => final(self).progress() == old(self).progress() && old(
                    self,
                ).progress().step(record@, old(self).hook_session()) == Err::<
                    OverlayProgress,
                    OverlayErrorView,
                >(error@),
            },
    {
        match record {
            OverlayRecord::Oversize => Err(refuse("transcript record exceeds byte limit")),
            OverlayRecord::DuplicateKey => Err(refuse("duplicate key in transcript record")),
            OverlayRecord::Corrupt => Err(refuse("corrupt transcript JSON record")),
            OverlayRecord::Unmodeled { value: None } => Err(
                refuse("corrupt, duplicate or oversized transcript record"),
            ),
            OverlayRecord::Unmodeled { value: Some(value) } => {
                match check_session(&value, &self.session) {
                    Err(error) => {
                        return Err(error);
                    },
                    Ok(_) => {},
                }
                let event_id: Option<String> = read_present_id(&value, "uuid", "event_id");
                if event_id.is_none() {
                    return Ok(());
                }
                if self.defines(&event_id) {
                    return Err(refuse("duplicate transcript event identity"));
                }
                let event = NormalizedEvent {
                    event_id,
                    parent_id: read_present_id(&value, "parentUuid", "parent_id"),
                    turn_id: None,
                    agent_id: None,
                    branch_id: None,
                    role: Role::System,
                    kind: EventKind::Message,
                    timestamp_unix_ms: None,
                    text: copy_text(""),
                    tool: None,
                };
                self.take_in(event, &value);
                Ok(())
            },
            OverlayRecord::Event { event, value } => {
                match check_session(&value, &self.session) {
                    Err(error) => {
                        return Err(error);
                    },
                    Ok(_) => {},
                }
                if self.defines(&event.event_id) {
                    return Err(refuse("duplicate transcript event identity"));
                }
                self.take_in(event, &value);
                Ok(())
            },
        }
    }

    fn linked(&self) -> (r: bool)
        ensures
            r == self.progress().linked(),
    {
        let ghost all = self.progress().events;
        if self.native_lineage {
            return true;
        }
        let mut i: usize = 0;
        while i < self.events.len()
            invariant
                i <= self.events@.len(),
                all == event_views(self.events@),
                forall|j: int| 0 <= j < i ==> (#[trigger] all[j]).parent_id is None,
            decreases self.events@.len() - i,
        {
            assert(all[i as int] == self.events@[i as int]@);
            if self.events[i].parent_id.is_some() {
                return true;
            }
            i += 1;
        }
        false
    }

    /// The events that the prompt is overlaid on.
    fn base(&self, linked: bool) -> (work: Vec<NormalizedEvent>)
        requires
            linked == self.progress().linked(),
        ensures
            event_views(work@) == self.progress().base(),
    {
        let ghost p = self.progress();
        let ghost all = event_views(self.events@);
        let mut work: Vec<NormalizedEvent> = Vec::new();
        let mut i: usize = 0;
        assert(event_views(work@) =~= Seq::empty());
        assert(all.take(0) =~= Seq::empty());
        while i < self.events.len()
            invariant
                i <= self.events@.len(),
                p == self.progress(),
                all == event_views(self.events@),
                linked ==> event_views(work@) == p.main_chain(all.take(i as int)),
                !linked ==> event_views(work@) == all.take(i as int),
            decreases self.events@.len() - i,
        {
            let event: &NormalizedEvent = &self.events[i];
            assert(all.take(i as int + 1).drop_last() =~= all.take(i as int));
            assert(all.take(i as int + 1).last() == event@);
            assert(all.take(i as int + 1) =~= all.take(i as int).push(event@));
            let aside: bool = match &event.event_id {
                Some(id) => linked && contains_text(&self.sidechain_ids, id.as_str()),
                None => false,
            };
            if !aside {
                let ghost before = event_views(work@);
                work.push(event.copied());
                assert(event_views(work@) =~= before.push(event@));
            }
            i += 1;
        }
        assert(all.take(i as int) =~= all);
        work
    }

    /// Overlay the hook's prompt on the records taken in.
    pub fn finish(self, hook: &ClaudeUserPromptSubmit, partial: bool) -> (r: Result<
        ClaudeOverlayResult,
        OverlayError,
    >)
        ensures
            match r {
                Ok(result) => result.serves(*hook) && self.progress().finish(
                    hook.prompt@,
                    optional_text(hook.prompt_id),
                    partial,
                ) == Ok::<OverlayView, OverlayErrorView>(result.history()),
                Err(error) => self.progress().finish(
                    hook.prompt@,
                    optional_text(hook.prompt_id),
                    partial,
                ) == Err::<OverlayView, OverlayErrorView>(error@),
            },
    {
        let ghost p = self.progress();
        let ghost prompt_id = optional_text(hook.prompt_id);
        let linked: bool = self.linked();
        let mut work: Vec<NormalizedEvent> = self.base(linked);
        let ghost base = event_views(work@);
        let matched: Option<usize> = find_prompt(&work, &hook.prompt_id);
        match matched {
            Some(k) => {
                assert(base[k as int] == work@[k as int]@);
                if work[k].role != Role::User || work[k].kind != EventKind::Message {
                    return Err(refuse("prompt identity refers to a non-user message"));
                }
                let mut event: NormalizedEvent = work[k].copied();
                event.text = copy_text(hook.prompt.as_str());
                work.set(k, event);
                assert(event_views(work@) =~= base.update(
                    k as int,
                    EventView { text: hook.prompt@, ..base[k as int] },
                ));
            },
            None => {
                let parent: Option<String> = if linked {
                    let target = BranchResolutionTarget {
                        target_event_id: None,
                        target_branch_id: None,
                        target_agent_id: None,
                    };
                    assert(target@ == no_target());
                    match resolve_active_branch(&work, &target) {
                        BranchResolution::Resolved(branch) => branch.leaf_event_id,
                        BranchResolution::Unresolved(_) => {
                            return Err(OverlayError::AmbiguousBranch);
                        },
                    }
                } else {
                    find_last_id(&work)
                };
                work.push(new_prompt_event(hook, parent));
                assert(event_views(work@) =~= base.push(
                    prompt_event(hook.prompt@, prompt_id, optional_text(parent)),
                ));
            },
        }
        let ghost merged = event_views(work@);
        assert(with_prompt(base, linked, hook.prompt@, prompt_id) == Ok::<
            (Seq<EventView>, bool),
            OverlayErrorView,
        >((merged, matched is Some)));
        let target = BranchResolutionTarget {
            target_event_id: copy_optional(&hook.prompt_id),
            target_branch_id: None,
            target_agent_id: None,
        };
        assert(target@ == prompt_target(prompt_id));
        let anonymous: bool = linked && hook.prompt_id.is_none();
        let pending: Option<NormalizedEvent> = if anonymous {
            let event = work.pop();
            assert(event_views(work@) =~= merged.drop_last());
            event
        } else {
            None
        };
        let active: Option<ActiveBranch> = match resolve_active_branch(&work, &target) {
            BranchResolution::Resolved(mut branch) => {
                match pending {
                    Some(event) => {
                        let ghost chain = event_views(branch.events@);
                        branch.events.push(event);
                        assert(event_views(branch.events@) =~= chain.push(event@));
                        branch.leaf_event_id = None;
                    },
                    None => {},
                }
                Some(branch)
            },
            BranchResolution::Unresolved(_) => None,
        };
        let ghost branch_view = if active is Some {
            Some(active->0@)
        } else {
            None
        };
        assert(branch_view == prompted_branch(merged, linked, prompt_id));
        let (branch_id, truncated): (Option<String>, bool) = match &active {
            Some(branch) => (copy_optional(&branch.branch_id), branch.ancestor_chain_truncated),
            None => (None, false),
        };
        let events: Vec<NormalizedEvent> = if linked {
            match &active {
                Some(branch) => crate::context::copy_events(&branch.events),
                None => {
                    return Err(OverlayError::AmbiguousBranch);
                },
            }
        } else {
            work
        };
        let result = ClaudeOverlayResult {
            session_id: copy_optional(&hook.session_id),
            branch_id,
            current_request: request_of(hook),
            events,
            active_branch: active,
            context_quality: if partial || (linked && truncated) {
                ContextQuality::Partial
            } else {
                ContextQuality::Complete
            },
            prompt_overlaid: true,
            deduplicated_by_event_id: matched.is_some(),
        };
        Ok(result)
    }
}

fn find_prompt(events: &Vec<NormalizedEvent>, prompt_id: &Option<String>) -> (place: Option<usize>)
    ensures
        match place {
            Some(k) => is_prompt_place(event_views(events@), optional_text(*prompt_id), k as int)
                && k == choose|j: int|
                is_prompt_place(event_views(events@), optional_text(*prompt_id), j),
            None => !exists|j: int|
                is_prompt_place(event_views(events@), optional_text(*prompt_id), j),
        },
{
    let ghost all = event_views(events@);
    let ghost id = optional_text(*prompt_id);
    if prompt_id.is_none() {
        return None;
    }
    let mut k: usize = 0;
    while k < events.len()
        invariant
            k <= events@.len(),
            all == event_views(events@),
            id == optional_text(*prompt_id),
            id is Some,
            forall|j: int| 0 <= j < k ==> (#[trigger] all[j]).event_id != id,
        decreases events@.len() - k,
    {
        assert(all[k as int] == events@[k as int]@);
        if same_optional(&events[k].event_id, prompt_id) {
            assert(is_prompt_place(all, id, k as int));
            let ghost c = choose|j: int| is_prompt_place(all, id, j);
            assert(c == k) by {
                if c < k {
                    assert(all[c].event_id != id);
                }
                if c > k {
                    assert(all[k as int].event_id != id);
                }
            }
            return Some(k);
        }
        k += 1;
    }
    None
}

fn find_last_id(events: &Vec<NormalizedEvent>) -> (id: Option<String>)
    ensures
        optional_text(id) == last_id(event_views(events@)),
{
    let ghost all = event_views(events@);
    let mut k: usize = events.len();
    assert(all.take(k as int) =~= all);
    while k > 0
        invariant
            k <= events@.len(),
            all == event_views(events@),
            last_id(all) == last_id(all.take(k as int)),
        decreases k,
    {
        let event: &NormalizedEvent = &events[k - 1];
        assert(all.take(k as int).last() == event@);
        assert(all.take(k as int).drop_last() =~= all.take(k as int - 1));
        if event.event_id.is_some() {
            return copy_optional(&event.event_id);
        }
        k -= 1;
    }
    None
}

/// A record of a transcript tail, by its place.
#[derive(Clone, Copy, Debug, PartialEq, Eq, Structural)]
pub struct RecordSpan {
    pub from: usize,
    pub to: usize,
}

/// The non-empty lines of `buf[from..]` that a newline ends, in order.
pub open spec fn complete_lines(buf: Seq<u8>, from: int) -> Seq<(int, int)>
    decreases buf.len() - from,
{
    if from < 0 || from >= buf.len() || !has_newline(buf, from) || next_newline(buf, from) < from {
        Seq::empty()
    } else {
        let newline = next_newline(buf, from);
        let rest = complete_lines(buf, newline + 1);
        if newline == from {
            rest
        } else {
            seq![(from, newline)] + rest
        }
    }
}

/// The records of a tail that begins at byte `start` of its file: those after
/// the first newline where the tail starts inside the file.
pub open spec fn tail_lines(buf: Seq<u8>, start: int) -> Seq<(int, int)> {
    if start == 0 {
        complete_lines(buf, 0)
    } else if has_newline(buf, 0) {
        complete_lines(buf, next_newline(buf, 0) + 1)
    } else {
        Seq::empty()
    }
}

/// The last `max` elements.
pub open spec fn last_of(lines: Seq<(int, int)>, max: nat) -> Seq<(int, int)> {
    if lines.len() > max {
        lines.skip(lines.len() - max)
    } else {
        lines
    }
}

/// Does a tail leave anything of its file out?
pub open spec fn tail_is_partial(buf: Seq<u8>, start: int, max_records: nat) -> bool {
    start > 0 || (buf.len() > 0 && buf.last() != NEWLINE) || tail_lines(buf, start).len()
        > max_records
}

pub open spec fn spans(list: Seq<RecordSpan>) -> Seq<(int, int)> {
    list.map_values(|s: RecordSpan| (s.from as int, s.to as int))
}

/// The last records of a transcript tail and whether it is only a part.
pub fn tail_records(buf: &[u8], start: u64, max_records: usize) -> (r: (Vec<RecordSpan>, bool))
    ensures
        spans(r.0@) == last_of(tail_lines(buf@, start as int), max_records as nat),
        r.1 == tail_is_partial(buf@, start as int, max_records as nat),
        forall|k: int|
            0 <= k < r.0@.len() ==> (#[trigger] r.0@[k]).from < r.0@[k].to <= buf@.len(),
{
    let total: usize = buf.len();
    let mut partial: bool = start > 0 || (total > 0 && buf[total - 1] != NEWLINE);
    let ghost all = tail_lines(buf@, start as int);
    let mut lines: Vec<RecordSpan> = Vec::new();
    let mut from: usize = 0;
    if start > 0 {
        match find_newline(buf, 0) {
            Some(newline) => {
                from = newline + 1;
            },
            None => {
                assert(spans(lines@) =~= all);
                return (lines, partial);
            },
        }
    }
    assert(spans(lines@) + complete_lines(buf@, from as int) =~= all);
    let mut done: bool = false;
    while !done
        invariant
            total == buf@.len(),
            from <= total,
            spans(lines@) + complete_lines(buf@, from as int) == all,
            done ==> complete_lines(buf@, from as int).len() == 0,
            forall|k: int|
                0 <= k < lines@.len() ==> (#[trigger] lines@[k]).from < lines@[k].to <= total,
        decreases (if done {
                0int
            } else {
                1int
            }), total - from,
    {
        match find_newline(buf, from) {
            None => {
                done = true;
            },
            Some(newline) => {
                let ghost before = spans(lines@);
                let ghost rest = complete_lines(buf@, newline + 1);
                if newline > from {
                    lines.push(RecordSpan { from, to: newline });
                    assert(spans(lines@) =~= before.push((from as int, newline as int)));
                    assert(before + (seq![(from as int, newline as int)] + rest) =~= spans(lines@)
                        + rest);
                }
                from = newline + 1;
            },
        }
    }
    assert(spans(lines@) =~= all);
    if lines.len() > max_records {
        partial = true;
        let ghost before = lines@;
        let cut: usize = lines.len() - max_records;
        let kept: Vec<RecordSpan> = lines.split_off(cut);
        assert(spans(kept@) =~= spans(before).skip(cut as int));
        (kept, partial)
    } else {
        (lines, partial)
    }
}

/// What a line of a transcript is to the overlay, given what it parses to.
pub open spec fn overlay_record(
    line: Seq<u8>,
    record_bytes: nat,
    parsed: Option<JsonView>,
) -> OverlayRecordView {
    match line_event(line, record_bytes, parsed) {
        Ok(event) => match decoded(line, record_bytes, parsed) {
            Ok(value) => OverlayRecordView::Event { event, value },
            Err(_) => OverlayRecordView::Corrupt,
        },
        Err(SkipKind::Oversize) => OverlayRecordView::Oversize,
        Err(SkipKind::DuplicateKey) => OverlayRecordView::DuplicateKey,
        Err(SkipKind::Corrupt) => OverlayRecordView::Corrupt,
        Err(SkipKind::Unmodeled) => OverlayRecordView::Unmodeled {
            value: match decoded(line, record_bytes, parsed) {
                Ok(value) => Some(value),
                Err(_) => None,
            },
        },
    }
}

/// Read one line of a transcript for the overlay.
pub fn read_record(line: &[u8], record_bytes: usize) -> (record: OverlayRecord)
    ensures
        record@ == overlay_record(line@, record_bytes as nat, parsed_json(line@)),
{
    match parse_line(line, record_bytes) {
        Ok(event) => match decode_json(line, record_bytes) {
            Ok(value) => OverlayRecord::Event { event, value },
            Err(_) => OverlayRecord::Corrupt,
        },
        Err(SkipKind::Oversize) => OverlayRecord::Oversize,
        Err(SkipKind::DuplicateKey) => OverlayRecord::DuplicateKey,
        Err(SkipKind::Corrupt) => OverlayRecord::Corrupt,
        Err(SkipKind::Unmodeled) => match decode_json(line, record_bytes) {
            Ok(value) => OverlayRecord::Unmodeled { value: Some(value) },
            Err(_) => OverlayRecord::Unmodeled { value: None },
        },
    }
}

/// What the given lines of a transcript amount to, taken in one by one.
pub open spec fn progress_over(
    buf: Seq<u8>,
    lines: Seq<(int, int)>,
    record_bytes: nat,
    session: Option<Seq<char>>,
) -> Result<OverlayProgress, OverlayErrorView>
    decreases lines.len(),
{
    if lines.len() == 0 {
        Ok(
            OverlayProgress {
                events: Seq::empty(),
                sidechains: Seq::empty(),
                native_lineage: false,
            },
        )
    } else {
        match progress_over(buf, lines.drop_last(), record_bytes, session) {
            Err(error) => Err(error),
            Ok(progress) => {
                let line = buf.subrange(lines.last().0, lines.last().1);
                progress.step(overlay_record(line, record_bytes, parsed_json(line)), session)
            },
        }
    }
}

/// A failure among the first lines is the failure of all of them.
proof fn early_failure(
    buf: Seq<u8>,
    lines: Seq<(int, int)>,
    record_bytes: nat,
    session: Option<Seq<char>>,
    n: int,
)
    requires
        0 <= n <= lines.len(),
        progress_over(buf, lines.take(n), record_bytes, session) is Err,
    ensures
        progress_over(buf, lines, record_bytes, session) == progress_over(
            buf,
            lines.take(n),
            record_bytes,
            session,
        ),
    decreases lines.len() - n,
{
    if n == lines.len() {
        assert(lines.take(n) =~= lines);
    } else {
        assert(lines.take(n + 1).drop_last() =~= lines.take(n));
        early_failure(buf, lines, record_bytes, session, n + 1);
    }
}

/// The tail of a transcript: its bytes and where they begin in the file.
#[derive(Debug)]
pub struct TranscriptTail {
    pub bytes: Vec<u8>,
    pub start: u64,
}

/// The outcome of the overlay on a transcript tail.
pub open spec fn overlay_outcome(
    hook: ClaudeUserPromptSubmit,
    buf: Seq<u8>,
    start: int,
    max_records: nat,
    record_bytes: nat,
) -> Result<OverlayView, OverlayErrorView> {
    let lines = last_of(tail_lines(buf, start), max_records);
    match progress_over(buf, lines, record_bytes, optional_text(hook.session_id)) {
        Err(error) => Err(error),
        Ok(progress) => progress.finish(
            hook.prompt@,
            optional_text(hook.prompt_id),
            tail_is_partial(buf, start, max_records),
        ),
    }
}

/// Apply the prompt overlay to a transcript tail, or to none where no
/// transcript is named or it does not exist yet.
pub fn apply_claude_prompt_overlay(
    request: &ClaudeOverlayRequest,
    tail: &Option<TranscriptTail>,
    max_records: usize,
    record_bytes: usize,
) -> (r: Result<ClaudeOverlayResult, OverlayError>)
    ensures
        ({
            let hook = request.hook_input;
            if trim(hook.prompt@).len() == 0 {
                r is Err && r->Err_0@ == OverlayErrorView::MissingPrompt
            } else if request.path() is None || *tail is None {
                r is Ok && r->Ok_0.serves(hook) && r->Ok_0.history() == (OverlayView {
                    branch_id: None,
                    events: seq![prompt_event(hook.prompt@, optional_text(hook.prompt_id), None)],
                    active_branch: None,
                    context_quality: ContextQuality::PromptOnly,
                    deduplicated_by_event_id: false,
                })
            } else {
                let outcome = overlay_outcome(
                    hook,
                    tail->0.bytes@,
                    tail->0.start as int,
                    max_records as nat,
                    record_bytes as nat,
                );
                match r {
                    Ok(result) => result.serves(hook) && outcome == Ok::<
                        OverlayView,
                        OverlayErrorView,
                    >(result.history()),
                    Err(error) => outcome == Err::<OverlayView, OverlayErrorView>(error@),
                }
            }
        }),
{
    let hook: &ClaudeUserPromptSubmit = &request.hook_input;
    let path: Option<String> = match request.transcript() {
        Ok(path) => path,
        Err(error) => {
            return Err(error);
        },
    };
    let window: &TranscriptTail = match tail {
        Some(window) => if path.is_some() {
            window
        } else {
            return Ok(prompt_only(hook));
        },
        None => {
            return Ok(prompt_only(hook));
        },
    };
    let buf: &[u8] = window.bytes.as_slice();
    let (records, partial): (Vec<RecordSpan>, bool) = tail_records(buf, window.start, max_records);
    let ghost lines = last_of(tail_lines(buf@, window.start as int), max_records as nat);
    let ghost session = optional_text(hook.session_id);
    let mut state: OverlayState = OverlayState::new(hook);
    let mut k: usize = 0;
    assert(lines.take(0) =~= Seq::empty());
    while k < records.len()
        invariant
            k <= records@.len(),
            spans(records@) == lines,
            forall|k: int|
                0 <= k < records@.len() ==> (#[trigger] records@[k]).from < records@[k].to
                    <= buf@.len(),
            buf@ == window.bytes@,
            *tail == Some(*window),
            request.path() is Some,
            hook == request.hook_input,
            trim(hook.prompt@).len() > 0,
            session == optional_text(hook.session_id),
            state.hook_session() == session,
            lines == last_of(tail_lines(buf@, window.start as int), max_records as nat),
            progress_over(buf@, lines.take(k as int), record_bytes as nat, session) == Ok::<
                OverlayProgress,
                OverlayErrorView,
            >(state.progress()),
        decreases records@.len() - k,
    {
        let span: RecordSpan = records[k];
        assert(records@[k as int].from < records@[k as int].to <= buf@.len());
        let line: &[u8] = slice_subrange(buf, span.from, span.to);
        assert(lines[k as int] == (span.from as int, span.to as int));
        assert(lines.take(k as int + 1).drop_last() =~= lines.take(k as int));
        assert(lines.take(k as int + 1).last() == lines[k as int]);
        match state.push_record(read_record(line, record_bytes)) {
            Ok(_) => {},
            Err(error) => {
                proof {
                    early_failure(buf@, lines, record_bytes as nat, session, k as int + 1);
                }
                return Err(error);
            },
        }
        k += 1;
    }
    assert(lines.take(k as int) =~= lines);
    state.finish(hook, partial)
}

/// No two events share an identity.
pub open spec fn distinct_ids(events: Seq<EventView>) -> bool {
    forall|i: int, j: int|
        #![trigger events[i], events[j]]
        0 <= i < j < events.len() && events[i].event_id is Some ==> events[i].event_id
            != events[j].event_id
}

/// Taking in a record never lets an identity occur twice.
pub proof fn records_keep_identities_distinct(
    before: OverlayProgress,
    record: OverlayRecordView,
    session: Option<Seq<char>>,
)
    requires
        distinct_ids(before.events),
        before.step(record, session) is Ok,
    ensures
        distinct_ids(before.step(record, session)->Ok_0.events),
{
    let after = before.step(record, session)->Ok_0;
    assert forall|i: int, j: int|
        #![trigger after.events[i], after.events[j]]
        0 <= i < j < after.events.len()
            && after.events[i].event_id is Some implies after.events[i].event_id
        != after.events[j].event_id by {
        if j == before.events.len() {
            assert(before.events[i] == after.events[i]);
        }
    }
}

/// Every transcript that is taken in has distinct event identities.
pub proof fn transcripts_have_distinct_identities(
    buf: Seq<u8>,
    lines: Seq<(int, int)>,
    record_bytes: nat,
    session: Option<Seq<char>>,
)
    requires
        progress_over(buf, lines, record_bytes, session) is Ok,
    ensures
        distinct_ids(progress_over(buf, lines, record_bytes, session)->Ok_0.events),
    decreases lines.len(),
{
    if lines.len() > 0 {
        transcripts_have_distinct_identities(buf, lines.drop_last(), record_bytes, session);
        let line = buf.subrange(lines.last().0, lines.last().1);
        records_keep_identities_distinct(
            progress_over(buf, lines.drop_last(), record_bytes, session)->Ok_0,
            overlay_record(line, record_bytes, parsed_json(line)),
            session,
        );
    }
}

proof fn main_chain_keeps_distinct(p: OverlayProgress, events: Seq<EventView>)
    requires
        distinct_ids(events),
    ensures
        distinct_ids(p.main_chain(events)),
        forall|k: int|
            0 <= k < p.main_chain(events).len() ==> events.contains(
                #[trigger] p.main_chain(events)[k],
            ),
    decreases events.len(),
{
    if events.len() > 0 {
        let front = events.drop_last();
        main_chain_keeps_distinct(p, front);
        let kept = p.main_chain(events);
        let before = p.main_chain(front);
        assert forall|k: int| 0 <= k < kept.len() implies events.contains(#[trigger] kept[k]) by {
            if k < before.len() {
                assert(front.contains(before[k]));
                let m = front.index_of(before[k]);
                assert(events[m] == kept[k]);
            } else {
                assert(events[events.len() - 1] == kept[k]);
            }
        }
        assert forall|i: int, j: int|
            #![trigger kept[i], kept[j]]
            0 <= i < j < kept.len() && kept[i].event_id is Some implies kept[i].event_id
            != kept[j].event_id by {
            assert(front.contains(before[i]));
            let m = front.index_of(before[i]);
            assert(events[m] == kept[i]);
            if j == before.len() {
                assert(events[events.len() - 1] == kept[j]);
            } else {
                assert(kept[j] == before[j]);
            }
        }
    }
}

/// The event at `k` is the prompt: a user message with its identity and text.
pub open spec fn is_prompt(e: EventView, prompt: Seq<char>, prompt_id: Seq<char>) -> bool {
    e.event_id == Some(prompt_id) && e.text == prompt && e.role == Role::User && e.kind
        == EventKind::Message
}

/// In an overlaid history the prompt's identity occurs exactly once, and its
/// event is the submitted prompt: recorded before or not, and whatever other
/// messages have the same text.
pub proof fn prompt_is_overlaid_once(
    p: OverlayProgress,
    prompt: Seq<char>,
    prompt_id: Seq<char>,
    partial: bool,
) -> (k: int)
    requires
        distinct_ids(p.events),
        p.finish(prompt, Some(prompt_id), partial) is Ok,
    ensures
        ({
            let events = p.finish(prompt, Some(prompt_id), partial)->Ok_0.events;
            &&& 0 <= k < events.len()
            &&& is_prompt(events[k], prompt, prompt_id)
            &&& forall|j: int|
                0 <= j < events.len() && j != k ==> (#[trigger] events[j]).event_id != Some(
                    prompt_id,
                )
        }),
{
    let id = Some(prompt_id);
    let base = p.base();
    main_chain_keeps_distinct(p, p.events);
    assert(distinct_ids(base));
    let (work, deduplicated) = with_prompt(base, p.linked(), prompt, id)->Ok_0;
    let place = if deduplicated {
        choose|k: int| is_prompt_place(base, id, k)
    } else {
        base.len() as int
    };
    if deduplicated {
        assert(is_prompt_place(base, id, place));
    }
    assert(is_prompt(work[place], prompt, prompt_id));
    assert forall|j: int| 0 <= j < work.len() && j != place implies (#[trigger] work[j]).event_id
        != id by {
        if deduplicated {
            assert(base[j].event_id == work[j].event_id);
            if j < place {
                assert(base[j].event_id != base[place].event_id);
            } else {
                assert(base[place].event_id != base[j].event_id);
            }
        } else {
            assert(work[j] == base[j]);
            if base[j].event_id == id {
                first_place_exists(base, id, j);
            }
        }
    }
    if p.linked() {
        let g = lineage_of(work, Seq::empty());
        let target = prompt_target(id);
        resolved_branch_is_one_chain(work, Seq::empty(), target);
        let events = g.resolution(target)->Ok_0.events;
        let last = events.len() - 1;
        let m = work.index_of(events.last());
        assert(work[m] == events.last());
        assert(m == place);
        assert forall|j: int| 0 <= j < events.len() && j != last implies (
        #[trigger] events[j]).event_id != id by {
            if events[j].event_id == id {
                assert(events[j].event_id != events[last].event_id);
            }
        }
        last
    } else {
        place
    }
}

proof fn first_place_exists(events: Seq<EventView>, id: Option<Seq<char>>, j: int)
    requires
        id is Some,
        0 <= j < events.len(),
        events[j].event_id == id,
    ensures
        exists|k: int| is_prompt_place(events, id, k),
    decreases j,
{
    if exists|i: int| 0 <= i < j && (#[trigger] events[i]).event_id == id {
        let i = choose|i: int| 0 <= i < j && (#[trigger] events[i]).event_id == id;
        first_place_exists(events, id, i);
    } else {
        assert(is_prompt_place(events, id, j));
    }
}

/// A prompt without identity becomes the last event of the history.
pub proof fn anonymous_prompt_comes_last(p: OverlayProgress, prompt: Seq<char>, partial: bool)
    requires
        p.finish(prompt, None, partial) is Ok,
    ensures
        ({
            let result = p.finish(prompt, None, partial)->Ok_0;
            &&& !result.deduplicated_by_event_id
            &&& result.events.len() > 0
            &&& result.events.last().text == prompt
            &&& result.events.last().event_id is None
            &&& result.events.last().role == Role::User
        }),
{
}

/// A record that is whole and of this session.
pub open spec fn is_sound_record(record: OverlayRecordView, session: Option<Seq<char>>) -> bool {
    match record {
        OverlayRecordView::Event { value, .. } => session_error(value, session) is None,
        OverlayRecordView::Unmodeled { value: Some(value) } => session_error(value, session)
            is None,
        _ => false,
    }
}

/// A malformed transcript never becomes a shorter history, and no record of
/// another session is read: where the overlay succeeds, every record of the
/// tail is whole and names this session or none.
pub proof fn accepted_transcripts_are_sound(
    buf: Seq<u8>,
    lines: Seq<(int, int)>,
    record_bytes: nat,
    session: Option<Seq<char>>,
)
    requires
        progress_over(buf, lines, record_bytes, session) is Ok,
    ensures
        forall|i: int|
            0 <= i < lines.len() ==> is_sound_record(
                overlay_record(
                    buf.subrange((#[trigger] lines[i]).0, lines[i].1),
                    record_bytes,
                    parsed_json(buf.subrange(lines[i].0, lines[i].1)),
                ),
                session,
            ),
    decreases lines.len(),
{
    if lines.len() > 0 {
        accepted_transcripts_are_sound(buf, lines.drop_last(), record_bytes, session);
        assert forall|i: int| 0 <= i < lines.len() implies is_sound_record(
            overlay_record(
                buf.subrange((#[trigger] lines[i]).0, lines[i].1),
                record_bytes,
                parsed_json(buf.subrange(lines[i].0, lines[i].1)),
            ),
            session,
        ) by {
            if i < lines.len() - 1 {
                assert(lines.drop_last()[i] == lines[i]);
            }
        }
    }
}

} // verus!
