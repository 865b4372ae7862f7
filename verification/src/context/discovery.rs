//! Session discovery for one exact workspace.
//!
//! A session is kept as `<projects root>/<encoded workspace>/<session>.jsonl`.
//! The directory encoding only narrows where to look. A transcript is a
//! candidate only where its own bounded head records this workspace as its
//! first working directory and carries its file name as a session identity.
use crate::context::jsonl::FileIdentity;
use crate::identity::{is_identifier, valid_identifier};
use crate::json::{decode_json, decoded, parsed_json, Json, JsonView};
use crate::names::{is_ascending, NameSet};
use crate::text::{chars_of, copy_text, same_text, string_of, texts, utf8_text};
use vstd::prelude::*;
use vstd::utf8::*;

pub mod findings;

verus! {

/// Transcripts examined per discovery, across all roots and directory names.
pub const MAX_TRANSCRIPTS: usize = 1_000;

/// Bytes read from the start of a transcript to establish its identity
/// (64 KiB).
pub const HEAD_BYTES: usize = 65_536;

/// A character as the older encoding writes it.
pub open spec fn slash_dashed(c: char) -> char {
    if c == '/' {
        '-'
    } else {
        c
    }
}

/// A character with the dot replaced too.
pub open spec fn dot_dashed(c: char) -> char {
    if c == '/' || c == '.' {
        '-'
    } else {
        c
    }
}

pub open spec fn is_ascii_alphanumeric(c: char) -> bool {
    '0' <= c <= '9' || 'A' <= c <= 'Z' || 'a' <= c <= 'z'
}

/// A character as the newer encoding writes it.
pub open spec fn symbol_dashed(c: char) -> char {
    if is_ascii_alphanumeric(c) {
        c
    } else {
        '-'
    }
}

/// The directory names of a workspace under every encoding.
pub open spec fn directory_names(workspace: Seq<char>) -> Set<Seq<char>> {
    set![
        workspace.map_values(|c: char| slash_dashed(c)),
        workspace.map_values(|c: char| dot_dashed(c)),
        workspace.map_values(|c: char| symbol_dashed(c)),
    ]
}

/// How one encoding treats a character.
enum Encoding {
    Slash,
    Dot,
    Symbol,
}

spec fn encoded(encoding: Encoding, c: char) -> char {
    match encoding {
        Encoding::Slash => slash_dashed(c),
        Encoding::Dot => dot_dashed(c),
        Encoding::Symbol => symbol_dashed(c),
    }
}

fn encode(workspace: &[char], encoding: Encoding) -> (name: String)
    ensures
        name@ == workspace@.map_values(|c: char| encoded(encoding, c)),
{
    let mut out: Vec<char> = Vec::new();
    let mut i: usize = 0;
    while i < workspace.len()
        invariant
            i <= workspace@.len(),
            out@.len() == i,
            forall|j: int| 0 <= j < i ==> (#[trigger] out@[j]) == encoded(encoding, workspace@[j]),
        decreases workspace@.len() - i,
    {
        let c: char = workspace[i];
        let dash: bool = match encoding {
            Encoding::Slash => c == '/',
            Encoding::Dot => c == '/' || c == '.',
            Encoding::Symbol => !(('0' <= c && c <= '9') || ('A' <= c && c <= 'Z') || ('a' <= c
                && c <= 'z')),
        };
        if dash {
            out.push('-');
        } else {
            out.push(c);
        }
        i += 1;
    }
    assert(out@ =~= workspace@.map_values(|c: char| encoded(encoding, c)));
    string_of(out.as_slice())
}

/// The directory names that a workspace has had: older versions replaced only
/// `/`, newer ones every character that is not an ASCII letter or digit. The
/// names are in order and none occurs twice.
pub fn project_directories(workspace: &str) -> (names: Vec<String>)
    ensures
        is_ascending(texts(names@)),
        texts(names@).to_set() == directory_names(workspace@),
{
    let chars: Vec<char> = chars_of(workspace);
    let slash: String = encode(chars.as_slice(), Encoding::Slash);
    let dot: String = encode(chars.as_slice(), Encoding::Dot);
    let symbol: String = encode(chars.as_slice(), Encoding::Symbol);
    assert(slash@ =~= workspace@.map_values(|c: char| slash_dashed(c)));
    assert(dot@ =~= workspace@.map_values(|c: char| dot_dashed(c)));
    assert(symbol@ =~= workspace@.map_values(|c: char| symbol_dashed(c)));
    let mut set: NameSet = NameSet::new();
    assert(set@.to_set() =~= Set::empty());
    set.insert(slash.as_str());
    set.insert(dot.as_str());
    set.insert(symbol.as_str());
    assert(set@.to_set() =~= directory_names(workspace@));
    set.to_list()
}

/// What a transcript head says of the session it belongs to.
#[derive(Clone, Copy, Debug, PartialEq, Eq, Structural)]
pub enum Attribution {
    /// This workspace and the session of the file name.
    Own,
    /// Another workspace.
    Other,
    /// Neither is shown.
    Unresolved,
}

/// The attribution that the records of a head give, of which the first ones
/// have already named this workspace, or the session, or not. A line that is
/// no document is `None`.
pub open spec fn attributed(
    records: Seq<Option<JsonView>>,
    stem: Seq<char>,
    workspace: Seq<char>,
    in_workspace: bool,
    claimed: bool,
) -> Attribution
    decreases records.len(),
{
    if records.len() == 0 {
        if in_workspace && claimed && is_identifier(stem) {
            Attribution::Own
        } else {
            Attribution::Unresolved
        }
    } else {
        match records[0] {
            None => Attribution::Unresolved,
            Some(record) => if !(record is Object) {
                Attribution::Unresolved
            } else if !in_workspace && record.get("cwd"@) is Some && record.text_at(
                "cwd"@,
            ) is None {
                Attribution::Unresolved
            } else if !in_workspace && record.get("cwd"@) is Some && record.text_at("cwd"@) != Some(
                workspace,
            ) {
                Attribution::Other
            } else if record.get("sessionId"@) is Some && record.text_at("sessionId"@) != Some(
                stem,
            ) {
                Attribution::Unresolved
            } else {
                attributed(
                    records.skip(1),
                    stem,
                    workspace,
                    in_workspace || record.get("cwd"@) is Some,
                    claimed || record.get("sessionId"@) is Some,
                )
            },
        }
    }
}

/// What one record adds.
enum RecordReading {
    Settled(Attribution),
    Goes { in_workspace: bool, claimed: bool },
}

fn read_record(
    record: Option<&Json>,
    stem: &str,
    workspace: &str,
    in_workspace: bool,
    claimed: bool,
    rest: Ghost<Seq<Option<JsonView>>>,
) -> (r: RecordReading)
    requires
        rest@.len() > 0,
        rest@[0] == (if record is Some {
            Some(record->0@)
        } else {
            None
        }),
    ensures
        match r {
            RecordReading::Settled(a) => attributed(
                rest@,
                stem@,
                workspace@,
                in_workspace,
                claimed,
            ) == a,
            RecordReading::Goes { in_workspace: w, claimed: c } => attributed(
                rest@,
                stem@,
                workspace@,
                in_workspace,
                claimed,
            ) == attributed(rest@.skip(1), stem@, workspace@, w, c),
        },
{
    let value: &Json = match record {
        Some(value) => value,
        None => {
            return RecordReading::Settled(Attribution::Unresolved);
        },
    };
    if !value.is_object() {
        return RecordReading::Settled(Attribution::Unresolved);
    }
    let mut here: bool = in_workspace;
    if !in_workspace {
        match value.get("cwd") {
            Some(cwd) => match cwd.as_str() {
                Some(text) => {
                    if !same_text(text, workspace) {
                        return RecordReading::Settled(Attribution::Other);
                    }
                    here = true;
                },
                None => {
                    return RecordReading::Settled(Attribution::Unresolved);
                },
            },
            None => {},
        }
    }
    match value.get("sessionId") {
        Some(session) => {
            let own: bool = match session.as_str() {
                Some(text) => same_text(text, stem),
                None => false,
            };
            if !own {
                return RecordReading::Settled(Attribution::Unresolved);
            }
            RecordReading::Goes { in_workspace: here, claimed: true }
        },
        None => RecordReading::Goes { in_workspace: here, claimed },
    }
}

pub open spec fn optional_views(records: Seq<Option<Json>>) -> Seq<Option<JsonView>> {
    records.map_values(
        |r: Option<Json>|
            if r is Some {
                Some(r->0@)
            } else {
                None
            },
    )
}

/// The attribution that decoded records give.
pub fn attribute_records(records: &Vec<Option<Json>>, stem: &str, workspace: &str) -> (r: Attribution)
    ensures
        r == attributed(optional_views(records@), stem@, workspace@, false, false),
{
    let ghost all = optional_views(records@);
    let mut in_workspace: bool = false;
    let mut claimed: bool = false;
    let mut i: usize = 0;
    assert(all.skip(0) =~= all);
    while i < records.len()
        invariant
            i <= records@.len(),
            all == optional_views(records@),
            attributed(all, stem@, workspace@, false, false) == attributed(
                all.skip(i as int),
                stem@,
                workspace@,
                in_workspace,
                claimed,
            ),
        decreases records@.len() - i,
    {
        let ghost rest = all.skip(i as int);
        assert(rest[0] == all[i as int]);
        assert(rest.skip(1) =~= all.skip(i + 1));
        let record: Option<&Json> = records[i].as_ref();
        match read_record(record, stem, workspace, in_workspace, claimed, Ghost(rest)) {
            RecordReading::Settled(a) => {
                return a;
            },
            RecordReading::Goes { in_workspace: w, claimed: c } => {
                in_workspace = w;
                claimed = c;
            },
        }
        i += 1;
    }
    if in_workspace && claimed && valid_identifier(stem) {
        Attribution::Own
    } else {
        Attribution::Unresolved
    }
}

/// The lines of a text, cut at each newline.
pub open spec fn byte_lines(bytes: Seq<u8>) -> Seq<Seq<u8>>
    decreases bytes.len(),
{
    if bytes.len() == 0 {
        seq![Seq::<u8>::empty()]
    } else {
        let before = byte_lines(bytes.drop_last());
        if bytes.last() == 10u8 {
            before.push(Seq::<u8>::empty())
        } else {
            before.update(before.len() - 1, before.last().push(bytes.last()))
        }
    }
}

proof fn lines_are_some(bytes: Seq<u8>)
    ensures
        byte_lines(bytes).len() > 0,
    decreases bytes.len(),
{
    if bytes.len() > 0 {
        lines_are_some(bytes.drop_last());
    }
}

/// The complete lines of a head, decoded.
pub open spec fn head_records(head: Seq<u8>) -> Seq<Option<JsonView>> {
    byte_lines(head).drop_last().map_values(
        |line: Seq<u8>|
            match decoded(line, HEAD_BYTES as nat, parsed_json(line)) {
                Ok(value) => Some(value),
                Err(_) => None,
            },
    )
}

/// The attribution that a head gives. Only complete lines count.
pub open spec fn head_attribution(head: Seq<u8>, stem: Seq<char>, workspace: Seq<char>) -> Attribution {
    if head.len() > HEAD_BYTES || !head.contains(10u8) {
        Attribution::Unresolved
    } else {
        attributed(head_records(head), stem, workspace, false, false)
    }
}

fn decode_line(line: &[u8]) -> (r: Option<Json>)
    ensures
        match decoded(line@, HEAD_BYTES as nat, parsed_json(line@)) {
            Ok(value) => r is Some && r->0@ == value,
            Err(_) => r is None,
        },
{
    match decode_json(line, HEAD_BYTES) {
        Ok(value) => Some(value),
        Err(_) => None,
    }
}

spec fn line_records(lines: Seq<Seq<u8>>) -> Seq<Option<JsonView>> {
    lines.map_values(
        |line: Seq<u8>|
            match decoded(line, HEAD_BYTES as nat, parsed_json(line)) {
                Ok(value) => Some(value),
                Err(_) => None,
            },
    )
}

fn decode_head(head: &[u8]) -> (records: Vec<Option<Json>>)
    ensures
        optional_views(records@) == head_records(head@),
{
    let mut records: Vec<Option<Json>> = Vec::new();
    let mut line: Vec<u8> = Vec::new();
    let mut i: usize = 0;
    assert(head@.take(0) =~= Seq::empty());
    assert(byte_lines(head@.take(0)) =~= seq![Seq::<u8>::empty()]);
    assert(line@ =~= Seq::empty());
    assert(optional_views(records@) =~= line_records(byte_lines(head@.take(0)).drop_last()));
    while i < head.len()
        invariant
            i <= head@.len(),
            byte_lines(head@.take(i as int)).len() > 0,
            line@ == byte_lines(head@.take(i as int)).last(),
            optional_views(records@) == line_records(byte_lines(head@.take(i as int)).drop_last()),
        decreases head@.len() - i,
    {
        let ghost before = byte_lines(head@.take(i as int));
        let ghost decoded_before = optional_views(records@);
        let ghost text = line@;
        let byte: u8 = head[i];
        assert(head@.take(i + 1).drop_last() =~= head@.take(i as int));
        assert(head@.take(i + 1).last() == byte);
        let ghost after = byte_lines(head@.take(i + 1));
        if byte == 10 {
            let record: Option<Json> = decode_line(line.as_slice());
            let ghost own = if record is Some {
                Some(record->0@)
            } else {
                None
            };
            records.push(record);
            line = Vec::new();
            assert(after == before.push(Seq::<u8>::empty()));
            assert(after.drop_last() =~= before);
            assert(before =~= before.drop_last().push(text));
            assert(optional_views(records@) =~= decoded_before.push(own));
            assert(line_records(before) =~= line_records(before.drop_last()).push(own));
            assert(line@ =~= after.last());
        } else {
            line.push(byte);
            assert(after.last() == line@);
            assert(after.drop_last() =~= before.drop_last());
        }
        i += 1;
    }
    assert(head@.take(i as int) =~= head@);
    assert(line_records(byte_lines(head@).drop_last()) =~= head_records(head@));
    records
}

/// What a head says, without turning unreadable or ambiguous evidence into the
/// absence of a candidate.
pub fn checked_attribution(head: &[u8], stem: &str, workspace: &str) -> (r: Attribution)
    ensures
        r == head_attribution(head@, stem@, workspace@),
{
    if head.len() > HEAD_BYTES {
        return Attribution::Unresolved;
    }
    let mut found: bool = false;
    let mut i: usize = 0;
    while i < head.len()
        invariant
            i <= head@.len(),
            found == exists|j: int| 0 <= j < i && (#[trigger] head@[j]) == 10u8,
        decreases head@.len() - i,
    {
        if head[i] == 10 {
            assert(head@[i as int] == 10u8);
            found = true;
        }
        i += 1;
    }
    if !found {
        return Attribution::Unresolved;
    }
    assert(head@.contains(10u8)) by {
        let j = choose|j: int| 0 <= j < i && (#[trigger] head@[j]) == 10u8;
        assert(head@[j] == 10u8);
    }
    let records: Vec<Option<Json>> = decode_head(head);
    attribute_records(&records, stem, workspace)
}

/// The session that a transcript head attributes itself to.
pub fn attribution(head: &[u8], stem: &str, workspace: &str) -> (session: Option<String>)
    ensures
        match session {
            Some(id) => head_attribution(head@, stem@, workspace@) == Attribution::Own && id@
                == stem@,
            None => head_attribution(head@, stem@, workspace@) != Attribution::Own,
        },
{
    match checked_attribution(head, stem, workspace) {
        Attribution::Own => Some(copy_text(stem)),
        _ => None,
    }
}

/// A modification time in milliseconds, held to the range of its type.
pub open spec fn clamp(value: int) -> int {
    if value < i64::MIN {
        i64::MIN as int
    } else if value > i64::MAX {
        i64::MAX as int
    } else {
        value
    }
}

/// Whole milliseconds of a nanosecond count, toward zero.
pub open spec fn whole_millis(nanoseconds: int) -> int {
    if nanoseconds < 0 {
        -((-nanoseconds) / 1_000_000)
    } else {
        nanoseconds / 1_000_000
    }
}

fn clamped(value: i128) -> (r: i64)
    ensures
        r == clamp(value as int),
{
    if value < i64::MIN as i128 {
        i64::MIN
    } else if value > i64::MAX as i128 {
        i64::MAX
    } else {
        value as i64
    }
}

/// Milliseconds since the epoch of a file's modification time.
pub fn modified_unix_ms(seconds: i64, nanoseconds: i64) -> (ms: i64)
    ensures
        ms == clamp(clamp(seconds * 1_000) + whole_millis(nanoseconds as int)),
{
    let whole: i64 = clamped(seconds as i128 * 1_000);
    let rest: u64 = if nanoseconds < 0 {
        (-(nanoseconds as i128)) as u64
    } else {
        nanoseconds as u64
    };
    let part: u64 = rest / 1_000_000;
    if nanoseconds < 0 {
        clamped(whole as i128 - part as i128)
    } else {
        clamped(whole as i128 + part as i128)
    }
}

/// What is known of one file that was opened without following links.
#[derive(Clone, Debug)]
pub enum FileObservation {
    /// It could not be opened, inspected or read.
    Failed,
    NotRegular,
    Read { head: Vec<u8>, seconds: i64, nanoseconds: i64, identity: FileIdentity },
}

/// A session that was found.
#[derive(Clone, Debug)]
pub struct ProbedSession {
    pub session: String,
    pub modified_unix_ms: i64,
    pub identity: FileIdentity,
}

/// The last bytes of the name of a transcript: `.jsonl`.
pub open spec fn is_transcript_name(name: Seq<u8>) -> bool {
    name.len() >= 6 && name.skip(name.len() - 6) == seq![0x2eu8, 0x6a, 0x73, 0x6f, 0x6e, 0x6c]
}

/// The bytes of a transcript name without its ending.
pub open spec fn stem_bytes(name: Seq<u8>) -> Seq<u8> {
    name.take(name.len() - 6)
}

/// What a probe finds.
pub enum ProbeView {
    Session { stem: Seq<char>, modified_unix_ms: int, identity: FileIdentity },
    OtherWorkspace,
    Unresolved,
}

pub open spec fn probed(
    name: Seq<u8>,
    file: FileObservation,
    workspace: Seq<char>,
) -> ProbeView {
    if !is_transcript_name(name) || !valid_utf8(stem_bytes(name)) {
        ProbeView::Unresolved
    } else {
        let stem = decode_utf8(stem_bytes(name));
        match file {
            FileObservation::Read { head, seconds, nanoseconds, identity } =>
                match head_attribution(head@, stem, workspace) {
                    Attribution::Own => ProbeView::Session {
                        stem,
                        modified_unix_ms: clamp(
                            clamp(seconds * 1_000) + whole_millis(nanoseconds as int),
                        ),
                        identity,
                    },
                    Attribution::Other => ProbeView::OtherWorkspace,
                    Attribution::Unresolved => ProbeView::Unresolved,
                },
            _ => ProbeView::Unresolved,
        }
    }
}

fn ends_as_transcript(name: &[u8]) -> (r: bool)
    ensures
        r == is_transcript_name(name@),
{
    let n: usize = name.len();
    if n < 6 {
        return false;
    }
    let ghost end = name@.skip(n - 6);
    let wanted: [u8; 6] = [0x2e, 0x6a, 0x73, 0x6f, 0x6e, 0x6c];
    let r: bool = name[n - 6] == wanted[0] && name[n - 5] == wanted[1] && name[n - 4] == wanted[2]
        && name[n - 3] == wanted[3] && name[n - 2] == wanted[4] && name[n - 1] == wanted[5];
    proof {
        let text = seq![0x2eu8, 0x6a, 0x73, 0x6f, 0x6e, 0x6c];
        assert(end[0] == name@[n - 6] && end[1] == name@[n - 5] && end[2] == name@[n - 4] && end[3]
            == name@[n - 3] && end[4] == name@[n - 2] && end[5] == name@[n - 1]);
        if r {
            assert(end =~= text);
        }
        if end == text {
            assert(end[0] == text[0] && end[1] == text[1] && end[2] == text[2] && end[3] == text[3]
                && end[4] == text[4] && end[5] == text[5]);
        }
    }
    r
}

/// The session, the modification time and the identity of one file.
pub fn probe(name: &[u8], file: &FileObservation, workspace: &str) -> (r: Result<
    Option<ProbedSession>,
    (),
>)
    ensures
        match probed(name@, *file, workspace@) {
            ProbeView::Session { stem, modified_unix_ms, identity } => {
                &&& r is Ok
                &&& r->Ok_0 is Some
                &&& r->Ok_0->0.session@ == stem
                &&& r->Ok_0->0.modified_unix_ms == modified_unix_ms
                &&& r->Ok_0->0.identity == identity
            },
            ProbeView::OtherWorkspace => r == Ok::<Option<ProbedSession>, ()>(None),
            ProbeView::Unresolved => r is Err,
        },
{
    if !ends_as_transcript(name) {
        return Err(());
    }
    let bytes: &[u8] = vstd::slice::slice_subrange(name, 0, name.len() - 6);
    assert(bytes@ =~= stem_bytes(name@));
    let stem: &str = match utf8_text(bytes) {
        Some(stem) => stem,
        None => {
            return Err(());
        },
    };
    proof {
        encode_utf8_decode_utf8(stem@);
    }
    match file {
        FileObservation::Read { head, seconds, nanoseconds, identity } => match checked_attribution(
            head.as_slice(),
            stem,
            workspace,
        ) {
            Attribution::Own => Ok(
                Some(
                    ProbedSession {
                        session: copy_text(stem),
                        modified_unix_ms: modified_unix_ms(*seconds, *nanoseconds),
                        identity: *identity,
                    },
                ),
            ),
            Attribution::Other => Ok(None),
            Attribution::Unresolved => Err(()),
        },
        _ => Err(()),
    }
}

/// A session that a resolution may pick.
#[derive(Clone, Debug)]
pub struct SessionCandidate {
    /// The directory that holds the transcript, named after the session.
    pub directory: String,
    pub session: String,
    pub last_activity_unix_ms: i64,
}

/// The sessions of a workspace. An incomplete inventory can neither establish
/// uniqueness nor choose the newest session.
#[derive(Clone, Debug)]
pub struct SessionInventory {
    pub candidates: Vec<SessionCandidate>,
    pub complete: bool,
}

/// What a walk over the project directories meets.
#[derive(Clone, Debug)]
pub enum DiscoveryEvent {
    /// A directory that is not there, or is none.
    MissingDirectory,
    UnreadableDirectory,
    UnreadableEntry,
    Entry {
        directory: String,
        name: Vec<u8>,
        /// Is the entry known to be other than a regular file?
        other_kind: bool,
        file: FileObservation,
    },
}

/// A candidate as characters.
pub struct CandidateView {
    pub directory: Seq<char>,
    pub session: Seq<char>,
    pub last_activity_unix_ms: int,
}

pub open spec fn candidate_views(list: Seq<SessionCandidate>) -> Seq<CandidateView> {
    list.map_values(
        |c: SessionCandidate|
            CandidateView {
                directory: c.directory@,
                session: c.session@,
                last_activity_unix_ms: c.last_activity_unix_ms as int,
            },
    )
}

/// Where a discovery stands.
pub struct PassView {
    pub candidates: Seq<CandidateView>,
    pub complete: bool,
    pub examined: nat,
    /// The files that were found, so that one reached twice is one session.
    pub files: Seq<FileIdentity>,
    pub stopped: bool,
}

pub open spec fn nothing_found() -> PassView {
    PassView {
        candidates: Seq::empty(),
        complete: true,
        examined: 0,
        files: Seq::empty(),
        stopped: false,
    }
}

/// Is this entry one to open?
pub open spec fn is_examined(name: Seq<u8>, other_kind: bool) -> bool {
    is_transcript_name(name) && !other_kind
}

pub open spec fn after_event(
    state: PassView,
    event: DiscoveryEvent,
    workspace: Seq<char>,
) -> PassView {
    if state.stopped {
        state
    } else {
        match event {
            DiscoveryEvent::MissingDirectory => state,
            DiscoveryEvent::UnreadableDirectory => PassView { complete: false, ..state },
            DiscoveryEvent::UnreadableEntry => PassView { complete: false, ..state },
            DiscoveryEvent::Entry { directory, name, other_kind, file } => if !is_examined(
                name@,
                other_kind,
            ) {
                state
            } else if state.examined == MAX_TRANSCRIPTS {
                PassView { complete: false, stopped: true, ..state }
            } else {
                let state = PassView { examined: state.examined + 1, ..state };
                match probed(name@, file, workspace) {
                    ProbeView::Unresolved => PassView { complete: false, ..state },
                    ProbeView::OtherWorkspace => state,
                    ProbeView::Session { stem, modified_unix_ms, identity } =>
                        if state.files.contains(identity) {
                            state
                        } else {
                            PassView {
                                candidates: state.candidates.push(
                                    CandidateView {
                                        directory: directory@,
                                        session: stem,
                                        last_activity_unix_ms: modified_unix_ms,
                                    },
                                ),
                                files: state.files.push(identity),
                                ..state
                            }
                        },
                }
            },
        }
    }
}

/// Where a discovery stands after these events.
pub open spec fn discovered(events: Seq<DiscoveryEvent>, workspace: Seq<char>) -> PassView
    decreases events.len(),
{
    if events.len() == 0 {
        nothing_found()
    } else {
        after_event(discovered(events.drop_last(), workspace), events.last(), workspace)
    }
}

/// A discovery in progress.
#[derive(Debug)]
pub struct DiscoveryPass {
    inventory: SessionInventory,
    examined: usize,
    files: Vec<FileIdentity>,
    stopped: bool,
}

impl View for DiscoveryPass {
    type V = PassView;

    closed spec fn view(&self) -> PassView {
        PassView {
            candidates: candidate_views(self.inventory.candidates@),
            complete: self.inventory.complete,
            examined: self.examined as nat,
            files: self.files@,
            stopped: self.stopped,
        }
    }
}

impl DiscoveryPass {
    pub fn new() -> (pass: DiscoveryPass)
        ensures
            pass@ == nothing_found(),
    {
        let pass = DiscoveryPass {
            inventory: SessionInventory { candidates: Vec::new(), complete: true },
            examined: 0,
            files: Vec::new(),
            stopped: false,
        };
        assert(pass@.candidates =~= Seq::empty());
        assert(pass@.files =~= Seq::empty());
        pass
    }

    /// Would the file of this entry be looked at?
    pub fn wants_file(&self, name: &[u8], other_kind: bool) -> (r: bool)
        ensures
            r == (!self@.stopped && is_examined(name@, other_kind) && self@.examined
                < MAX_TRANSCRIPTS),
    {
        !self.stopped && ends_as_transcript(name) && !other_kind && self.examined < MAX_TRANSCRIPTS
    }

    fn has_file(&self, identity: FileIdentity) -> (r: bool)
        ensures
            r == self@.files.contains(identity),
    {
        let mut i: usize = 0;
        while i < self.files.len()
            invariant
                i <= self.files@.len(),
                forall|j: int| 0 <= j < i ==> (#[trigger] self.files@[j]) != identity,
            decreases self.files@.len() - i,
        {
            if self.files[i] == identity {
                return true;
            }
            i += 1;
        }
        false
    }

    /// Take the next event.
    pub fn step(&mut self, event: &DiscoveryEvent, workspace: &str)
        requires
            old(self)@.examined <= MAX_TRANSCRIPTS,
        ensures
            final(self)@ == after_event(old(self)@, *event, workspace@),
            final(self)@.examined <= MAX_TRANSCRIPTS,
    {
        let ghost before = self@;
        if self.stopped {
            return;
        }
        match event {
            DiscoveryEvent::MissingDirectory => {},
            DiscoveryEvent::UnreadableDirectory => {
                self.inventory.complete = false;
            },
            DiscoveryEvent::UnreadableEntry => {
                self.inventory.complete = false;
            },
            DiscoveryEvent::Entry { directory, name, other_kind, file } => {
                if !ends_as_transcript(name.as_slice()) || *other_kind {
                    return;
                }
                if self.examined == MAX_TRANSCRIPTS {
                    self.inventory.complete = false;
                    self.stopped = true;
                    return;
                }
                self.examined = self.examined + 1;
                match probe(name.as_slice(), file, workspace) {
                    Ok(Some(found)) => {
                        if !self.has_file(found.identity) {
                            let ghost view = CandidateView {
                                directory: directory@,
                                session: found.session@,
                                last_activity_unix_ms: found.modified_unix_ms as int,
                            };
                            self.files.push(found.identity);
                            self.inventory.candidates.push(
                                SessionCandidate {
                                    directory: copy_text(directory.as_str()),
                                    session: found.session,
                                    last_activity_unix_ms: found.modified_unix_ms,
                                },
                            );
                            assert(self@.candidates =~= before.candidates.push(view));
                        }
                    },
                    Ok(None) => {},
                    Err(_) => {
                        self.inventory.complete = false;
                    },
                }
            },
        }
    }

    /// The inventory so far.
    pub fn finish(self) -> (inventory: SessionInventory)
        ensures
            candidate_views(inventory.candidates@) == self@.candidates,
            inventory.complete == self@.complete,
    {
        self.inventory
    }
}

/// The sessions of a workspace, from what a walk over its directories met.
pub fn discover_claude_sessions(events: &Vec<DiscoveryEvent>, workspace: &str) -> (inventory:
    SessionInventory)
    ensures
        candidate_views(inventory.candidates@) == discovered(events@, workspace@).candidates,
        inventory.complete == discovered(events@, workspace@).complete,
{
    let mut pass: DiscoveryPass = DiscoveryPass::new();
    let mut i: usize = 0;
    while i < events.len()
        invariant
            i <= events@.len(),
            pass@ == discovered(events@.take(i as int), workspace@),
            pass@.examined <= MAX_TRANSCRIPTS,
        decreases events@.len() - i,
    {
        assert(events@.take(i + 1).drop_last() =~= events@.take(i as int));
        pass.step(&events[i], workspace);
        i += 1;
    }
    assert(events@.take(i as int) =~= events@);
    pass.finish()
}

/// The session of a transcript that was selected outright, where its own
/// records attribute it to the workspace.
pub fn transcript_session(name: &[u8], file: &FileObservation, workspace: &str) -> (session: Option<
    String,
>)
    ensures
        match probed(name@, *file, workspace@) {
            ProbeView::Session { stem, .. } => session is Some && session->0@ == stem,
            _ => session is None,
        },
{
    match probe(name, file, workspace) {
        Ok(Some(found)) => Some(found.session),
        _ => None,
    }
}

/// No file is listed twice and no more are examined than the bound; what was
/// once left out stays accounted as incomplete.
pub proof fn inventory_is_bounded(
    events: Seq<DiscoveryEvent>,
    workspace: Seq<char>,
    event: DiscoveryEvent,
)
    ensures
        ({
            let state = discovered(events, workspace);
            &&& state.examined <= MAX_TRANSCRIPTS
            &&& state.candidates.len() == state.files.len() <= state.examined
            &&& state.files.no_duplicates()
            &&& !state.complete ==> !after_event(state, event, workspace).complete
            &&& state.stopped ==> !state.complete && after_event(state, event, workspace) == state
        }),
    decreases events.len(),
{
    if events.len() > 0 {
        inventory_is_bounded(events.drop_last(), workspace, events.last());
    }
}

/// An entry whose attribution is unresolved leaves the inventory incomplete:
/// it never counts as an absent session.
pub proof fn unresolved_is_not_absent(
    state: PassView,
    directory: String,
    name: Vec<u8>,
    file: FileObservation,
    workspace: Seq<char>,
)
    requires
        !state.stopped,
        is_transcript_name(name@),
        probed(name@, file, workspace) is Unresolved,
    ensures
        !after_event(
            state,
            (DiscoveryEvent::Entry { directory, name, other_kind: false, file }),
            workspace,
        ).complete,
{
}

/// A later change of directory does not disown a session: once the first
/// working directory was this workspace, no later one matters.
pub proof fn first_directory_decides(
    records: Seq<Option<JsonView>>,
    stem: Seq<char>,
    workspace: Seq<char>,
    claimed: bool,
)
    ensures
        attributed(records, stem, workspace, true, claimed) != Attribution::Other,
    decreases records.len(),
{
    if records.len() > 0 {
        match records[0] {
            Some(record) => {
                first_directory_decides(
                    records.skip(1),
                    stem,
                    workspace,
                    claimed || record.get("sessionId"@) is Some,
                );
            },
            None => {},
        }
    }
}

} // verus!
