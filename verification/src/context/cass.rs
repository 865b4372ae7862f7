//! Optional, exact-source archive access.
//!
//! An archive export is private native data: not normalized input, not proof
//! of skill loading, and never a provider-ready payload. Only the documented
//! local source is permitted.
use crate::chars::split;
use crate::json::{
    decode_json, decoded, json_array, json_object, json_text, json_views, member_views,
    parsed_json, push_member, Json, JsonView, Member,
};
use crate::text::{
    byte_len, byte_length, chars_of, copy_optional, copy_text, decimal, decimal_text, optional_text,
    same_text, texts,
};
use vstd::prelude::*;

pub mod archive;

verus! {

/// The archive version that this library is qualified for.
pub const QUALIFIED_VERSION: &'static str = "0.8.0";

/// Maximum bytes of a capabilities document (256 KiB).
pub const CAPABILITIES_BYTES: usize = 262_144;

/// Maximum messages of an export.
pub const MAX_MESSAGES: usize = 10_000;

/// Maximum sessions of a listing.
pub const MAX_LISTING: usize = 1_000;

/// Maximum bytes of a path (16 KiB).
pub const MAX_PATH_BYTES: usize = 16_384;

/// How a bounded child process failed.
#[derive(Clone, Copy, Debug, PartialEq, Eq, Structural)]
pub enum SubprocessError {
    OutputLimit,
    Cancelled,
    DeadlineExceeded,
    Failed,
}

/// Why an archive could not be used.
#[derive(Clone, Copy, Debug, PartialEq, Eq, Structural)]
pub enum CassError {
    UnsupportedSourceMode,
    InvalidRequest,
    UnsupportedProducer,
    RemoteSource,
    InvalidResponse,
    LimitExceeded,
    ChildFailed,
    Process(SubprocessError),
}

impl CassError {
    pub open spec fn text(self) -> Seq<char> {
        match self {
            CassError::UnsupportedSourceMode =>
                "cass is unavailable in this source mode; supply a direct transcript or normalized input"@,
            CassError::InvalidRequest => "invalid trusted cass request"@,
            CassError::UnsupportedProducer => "cass version or capabilities are not qualified"@,
            CassError::RemoteSource => "remote cass source is not permitted"@,
            CassError::InvalidResponse => "invalid cass response"@,
            CassError::LimitExceeded => "cass response exceeds input limits"@,
            CassError::ChildFailed => "cass command failed"@,
            CassError::Process(_) => "bounded cass subprocess failed"@,
        }
    }

    pub fn as_str(self) -> (text: &'static str)
        ensures
            text@ == self.text(),
    {
        match self {
            CassError::UnsupportedSourceMode =>
                "cass is unavailable in this source mode; supply a direct transcript or normalized input",
            CassError::InvalidRequest => "invalid trusted cass request",
            CassError::UnsupportedProducer => "cass version or capabilities are not qualified",
            CassError::RemoteSource => "remote cass source is not permitted",
            CassError::InvalidResponse => "invalid cass response",
            CassError::LimitExceeded => "cass response exceeds input limits",
            CassError::ChildFailed => "cass command failed",
            CassError::Process(_) => "bounded cass subprocess failed",
        }
    }

    /// The error of a failed child process. Too much output is a limit of the
    /// response.
    pub fn from_subprocess(error: SubprocessError) -> (r: CassError)
        ensures
            r == (if error == SubprocessError::OutputLimit {
                CassError::LimitExceeded
            } else {
                CassError::Process(error)
            }),
    {
        match error {
            SubprocessError::OutputLimit => CassError::LimitExceeded,
            other => CassError::Process(other),
        }
    }
}

/// May an archive be used under this source policy?
pub fn allowed(cass_allowed: bool, offline: bool, allow_network: bool) -> (r: Result<(), CassError>)
    ensures
        r == (if cass_allowed && !(offline && allow_network) {
            Ok::<(), CassError>(())
        } else {
            Err(CassError::UnsupportedSourceMode)
        }),
{
    if !cass_allowed || (offline && allow_network) {
        Err(CassError::UnsupportedSourceMode)
    } else {
        Ok(())
    }
}

/// An absolute path of bounded length without NUL.
pub open spec fn is_archive_path(path: Seq<char>) -> bool {
    path.len() > 0 && path[0] == '/' && byte_length(path) <= MAX_PATH_BYTES && !path.contains('\0')
}

pub fn validate_path(path: &str) -> (r: Result<(), CassError>)
    ensures
        r == (if is_archive_path(path@) {
            Ok::<(), CassError>(())
        } else {
            Err(CassError::InvalidRequest)
        }),
{
    let chars: Vec<char> = chars_of(path);
    if chars.len() == 0 || chars[0] != '/' || byte_len(path) > MAX_PATH_BYTES {
        return Err(CassError::InvalidRequest);
    }
    let mut i: usize = 0;
    while i < chars.len()
        invariant
            i <= chars@.len(),
            chars@ == path@,
            forall|j: int| 0 <= j < i ==> #[trigger] chars@[j] != '\0',
        decreases chars@.len() - i,
    {
        if chars[i] == '\0' {
            assert(path@[i as int] == '\0');
            return Err(CassError::InvalidRequest);
        }
        i += 1;
    }
    Ok(())
}

/// The name parts of an absolute path: repeated separators and `.` do not
/// count.
pub open spec fn path_parts(segments: Seq<Seq<char>>) -> Seq<Seq<char>>
    decreases segments.len(),
{
    if segments.len() == 0 {
        Seq::empty()
    } else {
        let before = path_parts(segments.drop_last());
        if segments.last().len() == 0 || segments.last() == seq!['.'] {
            before
        } else {
            before.push(segments.last())
        }
    }
}

/// Do two texts name the same absolute path?
pub open spec fn same_absolute_path(a: Seq<char>, b: Seq<char>) -> bool {
    a.len() > 0 && a[0] == '/' && b.len() > 0 && b[0] == '/' && path_parts(split(a, '/'))
        == path_parts(split(b, '/'))
}

/// The name parts of a path.
fn parts_of(path: &[char]) -> (parts: Vec<Vec<char>>)
    ensures
        crate::chars::line_views(parts@) == path_parts(split(path@, '/')),
{
    let total: usize = path.len();
    let ghost all = split(path@, '/');
    let ghost mut done = Seq::<Seq<char>>::empty();
    let mut parts: Vec<Vec<char>> = Vec::new();
    let mut from: usize = 0;
    assert(path@.skip(0) =~= path@);
    assert(done + split(path@.skip(0), '/') =~= all);
    assert(crate::chars::line_views(parts@) =~= path_parts(done));
    loop
        invariant
            total == path@.len(),
            from <= total,
            all == split(path@, '/'),
            done + split(path@.skip(from as int), '/') == all,
            crate::chars::line_views(parts@) == path_parts(done),
        decreases total - from,
    {
        let rest: &[char] = crate::chars::tail(path, from);
        let k: usize = crate::chars::find_char(rest, '/');
        let segment: &[char] = crate::chars::head(rest, k);
        let ghost before = crate::chars::line_views(parts@);
        let ghost next = done.push(segment@);
        assert(next.drop_last() =~= done);
        let dot: bool = segment.len() == 1 && segment[0] == '.';
        assert(dot == (segment@ == seq!['.'])) by {
            if dot {
                assert(segment@ =~= seq!['.']);
            }
        }
        if segment.len() > 0 && !dot {
            parts.push(crate::chars::copy_chars(segment));
            assert(crate::chars::line_views(parts@) =~= before.push(segment@));
        }
        if k == rest.len() {
            assert(segment@ =~= rest@);
            assert(split(rest@, '/') =~= seq![rest@]);
            assert(all =~= next);
            return parts;
        }
        proof {
            let more = split(rest@.skip(k as int + 1), '/');
            assert(split(rest@, '/') == seq![segment@] + more);
            assert(rest@.skip(k as int + 1) =~= path@.skip(from + k + 1));
            assert(done + (seq![segment@] + more) =~= next + more);
            done = next;
        }
        from = from + k + 1;
    }
}

fn is_same_path(a: &str, b: &str) -> (r: bool)
    ensures
        r == same_absolute_path(a@, b@),
{
    let left: Vec<char> = chars_of(a);
    let right: Vec<char> = chars_of(b);
    if left.len() == 0 || right.len() == 0 || left[0] != '/' || right[0] != '/' {
        return false;
    }
    let x: Vec<Vec<char>> = parts_of(left.as_slice());
    let y: Vec<Vec<char>> = parts_of(right.as_slice());
    let ghost p = crate::chars::line_views(x@);
    let ghost q = crate::chars::line_views(y@);
    if x.len() != y.len() {
        assert(p.len() != q.len());
        return false;
    }
    let mut i: usize = 0;
    while i < x.len()
        invariant
            i <= x@.len(),
            x@.len() == y@.len(),
            p == crate::chars::line_views(x@),
            q == crate::chars::line_views(y@),
            p == path_parts(split(a@, '/')),
            q == path_parts(split(b@, '/')),
            forall|j: int| 0 <= j < i ==> (#[trigger] p[j]) == q[j],
        decreases x@.len() - i,
    {
        assert(p[i as int] == x@[i as int]@ && q[i as int] == y@[i as int]@);
        if !crate::text::same_chars(x[i].as_slice(), y[i].as_slice()) {
            return false;
        }
        i += 1;
    }
    assert(p =~= q);
    true
}

/// The one archive session that was selected.
#[derive(Clone)]
pub struct ArchiveSelection {
    path: String,
    source: String,
}

impl ArchiveSelection {
    pub closed spec fn path_text(self) -> Seq<char> {
        self.path@
    }

    pub closed spec fn source_text(self) -> Seq<char> {
        self.source@
    }

    /// A session of the local source. No other source inherits its authority.
    pub fn local(path: &str, source: &str) -> (r: Result<ArchiveSelection, CassError>)
        ensures
            match r {
                Ok(selection) => source@ == "local"@ && is_archive_path(path@)
                    && selection.path_text() == path@ && selection.source_text() == source@,
                Err(error) => error == (if source@ != "local"@ {
                    CassError::RemoteSource
                } else {
                    CassError::InvalidRequest
                }) && (source@ != "local"@ || !is_archive_path(path@)),
            },
    {
        if !same_text(source, "local") {
            return Err(CassError::RemoteSource);
        }
        match validate_path(path) {
            Ok(_) => Ok(ArchiveSelection { path: copy_text(path), source: copy_text(source) }),
            Err(error) => Err(error),
        }
    }

    pub fn source(&self) -> (source: &str)
        ensures
            source@ == self.source_text(),
    {
        self.source.as_str()
    }

    pub fn path(&self) -> (path: &str)
        ensures
            path@ == self.path_text(),
    {
        self.path.as_str()
    }
}

/// The archive program as its capabilities describe it.
#[derive(Clone, Debug)]
pub struct CassProducer {
    pub version: String,
    pub api_version: u64,
    pub contract_version: u64,
    pub build_commit: Option<String>,
    pub binary_digest: Option<String>,
    pub source_id: Option<String>,
    pub remote_source: bool,
    pub export_omits_skills_by_default: bool,
    pub export_retains_native_shapes: bool,
}

/// A JSON document within its byte limit.
pub open spec fn bounded(bytes: Seq<u8>, limit: nat, parsed: Option<JsonView>) -> Result<
    JsonView,
    CassError,
> {
    if bytes.len() > limit {
        Err(CassError::LimitExceeded)
    } else {
        match decoded(bytes, limit, parsed) {
            Ok(value) => Ok(value),
            Err(_) => Err(CassError::InvalidResponse),
        }
    }
}

fn bounded_json(bytes: &[u8], limit: usize) -> (r: Result<Json, CassError>)
    ensures
        match r {
            Ok(value) => bounded(bytes@, limit as nat, parsed_json(bytes@)) == Ok::<
                JsonView,
                CassError,
            >(value@),
            Err(error) => bounded(bytes@, limit as nat, parsed_json(bytes@)) == Err::<
                JsonView,
                CassError,
            >(error),
        },
{
    if bytes.len() > limit {
        return Err(CassError::LimitExceeded);
    }
    match decode_json(bytes, limit) {
        Ok(value) => Ok(value),
        Err(_) => Err(CassError::InvalidResponse),
    }
}

/// Is this text among the items?
pub open spec fn lists_text(items: Seq<JsonView>, text: Seq<char>) -> bool {
    exists|i: int| 0 <= i < items.len() && (#[trigger] items[i]).text() == Some(text)
}

/// Is an object with this name among the items?
pub open spec fn lists_name(items: Seq<JsonView>, name: Seq<char>) -> bool {
    exists|i: int| 0 <= i < items.len() && (#[trigger] items[i]).text_at("name"@) == Some(name)
}

/// `k` is the only item with this name.
pub open spec fn is_only_named(items: Seq<JsonView>, name: Seq<char>, k: int) -> bool {
    0 <= k < items.len() && items[k].text_at("name"@) == Some(name) && forall|j: int|
        0 <= j < items.len() && (#[trigger] items[j]).text_at("name"@) == Some(name) ==> j == k
}

/// The arguments of the only command with this name.
pub open spec fn command_arguments(commands: Seq<JsonView>, name: Seq<char>) -> Option<
    Seq<JsonView>,
> {
    if exists|k: int| is_only_named(commands, name, k) {
        commands[choose|k: int| is_only_named(commands, name, k)].items_at("arguments"@)
    } else {
        None
    }
}

pub open spec fn offers_export(commands: Seq<JsonView>) -> bool {
    match command_arguments(commands, "export"@) {
        Some(args) => lists_name(args, "path"@) && lists_name(args, "source"@) && lists_name(
            args,
            "format"@,
        ) && lists_name(args, "include-tools"@),
        None => false,
    }
}

pub open spec fn offers_sessions(commands: Seq<JsonView>) -> bool {
    match command_arguments(commands, "sessions"@) {
        Some(args) => lists_name(args, "workspace"@) && lists_name(args, "limit"@) && lists_name(
            args,
            "json"@,
        ),
        None => false,
    }
}

/// Is a capabilities document that of a qualified producer?
pub open spec fn is_qualified(value: JsonView) -> bool {
    &&& value.text_at("crate_version"@) == Some(QUALIFIED_VERSION@)
    &&& value.get("api_version"@) is Some && value.get("api_version"@)->0.unsigned() == Some(1u64)
    &&& value.text_at("contract_version"@) == Some("1"@)
    &&& match value.items_at("features"@) {
        Some(features) => lists_text(features, "json_output"@) && lists_text(
            features,
            "export_command"@,
        ) && lists_text(features, "self_describing_capabilities"@),
        None => false,
    }
    &&& match value.items_at("commands"@) {
        Some(commands) => offers_export(commands) && offers_sessions(commands),
        None => false,
    }
}

fn has_text(items: &Vec<Json>, text: &str) -> (r: bool)
    ensures
        r == lists_text(json_views(items@), text@),
{
    let ghost all = json_views(items@);
    let mut i: usize = 0;
    while i < items.len()
        invariant
            i <= items@.len(),
            all == json_views(items@),
            forall|j: int| 0 <= j < i ==> (#[trigger] all[j]).text() != Some(text@),
        decreases items@.len() - i,
    {
        assert(all[i as int] == items@[i as int]@);
        match items[i].as_str() {
            Some(own) => {
                if same_text(own, text) {
                    return true;
                }
            },
            None => {},
        }
        i += 1;
    }
    false
}

fn has_name(item: &Json, name: &str) -> (r: bool)
    ensures
        r == (item@.text_at("name"@) == Some(name@)),
{
    match item.text_at("name") {
        Some(own) => same_text(own, name),
        None => false,
    }
}

fn has_named(items: &Vec<Json>, name: &str) -> (r: bool)
    ensures
        r == lists_name(json_views(items@), name@),
{
    let ghost all = json_views(items@);
    let mut i: usize = 0;
    while i < items.len()
        invariant
            i <= items@.len(),
            all == json_views(items@),
            forall|j: int| 0 <= j < i ==> (#[trigger] all[j]).text_at("name"@) != Some(name@),
        decreases items@.len() - i,
    {
        assert(all[i as int] == items@[i as int]@);
        if has_name(&items[i], name) {
            return true;
        }
        i += 1;
    }
    false
}

fn find_arguments<'a>(commands: &'a Vec<Json>, name: &str) -> (args: Option<&'a Vec<Json>>)
    ensures
        match args {
            Some(list) => command_arguments(json_views(commands@), name@) == Some(
                json_views(list@),
            ),
            None => command_arguments(json_views(commands@), name@) is None,
        },
{
    let ghost all = json_views(commands@);
    let mut found: Option<usize> = None;
    let mut i: usize = 0;
    while i < commands.len()
        invariant
            i <= commands@.len(),
            all == json_views(commands@),
            match found {
                None => forall|j: int|
                    0 <= j < i ==> (#[trigger] all[j]).text_at("name"@) != Some(name@),
                Some(k) => k < i && all[k as int].text_at("name"@) == Some(name@) && forall|j: int|
                    0 <= j < i && (#[trigger] all[j]).text_at("name"@) == Some(name@) ==> j == k,
            },
        decreases commands@.len() - i,
    {
        assert(all[i as int] == commands@[i as int]@);
        if has_name(&commands[i], name) {
            match found {
                Some(k) => {
                    assert(!exists|m: int| is_only_named(all, name@, m)) by {
                        assert forall|m: int| !is_only_named(all, name@, m) by {
                            assert(all[k as int].text_at("name"@) == Some(name@));
                            assert(all[i as int].text_at("name"@) == Some(name@));
                        }
                    }
                    return None;
                },
                None => {
                    found = Some(i);
                },
            }
        }
        i += 1;
    }
    match found {
        Some(k) => {
            assert(is_only_named(all, name@, k as int));
            assert(all[k as int] == commands@[k as int]@);
            commands[k].array_at("arguments")
        },
        None => {
            assert(!exists|m: int| is_only_named(all, name@, m));
            None
        },
    }
}

/// The producer that a qualified capabilities document describes.
pub open spec fn describes(producer: CassProducer, value: JsonView, digest: Seq<char>) -> bool {
    &&& producer.version@ == QUALIFIED_VERSION@
    &&& producer.api_version == 1
    &&& producer.contract_version == 1
    &&& optional_text(producer.build_commit) == value.text_at("build_commit"@)
    &&& optional_text(producer.binary_digest) == Some(digest)
    &&& producer.source_id is None
    &&& !producer.remote_source
    &&& producer.export_omits_skills_by_default
    &&& producer.export_retains_native_shapes
}

/// Check a decoded capabilities document.
pub fn qualify(value: &Json, binary_digest: &str) -> (r: Result<CassProducer, CassError>)
    ensures
        match r {
            Ok(producer) => is_qualified(value@) && describes(producer, value@, binary_digest@),
            Err(error) => !is_qualified(value@) && error == CassError::UnsupportedProducer,
        },
{
    let version: bool = match value.text_at("crate_version") {
        Some(text) => same_text(text, QUALIFIED_VERSION),
        None => false,
    };
    let api: bool = match value.get("api_version") {
        Some(number) => match number.as_u64() {
            Some(n) => n == 1,
            None => false,
        },
        None => false,
    };
    let contract: bool = match value.text_at("contract_version") {
        Some(text) => same_text(text, "1"),
        None => false,
    };
    if !version || !api || !contract {
        return Err(CassError::UnsupportedProducer);
    }
    match value.array_at("features") {
        Some(features) => {
            if !has_text(features, "json_output") || !has_text(features, "export_command")
                || !has_text(features, "self_describing_capabilities") {
                return Err(CassError::UnsupportedProducer);
            }
        },
        None => {
            return Err(CassError::UnsupportedProducer);
        },
    }
    match value.array_at("commands") {
        Some(commands) => {
            match find_arguments(commands, "export") {
                Some(args) => {
                    if !has_named(args, "path") || !has_named(args, "source") || !has_named(
                        args,
                        "format",
                    ) || !has_named(args, "include-tools") {
                        return Err(CassError::UnsupportedProducer);
                    }
                },
                None => {
                    return Err(CassError::UnsupportedProducer);
                },
            }
            match find_arguments(commands, "sessions") {
                Some(args) => {
                    if !has_named(args, "workspace") || !has_named(args, "limit") || !has_named(
                        args,
                        "json",
                    ) {
                        return Err(CassError::UnsupportedProducer);
                    }
                },
                None => {
                    return Err(CassError::UnsupportedProducer);
                },
            }
        },
        None => {
            return Err(CassError::UnsupportedProducer);
        },
    }
    let build_commit: Option<String> = match value.text_at("build_commit") {
        Some(text) => Some(copy_text(text)),
        None => None,
    };
    Ok(
        CassProducer {
            version: copy_text(QUALIFIED_VERSION),
            api_version: 1,
            contract_version: 1,
            build_commit,
            binary_digest: Some(copy_text(binary_digest)),
            source_id: None,
            remote_source: false,
            export_omits_skills_by_default: true,
            export_retains_native_shapes: true,
        },
    )
}

/// Check the bytes of a capabilities document.
pub fn validate_capabilities(bytes: &[u8], binary_digest: &str) -> (r: Result<
    CassProducer,
    CassError,
>)
    ensures
        ({
            let document = bounded(bytes@, CAPABILITIES_BYTES as nat, parsed_json(bytes@));
            match r {
                Ok(producer) => document is Ok && is_qualified(document->Ok_0) && describes(
                    producer,
                    document->Ok_0,
                    binary_digest@,
                ),
                Err(error) => match document {
                    Err(cause) => error == cause,
                    Ok(value) => !is_qualified(value) && error == CassError::UnsupportedProducer,
                },
            }
        }),
{
    match bounded_json(bytes, CAPABILITIES_BYTES) {
        Ok(value) => qualify(&value, binary_digest),
        Err(error) => Err(error),
    }
}

/// A record of an archive, in its native shape.
pub struct CassRecord(Json);

impl CassRecord {
    pub closed spec fn native(self) -> JsonView {
        self.0@
    }

    pub fn native_value(&self) -> (value: &Json)
        ensures
            value@ == self.native(),
    {
        &self.0
    }
}

pub open spec fn record_views(records: Seq<CassRecord>) -> Seq<JsonView> {
    records.map_values(|r: CassRecord| r.native())
}

/// The records of one session.
pub struct ArchiveExport {
    pub producer: CassProducer,
    pub records: Vec<CassRecord>,
    pub tool_content_included: bool,
    /// An archive strips skill injections by default, so their absence proves
    /// nothing.
    pub skill_load_evidence_unknown: bool,
}

/// Where records come from.
#[derive(Clone, Debug)]
pub struct CassProvenance {
    pub source: Option<String>,
    pub version: String,
}

impl ArchiveExport {
    pub fn provenance(&self) -> (provenance: CassProvenance)
        ensures
            optional_text(provenance.source) == optional_text(self.producer.source_id),
            provenance.version@ == self.producer.version@,
    {
        CassProvenance {
            source: copy_optional(&self.producer.source_id),
            version: copy_text(self.producer.version.as_str()),
        }
    }
}

pub open spec fn is_tool_role(role: Seq<char>) -> bool {
    role == "tool"@ || role == "function"@
}

pub open spec fn is_text_role(role: Seq<char>) -> bool {
    role == "user"@ || role == "assistant"@ || role == "system"@ || role == "developer"@
}

pub open spec fn is_text_block(kind: Option<Seq<char>>) -> bool {
    kind == Some("text"@) || kind == Some("input_text"@) || kind == Some("output_text"@)
}

/// The text blocks among the first `n` blocks, with their type and text alone;
/// nothing where one of them has no text.
pub open spec fn text_blocks(blocks: Seq<JsonView>) -> Option<Seq<JsonView>>
    decreases blocks.len(),
{
    if blocks.len() == 0 {
        Some(Seq::empty())
    } else {
        let block = blocks.last();
        match text_blocks(blocks.drop_last()) {
            None => None,
            Some(before) => if !is_text_block(block.text_at("type"@)) {
                Some(before)
            } else {
                match block.text_at("text"@) {
                    Some(text) => Some(
                        before.push(
                            JsonView::Object(
                                seq![
                                    ("text"@, JsonView::Text(text)),
                                    ("type"@, JsonView::Text(block.text_at("type"@)->0)),
                                ],
                            ),
                        ),
                    ),
                    None => None,
                }
            },
        }
    }
}

/// The text of a message. A message without any text block is left out.
pub open spec fn text_content(content: Option<JsonView>) -> Result<Option<JsonView>, CassError> {
    match content {
        Some(JsonView::Text(s)) => Ok(Some(JsonView::Text(s))),
        Some(JsonView::Array(blocks)) => match text_blocks(blocks) {
            Some(texts) => if texts.len() == 0 {
                Ok(None)
            } else {
                Ok(Some(JsonView::Array(texts)))
            },
            None => Err(CassError::InvalidResponse),
        },
        _ => Err(CassError::InvalidResponse),
    }
}

pub open spec fn holds_object(record: JsonView, key: Seq<char>) -> bool {
    match record.get(key) {
        Some(value) => value is Object,
        None => false,
    }
}

/// What a record wraps its message in.
pub enum Envelope {
    Message,
    Payload,
    Bare,
}

pub open spec fn envelope_of(record: JsonView) -> Envelope {
    if holds_object(record, "message"@) {
        Envelope::Message
    } else if holds_object(record, "payload"@) {
        Envelope::Payload
    } else {
        Envelope::Bare
    }
}

pub open spec fn message_of(record: JsonView) -> JsonView {
    match envelope_of(record) {
        Envelope::Message => record.get("message"@)->0,
        Envelope::Payload => record.get("payload"@)->0,
        Envelope::Bare => record,
    }
}

/// The role that a message names, else the type of its record.
pub open spec fn role_of(record: JsonView) -> Option<Seq<char>> {
    match message_of(record).text_at("role"@) {
        Some(role) => Some(role),
        None => record.text_at("type"@),
    }
}

/// A link is a text or null.
pub open spec fn is_link(record: JsonView, key: Seq<char>) -> bool {
    match record.get(key) {
        Some(value) => value is Text || value is Null,
        None => true,
    }
}

pub open spec fn link(record: JsonView, key: Seq<char>) -> Seq<(Seq<char>, JsonView)> {
    match record.get(key) {
        Some(value) => seq![(key, value)],
        None => Seq::empty(),
    }
}

pub open spec fn links_are_plain(record: JsonView) -> bool {
    is_link(record, "uuid"@) && is_link(record, "parentUuid"@) && is_link(record, "event_id"@)
        && is_link(record, "parent_id"@) && is_link(record, "timestamp"@) && is_link(
        record,
        "type"@,
    )
}

/// The role and the content of a message.
pub open spec fn message_fields(role: Seq<char>, content: JsonView) -> JsonView {
    JsonView::Object(seq![("content"@, content), ("role"@, JsonView::Text(role))])
}

/// The members of a projected record, in the order of their keys.
pub open spec fn projected_members(record: JsonView, role: Seq<char>, content: JsonView) -> Seq<
    (Seq<char>, JsonView),
> {
    let envelope = envelope_of(record);
    let none = Seq::<(Seq<char>, JsonView)>::empty();
    let fields = message_fields(role, content);
    (if envelope is Bare {
        seq![("content"@, content)]
    } else {
        none
    }) + link(record, "event_id"@) + (if envelope is Message {
        seq![("message"@, fields)]
    } else {
        none
    }) + link(record, "parentUuid"@) + link(record, "parent_id"@) + (if envelope is Payload {
        seq![("payload"@, fields)]
    } else {
        none
    }) + (if envelope is Bare {
        seq![("role"@, JsonView::Text(role))]
    } else {
        none
    }) + link(record, "timestamp"@) + link(record, "type"@) + link(record, "uuid"@)
}

/// A record reduced to its known text: the envelope, the event links, the role
/// and the text remain. A tool record is left out, and an unsupported shape is
/// refused.
pub open spec fn projection(record: JsonView) -> Result<Option<JsonView>, CassError> {
    match role_of(record) {
        None => Err(CassError::InvalidResponse),
        Some(role) => if is_tool_role(role) {
            Ok(None)
        } else if !is_text_role(role) {
            Err(CassError::InvalidResponse)
        } else {
            match text_content(message_of(record).get("content"@)) {
                Err(error) => Err(error),
                Ok(None) => Ok(None),
                Ok(Some(content)) => if links_are_plain(record) {
                    Ok(Some(JsonView::Object(projected_members(record, role, content))))
                } else {
                    Err(CassError::InvalidResponse)
                },
            }
        },
    }
}

fn project_blocks(blocks: &Vec<Json>) -> (r: Option<Vec<Json>>)
    ensures
        match r {
            Some(list) => text_blocks(json_views(blocks@)) == Some(json_views(list@)),
            None => text_blocks(json_views(blocks@)) is None,
        },
{
    let ghost all = json_views(blocks@);
    let mut out: Vec<Json> = Vec::new();
    let mut i: usize = 0;
    assert(json_views(out@) =~= Seq::empty());
    while i < blocks.len()
        invariant
            i <= blocks@.len(),
            all == json_views(blocks@),
            text_blocks(all.take(i as int)) == Some(json_views(out@)),
        decreases blocks@.len() - i,
    {
        assert(all.take(i + 1).drop_last() =~= all.take(i as int));
        assert(all.take(i + 1).last() == blocks@[i as int]@);
        let block: &Json = &blocks[i];
        let kind: Option<&str> = block.text_at("type");
        let wanted: bool = match kind {
            Some(text) => same_text(text, "text") || same_text(text, "input_text") || same_text(
                text,
                "output_text",
            ),
            None => false,
        };
        if wanted {
            match block.text_at("text") {
                Some(text) => {
                    let mut members: Vec<Member> = Vec::new();
                    push_member(&mut members, "text", json_text(text));
                    push_member(&mut members, "type", json_text(kind.unwrap()));
                    let ghost before = json_views(out@);
                    out.push(json_object(members));
                    assert(member_views(members@) =~= seq![
                        ("text"@, JsonView::Text(text@)),
                        ("type"@, JsonView::Text(kind->0@)),
                    ]);
                    assert(json_views(out@) =~= before.push(out@.last()@));
                },
                None => {
                    proof {
                        blocks_without_text_are_refused(all, i as int);
                    }
                    return None;
                },
            }
        }
        i += 1;
    }
    assert(all.take(i as int) =~= all);
    Some(out)
}

/// One text block without text spoils the blocks before and after it.
proof fn blocks_without_text_are_refused(blocks: Seq<JsonView>, i: int)
    requires
        0 <= i < blocks.len(),
        is_text_block(blocks[i].text_at("type"@)),
        blocks[i].text_at("text"@) is None,
    ensures
        text_blocks(blocks) is None,
    decreases blocks.len(),
{
    if i < blocks.len() - 1 {
        assert(blocks.drop_last()[i] == blocks[i]);
        blocks_without_text_are_refused(blocks.drop_last(), i);
    }
}

fn project_content(content: Option<&Json>) -> (r: Result<Option<Json>, CassError>)
    ensures
        ({
            let expected = text_content(
                if content is Some {
                    Some(content->0@)
                } else {
                    None
                },
            );
            match r {
                Ok(Some(value)) => expected == Ok::<Option<JsonView>, CassError>(Some(value@)),
                Ok(None) => expected == Ok::<Option<JsonView>, CassError>(None),
                Err(error) => expected == Err::<Option<JsonView>, CassError>(error),
            }
        }),
{
    match content {
        Some(value) => {
            match value.as_str() {
                Some(text) => {
                    return Ok(Some(json_text(text)));
                },
                None => {},
            }
            match value.as_array() {
                Some(blocks) => match project_blocks(blocks) {
                    Some(list) => {
                        assert(json_views(list@).len() == list@.len());
                        if list.len() == 0 {
                            Ok(None)
                        } else {
                            Ok(Some(json_array(list)))
                        }
                    },
                    None => Err(CassError::InvalidResponse),
                },
                None => Err(CassError::InvalidResponse),
            }
        },
        None => Err(CassError::InvalidResponse),
    }
}

fn has_link(record: &Json, key: &str) -> (r: bool)
    ensures
        r == is_link(record@, key@),
{
    match record.get(key) {
        Some(value) => value.as_str().is_some() || value.is_null(),
        None => true,
    }
}

/// Append the link with this key, where the record has one.
fn push_link(members: &mut Vec<Member>, record: &Json, key: &str)
    ensures
        member_views(final(members)@) == member_views(old(members)@) + link(record@, key@),
{
    let ghost before = member_views(members@);
    match record.get(key) {
        Some(value) => {
            push_member(members, key, value.copied());
            assert(member_views(members@) =~= before + link(record@, key@));
        },
        None => {
            assert(member_views(members@) =~= before + link(record@, key@));
        },
    }
}

fn object_at<'a>(record: &'a Json, key: &str) -> (value: Option<&'a Json>)
    ensures
        match value {
            Some(json) => holds_object(record@, key@) && record@.get(key@) == Some(json@),
            None => !holds_object(record@, key@),
        },
{
    match record.get(key) {
        Some(json) => if json.is_object() {
            Some(json)
        } else {
            None
        },
        None => None,
    }
}

fn fields_of(role: &str, content: &Json) -> (fields: Json)
    ensures
        fields@ == message_fields(role@, content@),
{
    let mut members: Vec<Member> = Vec::new();
    push_member(&mut members, "content", content.copied());
    push_member(&mut members, "role", json_text(role));
    assert(member_views(members@) =~= seq![
        ("content"@, content@),
        ("role"@, JsonView::Text(role@)),
    ]);
    json_object(members)
}

/// Append a member where it is wanted.
fn push_when(members: &mut Vec<Member>, wanted: bool, key: &str, value: Json)
    ensures
        member_views(final(members)@) == member_views(old(members)@) + (if wanted {
            seq![(key@, value@)]
        } else {
            Seq::empty()
        }),
{
    let ghost before = member_views(members@);
    if wanted {
        push_member(members, key, value);
        assert(member_views(members@) =~= before + seq![(key@, value@)]);
    } else {
        assert(before =~= before + Seq::empty());
    }
}

fn members_of(record: &Json, role: &str, content: &Json, message: bool, payload: bool) -> (members:
    Vec<Member>)
    requires
        message == (envelope_of(record@) is Message),
        payload == (envelope_of(record@) is Payload),
    ensures
        member_views(members@) == projected_members(record@, role@, content@),
{
    let bare: bool = !message && !payload;
    let mut members: Vec<Member> = Vec::new();
    let ghost first = if envelope_of(record@) is Bare {
        seq![("content"@, content@)]
    } else {
        Seq::empty()
    };
    push_when(&mut members, bare, "content", content.copied());
    assert(member_views(members@) =~= first);
    push_link(&mut members, record, "event_id");
    push_when(&mut members, message, "message", fields_of(role, content));
    push_link(&mut members, record, "parentUuid");
    push_link(&mut members, record, "parent_id");
    push_when(&mut members, payload, "payload", fields_of(role, content));
    push_when(&mut members, bare, "role", json_text(role));
    push_link(&mut members, record, "timestamp");
    push_link(&mut members, record, "type");
    push_link(&mut members, record, "uuid");
    members
}

/// Reduce a record to its known text.
pub fn text_only(record: &Json) -> (r: Result<Option<Json>, CassError>)
    ensures
        match r {
            Ok(Some(value)) => projection(record@) == Ok::<Option<JsonView>, CassError>(
                Some(value@),
            ),
            Ok(None) => projection(record@) == Ok::<Option<JsonView>, CassError>(None),
            Err(error) => projection(record@) == Err::<Option<JsonView>, CassError>(error),
        },
{
    let in_message: Option<&Json> = object_at(record, "message");
    let in_payload: Option<&Json> = object_at(record, "payload");
    let message: &Json = match in_message {
        Some(value) => value,
        None => match in_payload {
            Some(value) => value,
            None => record,
        },
    };
    assert(message@ == message_of(record@));
    let role: &str = match message.text_at("role") {
        Some(role) => role,
        None => match record.text_at("type") {
            Some(role) => role,
            None => {
                return Err(CassError::InvalidResponse);
            },
        },
    };
    if same_text(role, "tool") || same_text(role, "function") {
        return Ok(None);
    }
    if !same_text(role, "user") && !same_text(role, "assistant") && !same_text(role, "system")
        && !same_text(role, "developer") {
        return Err(CassError::InvalidResponse);
    }
    let content: Json = match project_content(message.get("content")) {
        Ok(Some(content)) => content,
        Ok(None) => {
            return Ok(None);
        },
        Err(error) => {
            return Err(error);
        },
    };
    if !has_link(record, "uuid") || !has_link(record, "parentUuid") || !has_link(record, "event_id")
        || !has_link(record, "parent_id") || !has_link(record, "timestamp") || !has_link(
        record,
        "type",
    ) {
        return Err(CassError::InvalidResponse);
    }
    let members: Vec<Member> = members_of(
        record,
        role,
        &content,
        in_message.is_some(),
        in_message.is_none() && in_payload.is_some(),
    );
    Ok(Some(json_object(members)))
}

/// The records of an export, in order, or the first failure.
pub open spec fn exported(records: Seq<JsonView>, include_tools: bool) -> Result<
    Seq<JsonView>,
    CassError,
>
    decreases records.len(),
{
    if records.len() == 0 {
        Ok(Seq::empty())
    } else {
        match exported(records.drop_last(), include_tools) {
            Err(error) => Err(error),
            Ok(before) => if !(records.last() is Object) {
                Err(CassError::InvalidResponse)
            } else if include_tools {
                Ok(before.push(records.last()))
            } else {
                match projection(records.last()) {
                    Err(error) => Err(error),
                    Ok(None) => Ok(before),
                    Ok(Some(record)) => Ok(before.push(record)),
                }
            },
        }
    }
}

/// A failure among the first records is the failure of all.
proof fn failed_export_stays_failed(records: Seq<JsonView>, include_tools: bool, n: int)
    requires
        0 <= n <= records.len(),
        exported(records.take(n), include_tools) is Err,
    ensures
        exported(records, include_tools) == exported(records.take(n), include_tools),
    decreases records.len() - n,
{
    if n < records.len() {
        assert(records.take(n + 1).drop_last() =~= records.take(n));
        failed_export_stays_failed(records, include_tools, n + 1);
    } else {
        assert(records.take(n) =~= records);
    }
}

/// The records that an export document holds.
pub open spec fn export_outcome(value: JsonView, include_tools: bool) -> Result<
    Seq<JsonView>,
    CassError,
> {
    match value.items() {
        None => Err(CassError::InvalidResponse),
        Some(records) => if records.len() > MAX_MESSAGES {
            Err(CassError::LimitExceeded)
        } else {
            exported(records, include_tools)
        },
    }
}

/// Read the records of a decoded export document.
pub fn export_records(value: &Json, include_tools: bool) -> (r: Result<Vec<CassRecord>, CassError>)
    ensures
        match r {
            Ok(records) => export_outcome(value@, include_tools) == Ok::<Seq<JsonView>, CassError>(
                record_views(records@),
            ),
            Err(error) => export_outcome(value@, include_tools) == Err::<Seq<JsonView>, CassError>(
                error,
            ),
        },
{
    let list: &Vec<Json> = match value.as_array() {
        Some(list) => list,
        None => {
            return Err(CassError::InvalidResponse);
        },
    };
    let ghost all = json_views(list@);
    assert(all.len() == list@.len());
    if list.len() > MAX_MESSAGES {
        return Err(CassError::LimitExceeded);
    }
    let mut records: Vec<CassRecord> = Vec::new();
    let mut i: usize = 0;
    assert(record_views(records@) =~= Seq::empty());
    while i < list.len()
        invariant
            i <= list@.len() <= MAX_MESSAGES,
            all == json_views(list@),
            value@.items() == Some(all),
            exported(all.take(i as int), include_tools) == Ok::<Seq<JsonView>, CassError>(
                record_views(records@),
            ),
        decreases list@.len() - i,
    {
        assert(all.take(i + 1).drop_last() =~= all.take(i as int));
        assert(all.take(i + 1).last() == list@[i as int]@);
        let ghost before = record_views(records@);
        let record: &Json = &list[i];
        if !record.is_object() {
            proof {
                failed_export_stays_failed(all, include_tools, i + 1);
            }
            return Err(CassError::InvalidResponse);
        }
        if include_tools {
            records.push(CassRecord(record.copied()));
            assert(record_views(records@) =~= before.push(record@));
        } else {
            match text_only(record) {
                Ok(Some(text)) => {
                    records.push(CassRecord(text));
                    assert(record_views(records@) =~= before.push(text@));
                },
                Ok(None) => {},
                Err(error) => {
                    proof {
                        failed_export_stays_failed(all, include_tools, i + 1);
                    }
                    return Err(error);
                },
            }
        }
        i += 1;
    }
    assert(all.take(i as int) =~= all);
    Ok(records)
}

/// Why a producer may not export, before a byte is read.
pub open spec fn export_refusal(producer: CassProducer, claim_supported: bool) -> Option<
    CassError,
> {
    if !claim_supported || producer.version@ != QUALIFIED_VERSION@ || producer.api_version != 1
        || producer.contract_version != 1 {
        Some(CassError::UnsupportedProducer)
    } else if optional_text(producer.source_id) != Some("local"@) {
        Some(CassError::RemoteSource)
    } else {
        None
    }
}

/// Read the bytes of an export of at most `export_bytes`. Whether the
/// producer's support claim stands is for the caller to say.
pub fn decode_export(
    bytes: &[u8],
    producer: CassProducer,
    claim_supported: bool,
    include_tools: bool,
    export_bytes: usize,
) -> (r: Result<ArchiveExport, CassError>)
    ensures
        ({
            let document = bounded(bytes@, export_bytes as nat, parsed_json(bytes@));
            match r {
                Ok(export) => {
                    &&& export_refusal(producer, claim_supported) is None
                    &&& document is Ok
                    &&& export_outcome(document->Ok_0, include_tools) == Ok::<
                        Seq<JsonView>,
                        CassError,
                    >(record_views(export.records@))
                    &&& export.producer == producer
                    &&& export.tool_content_included == include_tools
                    &&& export.skill_load_evidence_unknown
                },
                Err(error) => match export_refusal(producer, claim_supported) {
                    Some(cause) => error == cause,
                    None => match document {
                        Err(cause) => error == cause,
                        Ok(value) => export_outcome(value, include_tools) == Err::<
                            Seq<JsonView>,
                            CassError,
                        >(error),
                    },
                },
            }
        }),
{
    if !claim_supported || !same_text(producer.version.as_str(), QUALIFIED_VERSION)
        || producer.api_version != 1 || producer.contract_version != 1 {
        return Err(CassError::UnsupportedProducer);
    }
    let local: bool = match &producer.source_id {
        Some(source) => same_text(source.as_str(), "local"),
        None => false,
    };
    if !local {
        return Err(CassError::RemoteSource);
    }
    match bounded_json(bytes, export_bytes) {
        Ok(value) => match export_records(&value, include_tools) {
            Ok(records) => Ok(
                ArchiveExport {
                    producer,
                    records,
                    tool_content_included: include_tools,
                    skill_load_evidence_unknown: true,
                },
            ),
            Err(error) => Err(error),
        },
        Err(error) => Err(error),
    }
}

/// One listed session.
#[derive(Clone)]
pub struct ArchiveSession {
    pub selection: ArchiveSelection,
    pub workspace: String,
    pub harness: String,
}

/// The sessions of one workspace.
pub struct ArchiveListing {
    pub sessions: Vec<ArchiveSession>,
    /// A listing has no count of all sessions, so a full page is incomplete.
    pub complete: bool,
    pub rejected_remote: usize,
    pub rejected_workspace: usize,
}

/// A listed session as texts: path, source, workspace, harness.
pub struct SessionView {
    pub path: Seq<char>,
    pub source: Seq<char>,
    pub workspace: Seq<char>,
    pub harness: Seq<char>,
}

pub open spec fn session_views(sessions: Seq<ArchiveSession>) -> Seq<SessionView> {
    sessions.map_values(
        |s: ArchiveSession|
            SessionView {
                path: s.selection.path_text(),
                source: s.selection.source_text(),
                workspace: s.workspace@,
                harness: s.harness@,
            },
    )
}

/// What a row of a listing is.
pub enum RowView {
    Remote,
    OtherWorkspace,
    Session(SessionView),
    Refused(CassError),
}

pub open spec fn is_remote_row(row: JsonView) -> bool {
    row.text_at("source_id"@) != Some("local"@) || match row.get("origin_host"@) {
        Some(host) => !(host is Null),
        None => false,
    }
}

pub open spec fn row_of(row: JsonView, workspace: Seq<char>) -> RowView {
    if row.text_at("source_id"@) is None {
        RowView::Refused(CassError::InvalidResponse)
    } else if is_remote_row(row) {
        RowView::Remote
    } else {
        match row.text_at("workspace"@) {
            None => RowView::Refused(CassError::InvalidResponse),
            Some(found) => if !same_absolute_path(found, workspace) {
                RowView::OtherWorkspace
            } else {
                match (row.text_at("path"@), row.text_at("agent"@)) {
                    (Some(path), Some(agent)) => if is_archive_path(path) {
                        RowView::Session(
                            SessionView {
                                path,
                                source: "local"@,
                                workspace: found,
                                harness: agent,
                            },
                        )
                    } else {
                        RowView::Refused(CassError::InvalidRequest)
                    },
                    _ => RowView::Refused(CassError::InvalidResponse),
                }
            },
        }
    }
}

/// What the first rows of a listing come to.
pub struct ListingView {
    pub sessions: Seq<SessionView>,
    pub remote: nat,
    pub other_workspace: nat,
}

pub open spec fn listed(rows: Seq<JsonView>, workspace: Seq<char>) -> Result<ListingView, CassError>
    decreases rows.len(),
{
    if rows.len() == 0 {
        Ok(ListingView { sessions: Seq::empty(), remote: 0, other_workspace: 0 })
    } else {
        match listed(rows.drop_last(), workspace) {
            Err(error) => Err(error),
            Ok(before) => match row_of(rows.last(), workspace) {
                RowView::Refused(error) => Err(error),
                RowView::Remote => Ok(ListingView { remote: before.remote + 1, ..before }),
                RowView::OtherWorkspace => Ok(
                    ListingView { other_workspace: before.other_workspace + 1, ..before },
                ),
                RowView::Session(session) => Ok(
                    ListingView { sessions: before.sessions.push(session), ..before },
                ),
            },
        }
    }
}

proof fn failed_listing_stays_failed(rows: Seq<JsonView>, workspace: Seq<char>, n: int)
    requires
        0 <= n <= rows.len(),
        listed(rows.take(n), workspace) is Err,
    ensures
        listed(rows, workspace) == listed(rows.take(n), workspace),
    decreases rows.len() - n,
{
    if n < rows.len() {
        assert(rows.take(n + 1).drop_last() =~= rows.take(n));
        failed_listing_stays_failed(rows, workspace, n + 1);
    } else {
        assert(rows.take(n) =~= rows);
    }
}

/// The listing that a document holds for a page of `limit` rows.
pub open spec fn listing_outcome(value: JsonView, workspace: Seq<char>, limit: nat) -> Result<
    ListingView,
    CassError,
> {
    match value.items_at("sessions"@) {
        None => Err(CassError::InvalidResponse),
        Some(rows) => if rows.len() > limit {
            Err(CassError::LimitExceeded)
        } else {
            listed(rows, workspace)
        },
    }
}

/// A listing is complete where the page was not full and nothing was rejected.
pub open spec fn lists(listing: ArchiveListing, expected: ListingView, rows: nat, limit: nat) -> bool {
    &&& session_views(listing.sessions@) == expected.sessions
    &&& listing.rejected_remote == expected.remote
    &&& listing.rejected_workspace == expected.other_workspace
    &&& listing.complete == (rows < limit && expected.remote == 0 && expected.other_workspace == 0)
}

/// A row as it is acted on.
enum Row {
    Remote,
    OtherWorkspace,
    Session(ArchiveSession),
    Refused(CassError),
}

fn read_row(row: &Json, workspace: &str) -> (r: Row)
    ensures
        match r {
            Row::Remote => row_of(row@, workspace@) is Remote,
            Row::OtherWorkspace => row_of(row@, workspace@) is OtherWorkspace,
            Row::Session(s) => row_of(row@, workspace@) == RowView::Session(
                SessionView {
                    path: s.selection.path_text(),
                    source: s.selection.source_text(),
                    workspace: s.workspace@,
                    harness: s.harness@,
                },
            ),
            Row::Refused(error) => row_of(row@, workspace@) == RowView::Refused(error),
        },
{
    let source: &str = match row.text_at("source_id") {
        Some(source) => source,
        None => {
            return Row::Refused(CassError::InvalidResponse);
        },
    };
    let hosted: bool = match row.get("origin_host") {
        Some(host) => !host.is_null(),
        None => false,
    };
    if !same_text(source, "local") || hosted {
        return Row::Remote;
    }
    let found: &str = match row.text_at("workspace") {
        Some(found) => found,
        None => {
            return Row::Refused(CassError::InvalidResponse);
        },
    };
    if !is_same_path(found, workspace) {
        return Row::OtherWorkspace;
    }
    let path: &str = match row.text_at("path") {
        Some(path) => path,
        None => {
            return Row::Refused(CassError::InvalidResponse);
        },
    };
    let agent: &str = match row.text_at("agent") {
        Some(agent) => agent,
        None => {
            return Row::Refused(CassError::InvalidResponse);
        },
    };
    match ArchiveSelection::local(path, source) {
        Ok(selection) => Row::Session(
            ArchiveSession { selection, workspace: copy_text(found), harness: copy_text(agent) },
        ),
        Err(error) => Row::Refused(error),
    }
}

/// Read the sessions of a decoded listing.
pub fn list_sessions(value: &Json, workspace: &str, limit: usize) -> (r: Result<
    ArchiveListing,
    CassError,
>)
    ensures
        ({
            let outcome = listing_outcome(value@, workspace@, limit as nat);
            match r {
                Ok(listing) => outcome is Ok && lists(
                    listing,
                    outcome->Ok_0,
                    value@.items_at("sessions"@)->0.len(),
                    limit as nat,
                ),
                Err(error) => outcome == Err::<ListingView, CassError>(error),
            }
        }),
{
    let list: &Vec<Json> = match value.array_at("sessions") {
        Some(list) => list,
        None => {
            return Err(CassError::InvalidResponse);
        },
    };
    let ghost all = json_views(list@);
    assert(all.len() == list@.len());
    if list.len() > limit {
        return Err(CassError::LimitExceeded);
    }
    let mut sessions: Vec<ArchiveSession> = Vec::new();
    let mut remote: usize = 0;
    let mut other_workspace: usize = 0;
    let mut i: usize = 0;
    assert(session_views(sessions@) =~= Seq::empty());
    while i < list.len()
        invariant
            i <= list@.len() <= limit,
            all == json_views(list@),
            value@.items_at("sessions"@) == Some(all),
            remote <= i,
            other_workspace <= i,
            listed(all.take(i as int), workspace@) == Ok::<ListingView, CassError>(
                ListingView {
                    sessions: session_views(sessions@),
                    remote: remote as nat,
                    other_workspace: other_workspace as nat,
                },
            ),
        decreases list@.len() - i,
    {
        assert(all.take(i + 1).drop_last() =~= all.take(i as int));
        assert(all.take(i + 1).last() == list@[i as int]@);
        match read_row(&list[i], workspace) {
            Row::Remote => {
                remote += 1;
            },
            Row::OtherWorkspace => {
                other_workspace += 1;
            },
            Row::Session(session) => {
                let ghost before = session_views(sessions@);
                let ghost added = SessionView {
                    path: session.selection.path_text(),
                    source: session.selection.source_text(),
                    workspace: session.workspace@,
                    harness: session.harness@,
                };
                sessions.push(session);
                assert(session_views(sessions@) =~= before.push(added));
            },
            Row::Refused(error) => {
                proof {
                    failed_listing_stays_failed(all, workspace@, i + 1);
                }
                return Err(error);
            },
        }
        i += 1;
    }
    assert(all.take(i as int) =~= all);
    Ok(
        ArchiveListing {
            sessions,
            complete: list.len() < limit && remote == 0 && other_workspace == 0,
            rejected_remote: remote,
            rejected_workspace: other_workspace,
        },
    )
}

/// May sessions of this workspace be listed, this many at a time?
pub open spec fn is_listing_request(workspace: Seq<char>, limit: nat) -> bool {
    is_archive_path(workspace) && 0 < limit <= MAX_LISTING
}

/// Read the bytes of a listing of at most `export_bytes`.
pub fn decode_listing(bytes: &[u8], workspace: &str, limit: usize, export_bytes: usize) -> (r:
    Result<ArchiveListing, CassError>)
    ensures
        ({
            let document = bounded(bytes@, export_bytes as nat, parsed_json(bytes@));
            match r {
                Ok(listing) => {
                    &&& is_listing_request(workspace@, limit as nat)
                    &&& document is Ok
                    &&& listing_outcome(document->Ok_0, workspace@, limit as nat) is Ok
                    &&& lists(
                        listing,
                        listing_outcome(document->Ok_0, workspace@, limit as nat)->Ok_0,
                        document->Ok_0.items_at("sessions"@)->0.len(),
                        limit as nat,
                    )
                },
                Err(error) => if !is_listing_request(workspace@, limit as nat) {
                    error == CassError::InvalidRequest
                } else {
                    match document {
                        Err(cause) => error == cause,
                        Ok(value) => listing_outcome(value, workspace@, limit as nat) == Err::<
                            ListingView,
                            CassError,
                        >(error),
                    }
                },
            }
        }),
{
    match validate_path(workspace) {
        Ok(_) => {},
        Err(error) => {
            return Err(error);
        },
    }
    if limit == 0 || limit > MAX_LISTING {
        return Err(CassError::InvalidRequest);
    }
    match bounded_json(bytes, export_bytes) {
        Ok(value) => list_sessions(&value, workspace, limit),
        Err(error) => Err(error),
    }
}

/// The program's arguments, behind the selected database.
pub open spec fn with_database(database: Seq<char>, args: Seq<Seq<char>>) -> Seq<Seq<char>> {
    seq!["--db"@, database] + args
}

/// The arguments that ask for the capabilities.
pub fn capabilities_arguments(database: &str) -> (args: Vec<String>)
    ensures
        texts(args@) == with_database(database@, seq!["capabilities"@, "--json"@]),
{
    let mut args: Vec<String> = Vec::new();
    args.push(copy_text("--db"));
    args.push(copy_text(database));
    args.push(copy_text("capabilities"));
    args.push(copy_text("--json"));
    assert(texts(args@) =~= with_database(database@, seq!["capabilities"@, "--json"@]));
    args
}

/// The arguments that ask for the records of a selected session. Tools are
/// always asked for; leaving them out is not left to the producer.
pub fn export_arguments(database: &str, selected: &ArchiveSelection) -> (args: Vec<String>)
    ensures
        texts(args@) == with_database(
            database@,
            seq![
                "export"@,
                selected.path_text(),
                "--source"@,
                selected.source_text(),
                "--format"@,
                "json"@,
                "--include-tools"@,
            ],
        ),
{
    let mut args: Vec<String> = Vec::new();
    args.push(copy_text("--db"));
    args.push(copy_text(database));
    args.push(copy_text("export"));
    args.push(copy_text(selected.path()));
    args.push(copy_text("--source"));
    args.push(copy_text(selected.source()));
    args.push(copy_text("--format"));
    args.push(copy_text("json"));
    args.push(copy_text("--include-tools"));
    assert(texts(args@) =~= with_database(
        database@,
        seq![
            "export"@,
            selected.path_text(),
            "--source"@,
            selected.source_text(),
            "--format"@,
            "json"@,
            "--include-tools"@,
        ],
    ));
    args
}

/// The arguments that list the sessions of a workspace, where the request is
/// one that may be made.
pub fn sessions_arguments(database: &str, workspace: &str, limit: usize) -> (r: Result<
    Vec<String>,
    CassError,
>)
    ensures
        match r {
            Ok(args) => is_listing_request(workspace@, limit as nat) && texts(args@)
                == with_database(
                database@,
                seq![
                    "sessions"@,
                    "--workspace"@,
                    workspace@,
                    "--limit"@,
                    decimal(limit as nat),
                    "--json"@,
                ],
            ),
            Err(error) => !is_listing_request(workspace@, limit as nat) && error
                == CassError::InvalidRequest,
        },
{
    match validate_path(workspace) {
        Ok(_) => {},
        Err(error) => {
            return Err(error);
        },
    }
    if limit == 0 || limit > MAX_LISTING {
        return Err(CassError::InvalidRequest);
    }
    let mut args: Vec<String> = Vec::new();
    args.push(copy_text("--db"));
    args.push(copy_text(database));
    args.push(copy_text("sessions"));
    args.push(copy_text("--workspace"));
    args.push(copy_text(workspace));
    args.push(copy_text("--limit"));
    args.push(decimal_text(limit as u64));
    args.push(copy_text("--json"));
    assert(texts(args@) =~= with_database(
        database@,
        seq![
            "sessions"@,
            "--workspace"@,
            workspace@,
            "--limit"@,
            decimal(limit as nat),
            "--json"@,
        ],
    ));
    Ok(args)
}

/// Only the text of messages leaves a projected record: its members are the
/// event links and, bare or in the envelope, a text role and the content.
pub proof fn projection_keeps_text_alone(record: JsonView)
    requires
        projection(record) is Ok,
        projection(record)->Ok_0 is Some,
    ensures
        role_of(record) is Some,
        is_text_role(role_of(record)->0),
        !is_tool_role(role_of(record)->0),
        links_are_plain(record),
        ({
            let content = text_content(message_of(record).get("content"@))->Ok_0->0;
            &&& content is Text || (content is Array && content->Array_0.len() > 0 && forall|i: int|
                0 <= i < content->Array_0.len() ==> is_text_block(
                    (#[trigger] content->Array_0[i]).text_at("type"@),
                ) && content->Array_0[i].text_at("text"@) is Some)
        }),
{
    let content = message_of(record).get("content"@)->0;
    distinct_role_texts(role_of(record)->0);
    if content is Array {
        kept_blocks_are_text(content->Array_0);
    }
}

proof fn distinct_role_texts(role: Seq<char>)
    ensures
        is_text_role(role) ==> !is_tool_role(role),
{
    reveal_strlit("tool");
    reveal_strlit("function");
    reveal_strlit("user");
    reveal_strlit("assistant");
    reveal_strlit("system");
    reveal_strlit("developer");
    assert("function"@.len() == 8 && "assistant"@.len() == 9 && "developer"@.len() == 9);
    assert("tool"@[0] == 't' && "user"@[0] == 'u');
}

proof fn kept_blocks_are_text(blocks: Seq<JsonView>)
    requires
        text_blocks(blocks) is Some,
    ensures
        forall|i: int|
            0 <= i < text_blocks(blocks)->0.len() ==> is_text_block(
                (#[trigger] text_blocks(blocks)->0[i]).text_at("type"@),
            ) && text_blocks(blocks)->0[i].text_at("text"@) is Some,
    decreases blocks.len(),
{
    if blocks.len() > 0 {
        kept_blocks_are_text(blocks.drop_last());
        let block = blocks.last();
        if is_text_block(block.text_at("type"@)) {
            let members = seq![
                ("text"@, JsonView::Text(block.text_at("text"@)->0)),
                ("type"@, JsonView::Text(block.text_at("type"@)->0)),
            ];
            assert("text"@ != "type"@) by {
                reveal_strlit("text");
                reveal_strlit("type");
                assert("text"@[1] == 'e' && "type"@[1] == 'y');
            }
            assert(JsonView::find(members, "text"@) == Some(members[0].1));
            assert(JsonView::find(members.drop_first(), "type"@) == Some(members[1].1));
            assert(JsonView::find(members, "type"@) == Some(members[1].1));
        }
    }
}

/// Every row of an accepted listing is listed, remote or of another workspace,
/// and every listed session is local, of the asked workspace and at an
/// absolute path.
pub proof fn every_row_is_accounted_for(rows: Seq<JsonView>, workspace: Seq<char>)
    requires
        listed(rows, workspace) is Ok,
    ensures
        ({
            let listing = listed(rows, workspace)->Ok_0;
            &&& listing.sessions.len() + listing.remote + listing.other_workspace == rows.len()
            &&& forall|i: int|
                0 <= i < listing.sessions.len() ==> (#[trigger] listing.sessions[i]).source
                    == "local"@ && is_archive_path(listing.sessions[i].path) && same_absolute_path(
                    listing.sessions[i].workspace,
                    workspace,
                )
        }),
    decreases rows.len(),
{
    if rows.len() > 0 {
        every_row_is_accounted_for(rows.drop_last(), workspace);
    }
}

/// The source policy of an invocation, as far as archives go.
#[derive(Clone, Copy, Debug, PartialEq, Eq, Structural)]
pub struct SourceMode {
    pub cass_allowed: bool,
    pub offline: bool,
    pub allow_network: bool,
}

impl SourceMode {
    pub open spec fn permits_archive(self) -> bool {
        self.cass_allowed && !(self.offline && self.allow_network)
    }
}

/// Maximum bytes of the child's diagnostics (16 KiB).
pub const STDERR_BYTES: usize = 16_384;

/// How a child process ended.
#[derive(Debug)]
pub enum ChildOutcome {
    Lost(SubprocessError),
    Finished { success: bool, stdout: Vec<u8> },
}

/// What remains of the invocation once a child has ended.
#[derive(Clone, Copy, Debug, PartialEq, Eq, Structural)]
pub struct RemainingBudget {
    pub cancelled: bool,
    pub deadline_passed: bool,
}

impl RemainingBudget {
    pub open spec fn refusal(self) -> Option<CassError> {
        if self.cancelled {
            Some(CassError::Process(SubprocessError::Cancelled))
        } else if self.deadline_passed {
            Some(CassError::Process(SubprocessError::DeadlineExceeded))
        } else {
            None
        }
    }
}

/// May the result still be used?
pub fn check_budget(budget: RemainingBudget) -> (r: Result<(), CassError>)
    ensures
        match r {
            Ok(_) => budget.refusal() is None,
            Err(error) => budget.refusal() == Some(error),
        },
{
    if budget.cancelled {
        Err(CassError::Process(SubprocessError::Cancelled))
    } else if budget.deadline_passed {
        Err(CassError::Process(SubprocessError::DeadlineExceeded))
    } else {
        Ok(())
    }
}

/// Why a child has no usable output.
pub open spec fn child_failure(outcome: ChildOutcome) -> Option<CassError> {
    match outcome {
        ChildOutcome::Lost(SubprocessError::OutputLimit) => Some(CassError::LimitExceeded),
        ChildOutcome::Lost(error) => Some(CassError::Process(error)),
        ChildOutcome::Finished { success, .. } => if success {
            None
        } else {
            Some(CassError::ChildFailed)
        },
    }
}

fn child_output(outcome: ChildOutcome) -> (r: Result<Vec<u8>, CassError>)
    ensures
        match r {
            Ok(bytes) => child_failure(outcome) is None && outcome->stdout == bytes,
            Err(error) => child_failure(outcome) == Some(error),
        },
{
    match outcome {
        ChildOutcome::Lost(error) => Err(CassError::from_subprocess(error)),
        ChildOutcome::Finished { success, stdout } => if success {
            Ok(stdout)
        } else {
            Err(CassError::ChildFailed)
        },
    }
}

/// Trusted local configuration. The database is always named, so that none is
/// picked from the surroundings.
#[derive(Clone)]
pub struct CassConfig {
    pub directory: String,
    pub database: String,
    /// Digest of the executable that the operator qualified.
    pub binary_digest: String,
}

/// Why a probe may not start.
pub open spec fn probe_refusal(config: CassConfig, mode: SourceMode) -> Option<CassError> {
    if !mode.permits_archive() {
        Some(CassError::UnsupportedSourceMode)
    } else if !is_archive_path(config.directory@) || !is_archive_path(config.database@) {
        Some(CassError::InvalidRequest)
    } else {
        None
    }
}

/// A qualified archive program.
pub struct CassAdapter {
    config: CassConfig,
    producer: CassProducer,
}

impl CassAdapter {
    pub closed spec fn configured(self) -> CassConfig {
        self.config
    }

    pub closed spec fn qualified(self) -> CassProducer {
        self.producer
    }

    /// The arguments of the probe, where it may start.
    pub fn probe_request(config: &CassConfig, mode: SourceMode) -> (r: Result<
        Vec<String>,
        CassError,
    >)
        ensures
            match r {
                Ok(args) => probe_refusal(*config, mode) is None && texts(args@) == with_database(
                    config.database@,
                    seq!["capabilities"@, "--json"@],
                ),
                Err(error) => probe_refusal(*config, mode) == Some(error),
            },
    {
        match allowed(mode.cass_allowed, mode.offline, mode.allow_network) {
            Ok(_) => {},
            Err(error) => {
                return Err(error);
            },
        }
        match validate_path(config.directory.as_str()) {
            Ok(_) => {},
            Err(error) => {
                return Err(error);
            },
        }
        match validate_path(config.database.as_str()) {
            Ok(_) => {},
            Err(error) => {
                return Err(error);
            },
        }
        Ok(capabilities_arguments(config.database.as_str()))
    }

    /// The adapter that a probe's outcome qualifies.
    pub fn probe(
        config: CassConfig,
        mode: SourceMode,
        outcome: ChildOutcome,
        budget: RemainingBudget,
    ) -> (r: Result<CassAdapter, CassError>)
        ensures
            ({
                let document = bounded(
                    outcome->stdout@,
                    CAPABILITIES_BYTES as nat,
                    parsed_json(outcome->stdout@),
                );
                match r {
                    Ok(adapter) => {
                        &&& probe_refusal(config, mode) is None
                        &&& child_failure(outcome) is None
                        &&& document is Ok
                        &&& is_qualified(document->Ok_0)
                        &&& budget.refusal() is None
                        &&& adapter.configured() == config
                        &&& describes(adapter.qualified(), document->Ok_0, config.binary_digest@)
                    },
                    Err(error) => if probe_refusal(config, mode) is Some {
                        probe_refusal(config, mode) == Some(error)
                    } else if child_failure(outcome) is Some {
                        child_failure(outcome) == Some(error)
                    } else {
                        match document {
                            Err(cause) => error == cause,
                            Ok(value) => if is_qualified(value) {
                                budget.refusal() == Some(error)
                            } else {
                                error == CassError::UnsupportedProducer
                            },
                        }
                    },
                }
            }),
    {
        match CassAdapter::probe_request(&config, mode) {
            Ok(_) => {},
            Err(error) => {
                return Err(error);
            },
        }
        let bytes: Vec<u8> = match child_output(outcome) {
            Ok(bytes) => bytes,
            Err(error) => {
                return Err(error);
            },
        };
        let producer: CassProducer = match validate_capabilities(
            bytes.as_slice(),
            config.binary_digest.as_str(),
        ) {
            Ok(producer) => producer,
            Err(error) => {
                return Err(error);
            },
        };
        match check_budget(budget) {
            Ok(_) => Ok(CassAdapter { config, producer }),
            Err(error) => Err(error),
        }
    }

    pub fn producer(&self) -> (producer: &CassProducer)
        ensures
            *producer == self.qualified(),
    {
        &self.producer
    }

    /// The arguments of an export, where archives are permitted.
    pub fn export_request(&self, selected: &ArchiveSelection, mode: SourceMode) -> (r: Result<
        Vec<String>,
        CassError,
    >)
        ensures
            match r {
                Ok(args) => mode.permits_archive() && texts(args@) == with_database(
                    self.configured().database@,
                    seq![
                        "export"@,
                        selected.path_text(),
                        "--source"@,
                        selected.source_text(),
                        "--format"@,
                        "json"@,
                        "--include-tools"@,
                    ],
                ),
                Err(error) => !mode.permits_archive() && error == CassError::UnsupportedSourceMode,
            },
    {
        match allowed(mode.cass_allowed, mode.offline, mode.allow_network) {
            Ok(_) => Ok(export_arguments(self.config.database.as_str(), selected)),
            Err(error) => Err(error),
        }
    }

    /// The records that an export's outcome holds. They carry the selected
    /// source.
    pub fn export(
        &self,
        selected: &ArchiveSelection,
        include_tools: bool,
        claim_supported: bool,
        outcome: ChildOutcome,
        budget: RemainingBudget,
        export_bytes: usize,
    ) -> (r: Result<ArchiveExport, CassError>)
        ensures
            ({
                let document = bounded(
                    outcome->stdout@,
                    export_bytes as nat,
                    parsed_json(outcome->stdout@),
                );
                let producer = self.qualified();
                match r {
                    Ok(export) => {
                        &&& child_failure(outcome) is None
                        &&& claim_supported
                        &&& is_export_ready(producer, selected.source_text())
                        &&& document is Ok
                        &&& export_outcome(document->Ok_0, include_tools) == Ok::<
                            Seq<JsonView>,
                            CassError,
                        >(record_views(export.records@))
                        &&& budget.refusal() is None
                        &&& is_same_producer(export.producer, producer)
                        &&& optional_text(export.producer.source_id) == Some(
                            selected.source_text(),
                        )
                        &&& export.tool_content_included == include_tools
                        &&& export.skill_load_evidence_unknown
                    },
                    Err(error) => if child_failure(outcome) is Some {
                        child_failure(outcome) == Some(error)
                    } else if !claim_supported || !is_qualified_version(producer) {
                        error == CassError::UnsupportedProducer
                    } else if selected.source_text() != "local"@ {
                        error == CassError::RemoteSource
                    } else {
                        match document {
                            Err(cause) => error == cause,
                            Ok(value) => match export_outcome(value, include_tools) {
                                Err(cause) => error == cause,
                                Ok(_) => budget.refusal() == Some(error),
                            },
                        }
                    },
                }
            }),
    {
        let bytes: Vec<u8> = match child_output(outcome) {
            Ok(bytes) => bytes,
            Err(error) => {
                return Err(error);
            },
        };
        let own: &CassProducer = &self.producer;
        let producer = CassProducer {
            version: copy_text(own.version.as_str()),
            api_version: own.api_version,
            contract_version: own.contract_version,
            build_commit: copy_optional(&own.build_commit),
            binary_digest: copy_optional(&own.binary_digest),
            source_id: Some(copy_text(selected.source())),
            remote_source: own.remote_source,
            export_omits_skills_by_default: own.export_omits_skills_by_default,
            export_retains_native_shapes: own.export_retains_native_shapes,
        };
        let export: ArchiveExport = match decode_export(
            bytes.as_slice(),
            producer,
            claim_supported,
            include_tools,
            export_bytes,
        ) {
            Ok(export) => export,
            Err(error) => {
                return Err(error);
            },
        };
        match check_budget(budget) {
            Ok(_) => Ok(export),
            Err(error) => Err(error),
        }
    }

    /// The arguments of a listing, where it may be made.
    pub fn sessions_request(&self, workspace: &str, limit: usize, mode: SourceMode) -> (r: Result<
        Vec<String>,
        CassError,
    >)
        ensures
            match r {
                Ok(args) => mode.permits_archive() && is_listing_request(workspace@, limit as nat)
                    && texts(args@) == with_database(
                    self.configured().database@,
                    seq![
                        "sessions"@,
                        "--workspace"@,
                        workspace@,
                        "--limit"@,
                        decimal(limit as nat),
                        "--json"@,
                    ],
                ),
                Err(error) => if !mode.permits_archive() {
                    error == CassError::UnsupportedSourceMode
                } else {
                    !is_listing_request(workspace@, limit as nat) && error
                        == CassError::InvalidRequest
                },
            },
    {
        match allowed(mode.cass_allowed, mode.offline, mode.allow_network) {
            Ok(_) => sessions_arguments(self.config.database.as_str(), workspace, limit),
            Err(error) => Err(error),
        }
    }

    /// The sessions that a listing's outcome holds.
    pub fn sessions(
        &self,
        workspace: &str,
        limit: usize,
        outcome: ChildOutcome,
        budget: RemainingBudget,
        export_bytes: usize,
    ) -> (r: Result<ArchiveListing, CassError>)
        ensures
            ({
                let document = bounded(
                    outcome->stdout@,
                    export_bytes as nat,
                    parsed_json(outcome->stdout@),
                );
                let expected = listing_outcome(document->Ok_0, workspace@, limit as nat);
                match r {
                    Ok(listing) => {
                        &&& child_failure(outcome) is None
                        &&& is_listing_request(workspace@, limit as nat)
                        &&& document is Ok
                        &&& expected is Ok
                        &&& lists(
                            listing,
                            expected->Ok_0,
                            document->Ok_0.items_at("sessions"@)->0.len(),
                            limit as nat,
                        )
                        &&& budget.refusal() is None
                    },
                    Err(error) => if child_failure(outcome) is Some {
                        child_failure(outcome) == Some(error)
                    } else if !is_listing_request(workspace@, limit as nat) {
                        error == CassError::InvalidRequest
                    } else {
                        match document {
                            Err(cause) => error == cause,
                            Ok(_) => match expected {
                                Err(cause) => error == cause,
                                Ok(_) => budget.refusal() == Some(error),
                            },
                        }
                    },
                }
            }),
    {
        let bytes: Vec<u8> = match child_output(outcome) {
            Ok(bytes) => bytes,
            Err(error) => {
                return Err(error);
            },
        };
        let listing: ArchiveListing = match decode_listing(
            bytes.as_slice(),
            workspace,
            limit,
            export_bytes,
        ) {
            Ok(listing) => listing,
            Err(error) => {
                return Err(error);
            },
        };
        match check_budget(budget) {
            Ok(_) => Ok(listing),
            Err(error) => Err(error),
        }
    }
}

pub open spec fn is_qualified_version(producer: CassProducer) -> bool {
    producer.version@ == QUALIFIED_VERSION@ && producer.api_version == 1
        && producer.contract_version == 1
}

pub open spec fn is_export_ready(producer: CassProducer, source: Seq<char>) -> bool {
    is_qualified_version(producer) && source == "local"@
}

/// The same program, whatever its source.
pub open spec fn is_same_producer(a: CassProducer, b: CassProducer) -> bool {
    &&& a.version@ == b.version@
    &&& a.api_version == b.api_version
    &&& a.contract_version == b.contract_version
    &&& optional_text(a.build_commit) == optional_text(b.build_commit)
    &&& optional_text(a.binary_digest) == optional_text(b.binary_digest)
    &&& a.remote_source == b.remote_source
    &&& a.export_omits_skills_by_default == b.export_omits_skills_by_default
    &&& a.export_retains_native_shapes == b.export_retains_native_shapes
}

} // verus!
