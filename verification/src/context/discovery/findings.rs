//! Whose a transcript is, and what a discovery finds.
use crate::context::discovery::{
    after_event, attributed, clamp, discovered, dot_dashed, is_transcript_name, probed,
    slash_dashed, symbol_dashed, whole_millis, Attribution, CandidateView, DiscoveryEvent,
    FileObservation, PassView, ProbeView,
};
use crate::identity::is_identifier;
use crate::json::JsonView;
use vstd::prelude::*;

verus! {

/// Is this a record: an object that could be decoded?
pub open spec fn is_record(record: Option<JsonView>) -> bool {
    record is Some && record->0 is Object
}

/// The text of a record under a key.
pub open spec fn says(record: Option<JsonView>, key: Seq<char>, text: Seq<char>) -> bool {
    record is Some && record->0.get(key) == Some(JsonView::Text(text))
}

pub open spec fn is_silent(record: Option<JsonView>, key: Seq<char>) -> bool {
    record is Some && record->0.get(key) is None
}

/// Every record names this session or none.
pub open spec fn names_only(records: Seq<Option<JsonView>>, stem: Seq<char>) -> bool {
    forall|i: int|
        0 <= i < records.len() ==> is_record(#[trigger] records[i]) && (is_silent(
            records[i],
            "sessionId"@,
        ) || says(records[i], "sessionId"@, stem))
}

proof fn attribution_over(
    records: Seq<Option<JsonView>>,
    stem: Seq<char>,
    workspace: Seq<char>,
    in_workspace: bool,
    claimed: bool,
    at: int,
)
    requires
        names_only(records, stem),
        in_workspace || (0 <= at < records.len() && says(records[at], "cwd"@, workspace)),
        !in_workspace ==> forall|i: int|
            0 <= i < at ==> is_silent(#[trigger] records[i], "cwd"@),
        claimed || exists|i: int|
            0 <= i < records.len() && says(#[trigger] records[i], "sessionId"@, stem),
        is_identifier(stem),
    ensures
        attributed(records, stem, workspace, in_workspace, claimed) == Attribution::Own,
    decreases records.len(),
{
    if records.len() > 0 {
        let rest = records.skip(1);
        let record = records[0];
        assert(is_record(record));
        assert forall|i: int| 0 <= i < rest.len() implies is_record(#[trigger] rest[i]) && (
        is_silent(rest[i], "sessionId"@) || says(rest[i], "sessionId"@, stem)) by {
            assert(rest[i] == records[i + 1]);
        }
        let here = in_workspace || record->0.get("cwd"@) is Some;
        let named = claimed || record->0.get("sessionId"@) is Some;
        if !in_workspace {
            if at > 0 {
                assert(is_silent(records[0], "cwd"@));
                assert(rest[at - 1] == records[at]);
                assert forall|i: int| 0 <= i < at - 1 implies is_silent(
                    #[trigger] rest[i],
                    "cwd"@,
                ) by {
                    assert(rest[i] == records[i + 1]);
                }
            } else {
                assert(says(record, "cwd"@, workspace));
            }
        }
        if !named {
            let i = choose|i: int|
                0 <= i < records.len() && says(#[trigger] records[i], "sessionId"@, stem);
            assert(i > 0);
            assert(rest[i - 1] == records[i]);
        }
        attribution_over(rest, stem, workspace, here, named, at - 1);
    }
}

/// A transcript is this workspace's own where the first working directory that
/// it tells is the workspace, some record names the session of its file, and no
/// record names another.
pub proof fn own_transcripts_are_recognized(
    records: Seq<Option<JsonView>>,
    stem: Seq<char>,
    workspace: Seq<char>,
    at: int,
)
    requires
        names_only(records, stem),
        0 <= at < records.len(),
        says(records[at], "cwd"@, workspace),
        forall|i: int| 0 <= i < at ==> is_silent(#[trigger] records[i], "cwd"@),
        exists|i: int| 0 <= i < records.len() && says(#[trigger] records[i], "sessionId"@, stem),
        is_identifier(stem),
    ensures
        attributed(records, stem, workspace, false, false) == Attribution::Own,
{
    attribution_over(records, stem, workspace, false, false, at);
}

proof fn own_means_told(
    records: Seq<Option<JsonView>>,
    stem: Seq<char>,
    workspace: Seq<char>,
    in_workspace: bool,
    claimed: bool,
)
    requires
        attributed(records, stem, workspace, in_workspace, claimed) == Attribution::Own,
    ensures
        names_only(records, stem),
        is_identifier(stem),
        in_workspace || exists|i: int|
            0 <= i < records.len() && says(#[trigger] records[i], "cwd"@, workspace),
        claimed || exists|i: int|
            0 <= i < records.len() && says(#[trigger] records[i], "sessionId"@, stem),
    decreases records.len(),
{
    if records.len() > 0 {
        let rest = records.skip(1);
        let record = records[0];
        let here = in_workspace || record->0.get("cwd"@) is Some;
        let named = claimed || record->0.get("sessionId"@) is Some;
        own_means_told(rest, stem, workspace, here, named);
        assert forall|i: int| 0 <= i < records.len() implies is_record(#[trigger] records[i]) && (
        is_silent(records[i], "sessionId"@) || says(records[i], "sessionId"@, stem)) by {
            if i > 0 {
                assert(rest[i - 1] == records[i]);
                assert(is_record(rest[i - 1]));
            }
        }
        if !in_workspace {
            if record->0.get("cwd"@) is Some {
                assert(says(records[0], "cwd"@, workspace));
            } else {
                let i = choose|i: int|
                    0 <= i < rest.len() && says(#[trigger] rest[i], "cwd"@, workspace);
                assert(records[i + 1] == rest[i]);
            }
        }
        if !claimed {
            if record->0.get("sessionId"@) is Some {
                assert(says(records[0], "sessionId"@, stem));
            } else {
                let i = choose|i: int|
                    0 <= i < rest.len() && says(#[trigger] rest[i], "sessionId"@, stem);
                assert(records[i + 1] == rest[i]);
            }
        }
    }
}

/// No transcript is taken for this workspace's own unless it says so: it tells
/// the workspace as a working directory and the session of its file, every
/// record can be read, and none names another session.
pub proof fn transcripts_are_not_presumed(
    records: Seq<Option<JsonView>>,
    stem: Seq<char>,
    workspace: Seq<char>,
)
    requires
        attributed(records, stem, workspace, false, false) == Attribution::Own,
    ensures
        names_only(records, stem),
        is_identifier(stem),
        exists|i: int| 0 <= i < records.len() && says(#[trigger] records[i], "cwd"@, workspace),
        exists|i: int| 0 <= i < records.len() && says(#[trigger] records[i], "sessionId"@, stem),
{
    own_means_told(records, stem, workspace, false, false);
}

/// A transcript whose first record tells another working directory is another
/// workspace's.
pub proof fn other_workspaces_are_recognized(
    records: Seq<Option<JsonView>>,
    stem: Seq<char>,
    workspace: Seq<char>,
    other: Seq<char>,
)
    requires
        records.len() > 0,
        is_record(records[0]),
        says(records[0], "cwd"@, other),
        other != workspace,
    ensures
        attributed(records, stem, workspace, false, false) == Attribution::Other,
{
}

/// One more session that a discovery finds is listed last, under its directory
/// and with its own time, unless its file was found before; what is no
/// transcript changes nothing.
pub proof fn found_sessions_are_listed(
    events: Seq<DiscoveryEvent>,
    workspace: Seq<char>,
    directory: String,
    name: Vec<u8>,
    other_kind: bool,
    file: FileObservation,
)
    requires
        !discovered(events, workspace).stopped,
        discovered(events, workspace).examined < 1000,
    ensures
        ({
            let before = discovered(events, workspace);
            let event = DiscoveryEvent::Entry { directory, name, other_kind, file };
            let after = discovered(events.push(event), workspace);
            let seen = probed(name@, file, workspace);
            let looked = is_transcript_name(name@) && !other_kind;
            &&& !looked ==> after == before
            &&& looked ==> after.examined == before.examined + 1
            &&& looked && seen is Unresolved ==> !after.complete && after.candidates
                == before.candidates
            &&& looked && !(seen is Unresolved) ==> after.complete == before.complete
            &&& looked && seen is OtherWorkspace ==> after.candidates == before.candidates
            &&& looked ==> (seen matches ProbeView::Session { stem, modified_unix_ms, identity }
                ==> {
                let known = exists|i: int|
                    0 <= i < before.files.len() && #[trigger] before.files[i] == identity;
                &&& known ==> after.candidates == before.candidates
                &&& !known ==> after.candidates == before.candidates.push(
                    CandidateView {
                        directory: directory@,
                        session: stem,
                        last_activity_unix_ms: modified_unix_ms,
                    },
                ) && after.files == before.files.push(identity)
            })
        }),
        discovered(Seq::empty(), workspace).candidates.len() == 0,
        discovered(Seq::empty(), workspace).complete,
{
    let event = DiscoveryEvent::Entry { directory, name, other_kind, file };
    assert(events.push(event).drop_last() =~= events);
    let before = discovered(events, workspace);
    match probed(name@, file, workspace) {
        ProbeView::Session { identity, .. } => {
            if before.files.contains(identity) {
                let i = before.files.index_of(identity);
                assert(before.files[i] == identity);
            }
        },
        _ => {},
    }
}

/// A missing directory is no gap; one that cannot be read is.
pub proof fn unread_places_are_gaps(state: PassView, workspace: Seq<char>)
    requires
        !state.stopped,
    ensures
        after_event(state, DiscoveryEvent::MissingDirectory, workspace) == state,
        !after_event(state, DiscoveryEvent::UnreadableDirectory, workspace).complete,
        !after_event(state, DiscoveryEvent::UnreadableEntry, workspace).complete,
        after_event(state, DiscoveryEvent::UnreadableEntry, workspace).candidates
            == state.candidates,
{
}

/// A time within its range is the seconds in milliseconds and the whole
/// milliseconds of the rest, whichever side of zero it lies on.
pub proof fn times_are_in_milliseconds(seconds: int, nanoseconds: int)
    requires
        -9_000_000_000_000_000 <= seconds <= 9_000_000_000_000_000,
        -1_000_000_000 < nanoseconds < 1_000_000_000,
    ensures
        ({
            let ms = clamp(clamp(seconds * 1_000) + whole_millis(nanoseconds));
            &&& nanoseconds >= 0 ==> ms * 1_000_000 <= seconds * 1_000_000_000 + nanoseconds < (ms
                + 1) * 1_000_000
            &&& nanoseconds < 0 ==> (ms - 1) * 1_000_000 < seconds * 1_000_000_000 + nanoseconds
                <= ms * 1_000_000
        }),
{
}

/// A directory name has as many characters as the workspace, and keeps every
/// letter and digit; only separators and symbols become dashes.
pub proof fn directory_names_keep_letters(c: char)
    ensures
        'a' <= c <= 'z' || 'A' <= c <= 'Z' || '0' <= c <= '9' ==> slash_dashed(c) == c
            && dot_dashed(c) == c && symbol_dashed(c) == c,
        slash_dashed('/') == '-' && dot_dashed('/') == '-' && symbol_dashed('/') == '-',
        slash_dashed('.') == '.' && dot_dashed('.') == '-' && symbol_dashed('.') == '-',
        c != '/' ==> slash_dashed(c) == c,
        c != '/' && c != '.' ==> dot_dashed(c) == c,
        !('a' <= c <= 'z' || 'A' <= c <= 'Z' || '0' <= c <= '9') ==> symbol_dashed(c) == '-',
{
}

} // verus!
