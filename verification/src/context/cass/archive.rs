//! What an archive's export and listing keep of its records and rows.
use crate::context::cass::{
    exported, is_archive_path, listed, projection, same_absolute_path, text_blocks, CassError,
    ListingView, SourceMode,
};
use crate::json::JsonView;
use vstd::prelude::*;

verus! {

/// An export that includes tools keeps every record as it is, in order.
pub proof fn full_exports_keep_every_record(records: Seq<JsonView>)
    requires
        forall|i: int| 0 <= i < records.len() ==> (#[trigger] records[i]) is Object,
    ensures
        exported(records, true) == Ok::<Seq<JsonView>, CassError>(records),
    decreases records.len(),
{
    if records.len() > 0 {
        let rest = records.drop_last();
        assert forall|i: int| 0 <= i < rest.len() implies (#[trigger] rest[i]) is Object by {
            assert(rest[i] == records[i]);
        }
        assert(records[records.len() - 1] is Object);
        full_exports_keep_every_record(rest);
        assert(rest.push(records.last()) =~= records);
    } else {
        assert(records =~= Seq::empty());
    }
}

/// One more record adds its own reading last, or nothing where it is a tool's;
/// a failed export stays failed.
pub proof fn exports_go_record_by_record(
    records: Seq<JsonView>,
    record: JsonView,
    include_tools: bool,
)
    ensures
        ({
            let before = exported(records, include_tools);
            let after = exported(records.push(record), include_tools);
            &&& before is Err ==> after == before
            &&& before is Ok && !(record is Object) ==> after is Err
            &&& before is Ok && record is Object && include_tools ==> after == Ok::<
                Seq<JsonView>,
                CassError,
            >(before->Ok_0.push(record))
            &&& before is Ok && record is Object && !include_tools ==> match projection(record) {
                Ok(Some(text)) => after == Ok::<Seq<JsonView>, CassError>(
                    before->Ok_0.push(text),
                ),
                Ok(None) => after == before,
                Err(error) => after == Err::<Seq<JsonView>, CassError>(error),
            }
        }),
        exported(Seq::empty(), include_tools) == Ok::<Seq<JsonView>, CassError>(Seq::empty()),
{
    assert(records.push(record).drop_last() =~= records);
}

/// Is the text under this key this one?
pub open spec fn holds_text(value: JsonView, key: Seq<char>, text: Seq<char>) -> bool {
    value.get(key) == Some(JsonView::Text(text))
}

/// Does a record link to others only by texts?
pub open spec fn links_by_text(record: JsonView, key: Seq<char>) -> bool {
    record.get(key) is None || record.get(key) == Some(JsonView::Null) || exists|text: Seq<char>|
        #[trigger] holds_text(record, key, text)
}

/// Without tools a tool's record is left out, and what a user, an assistant, a
/// system or a developer said in plain text is kept.
pub proof fn text_exports_keep_what_was_said(record: JsonView, text: Seq<char>)
    requires
        record.get("message"@) is None,
        record.get("payload"@) is None,
    ensures
        holds_text(record, "role"@, "tool"@) || holds_text(record, "role"@, "function"@)
            ==> projection(record) == Ok::<Option<JsonView>, CassError>(None),
        (holds_text(record, "role"@, "user"@) || holds_text(record, "role"@, "assistant"@)
            || holds_text(record, "role"@, "system"@) || holds_text(
            record,
            "role"@,
            "developer"@,
        )) && holds_text(record, "content"@, text) && links_by_text(record, "uuid"@)
            && links_by_text(record, "parentUuid"@) && links_by_text(record, "event_id"@)
            && links_by_text(record, "parent_id"@) && links_by_text(record, "timestamp"@)
            && links_by_text(record, "type"@) ==> {
            &&& projection(record) is Ok
            &&& projection(record)->Ok_0 is Some
            &&& projection(record)->Ok_0->0.get("content"@) == Some(JsonView::Text(text))
        },
{
    roles_are_told_apart();
    if projection(record) is Ok && projection(record)->Ok_0 is Some {
        let members = projection(record)->Ok_0->0->Object_0;
        if holds_text(record, "content"@, text) {
            assert(members[0] == ("content"@, JsonView::Text(text)));
        }
    }
}

proof fn roles_are_told_apart()
    ensures
        "tool"@ != "user"@,
        "tool"@ != "assistant"@,
        "tool"@ != "system"@,
        "tool"@ != "developer"@,
        "function"@ != "user"@,
        "function"@ != "assistant"@,
        "function"@ != "system"@,
        "function"@ != "developer"@,
{
    reveal_strlit("tool");
    reveal_strlit("function");
    reveal_strlit("user");
    reveal_strlit("assistant");
    reveal_strlit("system");
    reveal_strlit("developer");
    assert("tool"@[0] == 't' && "user"@[0] == 'u');
    assert("tool"@.len() == 4 && "function"@.len() == 8 && "user"@.len() == 4 && "assistant"@.len()
        == 9 && "system"@.len() == 6 && "developer"@.len() == 9);
}

/// One more block of a message adds its text, under its own kind, where it is a
/// text, and nothing where it is anything else.
pub proof fn messages_keep_their_text_blocks(
    blocks: Seq<JsonView>,
    block: JsonView,
    kind: Seq<char>,
    text: Seq<char>,
)
    requires
        text_blocks(blocks) is Some,
        holds_text(block, "type"@, kind),
    ensures
        ({
            let textual = kind == "text"@ || kind == "input_text"@ || kind == "output_text"@;
            let after = text_blocks(blocks.push(block));
            &&& !textual ==> after == text_blocks(blocks)
            &&& textual && holds_text(block, "text"@, text) ==> after is Some
                && after->0.drop_last() == text_blocks(blocks)->0 && after->0.len() > 0
                && holds_text(after->0.last(), "text"@, text)
            &&& textual && block.get("text"@) is None ==> after is None
        }),
{
    let all = blocks.push(block);
    assert(all.drop_last() =~= blocks);
    let textual = kind == "text"@ || kind == "input_text"@ || kind == "output_text"@;
    if textual && holds_text(block, "text"@, text) {
        let own = JsonView::Object(
            seq![("text"@, JsonView::Text(text)), ("type"@, JsonView::Text(kind))],
        );
        assert(text_blocks(all) == Some(text_blocks(blocks)->0.push(own)));
        assert(text_blocks(blocks)->0.push(own).drop_last() =~= text_blocks(blocks)->0);
        assert(own->Object_0[0].0 == "text"@);
    }
}

/// One more row of a listing is a session exactly where it is local, of the
/// asked workspace and at a sound path; a remote row and one of another
/// workspace are counted, each on its own.
pub proof fn listings_go_row_by_row(
    rows: Seq<JsonView>,
    row: JsonView,
    workspace: Seq<char>,
    found: Seq<char>,
    path: Seq<char>,
    agent: Seq<char>,
)
    requires
        listed(rows, workspace) is Ok,
        holds_text(row, "workspace"@, found),
        holds_text(row, "path"@, path),
        holds_text(row, "agent"@, agent),
    ensures
        ({
            let before = listed(rows, workspace)->Ok_0;
            let after = listed(rows.push(row), workspace);
            let host = row.get("origin_host"@);
            let local = holds_text(row, "source_id"@, "local"@) && (host is None || host == Some(
                JsonView::Null,
            ));
            let remote = (exists|source: Seq<char>|
                source != "local"@ && #[trigger] holds_text(row, "source_id"@, source)) || (
            holds_text(row, "source_id"@, "local"@) && host is Some && host != Some(
                JsonView::Null,
            ));
            let own = same_absolute_path(found, workspace);
            &&& remote ==> after is Ok && after->Ok_0 == (ListingView {
                remote: before.remote + 1,
                ..before
            })
            &&& local && !own ==> after is Ok && after->Ok_0 == (ListingView {
                other_workspace: before.other_workspace + 1,
                ..before
            })
            &&& local && own && is_archive_path(path) ==> {
                &&& after is Ok
                &&& after->Ok_0.sessions.len() == before.sessions.len() + 1
                &&& after->Ok_0.sessions.drop_last() == before.sessions
                &&& after->Ok_0.sessions.last().path == path
                &&& after->Ok_0.sessions.last().harness == agent
                &&& after->Ok_0.sessions.last().workspace == found
                &&& after->Ok_0.remote == before.remote
                &&& after->Ok_0.other_workspace == before.other_workspace
            }
            &&& local && own && !is_archive_path(path) ==> after is Err
            &&& row.get("source_id"@) is None ==> after is Err
        }),
        listed(Seq::empty(), workspace)->Ok_0.sessions.len() == 0,
        listed(Seq::empty(), workspace)->Ok_0.remote == 0,
        listed(Seq::empty(), workspace)->Ok_0.other_workspace == 0,
{
    assert(rows.push(row).drop_last() =~= rows);
    let after = listed(rows.push(row), workspace);
    if after is Ok {
        let before = listed(rows, workspace)->Ok_0;
        if after->Ok_0.sessions.len() == before.sessions.len() + 1 {
            assert(after->Ok_0.sessions.drop_last() =~= before.sessions);
        }
    }
}

/// An archive path is absolute, holds no null and is not too long.
pub proof fn archive_paths_are_absolute(path: Seq<char>)
    requires
        is_archive_path(path),
    ensures
        path.len() > 0,
        path[0] == '/',
        forall|i: int| 0 <= i < path.len() ==> #[trigger] path[i] != '\0',
{
    assert forall|i: int| 0 <= i < path.len() implies #[trigger] path[i] != '\0' by {
        if path[i] == '\0' {
            assert(path.contains('\0'));
        }
    }
}

/// No archive is read where it is not allowed.
pub proof fn archives_need_permission(mode: SourceMode)
    ensures
        mode.permits_archive() ==> mode.cass_allowed,
        mode.cass_allowed && !mode.offline ==> mode.permits_archive(),
        mode.cass_allowed && !mode.allow_network ==> mode.permits_archive(),
        mode.offline && mode.allow_network ==> !mode.permits_archive(),
{
}

} // verus!
