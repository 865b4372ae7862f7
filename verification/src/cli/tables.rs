//! What the reports of a command line list.
use crate::cli::report::{
    check_next, check_state, checks_text, last_row, listed, quoted_text, reported_rows,
    reported_view, table_text, truth, EffectiveSettings, ReportedView, SettingRow, SettingSource,
};
use crate::json::{JsonNumber, JsonView};
use crate::output::{kind_of_code, ErrorKind};
use crate::text::{decimal, texts};
use vstd::prelude::*;

verus! {

/// One more setting is one more row, the last, with its own path, value and
/// sources, where it has a value to report; and none where it has not.
pub proof fn settings_are_reported_in_order(
    list: Seq<SettingSource>,
    source: SettingSource,
    s: EffectiveSettings,
)
    ensures
        reported_rows(Seq::empty(), s).len() == 0,
        ({
            let before = reported_rows(list, s);
            let after = reported_rows(list.push(source), s);
            match reported_view(source.key, s) {
                Some(value) => after.len() == before.len() + 1 && after.drop_last() == before
                    && after.last().path == source.path@ && after.last().value == value
                    && after.last().sources == texts(source.sources@),
                None => after == before,
            }
        }),
{
    assert(list.push(source).drop_last() =~= list);
    match reported_view(source.key, s) {
        Some(value) => {
            assert(reported_rows(list.push(source), s).drop_last() =~= reported_rows(list, s));
        },
        None => {},
    }
}

/// The last row under a path is the one that counts.
pub proof fn the_last_row_counts(rows: Seq<SettingRow>, row: SettingRow, path: Seq<char>)
    ensures
        last_row(Seq::empty(), path) is None,
        row.path == path ==> last_row(rows.push(row), path) == Some(row),
        row.path != path ==> last_row(rows.push(row), path) == last_row(rows, path),
{
    assert(rows.push(row).drop_last() =~= rows);
}

/// A table has one line for each row behind its heading: the path, the value and
/// the sources.
pub proof fn tables_go_row_by_row(rows: Seq<SettingRow>, row: SettingRow)
    ensures
        table_text(Seq::empty()) == "SETTING\tVALUE\tSOURCE\n"@,
        table_text(rows.push(row)) == table_text(rows) + (row.path + "\t"@ + row.value.text()
            + "\t["@ + listed(row.sources) + "]\n"@),
{
    assert(rows.push(row).drop_last() =~= rows);
}

/// Values are listed with commas between them.
pub proof fn lists_have_commas_between(list: Seq<Seq<char>>, text: Seq<char>)
    ensures
        listed(Seq::empty()).len() == 0,
        list.len() == 0 ==> listed(list.push(text)) == quoted_text(text),
        list.len() > 0 ==> listed(list.push(text)) == listed(list) + ","@ + quoted_text(text),
{
    assert(list.push(text).drop_last() =~= list);
}

/// A value reads the same as text and as JSON: a count as its digits, a flag as
/// its word. Of a secret only its presence is told.
pub proof fn values_are_told_as_they_are(n: u64, b: bool)
    ensures
        ReportedView::Count(n).text() == decimal(n as nat),
        ReportedView::Count(n).json() == JsonView::Number(JsonNumber::Unsigned(n)),
        ReportedView::Flag(b).text() == truth(b),
        ReportedView::Flag(b).json() == JsonView::Bool(b),
        ReportedView::Presence(b).json().get("present"@) == Some(JsonView::Bool(b)),
        ReportedView::Override(b).json().get("override_present"@) == Some(JsonView::Bool(b)),
        ReportedView::Amount(n).json().get("count"@) == Some(
            JsonView::Number(JsonNumber::Unsigned(n)),
        ),
        truth(true) == "true"@ && truth(false) == "false"@,
{
    let present = ReportedView::Presence(b).json()->Object_0;
    assert(present[0].0 == "present"@);
    let given = ReportedView::Override(b).json()->Object_0;
    assert(given[0].0 == "override_present"@);
    let amount = ReportedView::Amount(n).json()->Object_0;
    assert(amount[0].0 == "count"@);
}

/// A readiness table has one line for each check behind its heading: its name,
/// its state and the next step, or a dash where it tells none.
pub proof fn checks_go_row_by_row(
    checks: Seq<(Seq<char>, JsonView)>,
    name: Seq<char>,
    entry: JsonView,
    text: Seq<char>,
)
    ensures
        checks_text(Seq::empty()) == "CHECK\tSTATE\tNEXT STEP\n"@,
        checks_text(checks.push((name, entry))) == checks_text(checks) + (name + "\t"@
            + check_state(entry) + "\t"@ + check_next(entry) + "\n"@),
        entry.get("state"@) == Some(JsonView::Text(text)) ==> check_state(entry) == text,
        entry.get("state"@) is None && entry.get("mode"@) == Some(JsonView::Text(text))
            ==> check_state(entry) == text,
        entry.get("state"@) is None && entry.get("mode"@) is None ==> check_state(entry) == "-"@,
        entry.get("next_step"@) == Some(JsonView::Text(text)) ==> check_next(entry) == text,
        entry.get("next_step"@) is None ==> check_next(entry) == "-"@,
{
    assert(checks.push((name, entry)).drop_last() =~= checks);
}

/// A kind that only an exit code tells has that code alone.
pub proof fn codes_tell_their_kind(code: u8)
    ensures
        kind_of_code(code) == ErrorKind::MissingSession <==> code == 3,
        kind_of_code(code) == ErrorKind::ProviderFailure <==> code == 4,
        kind_of_code(code) == ErrorKind::EmptyRoster <==> code == 5,
        kind_of_code(code) == ErrorKind::Timeout <==> code == 6,
        kind_of_code(code) == ErrorKind::MalformedInput <==> code == 7,
        kind_of_code(code) == ErrorKind::NetworkDenied <==> code == 8,
        kind_of_code(code) == ErrorKind::StorageFailure <==> code == 9,
        kind_of_code(code) == ErrorKind::InvalidProviderResponse <==> code == 10,
        kind_of_code(code) == ErrorKind::CacheMiss <==> code == 11,
        kind_of_code(code) == ErrorKind::InvalidUsage <==> code < 3 || code > 11,
{
}

} // verus!
