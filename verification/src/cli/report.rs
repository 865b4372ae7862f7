//! Local inspection reports.
use crate::json::{
    json_array, json_bool, json_count, json_object, json_score, json_text, json_views,
    member_views, push_member, score_view, Json, JsonView, Member,
};
use crate::names::NameSet;
use crate::pipeline::document::{count_view, distinct_codes, in_order};
use crate::score::Score;
use crate::text::{copy_text, copy_texts, decimal, decimal_text, same_text, texts};
use vstd::prelude::*;

verus! {

/// The settings that a configuration may give.
#[derive(Clone, Copy, Debug, PartialEq, Eq, Structural)]
pub enum SettingKey {
    RankingTop,
    RankingShortlist,
    RankingGate,
    RankingFits,
    RankingWFit,
    RankingWPrior,
    RankingWPhase,
    RankingTimeoutMs,
    ContextMessages,
    ContextBudgetChars,
    ContextProfile,
    ContextNoTools,
    HookMode,
    TypesafeApiKey,
    TypesafeEndpoint,
    ProviderModel,
    ContextTranscriptRoots,
    RosterRoots,
    RankingExcludeSkills,
    NetworkEnabled,
    NetworkProxy,
    PrivacyRedaction,
    PrivacyRawRetention,
}

/// A number with a fraction, and its JSON text.
#[derive(Clone, Debug)]
pub struct Rate {
    pub score: Score,
    pub text: String,
}

/// The effective settings. The credential and the endpoint are private: a
/// report tells only whether they are there.
#[derive(Clone)]
pub struct EffectiveSettings {
    pub top: u64,
    pub shortlist: u64,
    pub gate: Rate,
    pub fits: Rate,
    pub w_fit: Rate,
    pub w_prior: Rate,
    pub w_phase: Rate,
    pub timeout_ms: u64,
    pub messages: u64,
    pub budget_chars: u64,
    pub context_profile: String,
    pub no_tools: bool,
    pub hook_mode: String,
    pub credential: Option<String>,
    pub endpoint: Option<String>,
    /// The model's name with secrets taken out, where that could be done.
    pub redacted_model: Option<String>,
    pub transcript_roots: Vec<String>,
    pub roster_roots: Vec<String>,
    pub exclude_skills: Vec<String>,
    pub network_enabled: bool,
}

/// A setting's value as it is reported.
#[derive(Clone, Debug)]
pub enum Reported {
    Count(u64),
    Rate(Rate),
    Word(String),
    Flag(bool),
    /// Whether a private value is there.
    Presence(bool),
    /// Whether a default is overridden.
    Override(bool),
    /// How many entries a private list has.
    Amount(u64),
}

pub enum ReportedView {
    Count(u64),
    Rate(Score, Seq<char>),
    Word(Seq<char>),
    Flag(bool),
    Presence(bool),
    Override(bool),
    Amount(u64),
}

impl View for Reported {
    type V = ReportedView;

    open spec fn view(&self) -> ReportedView {
        match *self {
            Reported::Count(n) => ReportedView::Count(n),
            Reported::Rate(rate) => ReportedView::Rate(rate.score, rate.text@),
            Reported::Word(text) => ReportedView::Word(text@),
            Reported::Flag(b) => ReportedView::Flag(b),
            Reported::Presence(b) => ReportedView::Presence(b),
            Reported::Override(b) => ReportedView::Override(b),
            Reported::Amount(n) => ReportedView::Amount(n),
        }
    }
}

/// A hexadecimal digit in lower case.
pub open spec fn hex_digit(d: nat) -> char {
    if d < 10 {
        ('0' as nat + d) as char
    } else {
        ('a' as nat + d - 10) as char
    }
}

/// A character as it stands within a JSON string.
pub open spec fn escaped(c: char) -> Seq<char> {
    if c == '"' {
        seq!['\\', '"']
    } else if c == '\\' {
        seq!['\\', '\\']
    } else if c == '\u{8}' {
        seq!['\\', 'b']
    } else if c == '\t' {
        seq!['\\', 't']
    } else if c == '\n' {
        seq!['\\', 'n']
    } else if c == '\u{c}' {
        seq!['\\', 'f']
    } else if c == '\r' {
        seq!['\\', 'r']
    } else if c <= '\u{1f}' {
        seq!['\\', 'u', '0', '0', hex_digit(c as nat / 16), hex_digit(c as nat % 16)]
    } else {
        seq![c]
    }
}

pub open spec fn escaped_text(text: Seq<char>) -> Seq<char>
    decreases text.len(),
{
    if text.len() == 0 {
        Seq::empty()
    } else {
        escaped_text(text.drop_last()) + escaped(text.last())
    }
}

/// A text as a JSON string.
pub open spec fn quoted_text(text: Seq<char>) -> Seq<char> {
    seq!['"'] + escaped_text(text) + seq!['"']
}

/// The `Display` of a `serde_json::Value` that is a string: the text between
/// quotation marks, with quotation marks, backslashes and the characters below
/// the space escaped.
#[verifier::external_body]
fn quoted(text: &str) -> (s: String)
    ensures
        s@ == quoted_text(text@),
{
    serde_json::Value::from(text).to_string()
}

pub open spec fn truth(b: bool) -> Seq<char> {
    if b {
        "true"@
    } else {
        "false"@
    }
}

impl ReportedView {
    pub open spec fn json(self) -> JsonView {
        match self {
            ReportedView::Count(n) => count_view(n as nat),
            ReportedView::Rate(score, _) => score_view(Some(score)),
            ReportedView::Word(text) => JsonView::Text(text),
            ReportedView::Flag(b) => JsonView::Bool(b),
            ReportedView::Presence(b) => JsonView::Object(seq![("present"@, JsonView::Bool(b))]),
            ReportedView::Override(b) => JsonView::Object(
                seq![("override_present"@, JsonView::Bool(b))],
            ),
            ReportedView::Amount(n) => JsonView::Object(seq![("count"@, count_view(n as nat))]),
        }
    }

    /// The value as JSON text.
    pub open spec fn text(self) -> Seq<char> {
        match self {
            ReportedView::Count(n) => decimal(n as nat),
            ReportedView::Rate(_, text) => text,
            ReportedView::Word(text) => quoted_text(text),
            ReportedView::Flag(b) => truth(b),
            ReportedView::Presence(b) => "{\"present\":"@ + truth(b) + "}"@,
            ReportedView::Override(b) => "{\"override_present\":"@ + truth(b) + "}"@,
            ReportedView::Amount(n) => "{\"count\":"@ + decimal(n as nat) + "}"@,
        }
    }
}

fn one_member(key: &str, value: Json) -> (json: Json)
    ensures
        json@ == JsonView::Object(seq![(key@, value@)]),
{
    let mut members: Vec<Member> = Vec::new();
    push_member(&mut members, key, value);
    assert(member_views(members@) =~= seq![(key@, value@)]);
    json_object(members)
}

fn truth_text(b: bool) -> (s: &'static str)
    ensures
        s@ == truth(b),
{
    if b {
        "true"
    } else {
        "false"
    }
}

fn braced(start: &str, text: &str) -> (s: String)
    ensures
        s@ == start@ + text@ + "}"@,
{
    copy_text(start).concat(text).concat("}")
}

impl Reported {
    pub fn to_json(&self) -> (json: Json)
        ensures
            json@ == self@.json(),
    {
        match self {
            Reported::Count(n) => json_count(*n),
            Reported::Rate(rate) => json_score(Some(rate.score)),
            Reported::Word(text) => json_text(text.as_str()),
            Reported::Flag(b) => json_bool(*b),
            Reported::Presence(b) => one_member("present", json_bool(*b)),
            Reported::Override(b) => one_member("override_present", json_bool(*b)),
            Reported::Amount(n) => one_member("count", json_count(*n)),
        }
    }

    pub fn to_text(&self) -> (s: String)
        ensures
            s@ == self@.text(),
    {
        match self {
            Reported::Count(n) => decimal_text(*n),
            Reported::Rate(rate) => copy_text(rate.text.as_str()),
            Reported::Word(text) => quoted(text.as_str()),
            Reported::Flag(b) => copy_text(truth_text(*b)),
            Reported::Presence(b) => braced("{\"present\":", truth_text(*b)),
            Reported::Override(b) => braced("{\"override_present\":", truth_text(*b)),
            Reported::Amount(n) => braced("{\"count\":", decimal_text(*n).as_str()),
        }
    }
}

/// What a report says of a setting: private values are reduced to their
/// presence or their count, and fixed policies are left out.
pub open spec fn reported_view(key: SettingKey, s: EffectiveSettings) -> Option<ReportedView> {
    match key {
        SettingKey::RankingTop => Some(ReportedView::Count(s.top)),
        SettingKey::RankingShortlist => Some(ReportedView::Count(s.shortlist)),
        SettingKey::RankingGate => Some(ReportedView::Rate(s.gate.score, s.gate.text@)),
        SettingKey::RankingFits => Some(ReportedView::Rate(s.fits.score, s.fits.text@)),
        SettingKey::RankingWFit => Some(ReportedView::Rate(s.w_fit.score, s.w_fit.text@)),
        SettingKey::RankingWPrior => Some(ReportedView::Rate(s.w_prior.score, s.w_prior.text@)),
        SettingKey::RankingWPhase => Some(ReportedView::Rate(s.w_phase.score, s.w_phase.text@)),
        SettingKey::RankingTimeoutMs => Some(ReportedView::Count(s.timeout_ms)),
        SettingKey::ContextMessages => Some(ReportedView::Count(s.messages)),
        SettingKey::ContextBudgetChars => Some(ReportedView::Count(s.budget_chars)),
        SettingKey::ContextProfile => Some(ReportedView::Word(s.context_profile@)),
        SettingKey::ContextNoTools => Some(ReportedView::Flag(s.no_tools)),
        SettingKey::HookMode => Some(ReportedView::Word(s.hook_mode@)),
        SettingKey::TypesafeApiKey => Some(ReportedView::Presence(s.credential is Some)),
        SettingKey::TypesafeEndpoint => Some(ReportedView::Override(s.endpoint is Some)),
        SettingKey::ProviderModel => Some(
            ReportedView::Word(
                match s.redacted_model {
                    Some(model) => model@,
                    None => "[private]"@,
                },
            ),
        ),
        SettingKey::ContextTranscriptRoots => Some(
            ReportedView::Amount(s.transcript_roots@.len() as u64),
        ),
        SettingKey::RosterRoots => Some(ReportedView::Amount(s.roster_roots@.len() as u64)),
        SettingKey::RankingExcludeSkills => Some(
            ReportedView::Amount(s.exclude_skills@.len() as u64),
        ),
        SettingKey::NetworkEnabled => Some(ReportedView::Flag(s.network_enabled)),
        SettingKey::NetworkProxy | SettingKey::PrivacyRedaction | SettingKey::PrivacyRawRetention =>
            None,
    }
}

fn copy_rate(rate: &Rate) -> (r: Reported)
    ensures
        r@ == ReportedView::Rate(rate.score, rate.text@),
{
    Reported::Rate(Rate { score: rate.score, text: copy_text(rate.text.as_str()) })
}

fn copy_word(text: &String) -> (r: Reported)
    ensures
        r@ == ReportedView::Word(text@),
{
    Reported::Word(copy_text(text.as_str()))
}

/// What a report says of a setting.
pub fn reported_value(key: SettingKey, s: &EffectiveSettings) -> (r: Option<Reported>)
    ensures
        match r {
            Some(value) => reported_view(key, *s) == Some(value@),
            None => reported_view(key, *s) is None,
        },
{
    match key {
        SettingKey::RankingTop => Some(Reported::Count(s.top)),
        SettingKey::RankingShortlist => Some(Reported::Count(s.shortlist)),
        SettingKey::RankingGate => Some(copy_rate(&s.gate)),
        SettingKey::RankingFits => Some(copy_rate(&s.fits)),
        SettingKey::RankingWFit => Some(copy_rate(&s.w_fit)),
        SettingKey::RankingWPrior => Some(copy_rate(&s.w_prior)),
        SettingKey::RankingWPhase => Some(copy_rate(&s.w_phase)),
        SettingKey::RankingTimeoutMs => Some(Reported::Count(s.timeout_ms)),
        SettingKey::ContextMessages => Some(Reported::Count(s.messages)),
        SettingKey::ContextBudgetChars => Some(Reported::Count(s.budget_chars)),
        SettingKey::ContextProfile => Some(copy_word(&s.context_profile)),
        SettingKey::ContextNoTools => Some(Reported::Flag(s.no_tools)),
        SettingKey::HookMode => Some(copy_word(&s.hook_mode)),
        SettingKey::TypesafeApiKey => Some(Reported::Presence(s.credential.is_some())),
        SettingKey::TypesafeEndpoint => Some(Reported::Override(s.endpoint.is_some())),
        SettingKey::ProviderModel => match &s.redacted_model {
            Some(model) => Some(copy_word(model)),
            None => Some(Reported::Word(copy_text("[private]"))),
        },
        SettingKey::ContextTranscriptRoots => Some(
            Reported::Amount(s.transcript_roots.len() as u64),
        ),
        SettingKey::RosterRoots => Some(Reported::Amount(s.roster_roots.len() as u64)),
        SettingKey::RankingExcludeSkills => Some(Reported::Amount(s.exclude_skills.len() as u64)),
        SettingKey::NetworkEnabled => Some(Reported::Flag(s.network_enabled)),
        SettingKey::NetworkProxy | SettingKey::PrivacyRedaction | SettingKey::PrivacyRawRetention =>
            None,
    }
}

/// A setting with its path and the layers that its value comes from.
#[derive(Clone, Debug)]
pub struct SettingSource {
    pub key: SettingKey,
    pub path: String,
    pub sources: Vec<String>,
}

pub struct SettingRow {
    pub path: Seq<char>,
    pub value: ReportedView,
    pub sources: Seq<Seq<char>>,
}

/// The reported settings, in the order of the list.
pub open spec fn reported_rows(list: Seq<SettingSource>, s: EffectiveSettings) -> Seq<SettingRow>
    decreases list.len(),
{
    if list.len() == 0 {
        Seq::empty()
    } else {
        let before = reported_rows(list.drop_last(), s);
        match reported_view(list.last().key, s) {
            Some(value) => before.push(
                SettingRow {
                    path: list.last().path@,
                    value,
                    sources: texts(list.last().sources@),
                },
            ),
            None => before,
        }
    }
}

pub open spec fn row_paths(rows: Seq<SettingRow>) -> Seq<Seq<char>> {
    rows.map_values(|row: SettingRow| row.path)
}

/// The last row with a path.
pub open spec fn last_row(rows: Seq<SettingRow>, path: Seq<char>) -> Option<SettingRow>
    decreases rows.len(),
{
    if rows.len() == 0 {
        None
    } else if rows.last().path == path {
        Some(rows.last())
    } else {
        last_row(rows.drop_last(), path)
    }
}

/// The rows by path, one for each.
pub open spec fn rows_in_order(rows: Seq<SettingRow>) -> Seq<SettingRow> {
    in_order(row_paths(rows)).map_values(|path: Seq<char>| last_row(rows, path)->0)
}

pub open spec fn text_array(list: Seq<Seq<char>>) -> JsonView {
    JsonView::Array(list.map_values(|t: Seq<char>| JsonView::Text(t)))
}

pub open spec fn row_json(row: SettingRow) -> JsonView {
    JsonView::Object(seq![("sources"@, text_array(row.sources)), ("value"@, row.value.json())])
}

/// The report of a configuration.
pub open spec fn report_json(
    fingerprint: Seq<char>,
    list: Seq<SettingSource>,
    s: EffectiveSettings,
) -> JsonView {
    JsonView::Object(
        seq![
            ("command"@, JsonView::Text("doctor-config"@)),
            ("policy_fingerprint"@, JsonView::Text(fingerprint)),
            ("schema_version"@, count_view(1)),
            ("scope"@, JsonView::Text("local-configuration-only"@)),
            (
                "settings"@,
                JsonView::Object(
                    rows_in_order(reported_rows(list, s)).map_values(
                        |row: SettingRow| (row.path, row_json(row)),
                    ),
                ),
            ),
        ],
    )
}

/// The texts as JSON strings with commas between them.
pub open spec fn listed(list: Seq<Seq<char>>) -> Seq<char>
    decreases list.len(),
{
    if list.len() == 0 {
        Seq::empty()
    } else if list.len() == 1 {
        quoted_text(list[0])
    } else {
        listed(list.drop_last()) + ","@ + quoted_text(list.last())
    }
}

pub open spec fn row_text(row: SettingRow) -> Seq<char> {
    row.path + "\t"@ + row.value.text() + "\t["@ + listed(row.sources) + "]\n"@
}

pub open spec fn table_text(rows: Seq<SettingRow>) -> Seq<char>
    decreases rows.len(),
{
    if rows.len() == 0 {
        "SETTING\tVALUE\tSOURCE\n"@
    } else {
        table_text(rows.drop_last()) + row_text(rows.last())
    }
}

struct Row {
    path: String,
    value: Reported,
    sources: Vec<String>,
}

impl Row {
    spec fn model(self) -> SettingRow {
        SettingRow { path: self.path@, value: self.value@, sources: texts(self.sources@) }
    }
}

spec fn row_models(rows: Seq<Row>) -> Seq<SettingRow> {
    rows.map_values(|row: Row| row.model())
}

fn collect_rows(list: &Vec<SettingSource>, s: &EffectiveSettings) -> (rows: Vec<Row>)
    ensures
        row_models(rows@) == reported_rows(list@, *s),
{
    let mut rows: Vec<Row> = Vec::new();
    let mut i: usize = 0;
    assert(row_models(rows@) =~= reported_rows(list@.take(0), *s));
    while i < list.len()
        invariant
            i <= list@.len(),
            row_models(rows@) == reported_rows(list@.take(i as int), *s),
        decreases list@.len() - i,
    {
        assert(list@.take(i + 1).drop_last() =~= list@.take(i as int));
        assert(list@.take(i + 1).last() == list@[i as int]);
        let ghost before = row_models(rows@);
        match reported_value(list[i].key, s) {
            Some(value) => {
                let row = Row {
                    path: copy_text(list[i].path.as_str()),
                    value,
                    sources: copy_texts(&list[i].sources),
                };
                rows.push(row);
                assert(row_models(rows@) =~= before.push(row.model()));
            },
            None => {},
        }
        i += 1;
    }
    assert(list@.take(i as int) =~= list@);
    rows
}

fn find_row<'a>(rows: &'a Vec<Row>, path: &str) -> (r: Option<&'a Row>)
    ensures
        match r {
            Some(row) => last_row(row_models(rows@), path@) == Some(row.model()),
            None => !row_paths(row_models(rows@)).contains(path@),
        },
{
    let ghost all = row_models(rows@);
    let ghost paths = row_paths(all);
    let mut i: usize = rows.len();
    assert(all.take(i as int) =~= all);
    while i > 0
        invariant
            i <= rows@.len(),
            all == row_models(rows@),
            paths == row_paths(all),
            last_row(all, path@) == last_row(all.take(i as int), path@),
            forall|j: int| i <= j < rows@.len() ==> (#[trigger] paths[j]) != path@,
        decreases i,
    {
        assert(all.take(i as int).last() == rows@[i - 1].model());
        assert(all.take(i as int).drop_last() =~= all.take(i - 1));
        assert(paths[i - 1] == rows@[i - 1].path@);
        if same_text(rows[i - 1].path.as_str(), path) {
            return Some(&rows[i - 1]);
        }
        i -= 1;
    }
    None
}

fn paths_of(rows: &Vec<Row>) -> (paths: Vec<String>)
    ensures
        texts(paths@) == row_paths(row_models(rows@)),
{
    let mut paths: Vec<String> = Vec::new();
    let mut i: usize = 0;
    while i < rows.len()
        invariant
            i <= rows@.len(),
            paths@.len() == i,
            forall|j: int| 0 <= j < i ==> (#[trigger] paths@[j])@ == rows@[j].path@,
        decreases rows@.len() - i,
    {
        paths.push(copy_text(rows[i].path.as_str()));
        i += 1;
    }
    assert(texts(paths@) =~= row_paths(row_models(rows@)));
    paths
}

/// The reported rows by path.
fn ordered_rows(list: &Vec<SettingSource>, s: &EffectiveSettings) -> (ordered: Vec<Row>)
    ensures
        row_models(ordered@) == rows_in_order(reported_rows(list@, *s)),
{
    let rows: Vec<Row> = collect_rows(list, s);
    let ghost all = row_models(rows@);
    let ghost expected = rows_in_order(all);
    let paths: Vec<String> = paths_of(&rows);
    let order: NameSet = distinct_codes(&paths);
    let mut ordered: Vec<Row> = Vec::new();
    let mut i: usize = 0;
    assert(row_models(ordered@) =~= expected.take(0));
    while i < order.len()
        invariant
            i <= order@.len(),
            all == row_models(rows@),
            order@ == in_order(row_paths(all)),
            order@.to_set() == row_paths(all).to_set(),
            expected == rows_in_order(all),
            row_models(ordered@) == expected.take(i as int),
        decreases order@.len() - i,
    {
        let path: &str = order.at(i);
        assert(row_paths(all).contains(path@)) by {
            assert(order@.contains(order@[i as int]));
            assert(order@.to_set().contains(path@));
        }
        let ghost before = row_models(ordered@);
        match find_row(&rows, path) {
            Some(row) => {
                let copy = Row {
                    path: copy_text(row.path.as_str()),
                    value: row.value.copied(),
                    sources: copy_texts(&row.sources),
                };
                assert(copy.model() == row.model());
                ordered.push(copy);
                assert(row_models(ordered@) =~= before.push(row.model()));
            },
            None => {},
        }
        assert(expected[i as int] == last_row(all, path@)->0);
        assert(expected.take(i + 1) =~= expected.take(i as int).push(expected[i as int]));
        i += 1;
    }
    assert(expected.take(i as int) =~= expected);
    ordered
}

impl Reported {
    fn copied(&self) -> (copy: Reported)
        ensures
            copy@ == self@,
    {
        match self {
            Reported::Count(n) => Reported::Count(*n),
            Reported::Rate(rate) => copy_rate(rate),
            Reported::Word(text) => copy_word(text),
            Reported::Flag(b) => Reported::Flag(*b),
            Reported::Presence(b) => Reported::Presence(*b),
            Reported::Override(b) => Reported::Override(*b),
            Reported::Amount(n) => Reported::Amount(*n),
        }
    }
}

fn text_array_value(list: &Vec<String>) -> (json: Json)
    ensures
        json@ == text_array(texts(list@)),
{
    let mut items: Vec<Json> = Vec::new();
    let mut i: usize = 0;
    while i < list.len()
        invariant
            i <= list@.len(),
            items@.len() == i,
            forall|j: int| 0 <= j < i ==> (#[trigger] items@[j])@ == JsonView::Text(list@[j]@),
        decreases list@.len() - i,
    {
        items.push(json_text(list[i].as_str()));
        i += 1;
    }
    assert(json_views(items@) =~= texts(list@).map_values(|t: Seq<char>| JsonView::Text(t)));
    json_array(items)
}

fn row_value(row: &Row) -> (json: Json)
    ensures
        json@ == row_json(row.model()),
{
    let mut members: Vec<Member> = Vec::new();
    push_member(&mut members, "sources", text_array_value(&row.sources));
    push_member(&mut members, "value", row.value.to_json());
    assert(member_views(members@) =~= row_json(row.model())->Object_0);
    json_object(members)
}

/// Report the effective configuration with the layers that it comes from.
pub fn config_report(fingerprint: &str, list: &Vec<SettingSource>, s: &EffectiveSettings) -> (json:
    Json)
    ensures
        json@ == report_json(fingerprint@, list@, *s),
{
    let rows: Vec<Row> = ordered_rows(list, s);
    let ghost all = rows_in_order(reported_rows(list@, *s));
    let ghost expected = all.map_values(|row: SettingRow| (row.path, row_json(row)));
    let mut settings: Vec<Member> = Vec::new();
    let mut i: usize = 0;
    assert(member_views(settings@) =~= expected.take(0));
    while i < rows.len()
        invariant
            i <= rows@.len(),
            row_models(rows@) == all,
            expected == all.map_values(|row: SettingRow| (row.path, row_json(row))),
            member_views(settings@) == expected.take(i as int),
        decreases rows@.len() - i,
    {
        push_member(&mut settings, rows[i].path.as_str(), row_value(&rows[i]));
        assert(all[i as int] == rows@[i as int].model());
        assert(expected.take(i + 1) =~= expected.take(i as int).push(expected[i as int]));
        i += 1;
    }
    assert(all.len() == rows@.len());
    assert(expected.take(i as int) =~= expected);
    let mut members: Vec<Member> = Vec::new();
    push_member(&mut members, "command", json_text("doctor-config"));
    push_member(&mut members, "policy_fingerprint", json_text(fingerprint));
    push_member(&mut members, "schema_version", json_count(1));
    push_member(&mut members, "scope", json_text("local-configuration-only"));
    push_member(&mut members, "settings", json_object(settings));
    assert(member_views(members@) =~= report_json(fingerprint@, list@, *s)->Object_0);
    json_object(members)
}

fn listed_value(list: &Vec<String>) -> (s: String)
    ensures
        s@ == listed(texts(list@)),
{
    let ghost all = texts(list@);
    let mut s: String = String::new();
    let mut i: usize = 0;
    assert(s@ =~= listed(all.take(0)));
    while i < list.len()
        invariant
            i <= list@.len(),
            all == texts(list@),
            s@ == listed(all.take(i as int)),
        decreases list@.len() - i,
    {
        assert(all.take(i + 1).drop_last() =~= all.take(i as int));
        assert(all.take(i + 1).last() == list@[i as int]@);
        let item: String = quoted(list[i].as_str());
        s = if i == 0 {
            item
        } else {
            s.concat(",").concat(item.as_str())
        };
        i += 1;
    }
    assert(all.take(i as int) =~= all);
    s
}

/// The table of the effective configuration.
pub fn config_table(list: &Vec<SettingSource>, s: &EffectiveSettings) -> (table: String)
    ensures
        table@ == table_text(rows_in_order(reported_rows(list@, *s))),
{
    let rows: Vec<Row> = ordered_rows(list, s);
    let ghost all = rows_in_order(reported_rows(list@, *s));
    let mut table: String = copy_text("SETTING\tVALUE\tSOURCE\n");
    let mut i: usize = 0;
    assert(all.take(0) =~= Seq::empty());
    while i < rows.len()
        invariant
            i <= rows@.len(),
            row_models(rows@) == all,
            table@ == table_text(all.take(i as int)),
        decreases rows@.len() - i,
    {
        assert(all.take(i + 1).drop_last() =~= all.take(i as int));
        assert(all.take(i + 1).last() == rows@[i as int].model());
        let row: String = copy_text(rows[i].path.as_str()).concat("\t").concat(
            rows[i].value.to_text().as_str(),
        ).concat("\t[").concat(listed_value(&rows[i].sources).as_str()).concat("]\n");
        table = table.concat(row.as_str());
        i += 1;
    }
    assert(all.len() == rows@.len());
    assert(all.take(i as int) =~= all);
    table
}

/// The settings but for the credential's and the endpoint's text.
pub open spec fn same_but_private(a: EffectiveSettings, b: EffectiveSettings) -> bool {
    &&& a.credential is Some == b.credential is Some
    &&& a.endpoint is Some == b.endpoint is Some
    &&& b == (EffectiveSettings { credential: b.credential, endpoint: b.endpoint, ..a })
}

/// A report says nothing of the credential or the endpoint but whether they
/// are there.
pub proof fn reports_keep_credentials_private(
    list: Seq<SettingSource>,
    a: EffectiveSettings,
    b: EffectiveSettings,
)
    requires
        same_but_private(a, b),
    ensures
        reported_rows(list, a) == reported_rows(list, b),
        forall|fingerprint: Seq<char>|
            #[trigger] report_json(fingerprint, list, a) == report_json(fingerprint, list, b),
    decreases list.len(),
{
    if list.len() > 0 {
        reports_keep_credentials_private(list.drop_last(), a, b);
    }
}

/// A row of the readiness table.
#[derive(Debug)]
pub struct CheckRow {
    pub state: String,
    pub next_step: String,
}

pub open spec fn text_or_dash(first: Option<Seq<char>>, second: Option<Seq<char>>) -> Seq<char> {
    match first {
        Some(text) => text,
        None => match second {
            Some(text) => text,
            None => "-"@,
        },
    }
}

/// The state of a check, or its mode.
pub open spec fn check_state(entry: JsonView) -> Seq<char> {
    text_or_dash(entry.text_at("state"@), entry.text_at("mode"@))
}

pub open spec fn check_next(entry: JsonView) -> Seq<char> {
    text_or_dash(entry.text_at("next_step"@), None)
}

/// The state of a check, or its mode, and the next step; a dash where there is
/// none.
pub fn check_row(entry: &Json) -> (row: CheckRow)
    ensures
        row.state@ == check_state(entry@),
        row.next_step@ == check_next(entry@),
{
    let state: String = match entry.text_at("state") {
        Some(text) => copy_text(text),
        None => match entry.text_at("mode") {
            Some(text) => copy_text(text),
            None => copy_text("-"),
        },
    };
    let next_step: String = match entry.text_at("next_step") {
        Some(text) => copy_text(text),
        None => copy_text("-"),
    };
    CheckRow { state, next_step }
}

/// The table of the checks, one row each.
pub open spec fn checks_text(checks: Seq<(Seq<char>, JsonView)>) -> Seq<char>
    decreases checks.len(),
{
    if checks.len() == 0 {
        "CHECK\tSTATE\tNEXT STEP\n"@
    } else {
        let (name, entry) = checks.last();
        checks_text(checks.drop_last()) + (name + "\t"@ + check_state(entry) + "\t"@ + check_next(
            entry,
        ) + "\n"@)
    }
}

/// The readiness table of the given checks.
pub fn readiness_table(checks: &Vec<Member>) -> (table: String)
    ensures
        table@ == checks_text(member_views(checks@)),
{
    let ghost all = member_views(checks@);
    let mut table: String = copy_text("CHECK\tSTATE\tNEXT STEP\n");
    let mut i: usize = 0;
    assert(all.take(0) =~= Seq::empty());
    while i < checks.len()
        invariant
            i <= checks@.len(),
            all == member_views(checks@),
            table@ == checks_text(all.take(i as int)),
        decreases checks@.len() - i,
    {
        assert(all.take(i + 1).drop_last() =~= all.take(i as int));
        assert(all.take(i + 1).last() == (checks@[i as int].key@, checks@[i as int].value@));
        let found: CheckRow = check_row(&checks[i].value);
        let row: String = copy_text(checks[i].key.as_str()).concat("\t").concat(
            found.state.as_str(),
        ).concat("\t").concat(found.next_step.as_str()).concat("\n");
        table = table.concat(row.as_str());
        i += 1;
    }
    assert(all.take(i as int) =~= all);
    table
}

/// How a roster stands in the readiness report.
#[derive(Clone, Copy, Debug, PartialEq, Eq, Structural)]
pub enum RosterCheck {
    Resolved,
    Timeout,
    Unusable,
}

/// The roster's standing from the exit code with which its resolution failed,
/// if it did.
pub fn roster_check(failed: Option<u8>) -> (check: RosterCheck)
    ensures
        check == (match failed {
            None => RosterCheck::Resolved,
            Some(code) => if code == 6 {
                RosterCheck::Timeout
            } else {
                RosterCheck::Unusable
            },
        }),
{
    match failed {
        None => RosterCheck::Resolved,
        Some(code) => if code == 6 {
            RosterCheck::Timeout
        } else {
            RosterCheck::Unusable
        },
    }
}

} // verus!
