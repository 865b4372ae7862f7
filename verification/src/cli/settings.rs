//! Configuration files as flat settings.
use crate::chars::contains;
use crate::score::Score;
use crate::text::{byte_len, byte_length, chars_of, copy_text, join, texts};
use vstd::prelude::*;

verus! {

/// The deepest table that is read.
pub const MAX_TABLE_DEPTH: usize = 32;

/// Bounds of a configuration layer.
#[derive(Clone, Copy, Debug, PartialEq, Eq, Structural)]
pub struct ConfigLimits {
    pub file_bytes: usize,
    pub key_bytes: usize,
    pub list_items: usize,
    pub layer_entries: usize,
}

/// A TOML value as plain data. A table keeps its members in order, one per
/// key.
#[derive(Debug)]
pub enum Toml {
    Text(String),
    Integer(i64),
    Float(Score),
    Bool(bool),
    Datetime,
    Array(Vec<Toml>),
    Table(Vec<TomlMember>),
}

#[derive(Debug)]
pub struct TomlMember {
    pub key: String,
    pub value: Toml,
}

/// A TOML value with its texts as character sequences.
pub enum TomlView {
    Text(Seq<char>),
    Integer(i64),
    Float(Score),
    Bool(bool),
    Datetime,
    Array(Seq<TomlView>),
    Table(Seq<(Seq<char>, TomlView)>),
}

impl View for Toml {
    type V = TomlView;

    open spec fn view(&self) -> TomlView {
        self.model()
    }
}

impl Toml {
    pub open spec fn model(self) -> TomlView
        decreases self,
    {
        match self {
            Toml::Text(s) => TomlView::Text(s@),
            Toml::Integer(n) => TomlView::Integer(n),
            Toml::Float(x) => TomlView::Float(x),
            Toml::Bool(b) => TomlView::Bool(b),
            Toml::Datetime => TomlView::Datetime,
            Toml::Array(items) => TomlView::Array(
                Seq::new(
                    items@.len(),
                    |i: int|
                        if 0 <= i < items@.len() {
                            items@[i].model()
                        } else {
                            TomlView::Datetime
                        },
                ),
            ),
            Toml::Table(members) => TomlView::Table(
                Seq::new(
                    members@.len(),
                    |i: int|
                        if 0 <= i < members@.len() {
                            (members@[i].key@, members@[i].value.model())
                        } else {
                            (Seq::empty(), TomlView::Datetime)
                        },
                ),
            ),
        }
    }
}

/// `toml::Value`, an opaque parsed document.
#[verifier::external_type_specification]
#[verifier::external_body]
pub struct ExTomlValue(toml::Value);

/// The table that `toml::Table::from_str` reads from a text, if it is one TOML
/// document without a repeated key.
pub uninterp spec fn parsed_toml(text: Seq<char>) -> Option<TomlView>;

/// What a parsed TOML document holds.
pub uninterp spec fn toml_document(value: toml::Value) -> TomlView;

/// `str::parse` into a `toml::Table`, given as a `toml::Value`. Its result
/// depends on the text alone, and is a table; which one the text spells is
/// left to the name `parsed_toml`.
#[verifier::external_body]
fn parse_toml(text: &str) -> (value: Option<toml::Value>)
    ensures
        match value {
            Some(v) => parsed_toml(text@) == Some(toml_document(v)) && toml_document(v) is Table,
            None => parsed_toml(text@) is None,
        },
{
    text.parse::<toml::Table>().ok().map(toml::Value::Table)
}

/// The variants of `toml::Value`, moved one for one into plain data. A date is
/// kept without its parts.
#[verifier::external_body]
fn toml_of_value(value: toml::Value) -> (plain: Toml)
    ensures
        plain@ == toml_document(value),
{
    match value {
        toml::Value::String(s) => Toml::Text(s),
        toml::Value::Integer(n) => Toml::Integer(n),
        toml::Value::Float(x) => Toml::Float(Score { bits: x.to_bits() }),
        toml::Value::Boolean(b) => Toml::Bool(b),
        toml::Value::Datetime(_) => Toml::Datetime,
        toml::Value::Array(list) => Toml::Array(list.into_iter().map(toml_of_value).collect()),
        toml::Value::Table(map) => Toml::Table(
            map.into_iter().map(|(key, v)| TomlMember { key, value: toml_of_value(v) }).collect()),
    }
}

/// A setting's value before it is typed.
#[derive(Clone, Debug)]
pub enum RawValue {
    Bool(bool),
    Integer(i64),
    Float(Score),
    Text(String),
    TextList(Vec<String>),
}

/// A raw value as characters.
pub enum RawView {
    Bool(bool),
    Integer(i64),
    Float(Score),
    Text(Seq<char>),
    List(Seq<Seq<char>>),
}

impl View for RawValue {
    type V = RawView;

    open spec fn view(&self) -> RawView {
        match self {
            RawValue::Bool(b) => RawView::Bool(*b),
            RawValue::Integer(n) => RawView::Integer(*n),
            RawValue::Float(x) => RawView::Float(*x),
            RawValue::Text(s) => RawView::Text(s@),
            RawValue::TextList(list) => RawView::List(texts(list@)),
        }
    }
}

/// A setting under its dotted path.
#[derive(Clone, Debug)]
pub struct Setting {
    pub path: String,
    pub value: RawValue,
}

pub open spec fn setting_views(list: Seq<Setting>) -> Seq<(Seq<char>, RawView)> {
    list.map_values(|s: Setting| (s.path@, s.value@))
}

/// Every item is a text.
pub open spec fn all_texts(items: Seq<TomlView>) -> bool {
    forall|i: int| 0 <= i < items.len() ==> (#[trigger] items[i]) is Text
}

/// A value that is a setting of its own.
pub open spec fn leaf(value: TomlView, limits: ConfigLimits) -> Option<RawView> {
    match value {
        TomlView::Bool(b) => Some(RawView::Bool(b)),
        TomlView::Integer(n) => Some(RawView::Integer(n)),
        TomlView::Float(x) => Some(RawView::Float(x)),
        TomlView::Text(s) => Some(RawView::Text(s)),
        TomlView::Array(items) => if items.len() <= limits.list_items && all_texts(items) {
            Some(RawView::List(Seq::new(items.len(), |i: int| items[i]->Text_0)))
        } else {
            None
        },
        _ => None,
    }
}

/// The dotted path of a member.
pub open spec fn member_path(prefix: Seq<char>, name: Seq<char>) -> Seq<char> {
    if prefix.len() == 0 {
        name
    } else {
        prefix + "."@ + name
    }
}

/// May a member have this name below this prefix?
pub open spec fn is_member_name(name: Seq<char>, prefix: Seq<char>, limits: ConfigLimits) -> bool {
    !name.contains('.') && byte_length(name) + byte_length(prefix) <= limits.key_bytes
}

/// The settings of a table behind those already read; nothing where one of
/// them cannot be a setting.
pub open spec fn flattened(
    members: Seq<(Seq<char>, TomlView)>,
    prefix: Seq<char>,
    depth: nat,
    done: Seq<(Seq<char>, RawView)>,
    limits: ConfigLimits,
) -> Option<Seq<(Seq<char>, RawView)>>
    decreases members,
{
    if depth > MAX_TABLE_DEPTH {
        None
    } else if members.len() == 0 {
        Some(done)
    } else {
        let (name, value) = members[0];
        let path = member_path(prefix, name);
        if !is_member_name(name, prefix, limits) {
            None
        } else {
            match value {
                TomlView::Table(inner) => if inner.len() == 0 {
                    None
                } else {
                    match flattened(inner, path, depth + 1, done, limits) {
                        None => None,
                        Some(more) => flattened(
                            members.drop_first(),
                            prefix,
                            depth,
                            more,
                            limits,
                        ),
                    }
                },
                _ => match leaf(value, limits) {
                    None => None,
                    Some(raw) => if done.len() == limits.layer_entries {
                        None
                    } else {
                        flattened(
                            members.drop_first(),
                            prefix,
                            depth,
                            done.push((path, raw)),
                            limits,
                        )
                    },
                },
            }
        }
    }
}

fn list_of(items: &Vec<Toml>, view: Ghost<Seq<TomlView>>) -> (r: Option<Vec<String>>)
    requires
        view@.len() == items@.len(),
        forall|i: int| 0 <= i < items@.len() ==> (#[trigger] items@[i])@ == view@[i],
    ensures
        match r {
            Some(list) => all_texts(view@) && texts(list@) == Seq::new(
                view@.len(),
                |i: int| view@[i]->Text_0,
            ),
            None => !all_texts(view@),
        },
{
    let mut list: Vec<String> = Vec::new();
    let mut i: usize = 0;
    while i < items.len()
        invariant
            i <= items@.len(),
            view@.len() == items@.len(),
            forall|k: int| 0 <= k < items@.len() ==> (#[trigger] items@[k])@ == view@[k],
            list@.len() == i,
            forall|j: int| 0 <= j < i ==> (#[trigger] view@[j]) is Text,
            forall|j: int| 0 <= j < i ==> (#[trigger] list@[j])@ == view@[j]->Text_0,
        decreases items@.len() - i,
    {
        assert(items@[i as int]@ == view@[i as int]);
        match &items[i] {
            Toml::Text(s) => {
                list.push(copy_text(s.as_str()));
            },
            _ => {
                assert(!(view@[i as int] is Text));
                return None;
            },
        }
        i += 1;
    }
    assert(texts(list@) =~= Seq::new(view@.len(), |k: int| view@[k]->Text_0));
    Some(list)
}

fn leaf_of(value: &Toml, limits: ConfigLimits) -> (r: Option<RawValue>)
    ensures
        match r {
            Some(raw) => leaf(value@, limits) == Some(raw@),
            None => leaf(value@, limits) is None,
        },
{
    match value {
        Toml::Bool(b) => Some(RawValue::Bool(*b)),
        Toml::Integer(n) => Some(RawValue::Integer(*n)),
        Toml::Float(x) => Some(RawValue::Float(*x)),
        Toml::Text(s) => Some(RawValue::Text(copy_text(s.as_str()))),
        Toml::Array(items) => {
            let ghost view = value@->Array_0;
            if items.len() > limits.list_items {
                return None;
            }
            match list_of(items, Ghost(view)) {
                Some(list) => Some(RawValue::TextList(list)),
                None => None,
            }
        },
        _ => None,
    }
}

fn has_dot(name: &str) -> (r: bool)
    ensures
        r == name@.contains('.'),
{
    let chars: Vec<char> = chars_of(name);
    let mut i: usize = 0;
    while i < chars.len()
        invariant
            i <= chars@.len(),
            chars@ == name@,
            forall|j: int| 0 <= j < i ==> (#[trigger] chars@[j]) != '.',
        decreases chars@.len() - i,
    {
        if chars[i] == '.' {
            assert(name@[i as int] == '.');
            return true;
        }
        i += 1;
    }
    false
}

fn path_of(prefix: &str, name: &str) -> (path: String)
    ensures
        path@ == member_path(prefix@, name@),
{
    if prefix.unicode_len() == 0 {
        copy_text(name)
    } else {
        join(prefix, ".").concat(name)
    }
}

/// Read the settings of a table behind those already read.
pub fn flatten_table(
    table: &Toml,
    prefix: &str,
    depth: usize,
    entries: &mut Vec<Setting>,
    limits: ConfigLimits,
) -> (ok: bool)
    requires
        table@ is Table,
        depth <= MAX_TABLE_DEPTH + 1,
    ensures
        ({
            let expected = flattened(
                table@->Table_0,
                prefix@,
                depth as nat,
                setting_views(old(entries)@),
                limits,
            );
            &&& ok == (expected is Some)
            &&& ok ==> expected == Some(setting_views(final(entries)@))
        }),
    decreases table,
{
    let ghost all = table@->Table_0;
    let ghost start = setting_views(entries@);
    let ghost expected = flattened(all, prefix@, depth as nat, start, limits);
    if depth > MAX_TABLE_DEPTH {
        return false;
    }
    match table {
        Toml::Table(members) => {
            let mut i: usize = 0;
            assert(all.skip(0) =~= all);
            while i < members.len()
                invariant
                    i <= members@.len(),
                    depth <= MAX_TABLE_DEPTH,
                    *table == Toml::Table(*members),
                    all == table@->Table_0,
                    all.len() == members@.len(),
                    expected == flattened(all, prefix@, depth as nat, start, limits),
                    start == setting_views(old(entries)@),
                    expected == flattened(
                        all.skip(i as int),
                        prefix@,
                        depth as nat,
                        setting_views(entries@),
                        limits,
                    ),
                decreases members@.len() - i,
            {
                let member: &TomlMember = &members[i];
                let ghost rest = all.skip(i as int);
                let ghost done = setting_views(entries@);
                assert(all[i as int] == (members@[i as int].key@, members@[i as int].value@));
                assert(rest[0] == all[i as int]);
                assert(rest.drop_first() =~= all.skip(i + 1));
                assert(decreases_to!(*table => members@[i as int].value));
                let name: &str = member.key.as_str();
                let used: usize = byte_len(prefix);
                if has_dot(name) || used > limits.key_bytes || byte_len(name) > limits.key_bytes
                    - used {
                    return false;
                }
                let path: String = path_of(prefix, name);
                match &member.value {
                    Toml::Table(inner) => {
                        assert(member.value@->Table_0.len() == inner@.len());
                        if inner.len() == 0 {
                            return false;
                        }
                        if !flatten_table(
                            &member.value,
                            path.as_str(),
                            depth + 1,
                            entries,
                            limits,
                        ) {
                            return false;
                        }
                    },
                    _ => match leaf_of(&member.value, limits) {
                        None => {
                            return false;
                        },
                        Some(raw) => {
                            if entries.len() == limits.layer_entries {
                                assert(done.len() == entries@.len());
                                return false;
                            }
                            let ghost own = (path@, raw@);
                            entries.push(Setting { path, value: raw });
                            assert(setting_views(entries@) =~= done.push(own));
                        },
                    },
                }
                i += 1;
            }
            assert(all.skip(i as int) =~= Seq::empty());
            true
        },
        _ => false,
    }
}

/// The settings of a configuration text.
pub open spec fn settings_in(
    text: Seq<char>,
    parsed: Option<TomlView>,
    limits: ConfigLimits,
) -> Option<Seq<(Seq<char>, RawView)>> {
    if byte_length(text) > limits.file_bytes {
        None
    } else {
        match parsed {
            Some(TomlView::Table(members)) => flattened(
                members,
                Seq::empty(),
                0,
                Seq::empty(),
                limits,
            ),
            _ => None,
        }
    }
}

/// The settings of a parsed table.
pub fn read_table(table: &Toml, limits: ConfigLimits) -> (r: Option<Vec<Setting>>)
    ensures
        match table@ {
            TomlView::Table(members) => {
                let expected = flattened(members, Seq::empty(), 0, Seq::empty(), limits);
                match r {
                    Some(list) => expected == Some(setting_views(list@)),
                    None => expected is None,
                }
            },
            _ => r is None,
        },
{
    match table {
        Toml::Table(_) => {},
        _ => {
            return None;
        },
    }
    let mut entries: Vec<Setting> = Vec::new();
    proof {
        reveal_strlit("");
        assert(setting_views(entries@) =~= Seq::empty());
        assert(""@ =~= Seq::empty());
    }
    if flatten_table(table, "", 0, &mut entries, limits) {
        Some(entries)
    } else {
        None
    }
}

/// Read the settings of a configuration text.
pub fn decode_config(text: &str, limits: ConfigLimits) -> (r: Option<Vec<Setting>>)
    ensures
        match r {
            Some(list) => settings_in(text@, parsed_toml(text@), limits) == Some(
                setting_views(list@),
            ),
            None => settings_in(text@, parsed_toml(text@), limits) is None,
        },
{
    if byte_len(text) > limits.file_bytes {
        return None;
    }
    match parse_toml(text) {
        Some(value) => read_table(&toml_of_value(value), limits),
        None => None,
    }
}

/// Every table names each of its members once, and none of them by the empty
/// text.
pub open spec fn is_keyed(members: Seq<(Seq<char>, TomlView)>) -> bool
    decreases members,
{
    &&& forall|i: int| 0 <= i < members.len() ==> (#[trigger] members[i]).0.len() > 0
    &&& forall|i: int, j: int|
        0 <= i < members.len() && 0 <= j < members.len() && i != j ==> (#[trigger] members[i]).0
            != (#[trigger] members[j]).0
    &&& members.len() > 0 ==> match members[0].1 {
        TomlView::Table(inner) => is_keyed(inner),
        _ => true,
    }
    &&& members.len() > 0 ==> is_keyed(members.drop_first())
}

/// Does a path lie strictly below another?
pub open spec fn is_below(path: Seq<char>, base: Seq<char>) -> bool {
    path.len() > base.len() && path.take(base.len() as int) == base && path[base.len() as int]
        == '.'
}

/// Is a path that of a member, or below it?
pub open spec fn is_under(path: Seq<char>, prefix: Seq<char>, name: Seq<char>) -> bool {
    path == member_path(prefix, name) || is_below(path, member_path(prefix, name))
}

/// No path belongs to two members of one table.
proof fn members_are_apart(path: Seq<char>, prefix: Seq<char>, a: Seq<char>, b: Seq<char>)
    requires
        is_under(path, prefix, a),
        is_under(path, prefix, b),
        !a.contains('.'),
        !b.contains('.'),
        a.len() <= b.len(),
    ensures
        a == b,
{
    reveal_strlit(".");
    let x = member_path(prefix, a);
    let y = member_path(prefix, b);
    let n = x.len() - a.len();
    assert(n == y.len() - b.len());
    assert(path.take(x.len() as int) =~= x);
    assert(path.take(y.len() as int) =~= y);
    assert forall|i: int| 0 <= i < a.len() implies a[i] == b[i] by {
        assert(x[n + i] == a[i]);
        assert(y[n + i] == b[i]);
        assert(path.take(x.len() as int)[n + i] == path[n + i]);
        assert(path.take(y.len() as int)[n + i] == path[n + i]);
    }
    if a.len() < b.len() {
        assert(path[x.len() as int] == '.');
        assert(path.take(y.len() as int)[x.len() as int] == '.');
        assert(y[n + a.len()] == b[a.len() as int]);
        assert(b.contains('.'));
    }
    assert(a =~= b);
}

proof fn below_a_member(path: Seq<char>, base: Seq<char>, name: Seq<char>)
    requires
        base.len() > 0,
        is_under(path, base, name),
    ensures
        is_below(path, base),
{
    reveal_strlit(".");
    let x = member_path(base, name);
    assert(path.take(x.len() as int) =~= x);
    assert(path.take(base.len() as int) =~= base) by {
        assert forall|i: int| 0 <= i < base.len() implies path[i] == base[i] by {
            assert(path.take(x.len() as int)[i] == x[i]);
        }
    }
    assert(path.take(x.len() as int)[base.len() as int] == x[base.len() as int]);
}

/// The paths of settings.
pub open spec fn paths(list: Seq<(Seq<char>, RawView)>) -> Seq<Seq<char>> {
    list.map_values(|s: (Seq<char>, RawView)| s.0)
}

/// New settings come behind the earlier ones, each under a member.
proof fn settings_lie_under_members(
    members: Seq<(Seq<char>, TomlView)>,
    prefix: Seq<char>,
    depth: nat,
    done: Seq<(Seq<char>, RawView)>,
    limits: ConfigLimits,
)
    requires
        flattened(members, prefix, depth, done, limits) is Some,
        is_keyed(members),
    ensures
        ({
            let all = flattened(members, prefix, depth, done, limits)->0;
            &&& all.len() >= done.len()
            &&& all.take(done.len() as int) == done
            &&& forall|k: int|
                done.len() <= k < all.len() ==> exists|i: int|
                    0 <= i < members.len() && is_under(
                        (#[trigger] all[k]).0,
                        prefix,
                        (#[trigger] members[i]).0,
                    )
        }),
    decreases members,
{
    let all = flattened(members, prefix, depth, done, limits)->0;
    if members.len() == 0 {
        assert(all.take(done.len() as int) =~= done);
    } else {
        let (name, value) = members[0];
        let path = member_path(prefix, name);
        let rest = members.drop_first();
        let more = match value {
            TomlView::Table(inner) => flattened(inner, path, depth + 1, done, limits)->0,
            _ => done.push((path, leaf(value, limits)->0)),
        };
        if let TomlView::Table(inner) = value {
            settings_lie_under_members(inner, path, depth + 1, done, limits);
        }
        settings_lie_under_members(rest, prefix, depth, more, limits);
        assert(more.take(done.len() as int) =~= done);
        assert(all.take(done.len() as int) =~= all.take(more.len() as int).take(
            done.len() as int,
        ));
        assert forall|k: int| done.len() <= k < all.len() implies exists|i: int|
            0 <= i < members.len() && is_under(
                (#[trigger] all[k]).0,
                prefix,
                (#[trigger] members[i]).0,
            ) by {
            if k >= more.len() {
                let i = choose|i: int|
                    0 <= i < rest.len() && is_under(all[k].0, prefix, (#[trigger] rest[i]).0);
                assert(members[i + 1] == rest[i]);
                assert(is_under(all[k].0, prefix, members[i + 1].0));
            } else {
                assert(all[k] == all.take(more.len() as int)[k]);
                if let TomlView::Table(inner) = value {
                    let i = choose|i: int|
                        0 <= i < inner.len() && is_under(more[k].0, path, (#[trigger] inner[i]).0);
                    assert(path.len() > 0) by {
                        reveal_strlit(".");
                    }
                    below_a_member(more[k].0, path, inner[i].0);
                }
                assert(is_under(all[k].0, prefix, members[0].0));
            }
        }
    }
}

/// No setting so far lies under a member that is still to be read.
spec fn is_clear(
    done: Seq<(Seq<char>, RawView)>,
    prefix: Seq<char>,
    members: Seq<(Seq<char>, TomlView)>,
) -> bool {
    forall|k: int, i: int|
        0 <= k < done.len() && 0 <= i < members.len() ==> !is_under(
            (#[trigger] done[k]).0,
            prefix,
            (#[trigger] members[i]).0,
        )
}

proof fn paths_stay_distinct(
    members: Seq<(Seq<char>, TomlView)>,
    prefix: Seq<char>,
    depth: nat,
    done: Seq<(Seq<char>, RawView)>,
    limits: ConfigLimits,
)
    requires
        flattened(members, prefix, depth, done, limits) is Some,
        is_keyed(members),
        paths(done).no_duplicates(),
        is_clear(done, prefix, members),
    ensures
        paths(flattened(members, prefix, depth, done, limits)->0).no_duplicates(),
    decreases members,
{
    if members.len() > 0 {
        let (name, value) = members[0];
        let path = member_path(prefix, name);
        let rest = members.drop_first();
        assert(path.len() > 0) by {
            reveal_strlit(".");
        }
        let more = match value {
            TomlView::Table(inner) => flattened(inner, path, depth + 1, done, limits)->0,
            _ => done.push((path, leaf(value, limits)->0)),
        };
        match value {
            TomlView::Table(inner) => {
                settings_lie_under_members(inner, path, depth + 1, done, limits);
                assert forall|k: int, i: int|
                    0 <= k < done.len() && 0 <= i < inner.len() implies !is_under(
                    (#[trigger] done[k]).0,
                    path,
                    (#[trigger] inner[i]).0,
                ) by {
                    if is_under(done[k].0, path, inner[i].0) {
                        below_a_member(done[k].0, path, inner[i].0);
                        assert(is_under(done[k].0, prefix, members[0].0));
                    }
                }
                paths_stay_distinct(inner, path, depth + 1, done, limits);
            },
            _ => {
                let list = paths(more);
                assert forall|a: int, b: int|
                    0 <= a < list.len() && 0 <= b < list.len() && a != b implies list[a]
                    != list[b] by {
                    if a < done.len() {
                        assert(paths(done)[a] == list[a]);
                        assert(!is_under(done[a].0, prefix, members[0].0));
                    }
                    if b < done.len() {
                        assert(paths(done)[b] == list[b]);
                        assert(!is_under(done[b].0, prefix, members[0].0));
                    }
                }
            },
        }
        assert forall|k: int, i: int| 0 <= k < more.len() && 0 <= i < rest.len() implies !is_under(
            (#[trigger] more[k]).0,
            prefix,
            (#[trigger] rest[i]).0,
        ) by {
            assert(members[i + 1] == rest[i]);
            if k < done.len() {
                assert(more[k] == more.take(done.len() as int)[k]);
                assert(!(value is Table) ==> more[k] == done[k]);
                assert(more[k] == done[k]);
                assert(!is_under(done[k].0, prefix, members[i + 1].0));
            } else if is_under(more[k].0, prefix, rest[i].0) {
                if let TomlView::Table(inner) = value {
                    let j = choose|j: int|
                        0 <= j < inner.len() && is_under(more[k].0, path, (#[trigger] inner[j]).0);
                    below_a_member(more[k].0, path, inner[j].0);
                }
                assert(is_under(more[k].0, prefix, name));
                assert(is_member_name(rest[i].0, prefix, limits)) by {
                    names_are_checked(rest, prefix, depth, more, limits, i);
                }
                if name.len() <= rest[i].0.len() {
                    members_are_apart(more[k].0, prefix, name, rest[i].0);
                } else {
                    members_are_apart(more[k].0, prefix, rest[i].0, name);
                }
                assert(members[0].0 != members[i + 1].0);
            }
        }
        paths_stay_distinct(rest, prefix, depth, more, limits);
    }
}

/// Every member of a table that was read has a name that a member may have.
proof fn names_are_checked(
    members: Seq<(Seq<char>, TomlView)>,
    prefix: Seq<char>,
    depth: nat,
    done: Seq<(Seq<char>, RawView)>,
    limits: ConfigLimits,
    i: int,
)
    requires
        flattened(members, prefix, depth, done, limits) is Some,
        0 <= i < members.len(),
    ensures
        is_member_name(members[i].0, prefix, limits),
    decreases members,
{
    if i > 0 {
        let (name, value) = members[0];
        let path = member_path(prefix, name);
        let more = match value {
            TomlView::Table(inner) => flattened(inner, path, depth + 1, done, limits)->0,
            _ => done.push((path, leaf(value, limits)->0)),
        };
        names_are_checked(members.drop_first(), prefix, depth, more, limits, i - 1);
    }
}

/// A document that names every member of a table once gives every setting a
/// path of its own. An empty name would not: its members would take the paths
/// of the table around it.
pub proof fn settings_have_distinct_paths(
    members: Seq<(Seq<char>, TomlView)>,
    limits: ConfigLimits,
)
    requires
        is_keyed(members),
        flattened(members, Seq::empty(), 0, Seq::empty(), limits) is Some,
    ensures
        paths(
            flattened(members, Seq::empty(), 0, Seq::empty(), limits)->0,
        ).no_duplicates(),
        flattened(members, Seq::empty(), 0, Seq::empty(), limits)->0.len() <= limits.layer_entries,
{
    paths_stay_distinct(members, Seq::empty(), 0, Seq::empty(), limits);
    settings_are_counted(members, Seq::empty(), 0, Seq::empty(), limits);
}

proof fn settings_are_counted(
    members: Seq<(Seq<char>, TomlView)>,
    prefix: Seq<char>,
    depth: nat,
    done: Seq<(Seq<char>, RawView)>,
    limits: ConfigLimits,
)
    requires
        flattened(members, prefix, depth, done, limits) is Some,
        done.len() <= limits.layer_entries,
    ensures
        flattened(members, prefix, depth, done, limits)->0.len() <= limits.layer_entries,
    decreases members,
{
    if members.len() > 0 {
        let (name, value) = members[0];
        let path = member_path(prefix, name);
        match value {
            TomlView::Table(inner) => {
                settings_are_counted(inner, path, depth + 1, done, limits);
                let more = flattened(inner, path, depth + 1, done, limits)->0;
                settings_are_counted(members.drop_first(), prefix, depth, more, limits);
            },
            _ => {
                let more = done.push((path, leaf(value, limits)->0));
                settings_are_counted(members.drop_first(), prefix, depth, more, limits);
            },
        }
    }
}

} // verus!
