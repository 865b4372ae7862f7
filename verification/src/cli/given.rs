//! What a command line, an environment and a configuration file give.
use crate::cli::command::{is_setting_name, setting_places};
use crate::cli::request::{digit_value, flag_values, is_digit, spelled, whole_number, SettingFlag};
use crate::cli::settings::{
    flattened, leaf, member_path, settings_in, ConfigLimits, RawView, TomlView,
};
use crate::text::{byte_length, decimal, digit_char};
use vstd::prelude::*;

verus! {

proof fn digits_spell_themselves(n: nat)
    ensures
        spelled(decimal(n)) == n,
        decimal(n).len() > 0,
        forall|i: int| 0 <= i < decimal(n).len() ==> is_digit(#[trigger] decimal(n)[i]),
    decreases n,
{
    let text = decimal(n);
    if n < 10 {
        assert(text.drop_last() =~= Seq::empty());
        assert(spelled(text.drop_last()) == 0);
        assert(text.last() == digit_char(n));
        assert(digit_value(digit_char(n)) == n);
    } else {
        digits_spell_themselves(n / 10);
        assert(text.drop_last() =~= decimal(n / 10));
        assert(text.last() == digit_char(n % 10));
        assert(digit_value(digit_char(n % 10)) == n % 10);
        assert forall|i: int| 0 <= i < text.len() implies is_digit(#[trigger] text[i]) by {
            if i < text.len() - 1 {
                assert(text[i] == decimal(n / 10)[i]);
            }
        }
    }
}

/// A number that is written out is read back, with or without a plus sign.
pub proof fn written_numbers_are_read_back(n: nat)
    requires
        n <= usize::MAX,
    ensures
        whole_number(decimal(n)) == Some(n),
        whole_number(seq!['+'] + decimal(n)) == Some(n),
{
    digits_spell_themselves(n);
    assert(is_digit(decimal(n)[0]));
    assert((seq!['+'] + decimal(n)).drop_first() =~= decimal(n));
}

/// A text with anything but digits behind an optional plus sign is no number,
/// and neither is one without a digit.
pub proof fn other_texts_are_no_numbers(text: Seq<char>, i: int)
    requires
        0 <= i < text.len(),
        !('0' <= text[i] <= '9'),
        i > 0 || text[0] != '+' || text.len() == 1,
    ensures
        whole_number(text) is None,
{
    if text[0] == '+' {
        let rest = text.drop_first();
        if text.len() > 1 {
            assert(rest[i - 1] == text[i]);
        }
    }
}

/// Every flag that gives a value adds it last, under its own path; one that
/// gives none adds nothing; and the first that cannot be read is what is wrong.
pub proof fn flags_add_their_values(flags: Seq<SettingFlag>, flag: SettingFlag)
    ensures
        flag_values(Seq::empty()) == Ok::<Seq<(Seq<char>, RawView)>, Seq<char>>(Seq::empty()),
        flag_values(flags) is Err ==> flag_values(flags.push(flag)) == flag_values(flags),
        flag_values(flags) is Ok && flag_values(flags.push(flag)) is Ok ==> {
            let before = flag_values(flags)->Ok_0;
            let after = flag_values(flags.push(flag))->Ok_0;
            after == before || (after.len() == before.len() + 1 && after.drop_last() == before
                && after.last().0 == flag.path@)
        },
{
    assert(flags.push(flag).drop_last() =~= flags);
    if flag_values(flags) is Ok && flag_values(flags.push(flag)) is Ok {
        let before = flag_values(flags)->Ok_0;
        let after = flag_values(flags.push(flag))->Ok_0;
        if after != before {
            assert(after.drop_last() =~= before);
        }
    }
}

proof fn last_member_is_read_last(
    members: Seq<(Seq<char>, TomlView)>,
    last: (Seq<char>, TomlView),
    prefix: Seq<char>,
    depth: nat,
    done: Seq<(Seq<char>, RawView)>,
    limits: ConfigLimits,
)
    requires
        depth <= 32,
    ensures
        flattened(members.push(last), prefix, depth, done, limits) == (match flattened(
            members,
            prefix,
            depth,
            done,
            limits,
        ) {
            None => None,
            Some(more) => flattened(seq![last], prefix, depth, more, limits),
        }),
    decreases members.len(),
{
    let all = members.push(last);
    if members.len() == 0 {
        assert(all =~= seq![last]);
    } else {
        assert(all.drop_first() =~= members.drop_first().push(last));
        assert(all[0] == members[0]);
        let (name, value) = members[0];
        let path = member_path(prefix, name);
        match value {
            TomlView::Table(inner) => {
                match flattened(inner, path, depth + 1, done, limits) {
                    Some(more) => {
                        last_member_is_read_last(
                            members.drop_first(),
                            last,
                            prefix,
                            depth,
                            more,
                            limits,
                        );
                    },
                    None => {},
                }
            },
            _ => {
                match leaf(value, limits) {
                    Some(raw) => {
                        last_member_is_read_last(
                            members.drop_first(),
                            last,
                            prefix,
                            depth,
                            done.push((path, raw)),
                            limits,
                        );
                    },
                    None => {},
                }
            },
        }
    }
}

/// A value in the form that a setting has it.
pub open spec fn is_plain(value: TomlView, raw: RawView) -> bool {
    ||| value matches TomlView::Bool(b) && raw == RawView::Bool(b)
    ||| value matches TomlView::Integer(n) && raw == RawView::Integer(n)
    ||| value matches TomlView::Float(x) && raw == RawView::Float(x)
    ||| value matches TomlView::Text(s) && raw == RawView::Text(s)
}

/// One more plain value in a table is one more setting, the last, under the
/// table's path and its own name, wherever the layer has room; an empty table
/// gives none.
pub proof fn plain_values_are_settings(
    members: Seq<(Seq<char>, TomlView)>,
    name: Seq<char>,
    value: TomlView,
    raw: RawView,
    prefix: Seq<char>,
    depth: nat,
    done: Seq<(Seq<char>, RawView)>,
    limits: ConfigLimits,
)
    requires
        depth <= 32,
        is_plain(value, raw),
    ensures
        flattened(Seq::empty(), prefix, depth, done, limits) == Some(done),
        flattened(members, prefix, depth, done, limits) is None ==> flattened(
            members.push((name, value)),
            prefix,
            depth,
            done,
            limits,
        ) is None,
        flattened(members, prefix, depth, done, limits) matches Some(list) ==> {
            let more = flattened(members.push((name, value)), prefix, depth, done, limits);
            let path = if prefix.len() == 0 {
                name
            } else {
                prefix + "."@ + name
            };
            let sound = !name.contains('.') && byte_length(name) + byte_length(prefix)
                <= limits.key_bytes && list.len() != limits.layer_entries;
            &&& sound ==> more == Some(list.push((path, raw)))
            &&& !sound ==> more is None
        },
{
    let last = (name, value);
    last_member_is_read_last(members, last, prefix, depth, done, limits);
    match flattened(members, prefix, depth, done, limits) {
        Some(list) => {
            assert(seq![last][0] == last);
            assert(seq![last].drop_first() =~= Seq::empty());
            let next = list.push((member_path(prefix, name), raw));
            assert(flattened(Seq::empty(), prefix, depth, next, limits) == Some(next));
            assert(flattened(seq![last].drop_first(), prefix, depth, next, limits) == Some(next));
        },
        None => {},
    }
}

/// The settings of a table inside a table follow those before it, under its own
/// path; an empty table, and one too deep, is refused.
pub proof fn inner_tables_extend_the_path(
    members: Seq<(Seq<char>, TomlView)>,
    name: Seq<char>,
    inner: Seq<(Seq<char>, TomlView)>,
    prefix: Seq<char>,
    depth: nat,
    done: Seq<(Seq<char>, RawView)>,
    limits: ConfigLimits,
)
    requires
        depth <= 32,
    ensures
        inner.len() == 0 || depth == 32 ==> flattened(
            members.push((name, TomlView::Table(inner))),
            prefix,
            depth,
            done,
            limits,
        ) is None,
        flattened(members, prefix, depth, done, limits) matches Some(list) ==> {
            let more = flattened(
                members.push((name, TomlView::Table(inner))),
                prefix,
                depth,
                done,
                limits,
            );
            let path = if prefix.len() == 0 {
                name
            } else {
                prefix + "."@ + name
            };
            inner.len() > 0 && !name.contains('.') && byte_length(name) + byte_length(prefix)
                <= limits.key_bytes ==> more == flattened(inner, path, depth + 1, list, limits)
        },
{
    let last = (name, TomlView::Table(inner));
    last_member_is_read_last(members, last, prefix, depth, done, limits);
    match flattened(members, prefix, depth, done, limits) {
        Some(list) => {
            assert(seq![last][0] == last);
            assert(seq![last].drop_first() =~= Seq::empty());
            let path = member_path(prefix, name);
            match flattened(inner, path, depth + 1, list, limits) {
                Some(more) => {
                    assert(flattened(seq![last].drop_first(), prefix, depth, more, limits) == Some(
                        more,
                    ));
                },
                None => {},
            }
        },
        None => {},
    }
}

/// A list is a setting exactly where it holds texts alone and not too many of
/// them; a date is none.
pub proof fn lists_hold_texts(items: Seq<TomlView>, limits: ConfigLimits)
    ensures
        leaf(TomlView::Datetime, limits) is None,
        leaf(TomlView::Array(items), limits) is Some <==> items.len() <= limits.list_items && (
        forall|i: int| 0 <= i < items.len() ==> (#[trigger] items[i]) is Text),
        leaf(TomlView::Array(items), limits) matches Some(raw) ==> {
            &&& raw is List
            &&& raw->List_0.len() == items.len()
            &&& forall|i: int|
                0 <= i < items.len() ==> TomlView::Text(#[trigger] raw->List_0[i]) == items[i]
        },
{
}

/// A file that is too long or no table gives no settings at all.
pub proof fn only_tables_that_fit_are_read(
    text: Seq<char>,
    parsed: Option<TomlView>,
    limits: ConfigLimits,
)
    ensures
        settings_in(text, parsed, limits) is Some ==> byte_length(text) <= limits.file_bytes
            && parsed is Some && parsed->0 is Table,
        byte_length(text) <= limits.file_bytes && parsed == Some(TomlView::Table(Seq::empty()))
            ==> settings_in(text, parsed, limits) == Some(Seq::<(Seq<char>, RawView)>::empty()),
{
}

/// Does a variable's name say that it holds a setting?
pub open spec fn names_a_setting(name: Seq<char>) -> bool {
    (name.len() >= 3 && name[0] == 'S' && name[1] == 'R' && name[2] == '_') || name
        == "TYPESAFE_API_KEY"@ || name == "TYPESAFE_ENDPOINT"@
}

proof fn setting_names_are_prefixed(name: Seq<char>)
    ensures
        is_setting_name(name) <==> names_a_setting(name),
{
    reveal_strlit("SR_");
    if name.len() >= 3 {
        let head = name.take(3);
        if names_a_setting(name) && name[0] == 'S' && name[1] == 'R' && name[2] == '_' {
            assert(head =~= "SR_"@);
        }
        if head == "SR_"@ {
            assert(head[0] == 'S' && head[1] == 'R' && head[2] == '_');
        }
    }
}

/// The places of an environment that may hold settings are exactly those whose
/// names say so, in their order.
pub proof fn settings_are_found_by_name(names: Seq<Seq<char>>, n: int)
    requires
        0 <= n <= names.len() <= usize::MAX,
    ensures
        forall|p: usize| #[trigger]
            setting_places(names, n).contains(p) <==> p < n
                && names_a_setting(names[p as int]),
        forall|i: int, j: int|
            0 <= i < j < setting_places(names, n).len() ==> #[trigger] setting_places(names, n)[i]
                < #[trigger] setting_places(names, n)[j],
    decreases n,
{
    if n > 0 {
        settings_are_found_by_name(names, n - 1);
        setting_names_are_prefixed(names[n - 1]);
        let before = setting_places(names, n - 1);
        let places = setting_places(names, n);
        let own = (n - 1) as usize;
        assert forall|p: usize| #[trigger] places.contains(p) <==> p < n
            && names_a_setting(names[p as int]) by {
            assert(before.contains(p) <==> p < n - 1 && names_a_setting(
                names[p as int],
            ));
            if before.contains(p) {
                assert(places[before.index_of(p)] == p);
            }
            if places.contains(p) {
                let i = places.index_of(p);
                assert(i < before.len() ==> before[i] == p);
            }
            if names_a_setting(names[n - 1]) {
                assert(places[before.len() as int] == own);
            }
        }
        assert forall|i: int, j: int| 0 <= i < j < places.len() implies #[trigger] places[i]
            < #[trigger] places[j] by {
            assert(i < before.len() ==> before.contains(before[i]));
        }
    }
}

} // verus!
