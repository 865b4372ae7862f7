//! What the fields, the scalars and the body of a skill document say.
use crate::chars::{count_of, has_prefix, lower};
use crate::text::{trim, trim_end, trim_start};
use crate::roster::frontmatter::{
    boolean_of, comment_place, decode_scalar, is_quoted, metadata_of, no_fields, outline, quoted,
    quoted_from, uncommented, with_list, with_text, FieldsView, FrontmatterError, UsageKind,
};
use vstd::prelude::*;

verus! {

proof fn open_quotes_hide_comments(value: Seq<char>, quote: char, i: int)
    requires
        quote == '"' || quote == '\'',
        value.len() >= 2,
        1 <= i < value.len(),
        value.last() == quote,
        forall|k: int|
            1 <= k < value.len() - 1 ==> #[trigger] value[k] != quote && (quote == '"' ==> value[k]
                != '\\'),
    ensures
        comment_place(value, i, Some(quote), Some(value[i - 1])) == value.len(),
    decreases value.len() - i,
{
    if i < value.len() - 1 {
        assert(value[i] != quote);
        open_quotes_hide_comments(value, quote, i + 1);
    } else {
        assert(value[i] == quote);
        assert(comment_place(value, i + 1, None, Some(quote)) == value.len());
    }
}

proof fn quoted_texts_are_read(value: Seq<char>, quote: char, i: int)
    requires
        quote == '"' || quote == '\'',
        value.len() >= 2,
        1 <= i < value.len(),
        value.last() == quote,
        forall|k: int|
            1 <= k < value.len() - 1 ==> #[trigger] value[k] != quote && (quote == '"' ==> value[k]
                != '\\'),
    ensures
        quoted_from(value, quote, i, value.subrange(1, i)) == Some(
            (value.subrange(1, value.len() - 1), value.len() as int),
        ),
    decreases value.len() - i,
{
    if i < value.len() - 1 {
        assert(value[i] != quote);
        assert(value.subrange(1, i).push(value[i]) =~= value.subrange(1, i + 1));
        quoted_texts_are_read(value, quote, i + 1);
    } else {
        assert(value[i] == quote);
    }
}

/// A text in quotes is read as it stands between them, whatever it holds:
/// comment signs, brackets, colons and the other kind of quote are text there.
pub proof fn quoted_texts_are_kept(text: Seq<char>, quote: char)
    requires
        quote == '"' || quote == '\'',
        forall|k: int|
            0 <= k < text.len() ==> #[trigger] text[k] != quote && (quote == '"' ==> text[k]
                != '\\'),
    ensures
        decode_scalar(seq![quote] + text + seq![quote]) == Ok::<Seq<char>, FrontmatterError>(text),
{
    let value = seq![quote] + text + seq![quote];
    assert(value[0] == quote);
    assert(value.last() == quote);
    assert forall|k: int| 1 <= k < value.len() - 1 implies #[trigger] value[k] != quote && (quote
        == '"' ==> value[k] != '\\') by {
        assert(value[k] == text[k - 1]);
    }
    open_quotes_hide_comments(value, quote, 1);
    assert(comment_place(value, 0, None, None) == value.len());
    assert(value.take(value.len() as int) =~= value);
    assert(trim_end(value) == value);
    assert(uncommented(value) == value);
    assert(value.subrange(1, 1) =~= Seq::empty());
    quoted_texts_are_read(value, quote, 1);
    assert(value.subrange(1, value.len() - 1) =~= text);
    assert(value.skip(value.len() as int) =~= Seq::empty());
    assert(quoted(value) == Some((text, Seq::<char>::empty())));
}

/// Is this a plain character: no quote, no comment sign, no bracket?
pub open spec fn is_plain_char(c: char) -> bool {
    c != '"' && c != '\'' && c != '#' && c != '[' && c != ']' && c != '{' && c != '}'
}

pub(crate) proof fn plain_texts_hold_no_comment(value: Seq<char>, i: int, prev: Option<char>)
    requires
        0 <= i <= value.len(),
        forall|k: int| 0 <= k < value.len() ==> is_plain_char(#[trigger] value[k]),
    ensures
        comment_place(value, i, None, prev) == value.len(),
    decreases value.len() - i,
{
    if i < value.len() {
        assert(is_plain_char(value[i]));
        plain_texts_hold_no_comment(value, i + 1, Some(value[i]));
    }
}

proof fn absent_chars_count_nothing(value: Seq<char>, c: char)
    requires
        forall|k: int| 0 <= k < value.len() ==> #[trigger] value[k] != c,
    ensures
        count_of(value, c) == 0,
    decreases value.len(),
{
    if value.len() > 0 {
        assert(value[value.len() - 1] != c);
        absent_chars_count_nothing(value.drop_last(), c);
    }
}

/// A plain text without space behind it is read as it stands.
pub proof fn plain_texts_are_kept(text: Seq<char>)
    requires
        forall|k: int| 0 <= k < text.len() ==> is_plain_char(#[trigger] text[k]),
        trim_end(text) == text,
    ensures
        decode_scalar(text) == Ok::<Seq<char>, FrontmatterError>(text),
{
    plain_texts_hold_no_comment(text, 0, None);
    assert(text.take(text.len() as int) =~= text);
    assert forall|c: char|
        c == '[' || c == ']' || c == '{' || c == '}' implies #[trigger] count_of(text, c) == 0 by {
        assert forall|k: int| 0 <= k < text.len() implies #[trigger] text[k] != c by {
            assert(is_plain_char(text[k]));
        }
        absent_chars_count_nothing(text, c);
    }
    assert(count_of(text, '[') == 0 && count_of(text, ']') == 0 && count_of(text, '{') == 0
        && count_of(text, '}') == 0);
    assert(!is_quoted(text)) by {
        if text.len() > 0 {
            assert(is_plain_char(text[0]));
        }
    }
}

/// Each text field is its own: it takes the text that it is given, and leaves
/// every other field as it was.
pub proof fn text_fields_are_their_own(fields: FieldsView, text: Seq<char>)
    ensures
        ({
            let named = with_text(fields, "name"@, text);
            &&& named is Ok
            &&& named->Ok_0.name == Some(trim(text))
            &&& named->Ok_0.description == fields.description
            &&& named->Ok_0.disable_model_invocation == fields.disable_model_invocation
            &&& named->Ok_0.user_invocable == fields.user_invocable
            &&& named->Ok_0.usage_kind == fields.usage_kind
            &&& named->Ok_0.aliases == fields.aliases
            &&& named->Ok_0.tags == fields.tags
            &&& named->Ok_0.phases == fields.phases
            &&& named->Ok_0.forked_context == fields.forked_context
        }),
        ({
            let described = with_text(fields, "description"@, text);
            &&& described is Ok
            &&& described->Ok_0.description == trim(text)
            &&& described->Ok_0.name == fields.name
            &&& described->Ok_0.disable_model_invocation == fields.disable_model_invocation
            &&& described->Ok_0.user_invocable == fields.user_invocable
            &&& described->Ok_0.usage_kind == fields.usage_kind
            &&& described->Ok_0.aliases == fields.aliases
            &&& described->Ok_0.tags == fields.tags
            &&& described->Ok_0.phases == fields.phases
            &&& described->Ok_0.forked_context == fields.forked_context
        }),
{
    reveal_strlit("name");
    reveal_strlit("description");
    assert("name"@.len() != "description"@.len());
}

/// The switches of a skill follow their truth value, and an unclear one is
/// refused; they do not touch each other.
pub proof fn switches_follow_their_value(fields: FieldsView, text: Seq<char>)
    ensures
        ({
            let hidden = with_text(fields, "disable-model-invocation"@, text);
            let offered = with_text(fields, "user-invocable"@, text);
            let on = boolean_of(text) == Ok::<bool, FrontmatterError>(true);
            let off = boolean_of(text) == Ok::<bool, FrontmatterError>(false);
            &&& hidden is Ok <==> on || off
            &&& offered is Ok <==> on || off
            &&& on ==> hidden->Ok_0.disable_model_invocation && offered->Ok_0.user_invocable
            &&& off ==> !hidden->Ok_0.disable_model_invocation && !offered->Ok_0.user_invocable
            &&& on || off ==> hidden->Ok_0.user_invocable == fields.user_invocable
                && offered->Ok_0.disable_model_invocation == fields.disable_model_invocation
                && hidden->Ok_0.name == fields.name && offered->Ok_0.name == fields.name
        }),
{
    reveal_strlit("name");
    reveal_strlit("description");
    reveal_strlit("disable-model-invocation");
    reveal_strlit("user-invocable");
    assert("name"@.len() == 4 && "description"@.len() == 11 && "disable-model-invocation"@.len()
        == 24 && "user-invocable"@.len() == 14);
}

/// Yes, true, on and one say yes; no, false, off, zero and nothing say no, in
/// any letter case; anything else is unclear.
pub proof fn truth_has_its_words(text: Seq<char>)
    ensures
        ({
            let word = lower(trim(text));
            let yes = word == "yes"@ || word == "true"@ || word == "on"@ || word == "1"@;
            let no = word == "no"@ || word == "false"@ || word == "off"@ || word == "0"@
                || word.len() == 0;
            &&& yes <==> boolean_of(text) == Ok::<bool, FrontmatterError>(true)
            &&& no <==> boolean_of(text) == Ok::<bool, FrontmatterError>(false)
            &&& !yes && !no <==> boolean_of(text) is Err
        }),
{
    reveal_strlit("yes");
    reveal_strlit("true");
    reveal_strlit("on");
    reveal_strlit("1");
    reveal_strlit("no");
    reveal_strlit("false");
    reveal_strlit("off");
    reveal_strlit("0");
    reveal_strlit("");
    assert("yes"@[0] == 'y' && "off"@[0] == 'o' && "on"@[0] == 'o' && "no"@[0] == 'n' && "1"@[0]
        == '1' && "0"@[0] == '0');
    assert("yes"@.len() == 3 && "true"@.len() == 4 && "on"@.len() == 2 && "1"@.len() == 1
        && "no"@.len() == 2 && "false"@.len() == 5 && "off"@.len() == 3 && "0"@.len() == 1);
    let word = lower(trim(text));
    if word.len() == 0 {
        assert(word =~= ""@);
    }
}

/// Each list field is its own.
pub proof fn list_fields_are_their_own(fields: FieldsView, items: Seq<Seq<char>>)
    ensures
        ({
            let a = with_list(fields, "aliases"@, items);
            let t = with_list(fields, "tags"@, items);
            let p = with_list(fields, "phases"@, items);
            &&& a.aliases == items && a.tags == fields.tags && a.phases == fields.phases
            &&& t.tags == items && t.aliases == fields.aliases && t.phases == fields.phases
            &&& p.phases == items && p.aliases == fields.aliases && p.tags == fields.tags
            &&& a.name == fields.name && t.name == fields.name && p.name == fields.name
            &&& a.description == fields.description
        }),
{
    reveal_strlit("aliases");
    reveal_strlit("tags");
    reveal_strlit("phases");
    assert("aliases"@.len() == 7 && "tags"@.len() == 4 && "phases"@.len() == 6);
}

/// What is declared comes before what is found: the declared name before the
/// first heading, the declared description before the first paragraph. What a
/// skill allows is what it does not switch off.
pub proof fn declared_fields_come_first(
    fields: FieldsView,
    body: Seq<char>,
    frontmatter: Option<Seq<char>>,
)
    ensures
        ({
            let m = metadata_of(fields, body, frontmatter);
            &&& fields.name matches Some(name) ==> m.name == Some(name)
            &&& fields.name is None ==> m.name == outline(crate::chars::lines(body)).title
            &&& fields.description.len() > 0 ==> m.description == fields.description
            &&& m.agent_invocable <==> !fields.disable_model_invocation
            &&& m.user_invocable <==> fields.user_invocable
            &&& m.usage_kind == fields.usage_kind
            &&& m.aliases == fields.aliases
            &&& m.tags == fields.tags
            &&& m.phases == fields.phases
            &&& m.forked_context == fields.forked_context
            &&& m.has_frontmatter <==> frontmatter is Some
        }),
        no_fields().name is None,
        no_fields().description.len() == 0,
        !no_fields().disable_model_invocation,
        no_fields().user_invocable,
        no_fields().usage_kind == UsageKind::Unknown,
        no_fields().aliases.len() == 0 && no_fields().tags.len() == 0 && no_fields().phases.len()
            == 0,
        !no_fields().forked_context,
{
}

/// One more line of a body is kept in it, last, unless it is the title: the
/// first top heading outside a code fence. A fence line opens or closes a
/// fence, and inside one nothing is a title or prose.
pub proof fn bodies_go_line_by_line(lines: Seq<Seq<char>>, line: Seq<char>)
    ensures
        ({
            let before = outline(lines);
            let after = outline(lines.push(line));
            let fence = has_prefix(trim_start(line), "```"@) || has_prefix(
                trim_start(line),
                "~~~"@,
            );
            let titled = !fence && !before.in_fence && has_prefix(line, "# "@)
                && before.title is None;
            &&& after.in_fence <==> before.in_fence != fence
            &&& titled ==> after.title == Some(trim(line.skip(2))) && after.body == before.body
            &&& !titled ==> after.title == before.title && after.body == before.body.push(line)
            &&& before.in_fence || fence || titled || before.paragraph_done ==> after.paragraph
                == before.paragraph
            &&& after.paragraph == before.paragraph || after.paragraph == before.paragraph.push(
                trim(line),
            )
        }),
        outline(Seq::empty()).title is None,
        outline(Seq::empty()).body.len() == 0,
        outline(Seq::empty()).paragraph.len() == 0,
        !outline(Seq::empty()).in_fence,
{
    assert(lines.push(line).drop_last() =~= lines);
}

} // verus!
