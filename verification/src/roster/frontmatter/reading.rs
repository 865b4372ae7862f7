//! How a skill document is taken apart: its two parts, its fields and its
//! lists.
use crate::chars::{after_char, has_prefix, lower, place_bounds, place_is, place_of};
use crate::roster::frontmatter::fields::{is_plain_char, plain_texts_are_kept};
use crate::roster::frontmatter::{
    canonical_key, closing_line, decode_scalar, flow_items, fold_from, folded, is_indented,
    is_text_field, no_nesting, parse_lines, skip_line_ends, split_document, string_field,
    uncommented, FieldsView, FrontmatterError, NestedView,
};
use crate::text::{byte_length, is_whitespace, trim, trim_end, trim_start};
use crate::wording::trimming_drops_the_space_around;
use vstd::prelude::*;

verus! {

proof fn closers_are_found_later(text: Seq<char>, from: int, o: int)
    requires
        0 <= o <= text.len(),
        0 <= from,
    ensures
        closing_line(text, from + o) == (match closing_line(text.skip(o), from) {
            Some(k) => Some(k + o),
            None => None,
        }),
    decreases text.len() - o - from,
{
    let later = text.skip(o);
    if from < later.len() {
        let rest = later.skip(from);
        assert(text.skip(from + o) =~= rest);
        let k = place_of(rest, '\n');
        place_bounds(rest, '\n');
        if k < rest.len() {
            closers_are_found_later(text, from + k + 1, o);
        }
    }
}

/// A line closes the frontmatter exactly where it says so by itself; another
/// line leaves that to the lines behind it.
pub proof fn frontmatter_closes_at_its_delimiter(line: Seq<char>, rest: Seq<char>)
    requires
        forall|i: int| 0 <= i < line.len() ==> #[trigger] line[i] != '\n',
    ensures
        trim(line) == "---"@ || trim(line) == "..."@ ==> closing_line(
            line + seq!['\n'] + rest,
            0,
        ) == Some(0int),
        trim(line) != "---"@ && trim(line) != "..."@ ==> closing_line(
            line + seq!['\n'] + rest,
            0,
        ) == (match closing_line(rest, 0) {
            Some(k) => Some(k + line.len() + 1),
            None => None,
        }),
        closing_line(Seq::empty(), 0) is None,
{
    let text = line + seq!['\n'] + rest;
    let n = line.len() as int;
    assert(text[n] == '\n');
    assert forall|j: int| 0 <= j < n implies #[trigger] text[j] != '\n' by {
        assert(text[j] == line[j]);
    }
    place_is(text, '\n', n);
    assert(text.skip(0) =~= text);
    assert(text.take(n) =~= line);
    assert(text.skip(n + 1) =~= rest);
    closers_are_found_later(text, 0, n + 1);
}

/// A document that opens with a delimiter line is split at the line that closes
/// it: the frontmatter is all that stands between, and the body all that stands
/// behind.
pub proof fn documents_are_split_at_their_delimiters(yaml: Seq<char>, body: Seq<char>)
    requires
        closing_line(yaml + "---"@ + seq!['\n'] + body, 0) == Some(yaml.len() as int),
        byte_length(yaml) <= crate::roster::frontmatter::MAX_FRONTMATTER_BYTES,
    ensures
        split_document("---"@ + seq!['\n'] + (yaml + "---"@ + seq!['\n'] + body)) == Ok::<
            (Option<Seq<char>>, Seq<char>),
            FrontmatterError,
        >((Some(yaml), body)),
{
    reveal_strlit("---");
    let inner = yaml + "---"@ + seq!['\n'] + body;
    let content = "---"@ + seq!['\n'] + inner;
    assert(content[0] == '-');
    assert(skip_line_ends(content) == content);
    assert(content.take(3) =~= "---"@);
    let rest = content.skip(3);
    assert(rest[0] == '\n');
    place_is(rest, '\n', 0);
    assert(rest.take(0) =~= Seq::empty());
    assert(after_char(rest, '\n') =~= inner);
    let end = yaml.len() as int;
    assert(inner.take(end) =~= yaml);
    let tail = inner.skip(end);
    assert(tail[0] == '-' && tail[1] == '-' && tail[2] == '-' && tail[3] == '\n');
    place_is(tail, '\n', 3);
    assert(after_char(tail, '\n') =~= body);
}

/// A document that opens with anything else has no frontmatter: it is all body.
pub proof fn documents_without_a_delimiter_are_body(content: Seq<char>)
    requires
        content.len() > 0,
        content[0] != '-',
        content[0] != '\n',
        content[0] != '\r',
    ensures
        split_document(content) == Ok::<(Option<Seq<char>>, Seq<char>), FrontmatterError>(
            (None, content),
        ),
{
    reveal_strlit("---");
    assert(skip_line_ends(content) == content);
    if has_prefix(content, "---"@) {
        assert(content.take(3)[0] == '-');
    }
}

/// Is this a value that needs no quoting: plain, not empty, without space
/// around it and without a sign that opens something else?
pub open spec fn is_plain_value(text: Seq<char>) -> bool {
    &&& text.len() > 0
    &&& forall|k: int| 0 <= k < text.len() ==> is_plain_char(#[trigger] text[k])
    &&& !is_whitespace(text[0])
    &&& !is_whitespace(text.last())
    &&& text[0] != '|'
    &&& text[0] != '>'
}

proof fn plain_values_are_read(text: Seq<char>, lines: Seq<Seq<char>>, i: int)
    requires
        is_plain_value(text),
        0 <= i <= lines.len(),
        i < lines.len() ==> trim(lines[i]).len() > 0 && !is_indented(lines[i]),
    ensures
        string_field(text, lines, i) == Ok::<(Seq<char>, int), FrontmatterError>((text, i)),
        trim(text) == text,
{
    assert(trim_end(text) == text);
    assert(trim_start(text) == text);
    plain_texts_are_kept(text);
    assert(is_plain_char(text[0]));
    assert(uncommented(text) == text) by {
        assert(decode_scalar(text) == Ok::<Seq<char>, FrontmatterError>(text));
        crate::roster::frontmatter::fields::plain_texts_hold_no_comment(text, 0, None);
        assert(text.take(text.len() as int) =~= text);
    }
    assert(fold_from(lines, i, text, 0) == (text, i));
    assert(folded(text, lines, i) == (text, i));
}

/// A plain field on a line of its own gives its text to the field, and reading
/// goes on behind it; a field that was read before is refused.
pub proof fn plain_fields_are_read(
    lines: Seq<Seq<char>>,
    i: int,
    key: Seq<char>,
    text: Seq<char>,
    fields: FieldsView,
    seen: Seq<Seq<char>>,
    nested: NestedView,
)
    requires
        0 <= i < lines.len(),
        key == "name"@ || key == "description"@,
        is_plain_value(text),
        lines[i] == key + seq![':', ' '] + text,
        i + 1 < lines.len() ==> trim(lines[i + 1]).len() > 0 && !is_indented(lines[i + 1]),
    ensures
        seen.contains(key) ==> parse_lines(lines, i, fields, seen, nested) == Err::<
            FieldsView,
            FrontmatterError,
        >(FrontmatterError::DuplicateKey),
        !seen.contains(key) && key == "name"@ ==> parse_lines(lines, i, fields, seen, nested)
            == parse_lines(
            lines,
            i + 1,
            FieldsView { name: Some(text), ..fields },
            seen.push(key),
            no_nesting(),
        ),
        !seen.contains(key) && key == "description"@ ==> parse_lines(
            lines,
            i,
            fields,
            seen,
            nested,
        ) == parse_lines(
            lines,
            i + 1,
            FieldsView { description: text, ..fields },
            seen.push(key),
            no_nesting(),
        ),
{
    reveal_strlit("name");
    reveal_strlit("description");
    let line = lines[i];
    let n = key.len() as int;
    known_keys_are_plain(key);
    assert(line[0] == key[0]);
    assert(line.last() == text.last());
    assert(trim_start(line) == line);
    assert(trim_end(line) == line);
    assert(trim(line) == line);
    assert forall|j: int| 0 <= j < n implies #[trigger] line[j] != ':' by {
        assert(line[j] == key[j]);
    }
    assert(line[n] == ':');
    place_is(line, ':', n);
    assert(line.take(n) =~= key);
    assert(line.skip(n + 1) =~= seq![' '] + text + Seq::<char>::empty());
    trimming_drops_the_space_around(seq![' '], text, Seq::empty());
    plain_values_are_read(text, lines, i + 1);
    assert("name"@.len() == 4 && "description"@.len() == 11);
}

proof fn known_keys_are_plain(key: Seq<char>)
    requires
        key == "name"@ || key == "description"@,
    ensures
        key.len() > 0,
        key[0] == 'n' || key[0] == 'd',
        forall|j: int| 0 <= j < key.len() ==> #[trigger] key[j] != ':',
        canonical_key(lower(trim(key))) == key,
        is_text_field(key),
{
    reveal_strlit("name");
    reveal_strlit("description");
    reveal_strlit("disable_model_invocation");
    reveal_strlit("user_invocable");
    reveal_strlit("usage_kind");
    reveal_strlit("alias");
    reveal_strlit("tag");
    reveal_strlit("phase");
    assert(trim_start(key) == key);
    assert(key.last() == 'e' || key.last() == 'n');
    assert(trim_end(key) == key);
    assert(forall|j: int| 0 <= j < key.len() ==> !('A' <= #[trigger] key[j] <= 'Z'));
    assert(lower(key) =~= key);
    assert("disable_model_invocation"@.len() == 24 && "user_invocable"@.len() == 14
        && "usage_kind"@.len() == 10 && "alias"@.len() == 5 && "tag"@.len() == 3 && "phase"@.len()
        == 5);
}

proof fn items_begin_later(inner: Seq<char>, start: int, i: int, quote: Option<char>, o: int)
    requires
        0 <= o <= inner.len(),
        0 <= start <= i,
        start <= inner.len() - o,
    ensures
        flow_items(inner, start + o, i + o, quote) == flow_items(inner.skip(o), start, i, quote),
    decreases inner.len() - o - i,
{
    let later = inner.skip(o);
    assert(inner.skip(start + o) =~= later.skip(start));
    if i < later.len() {
        assert(inner[i + o] == later[i]);
        assert(inner.subrange(start + o, i + o) =~= later.subrange(start, i));
        if i + 1 < later.len() {
            assert(inner[i + o + 1] == later[i + 1]);
        }
        items_begin_later(inner, start, i + 1, None, o);
        items_begin_later(inner, start, i + 1, quote, o);
        items_begin_later(inner, i + 1, i + 1, None, o);
        match quote {
            Some(_) => {
                if i + 1 < later.len() {
                    items_begin_later(inner, start, i + 2, quote, o);
                }
            },
            None => {
                items_begin_later(inner, start, i + 1, Some(later[i]), o);
            },
        }
    }
}

/// Is this a list element that needs no quoting?
pub open spec fn is_plain_element(text: Seq<char>) -> bool {
    forall|k: int|
        0 <= k < text.len() ==> #[trigger] text[k] != ',' && text[k] != '"' && text[k] != '\''
}

proof fn plain_elements_go_on(inner: Seq<char>, n: int, i: int)
    requires
        0 <= i <= n <= inner.len(),
        is_plain_element(inner.take(n)),
        n < inner.len() ==> inner[n] == ',',
    ensures
        flow_items(inner, 0, i, None) == flow_items(inner, 0, n, None),
    decreases n - i,
{
    if i < n {
        assert(inner.take(n)[i] == inner[i]);
        plain_elements_go_on(inner, n, i + 1);
    }
}

/// A list is split at its commas: what stands before the first is the first
/// element, without the space around it, and the others are those of what
/// follows.
pub proof fn lists_are_split_at_commas(element: Seq<char>, rest: Seq<char>)
    requires
        is_plain_element(element),
    ensures
        flow_items(element + seq![','] + rest, 0, 0, None) == seq![trim(element)] + flow_items(
            rest,
            0,
            0,
            None,
        ),
        flow_items(element, 0, 0, None) == seq![trim(element)],
{
    let inner = element + seq![','] + rest;
    let n = element.len() as int;
    assert(inner.take(n) =~= element);
    plain_elements_go_on(inner, n, 0);
    assert(inner[n] == ',');
    assert(inner.subrange(0, n) =~= element);
    items_begin_later(inner, 0, 0, None, n + 1);
    assert(inner.skip(n + 1) =~= rest);
    assert(element.take(n) =~= element);
    plain_elements_go_on(element, n, 0);
    assert(element.skip(0) =~= element);
}

} // verus!
