//! Bounded frontmatter and skill metadata parsing.
//!
//! A skill file has at most 256 KiB and its frontmatter at most 16 KiB. A byte
//! order mark and CRLF line ends are handled transparently. Anchors, aliases
//! and duplicate keys are refused. Without frontmatter the first heading and
//! paragraph stand in. Diagnostics never echo the text.
use crate::chars::{
    after_char, begins, begins_with, byte_len_of, contains, copy_chars, count_char, count_of,
    find_char, has_prefix, head, indent_of, indentation, is_text, line_views, lines, lines_of, lower, lowered,
    occurs_at, part, place_bounds, place_of, split, starts_with, tail, trimming_shortens,
};
use crate::output::ErrorKind;
use crate::text::{
    byte_length, chars_of, copy_text, decimal, decimal_text, is_whitespace, join, optional_text,
    same_chars, string_of, texts, trim, trim_end, trim_start, trimmed, trimmed_end, trimmed_start,
    utf8_text,
    whitespace,
};
use vstd::prelude::*;
use vstd::string::*;
use vstd::utf8::*;

pub mod fields;
pub mod line_ends;
pub mod reading;

verus! {

/// Maximum bytes of a skill file (256 KiB).
pub const MAX_SKILL_FILE_BYTES: usize = 262_144;

/// Maximum bytes of YAML frontmatter (16 KiB).
pub const MAX_FRONTMATTER_BYTES: usize = 16_384;

/// Maximum characters of the wide stage's description excerpt.
pub const WIDE_DESCRIPTION_MAX_SCALARS: usize = 160;

/// Maximum characters of the rerank stage's description.
pub const RERANK_DESCRIPTION_MAX_SCALARS: usize = 1000;

/// Maximum characters of the body excerpt.
pub const BODY_EXCERPT_MAX_SCALARS: usize = 700;

/// Body characters kept beyond the excerpt, so that a secret that starts
/// inside the excerpt is seen whole before the excerpt is cut.
pub const REDACTION_LOOKAHEAD_SCALARS: usize = 1024;

/// Maximum nesting depth of frontmatter.
pub const MAX_FRONTMATTER_DEPTH: usize = 8;

/// Why skill metadata could not be read. It holds none of the text.
#[derive(Clone, Copy, Debug, PartialEq, Eq, Structural)]
pub enum FrontmatterError {
    FileTooLarge(usize),
    FrontmatterTooLarge(usize),
    UnclosedFrontmatter,
    DuplicateKey,
    AliasForbidden,
    InvalidYamlSyntax,
    NestingTooDeep,
    InvalidUtf8,
}

impl FrontmatterError {
    pub fn kind(&self) -> (kind: ErrorKind)
        ensures
            kind == (if *self is FileTooLarge || *self is FrontmatterTooLarge {
                ErrorKind::OversizedInput
            } else {
                ErrorKind::MalformedInput
            }),
    {
        match self {
            FrontmatterError::FileTooLarge(_) => ErrorKind::OversizedInput,
            FrontmatterError::FrontmatterTooLarge(_) => ErrorKind::OversizedInput,
            _ => ErrorKind::MalformedInput,
        }
    }

    pub open spec fn text(self) -> Seq<char> {
        match self {
            FrontmatterError::FileTooLarge(len) => "skill file exceeds size limit ("@ + decimal(
                len as nat,
            ) + " bytes > 262144)"@,
            FrontmatterError::FrontmatterTooLarge(len) => "frontmatter exceeds size limit ("@
                + decimal(len as nat) + " bytes > 16384)"@,
            FrontmatterError::UnclosedFrontmatter =>
                "unclosed frontmatter: missing closing '---' or '...' delimiter"@,
            FrontmatterError::DuplicateKey => "duplicate key rejected in skill frontmatter"@,
            FrontmatterError::AliasForbidden =>
                "YAML anchors and aliases are forbidden in skill frontmatter"@,
            FrontmatterError::InvalidYamlSyntax => "malformed YAML syntax in skill frontmatter"@,
            FrontmatterError::NestingTooDeep =>
                "frontmatter nesting exceeds maximum allowed depth (8)"@,
            FrontmatterError::InvalidUtf8 => "skill content contains invalid UTF-8 bytes"@,
        }
    }

    pub fn message(&self) -> (text: String)
        ensures
            text@ == self.text(),
    {
        match self {
            FrontmatterError::FileTooLarge(len) => {
                let n: String = decimal_text(*len as u64);
                join("skill file exceeds size limit (", n.as_str()).concat(" bytes > 262144)")
            },
            FrontmatterError::FrontmatterTooLarge(len) => {
                let n: String = decimal_text(*len as u64);
                join("frontmatter exceeds size limit (", n.as_str()).concat(" bytes > 16384)")
            },
            FrontmatterError::UnclosedFrontmatter => copy_text(
                "unclosed frontmatter: missing closing '---' or '...' delimiter",
            ),
            FrontmatterError::DuplicateKey => copy_text(
                "duplicate key rejected in skill frontmatter",
            ),
            FrontmatterError::AliasForbidden => copy_text(
                "YAML anchors and aliases are forbidden in skill frontmatter",
            ),
            FrontmatterError::InvalidYamlSyntax => copy_text(
                "malformed YAML syntax in skill frontmatter",
            ),
            FrontmatterError::NestingTooDeep => copy_text(
                "frontmatter nesting exceeds maximum allowed depth (8)",
            ),
            FrontmatterError::InvalidUtf8 => copy_text("skill content contains invalid UTF-8 bytes"),
        }
    }
}

/// The text without the line ends that it begins with.
pub open spec fn skip_line_ends(text: Seq<char>) -> Seq<char>
    decreases text.len(),
{
    if text.len() > 0 && (text[0] == '\r' || text[0] == '\n') {
        skip_line_ends(text.drop_first())
    } else {
        text
    }
}

/// Where the closing delimiter line begins, at or after the line start `from`.
pub open spec fn closing_line(text: Seq<char>, from: int) -> Option<int>
    decreases text.len() - from,
    via closing_line_terminates
{
    if from < 0 || from >= text.len() {
        None
    } else {
        let rest = text.skip(from);
        let k = place_of(rest, '\n');
        let line = trim(rest.take(k));
        if line == "---"@ || line == "..."@ {
            Some(from)
        } else if k < rest.len() {
            closing_line(text, from + k + 1)
        } else {
            None
        }
    }
}

#[via_fn]
proof fn closing_line_terminates(text: Seq<char>, from: int) {
    if 0 <= from < text.len() {
        place_bounds(text.skip(from), '\n');
    }
}

/// A document split into its frontmatter, where it has one, and its body.
pub open spec fn split_document(content: Seq<char>) -> Result<
    (Option<Seq<char>>, Seq<char>),
    FrontmatterError,
> {
    let start = skip_line_ends(content);
    let rest = start.skip(3);
    let opening = rest.take(place_of(rest, '\n'));
    let inner = after_char(rest, '\n');
    if !has_prefix(start, "---"@) || trim(opening).len() > 0 {
        Ok((None, content))
    } else {
        match closing_line(inner, 0) {
            None => Err(FrontmatterError::UnclosedFrontmatter),
            Some(end) => if byte_length(inner.take(end)) > MAX_FRONTMATTER_BYTES {
                Err(FrontmatterError::FrontmatterTooLarge(byte_length(inner.take(end)) as usize))
            } else {
                Ok((Some(inner.take(end)), after_char(inner.skip(end), '\n')))
            },
        }
    }
}

fn find_closing_line(text: &[char]) -> (end: Option<usize>)
    ensures
        match end {
            Some(k) => closing_line(text@, 0) == Some(k as int) && k < text@.len(),
            None => closing_line(text@, 0) is None,
        },
{
    let total: usize = text.len();
    let mut from: usize = 0;
    while from < total
        invariant
            total == text@.len(),
            from <= total,
            closing_line(text@, 0) == closing_line(text@, from as int),
        decreases total - from,
    {
        let rest: &[char] = tail(text, from);
        let k: usize = find_char(rest, '\n');
        let line: &[char] = trimmed(head(rest, k));
        if is_text(line, "---") || is_text(line, "...") {
            return Some(from);
        }
        if k == rest.len() {
            return None;
        }
        from = from + k + 1;
    }
    None
}

fn after(text: &[char], c: char) -> (r: &[char])
    ensures
        r@ == after_char(text@, c),
{
    let k: usize = find_char(text, c);
    if k < text.len() {
        tail(text, k + 1)
    } else {
        let r: &[char] = tail(text, text.len());
        assert(r@ =~= Seq::empty());
        r
    }
}

/// Split a document into its frontmatter, where it has one, and its body.
pub fn extract_frontmatter(content: &[char]) -> (r: Result<
    (Option<&[char]>, &[char]),
    FrontmatterError,
>)
    ensures
        match r {
            Ok((frontmatter, body)) => split_document(content@) == Ok::<
                (Option<Seq<char>>, Seq<char>),
                FrontmatterError,
            >(
                (
                    match frontmatter {
                        Some(text) => Some(text@),
                        None => None,
                    },
                    body@,
                ),
            ),
            Err(error) => split_document(content@) == Err::<
                (Option<Seq<char>>, Seq<char>),
                FrontmatterError,
            >(error),
        },
{
    let mut skip: usize = 0;
    assert(content@.skip(0) =~= content@);
    while skip < content.len() && (content[skip] == '\r' || content[skip] == '\n')
        invariant
            skip <= content@.len(),
            skip_line_ends(content@) == skip_line_ends(content@.skip(skip as int)),
        decreases content@.len() - skip,
    {
        assert(content@.skip(skip as int).drop_first() =~= content@.skip(skip as int + 1));
        skip += 1;
    }
    let start: &[char] = tail(content, skip);
    assert(start@ == skip_line_ends(content@));
    if !starts_with(start, "---") {
        return Ok((None, content));
    }
    proof {
        reveal_strlit("---");
    }
    let rest: &[char] = tail(start, 3);
    let line_end: usize = find_char(rest, '\n');
    if trimmed(head(rest, line_end)).len() > 0 {
        return Ok((None, content));
    }
    let inner: &[char] = after(rest, '\n');
    let end: usize = match find_closing_line(inner) {
        Some(end) => end,
        None => {
            return Err(FrontmatterError::UnclosedFrontmatter);
        },
    };
    let raw: &[char] = head(inner, end);
    let size: usize = byte_len_of(raw);
    if size > MAX_FRONTMATTER_BYTES {
        return Err(FrontmatterError::FrontmatterTooLarge(size));
    }
    Ok((Some(raw), after(tail(inner, end), '\n')))
}

/// A dollar sign before a digit.
pub open spec fn is_parameter_at(text: Seq<char>, k: int) -> bool {
    0 <= k < text.len() - 1 && text[k] == '$' && '0' <= text[k + 1] <= '9'
}

/// Does a harness substitute anything in this body when the skill is invoked?
pub open spec fn is_dynamic(body: Seq<char>) -> bool {
    (exists|at: int| occurs_at(body, "!`"@, at)) || (exists|at: int|
        occurs_at(body, "$ARGUMENTS"@, at)) || (exists|at: int| occurs_at(body, "${CLAUDE_"@, at))
        || (exists|k: int| is_parameter_at(body, k))
}

fn has_dynamic_content(body: &[char]) -> (r: bool)
    ensures
        r == is_dynamic(body@),
{
    if contains(body, "!`") || contains(body, "$ARGUMENTS") || contains(body, "${CLAUDE_") {
        return true;
    }
    let mut k: usize = 0;
    while k < body.len()
        invariant
            k <= body@.len(),
            forall|j: int| 0 <= j < k ==> !#[trigger] is_parameter_at(body@, j),
        decreases body@.len() - k,
    {
        if k + 1 < body.len() && body[k] == '$' && '0' <= body[k + 1] && body[k + 1] <= '9' {
            assert(is_parameter_at(body@, k as int));
            return true;
        }
        assert(!is_parameter_at(body@, k as int));
        k += 1;
    }
    false
}

/// An anchor or alias mark where a node begins.
pub open spec fn node_start(text: Seq<char>) -> bool {
    let t = trim_start(text);
    t.len() >= 2 && (t[0] == '&' || t[0] == '*') && !is_whitespace(t[1])
}

fn starts_node(text: &[char]) -> (r: bool)
    ensures
        r == node_start(text@),
{
    let t: &[char] = trimmed_start(text);
    t.len() >= 2 && (t[0] == '&' || t[0] == '*') && !whitespace(t[1])
}

/// The text without the closing brackets at its end.
pub open spec fn strip_closers(text: Seq<char>) -> Seq<char>
    decreases text.len(),
{
    if text.len() > 0 && (text.last() == ']' || text.last() == '}') {
        strip_closers(text.drop_last())
    } else {
        text
    }
}

/// The place of the first colon that a space follows, or the length.
pub open spec fn pair_place(text: Seq<char>) -> int
    decreases text.len(),
{
    if text.len() == 0 || (text.len() >= 2 && text[0] == ':' && text[1] == ' ') {
        0
    } else {
        1 + pair_place(text.drop_first())
    }
}

/// The value of a flow element: what follows its key, where it has one.
pub open spec fn element_value(element: Seq<char>) -> Seq<char> {
    let e = strip_closers(element);
    if pair_place(e) < e.len() {
        e.skip(pair_place(e) + 2)
    } else {
        e
    }
}

/// Does a value, or an element of a flow collection, begin with a mark?
pub open spec fn value_starts_node(value: Seq<char>) -> bool {
    let v = trim(value);
    if begins(v, '[') || begins(v, '{') {
        exists|i: int|
            0 <= i < split(v.skip(1), ',').len() && node_start(
                element_value(#[trigger] split(v.skip(1), ',')[i]),
            )
    } else {
        node_start(v)
    }
}

/// A sequence item's own text, or the whole text of any other line.
pub open spec fn item_body(text: Seq<char>) -> Seq<char> {
    if begins(text, '-') && (text.len() == 1 || text[1] == ' ') {
        trim_start(text.skip(1))
    } else {
        text
    }
}

/// What follows the first colon, or the whole text where there is none.
pub open spec fn value_part(body: Seq<char>) -> Seq<char> {
    if place_of(body, ':') < body.len() {
        after_char(body, ':')
    } else {
        body
    }
}

/// Does the value open a block scalar?
pub open spec fn opens_block(value: Seq<char>) -> bool {
    begins(trim_start(value), '|') || begins(trim_start(value), '>')
}

/// Do the lines use an anchor or alias? `parent` is the indentation of the
/// line whose block scalar may go on here: deeper lines are its prose.
pub open spec fn anchored(lines: Seq<Seq<char>>, parent: Option<nat>) -> bool
    decreases lines.len(),
{
    if lines.len() == 0 {
        false
    } else {
        let line = lines[0];
        let text = trim(line);
        let rest = lines.drop_first();
        let body = item_body(text);
        let value = value_part(body);
        if text.len() == 0 || begins(text, '#') {
            anchored(rest, parent)
        } else if parent is Some && indentation(line) > parent->0 {
            anchored(rest, parent)
        } else if value_starts_node(value) || node_start(body) {
            true
        } else {
            anchored(
                rest,
                if opens_block(value) {
                    Some(indentation(line))
                } else {
                    None
                },
            )
        }
    }
}

proof fn pair_place_is(text: Seq<char>, k: int)
    requires
        0 <= k <= text.len(),
        forall|j: int|
            0 <= j < k ==> !(j + 1 < text.len() && #[trigger] text[j] == ':' && text[j + 1] == ' '),
        k < text.len() ==> k + 1 < text.len() && text[k] == ':' && text[k + 1] == ' ',
    ensures
        pair_place(text) == k,
    decreases k,
{
    if k > 0 {
        let rest = text.drop_first();
        assert(!(1 < text.len() && text[0] == ':' && text[1] == ' ')) by {
            let first: int = 0;
            assert(!(first + 1 < text.len() && text[first] == ':' && text[first + 1] == ' '));
        }
        assert forall|j: int| 0 <= j < k - 1 implies !(j + 1 < rest.len() && #[trigger] rest[j]
            == ':' && rest[j + 1] == ' ') by {
            assert(rest[j] == text[j + 1]);
        }
        if k < text.len() {
            assert(rest[k - 1] == text[k]);
        }
        pair_place_is(rest, k - 1);
    }
}

fn element_value_of(element: &[char]) -> (r: &[char])
    ensures
        r@ == element_value(element@),
{
    let mut n: usize = element.len();
    assert(element@.take(n as int) =~= element@);
    while n > 0 && (element[n - 1] == ']' || element[n - 1] == '}')
        invariant
            n <= element@.len(),
            strip_closers(element@) == strip_closers(element@.take(n as int)),
        decreases n,
    {
        assert(element@.take(n as int).last() == element@[n as int - 1]);
        assert(element@.take(n as int).drop_last() =~= element@.take(n as int - 1));
        n -= 1;
    }
    assert(n > 0 ==> element@.take(n as int).last() == element@[n as int - 1]);
    let e: &[char] = head(element, n);
    let total: usize = e.len();
    let mut k: usize = 0;
    while k < total && !(k + 1 < total && e[k] == ':' && e[k + 1] == ' ')
        invariant
            total == e@.len(),
            k <= total,
            forall|j: int|
                0 <= j < k ==> !(j + 1 < e@.len() && #[trigger] e@[j] == ':' && e@[j + 1] == ' '),
        decreases total - k,
    {
        k += 1;
    }
    proof {
        pair_place_is(e@, k as int);
    }
    if k < total {
        tail(e, k + 2)
    } else {
        e
    }
}

proof fn split_step(text: Seq<char>, c: char, from: int, k: int, done: Seq<Seq<char>>)
    requires
        0 <= from <= text.len(),
        k == place_of(text.skip(from), c),
        0 <= k < text.len() - from,
        done + split(text.skip(from), c) == split(text, c),
    ensures
        done.push(text.subrange(from, from + k)) + split(text.skip(from + k + 1), c) == split(
            text,
            c,
        ),
{
    let rest = text.skip(from);
    assert(rest.take(k) =~= text.subrange(from, from + k));
    assert(rest.skip(k + 1) =~= text.skip(from + k + 1));
    assert(done + (seq![rest.take(k)] + split(rest.skip(k + 1), c)) =~= done.push(
        text.subrange(from, from + k),
    ) + split(text.skip(from + k + 1), c));
}

fn value_is_node(value: &[char]) -> (r: bool)
    ensures
        r == value_starts_node(value@),
{
    let v: &[char] = trimmed(value);
    if begins_with(v, '[') || begins_with(v, '{') {
        let inner: &[char] = tail(v, 1);
        let ghost all = split(inner@, ',');
        let total: usize = inner.len();
        let mut from: usize = 0;
        let ghost mut done = Seq::<Seq<char>>::empty();
        assert(inner@.skip(0) =~= inner@);
        assert(done + split(inner@.skip(0), ',') =~= all);
        loop
            invariant
                total == inner@.len(),
                from <= total,
                inner@ == v@.skip(1),
                v@ == trim(value@),
                begins(v@, '[') || begins(v@, '{'),
                all == split(inner@, ','),
                done + split(inner@.skip(from as int), ',') == all,
                forall|i: int| 0 <= i < done.len() ==> !node_start(element_value(#[trigger] done[i])),
            decreases total - from,
        {
            let rest: &[char] = tail(inner, from);
            let k: usize = find_char(rest, ',');
            let element: &[char] = head(rest, k);
            assert(element@ =~= inner@.subrange(from as int, from + k));
            let found: bool = starts_node(element_value_of(element));
            assert(all[done.len() as int] == element@) by {
                assert(split(rest@, ',')[0] =~= element@);
                assert((done + split(rest@, ','))[done.len() as int] == split(rest@, ',')[0]);
            }
            if found {
                return true;
            }
            if k == rest.len() {
                assert(all =~= done.push(element@)) by {
                    assert(split(rest@, ',') =~= seq![element@]);
                }
                return false;
            }
            proof {
                split_step(inner@, ',', from as int, k as int, done);
                done = done.push(element@);
            }
            from = from + k + 1;
        }
    } else {
        starts_node(v)
    }
}

fn item_body_of(text: &[char]) -> (r: &[char])
    ensures
        r@ == item_body(text@),
{
    if begins_with(text, '-') && (text.len() == 1 || text[1] == ' ') {
        trimmed_start(tail(text, 1))
    } else {
        text
    }
}

fn value_part_of(body: &[char]) -> (r: &[char])
    ensures
        r@ == value_part(body@),
{
    let k: usize = find_char(body, ':');
    if k < body.len() {
        after(body, ':')
    } else {
        body
    }
}

fn block_opens(value: &[char]) -> (r: bool)
    ensures
        r == opens_block(value@),
{
    let v: &[char] = trimmed_start(value);
    begins_with(v, '|') || begins_with(v, '>')
}

/// Do the lines use an anchor or alias?
fn uses_anchor_or_alias(list: &Vec<Vec<char>>) -> (r: bool)
    ensures
        r == anchored(line_views(list@), None),
{
    let ghost all = line_views(list@);
    let mut parent: Option<usize> = None;
    let ghost mut parent_view: Option<nat> = None;
    let mut i: usize = 0;
    assert(all.skip(0) =~= all);
    while i < list.len()
        invariant
            i <= list@.len(),
            all == line_views(list@),
            parent_view == (match parent {
                Some(p) => Some(p as nat),
                None => None,
            }),
            anchored(all, None) == anchored(all.skip(i as int), parent_view),
        decreases list@.len() - i,
    {
        let line: &[char] = list[i].as_slice();
        assert(all.skip(i as int)[0] == line@);
        assert(all.skip(i as int).drop_first() =~= all.skip(i as int + 1));
        let text: &[char] = trimmed(line);
        if text.len() > 0 && !begins_with(text, '#') {
            let indent: usize = indent_of(line);
            let inside: bool = match parent {
                Some(p) => indent > p,
                None => false,
            };
            if !inside {
                let body: &[char] = item_body_of(text);
                let value: &[char] = value_part_of(body);
                if value_is_node(value) || starts_node(body) {
                    return true;
                }
                if block_opens(value) {
                    parent = Some(indent);
                    proof {
                        parent_view = Some(indent as nat);
                    }
                } else {
                    parent = None;
                    proof {
                        parent_view = None;
                    }
                }
            }
        }
        i += 1;
    }
    false
}

/// May a quoted scalar begin after this character?
pub open spec fn is_node_boundary(prev: Option<char>) -> bool {
    prev is None || is_whitespace(prev->0) || prev->0 == '[' || prev->0 == '{' || prev->0 == ','
}

/// Where a trailing comment begins, from `i` on, or the length. `quote` is the
/// open quote, and `prev` the character before `i`.
pub open spec fn comment_place(
    value: Seq<char>,
    i: int,
    quote: Option<char>,
    prev: Option<char>,
) -> int
    decreases value.len() - i,
{
    if i < 0 || i >= value.len() {
        value.len() as int
    } else {
        let c = value[i];
        match quote {
            Some('"') => if c == '\\' && i + 1 < value.len() {
                comment_place(value, i + 2, quote, Some(c))
            } else if c == '"' {
                comment_place(value, i + 1, None, Some(c))
            } else {
                comment_place(value, i + 1, quote, Some(c))
            },
            Some(_) => if c == '\'' && i + 1 < value.len() && value[i + 1] == '\'' {
                comment_place(value, i + 2, quote, Some(c))
            } else if c == '\'' {
                comment_place(value, i + 1, None, Some(c))
            } else {
                comment_place(value, i + 1, quote, Some(c))
            },
            None => if c == '#' && (prev is None || is_whitespace(prev->0)) {
                i
            } else if (c == '"' || c == '\'') && is_node_boundary(prev) {
                comment_place(value, i + 1, Some(c), Some(c))
            } else {
                comment_place(value, i + 1, None, Some(c))
            },
        }
    }
}

/// A value without its trailing comment: a `#` at the start or after
/// whitespace, outside any quoted scalar. An apostrophe inside plain text
/// opens no quote.
pub open spec fn uncommented(value: Seq<char>) -> Seq<char> {
    trim_end(value.take(comment_place(value, 0, None, None)))
}

fn strip_comment(value: &[char]) -> (r: &[char])
    ensures
        r@ == uncommented(value@),
{
    let total: usize = value.len();
    let mut quote: Option<char> = None;
    let mut prev: Option<char> = None;
    let mut i: usize = 0;
    while i < total
        invariant
            total == value@.len(),
            i <= total,
            quote is None || quote == Some('"') || quote == Some('\''),
            comment_place(value@, 0, None, None) == comment_place(value@, i as int, quote, prev),
        decreases total - i,
    {
        let c: char = value[i];
        let mut step: usize = 1;
        match quote {
            Some(open) => {
                if open == '"' {
                    if c == '\\' && i + 1 < total {
                        step = 2;
                    } else if c == '"' {
                        quote = None;
                    }
                } else if c == '\'' {
                    if i + 1 < total && value[i + 1] == '\'' {
                        step = 2;
                    } else {
                        quote = None;
                    }
                }
            },
            None => {
                let blank: bool = match prev {
                    Some(p) => whitespace(p),
                    None => true,
                };
                if c == '#' && blank {
                    return trimmed_end(head(value, i));
                }
                let boundary: bool = match prev {
                    Some(p) => blank || p == '[' || p == '{' || p == ',',
                    None => true,
                };
                if (c == '"' || c == '\'') && boundary {
                    quote = Some(c);
                }
            },
        }
        prev = Some(c);
        i += step;
    }
    assert(value@.take(total as int) =~= value@);
    trimmed_end(value)
}

/// The value of a hexadecimal digit.
pub open spec fn hex_digit(c: char) -> Option<nat> {
    if '0' <= c <= '9' {
        Some((c as u32 - '0' as u32) as nat)
    } else if 'a' <= c <= 'f' {
        Some((c as u32 - 'a' as u32 + 10) as nat)
    } else if 'A' <= c <= 'F' {
        Some((c as u32 - 'A' as u32 + 10) as nat)
    } else {
        None
    }
}

/// The number that hexadecimal digits spell, where they all are digits.
pub open spec fn hex_number(text: Seq<char>) -> Option<nat>
    decreases text.len(),
{
    if text.len() == 0 {
        Some(0)
    } else {
        match (hex_number(text.drop_last()), hex_digit(text.last())) {
            (Some(high), Some(low)) => Some(16 * high + low),
            _ => None,
        }
    }
}

/// Is the number that of a character?
pub open spec fn is_scalar_value(n: nat) -> bool {
    n < 0xd800 || 0xe000 <= n <= 0x10ffff
}

/// The character that `digits` hexadecimal digits from `from` on spell, and
/// the place after them.
pub open spec fn hex_escape(value: Seq<char>, from: int, digits: int) -> Option<(char, int)> {
    if from + digits > value.len() {
        None
    } else {
        match hex_number(value.subrange(from, from + digits)) {
            Some(n) => if is_scalar_value(n) {
                Some((n as char, from + digits))
            } else {
                None
            },
            None => None,
        }
    }
}

/// The character that a double-quoted escape stands for, given the character
/// after its backslash; nothing for the escapes that spell out digits.
pub open spec fn simple_escape(c: char) -> Option<char> {
    if c == '0' {
        Some('\0')
    } else if c == 'a' {
        Some('\u{7}')
    } else if c == 'b' {
        Some('\u{8}')
    } else if c == 't' || c == '\t' {
        Some('\t')
    } else if c == 'n' {
        Some('\n')
    } else if c == 'v' {
        Some('\u{b}')
    } else if c == 'f' {
        Some('\u{c}')
    } else if c == 'r' {
        Some('\r')
    } else if c == 'e' {
        Some('\u{1b}')
    } else if c == ' ' || c == '"' || c == '/' || c == '\\' {
        Some(c)
    } else if c == 'N' {
        Some('\u{85}')
    } else if c == '_' {
        Some('\u{a0}')
    } else if c == 'L' {
        Some('\u{2028}')
    } else if c == 'P' {
        Some('\u{2029}')
    } else {
        None
    }
}

/// The escape at `i`, just after its backslash, and the place after it.
pub open spec fn escape_at(value: Seq<char>, i: int) -> Option<(char, int)> {
    if i >= value.len() {
        None
    } else if simple_escape(value[i]) is Some {
        Some((simple_escape(value[i])->0, i + 1))
    } else if value[i] == 'x' {
        hex_escape(value, i + 1, 2)
    } else if value[i] == 'u' {
        hex_escape(value, i + 1, 4)
    } else if value[i] == 'U' {
        hex_escape(value, i + 1, 8)
    } else {
        None
    }
}

/// `char::from_u32` gives a character exactly for the numbers of one.
#[verifier::external_body]
fn char_of(n: u32) -> (c: Option<char>)
    ensures
        match c {
            Some(c) => is_scalar_value(n as nat) && c == n as char,
            None => !is_scalar_value(n as nat),
        },
{
    char::from_u32(n)
}

fn hex_digit_of(c: char) -> (d: Option<u32>)
    ensures
        match d {
            Some(d) => hex_digit(c) == Some(d as nat) && d < 16,
            None => hex_digit(c) is None,
        },
{
    if '0' <= c && c <= '9' {
        Some(c as u32 - '0' as u32)
    } else if 'a' <= c && c <= 'f' {
        Some(c as u32 - 'a' as u32 + 10)
    } else if 'A' <= c && c <= 'F' {
        Some(c as u32 - 'A' as u32 + 10)
    } else {
        None
    }
}

/// Sixteen to the power `k`.
spec fn hex_bound(k: int) -> int
    decreases k,
{
    if k <= 0 {
        1
    } else {
        16 * hex_bound(k - 1)
    }
}

fn read_hex(value: &[char], from: usize, digits: usize) -> (r: Option<(char, usize)>)
    requires
        digits <= 8,
        from <= value@.len(),
    ensures
        match r {
            Some((c, next)) => hex_escape(value@, from as int, digits as int) == Some(
                (c, next as int),
            ) && next <= value@.len(),
            None => hex_escape(value@, from as int, digits as int) is None,
        },
{
    let total: usize = value.len();
    if digits > total - from {
        return None;
    }
    let ghost all = value@.subrange(from as int, from + digits);
    let mut n: u64 = 0;
    let mut k: usize = 0;
    let mut valid: bool = true;
    assert(all.take(0) =~= Seq::empty());
    while k < digits
        invariant
            k <= digits <= 8,
            total == value@.len(),
            from + digits <= total,
            all == value@.subrange(from as int, from + digits),
            valid ==> hex_number(all.take(k as int)) == Some(n as nat) && n < hex_bound(k as int),
            !valid ==> hex_number(all.take(k as int)) is None,
        decreases digits - k,
    {
        assert(all.take(k as int + 1).drop_last() =~= all.take(k as int));
        assert(all.take(k as int + 1).last() == value@[from + k]);
        proof {
            reveal_with_fuel(hex_bound, 10);
        }
        match hex_digit_of(value[from + k]) {
            Some(d) => {
                if valid {
                    n = 16 * n + d as u64;
                }
            },
            None => {
                valid = false;
            },
        }
        k += 1;
    }
    assert(all.take(k as int) =~= all);
    if !valid {
        return None;
    }
    proof {
        reveal_with_fuel(hex_bound, 10);
    }
    match char_of(n as u32) {
        Some(c) => Some((c, from + digits)),
        None => None,
    }
}

fn simple_escape_of(c: char) -> (r: Option<char>)
    ensures
        r == simple_escape(c),
{
    if c == '0' {
        Some('\0')
    } else if c == 'a' {
        Some('\u{7}')
    } else if c == 'b' {
        Some('\u{8}')
    } else if c == 't' || c == '\t' {
        Some('\t')
    } else if c == 'n' {
        Some('\n')
    } else if c == 'v' {
        Some('\u{b}')
    } else if c == 'f' {
        Some('\u{c}')
    } else if c == 'r' {
        Some('\r')
    } else if c == 'e' {
        Some('\u{1b}')
    } else if c == ' ' || c == '"' || c == '/' || c == '\\' {
        Some(c)
    } else if c == 'N' {
        Some('\u{85}')
    } else if c == '_' {
        Some('\u{a0}')
    } else if c == 'L' {
        Some('\u{2028}')
    } else if c == 'P' {
        Some('\u{2029}')
    } else {
        None
    }
}

fn double_quoted_escape(value: &[char], i: usize) -> (r: Option<(char, usize)>)
    requires
        i <= value@.len(),
    ensures
        match r {
            Some((c, next)) => escape_at(value@, i as int) == Some((c, next as int)) && i < next
                <= value@.len(),
            None => escape_at(value@, i as int) is None,
        },
{
    if i >= value.len() {
        return None;
    }
    let c: char = value[i];
    match simple_escape_of(c) {
        Some(decoded) => {
            return Some((decoded, i + 1));
        },
        None => {},
    }
    if c == 'x' {
        read_hex(value, i + 1, 2)
    } else if c == 'u' {
        read_hex(value, i + 1, 4)
    } else if c == 'U' {
        read_hex(value, i + 1, 8)
    } else {
        None
    }
}

/// Decode a quoted scalar from `i` on, after `decoded`: its text, and the
/// place after its closing quote. Nothing where it is not closed or holds an
/// unknown escape.
pub open spec fn quoted_from(value: Seq<char>, quote: char, i: int, decoded: Seq<char>) -> Option<
    (Seq<char>, int),
>
    decreases value.len() - i,
{
    if i < 0 || i >= value.len() {
        None
    } else {
        let c = value[i];
        if c == quote {
            if quote == '\'' && i + 1 < value.len() && value[i + 1] == '\'' {
                quoted_from(value, quote, i + 2, decoded.push('\''))
            } else {
                Some((decoded, i + 1))
            }
        } else if quote == '"' && c == '\\' {
            match escape_at(value, i + 1) {
                Some((e, next)) => if i < next <= value.len() {
                    quoted_from(value, quote, next, decoded.push(e))
                } else {
                    None
                },
                None => None,
            }
        } else {
            quoted_from(value, quote, i + 1, decoded.push(c))
        }
    }
}

/// Does the value begin with a quote?
pub open spec fn is_quoted(value: Seq<char>) -> bool {
    begins(value, '"') || begins(value, '\'')
}

/// A leading quoted scalar, decoded, and the text after its closing quote.
pub open spec fn quoted(value: Seq<char>) -> Option<(Seq<char>, Seq<char>)> {
    match quoted_from(value, value[0], 1, Seq::empty()) {
        Some((decoded, end)) => Some((decoded, value.skip(end))),
        None => None,
    }
}

/// Decode the quoted scalar that the value begins with.
fn split_quoted(value: &[char]) -> (r: Option<(Vec<char>, &[char])>)
    requires
        is_quoted(value@),
    ensures
        match r {
            Some((decoded, rest)) => quoted(value@) == Some((decoded@, rest@)),
            None => quoted(value@) is None,
        },
{
    let total: usize = value.len();
    let quote: char = value[0];
    let mut decoded: Vec<char> = Vec::new();
    let mut i: usize = 1;
    assert(decoded@ =~= Seq::empty());
    while i < total
        invariant
            total == value@.len(),
            1 <= i <= total,
            quote == value@[0],
            quoted_from(value@, quote, 1, Seq::empty()) == quoted_from(
                value@,
                quote,
                i as int,
                decoded@,
            ),
        decreases total - i,
    {
        let c: char = value[i];
        if c == quote {
            if quote == '\'' && i + 1 < total && value[i + 1] == '\'' {
                decoded.push('\'');
                i += 2;
            } else {
                return Some((decoded, tail(value, i + 1)));
            }
        } else if quote == '"' && c == '\\' {
            match double_quoted_escape(value, i + 1) {
                Some((e, next)) => {
                    decoded.push(e);
                    i = next;
                },
                None => {
                    return None;
                },
            }
        } else {
            decoded.push(c);
            i += 1;
        }
    }
    None
}

/// Decode one flow scalar: a trailing comment is dropped, a quoted scalar is
/// unquoted, and a plain one must not leave a flow collection unclosed.
pub open spec fn decode_scalar(source: Seq<char>) -> Result<Seq<char>, FrontmatterError> {
    let s = uncommented(source);
    if is_quoted(s) {
        match quoted(s) {
            Some((decoded, rest)) => if trim(rest).len() == 0 {
                Ok(decoded)
            } else {
                Err(FrontmatterError::InvalidYamlSyntax)
            },
            None => Err(FrontmatterError::InvalidYamlSyntax),
        }
    } else if count_of(s, '[') != count_of(s, ']') || count_of(s, '{') != count_of(s, '}') {
        Err(FrontmatterError::InvalidYamlSyntax)
    } else {
        Ok(s)
    }
}

fn scalar(source: &[char]) -> (r: Result<Vec<char>, FrontmatterError>)
    ensures
        match r {
            Ok(text) => decode_scalar(source@) == Ok::<Seq<char>, FrontmatterError>(text@),
            Err(error) => decode_scalar(source@) == Err::<Seq<char>, FrontmatterError>(error),
        },
{
    let s: &[char] = strip_comment(source);
    if begins_with(s, '"') || begins_with(s, '\'') {
        return match split_quoted(s) {
            Some((decoded, rest)) => if trimmed(rest).len() == 0 {
                Ok(decoded)
            } else {
                Err(FrontmatterError::InvalidYamlSyntax)
            },
            None => Err(FrontmatterError::InvalidYamlSyntax),
        };
    }
    if count_char(s, '[') != count_char(s, ']') || count_char(s, '{') != count_char(s, '}') {
        return Err(FrontmatterError::InvalidYamlSyntax);
    }
    Ok(copy_chars(s))
}

/// A dash alone, or before a space or tab.
pub open spec fn is_item(text: Seq<char>) -> bool {
    begins(text, '-') && (text.len() == 1 || text[1] == ' ' || text[1] == '\t')
}

fn is_sequence_item(text: &[char]) -> (r: bool)
    ensures
        r == is_item(text@),
{
    begins_with(text, '-') && (text.len() == 1 || text[1] == ' ' || text[1] == '\t')
}

/// A colon that the end of the text or a space or tab follows.
pub open spec fn is_separator(text: Seq<char>) -> bool {
    begins(text, ':') && (text.len() == 1 || text[1] == ' ' || text[1] == '\t')
}

fn separates(text: &[char]) -> (r: bool)
    ensures
        r == is_separator(text@),
{
    begins_with(text, ':') && (text.len() == 1 || text[1] == ' ' || text[1] == '\t')
}

/// The place of the first separating colon, or the length.
pub open spec fn separator_place(text: Seq<char>) -> int
    decreases text.len(),
{
    if text.len() == 0 || is_separator(text) {
        0
    } else {
        1 + separator_place(text.drop_first())
    }
}

/// May a mapping entry not begin with this character?
pub open spec fn is_indicator(c: char) -> bool {
    c == '#' || c == '[' || c == '{' || c == '|' || c == '>' || c == '&' || c == '*' || c == '!'
}

/// The key of a block mapping entry, decoded if it is quoted.
pub open spec fn entry_key(text: Seq<char>) -> Option<Seq<char>> {
    let plain = uncommented(text);
    let at = separator_place(plain);
    if text.len() > 0 && is_indicator(text[0]) {
        None
    } else if is_quoted(text) && quoted(text) is Some {
        let (key, rest) = quoted(text)->0;
        if is_separator(trim_start(rest)) {
            Some(key)
        } else {
            None
        }
    } else if at < plain.len() {
        Some(trim_end(plain.take(at)))
    } else {
        None
    }
}

fn mapping_key(text: &[char]) -> (key: Option<Vec<char>>)
    ensures
        match key {
            Some(k) => entry_key(text@) == Some(k@),
            None => entry_key(text@) is None,
        },
{
    if text.len() > 0 {
        let c: char = text[0];
        if c == '#' || c == '[' || c == '{' || c == '|' || c == '>' || c == '&' || c == '*' || c
            == '!' {
            return None;
        }
    }
    if begins_with(text, '"') || begins_with(text, '\'') {
        match split_quoted(text) {
            Some((key, rest)) => {
                return if separates(trimmed_start(rest)) {
                    Some(key)
                } else {
                    None
                };
            },
            None => {},
        }
    }
    let plain: &[char] = strip_comment(text);
    let total: usize = plain.len();
    let mut at: usize = 0;
    assert(plain@.skip(0) =~= plain@);
    while at < total
        invariant
            total == plain@.len(),
            at <= total,
            plain@ == uncommented(text@),
            !(text@.len() > 0 && is_indicator(text@[0])),
            !(is_quoted(text@) && quoted(text@) is Some),
            separator_place(plain@) == at + separator_place(plain@.skip(at as int)),
        decreases total - at,
    {
        let rest: &[char] = tail(plain, at);
        if separates(rest) {
            let key: Vec<char> = copy_chars(trimmed_end(head(plain, at)));
            return Some(key);
        }
        assert(plain@.skip(at as int).drop_first() =~= plain@.skip(at as int + 1));
        at += 1;
    }
    None
}

/// The mappings open beneath a top-level key: the column of each, innermost
/// last, with the keys seen at that column, and the column of a key whose
/// block scalar is being skipped.
pub struct NestedView {
    pub scopes: Seq<(nat, Seq<Seq<char>>)>,
    pub block_parent: Option<nat>,
}

pub open spec fn no_nesting() -> NestedView {
    NestedView { scopes: Seq::empty(), block_parent: None }
}

/// The scopes at or left of a column.
pub open spec fn scopes_within(scopes: Seq<(nat, Seq<Seq<char>>)>, column: nat) -> Seq<
    (nat, Seq<Seq<char>>),
>
    decreases scopes.len(),
{
    if scopes.len() == 0 {
        Seq::empty()
    } else if scopes.last().0 <= column {
        scopes_within(scopes.drop_last(), column).push(scopes.last())
    } else {
        scopes_within(scopes.drop_last(), column)
    }
}

impl NestedView {
    /// Enter a key at a column of the given scopes.
    pub open spec fn enter(scopes: Seq<(nat, Seq<Seq<char>>)>, column: nat, key: Seq<char>) -> Result<
        Seq<(nat, Seq<Seq<char>>)>,
        FrontmatterError,
    > {
        let open = scopes_within(scopes, column);
        if open.len() > 0 && open.last().0 == column {
            if open.last().1.contains(key) {
                Err(FrontmatterError::DuplicateKey)
            } else {
                Ok(open.drop_last().push((column, open.last().1.push(key))))
            }
        } else if open.len() >= MAX_FRONTMATTER_DEPTH {
            Err(FrontmatterError::NestingTooDeep)
        } else {
            Ok(open.push((column, seq![key])))
        }
    }

    /// Take in one line beneath a top-level key. Each sequence item begins a
    /// new node: mappings deeper than the item belonged to the previous one.
    pub open spec fn track(self, indent: nat, text: Seq<char>) -> Result<
        NestedView,
        FrontmatterError,
    > {
        let item = is_item(text);
        let entry = if item {
            trim_start(text.skip(1))
        } else {
            text
        };
        let column = if item {
            (indent + (byte_length(text) - byte_length(entry))) as nat
        } else {
            indent
        };
        let scopes = if item {
            scopes_within(self.scopes, indent)
        } else {
            self.scopes
        };
        if self.block_parent is Some && indent > self.block_parent->0 {
            Ok(self)
        } else {
            match entry_key(entry) {
                None => Ok(NestedView { scopes, block_parent: None }),
                Some(key) => match NestedView::enter(scopes, column, key) {
                    Err(error) => Err(error),
                    Ok(entered) => Ok(
                        NestedView {
                            scopes: entered,
                            block_parent: if opens_block(after_char(entry, ':')) {
                                Some(column)
                            } else {
                                None
                            },
                        },
                    ),
                },
            }
        }
    }
}

/// One open mapping.
struct MappingScope {
    column: usize,
    keys: Vec<Vec<char>>,
}

struct NestedMappings {
    scopes: Vec<MappingScope>,
    block_parent: Option<usize>,
}

spec fn scope_views(scopes: Seq<MappingScope>) -> Seq<(nat, Seq<Seq<char>>)> {
    scopes.map_values(|s: MappingScope| (s.column as nat, line_views(s.keys@)))
}

impl NestedMappings {
    spec fn model(self) -> NestedView {
        NestedView {
            scopes: scope_views(self.scopes@),
            block_parent: match self.block_parent {
                Some(p) => Some(p as nat),
                None => None,
            },
        }
    }

    fn new() -> (nested: NestedMappings)
        ensures
            nested.model() == no_nesting(),
    {
        let nested = NestedMappings { scopes: Vec::new(), block_parent: None };
        assert(scope_views(nested.scopes@) =~= Seq::empty());
        nested
    }

    /// Close the mappings right of a column.
    fn retain(&mut self, column: usize)
        ensures
            scope_views(final(self).scopes@) == scopes_within(
                scope_views(old(self).scopes@),
                column as nat,
            ),
            final(self).block_parent == old(self).block_parent,
    {
        let ghost all = scope_views(self.scopes@);
        let mut kept: Vec<MappingScope> = Vec::new();
        let mut removed: Vec<MappingScope> = Vec::new();
        while self.scopes.len() > 0
            invariant
                self.block_parent == old(self).block_parent,
                all == scope_views(old(self).scopes@),
                scopes_within(all, column as nat) =~= scopes_within(
                    scope_views(self.scopes@),
                    column as nat,
                ) + scope_views(removed@).reverse(),
            decreases self.scopes@.len(),
        {
            let ghost before = scope_views(self.scopes@);
            let ghost kept_before = scope_views(removed@);
            match self.scopes.pop() {
                Some(scope) => {
                    assert(scope_views(self.scopes@) =~= before.drop_last());
                    if scope.column <= column {
                        removed.push(scope);
                        assert(scope_views(removed@) =~= kept_before.push(before.last()));
                        assert(scope_views(removed@).reverse() =~= seq![before.last()]
                            + kept_before.reverse());
                    }
                },
                None => {},
            }
        }
        assert(scope_views(self.scopes@) =~= Seq::empty());
        let ghost rest = scope_views(removed@);
        while removed.len() > 0
            invariant
                self.block_parent == old(self).block_parent,
                scope_views(kept@) + scope_views(removed@).reverse() =~= rest.reverse(),
            decreases removed@.len(),
        {
            let ghost before = scope_views(removed@);
            let ghost kept_before = scope_views(kept@);
            match removed.pop() {
                Some(scope) => {
                    assert(scope_views(removed@) =~= before.drop_last());
                    kept.push(scope);
                    assert(scope_views(kept@) =~= kept_before.push(before.last()));
                    assert(before.reverse() =~= seq![before.last()] + before.drop_last().reverse());
                },
                None => {},
            }
        }
        assert(scope_views(removed@) =~= Seq::empty());
        self.scopes = kept;
    }

    /// Enter a key at a column.
    fn enter(&mut self, column: usize, key: Vec<char>) -> (r: Result<(), FrontmatterError>)
        ensures
            match r {
                Ok(_) => NestedView::enter(scope_views(old(self).scopes@), column as nat, key@)
                    == Ok::<Seq<(nat, Seq<Seq<char>>)>, FrontmatterError>(
                    scope_views(final(self).scopes@),
                ),
                Err(error) => NestedView::enter(
                    scope_views(old(self).scopes@),
                    column as nat,
                    key@,
                ) == Err::<Seq<(nat, Seq<Seq<char>>)>, FrontmatterError>(error),
            },
    {
        self.retain(column);
        let ghost open = scope_views(self.scopes@);
        let n: usize = self.scopes.len();
        if n > 0 && self.scopes[n - 1].column == column {
            let ghost keys = line_views(self.scopes@[n as int - 1].keys@);
            assert(open.last() == (column as nat, keys));
            if holds_key(&self.scopes[n - 1].keys, key.as_slice()) {
                return Err(FrontmatterError::DuplicateKey);
            }
            match self.scopes.pop() {
                Some(scope) => {
                    let mut scope: MappingScope = scope;
                    scope.keys.push(key);
                    assert(line_views(scope.keys@) =~= keys.push(key@));
                    self.scopes.push(scope);
                    assert(scope_views(self.scopes@) =~= open.drop_last().push(
                        (column as nat, keys.push(key@)),
                    ));
                },
                None => {},
            }
            Ok(())
        } else {
            if n >= MAX_FRONTMATTER_DEPTH {
                return Err(FrontmatterError::NestingTooDeep);
            }
            let mut keys: Vec<Vec<char>> = Vec::new();
            keys.push(key);
            assert(line_views(keys@) =~= seq![key@]);
            self.scopes.push(MappingScope { column, keys });
            assert(scope_views(self.scopes@) =~= open.push((column as nat, seq![key@])));
            Ok(())
        }
    }

    fn track(&mut self, indent: usize, text: &[char]) -> (r: Result<(), FrontmatterError>)
        requires
            indent + byte_length(text@) <= usize::MAX,
        ensures
            match r {
                Ok(_) => old(self).model().track(indent as nat, text@) == Ok::<
                    NestedView,
                    FrontmatterError,
                >(final(self).model()),
                Err(error) => old(self).model().track(indent as nat, text@) == Err::<
                    NestedView,
                    FrontmatterError,
                >(error),
            },
    {
        let inside: bool = match self.block_parent {
            Some(parent) => indent > parent,
            None => false,
        };
        if inside {
            return Ok(());
        }
        self.block_parent = None;
        let mut column: usize = indent;
        let mut entry: &[char] = text;
        if is_sequence_item(text) {
            self.retain(indent);
            entry = trimmed_start(tail(text, 1));
            proof {
                trimming_shortens(text@.skip(1));
                tail_is_shorter(text@);
            }
            column = indent + (byte_len_of(text) - byte_len_of(entry));
        }
        let key: Vec<char> = match mapping_key(entry) {
            Some(key) => key,
            None => {
                return Ok(());
            },
        };
        match self.enter(column, key) {
            Ok(_) => {},
            Err(error) => {
                return Err(error);
            },
        }
        if block_opens(after(entry, ':')) {
            self.block_parent = Some(column);
        } else {
            self.block_parent = None;
        }
        Ok(())
    }
}

proof fn tail_is_shorter(text: Seq<char>)
    requires
        text.len() > 0,
    ensures
        byte_length(text.skip(1)) <= byte_length(text),
{
    assert(text.skip(1) =~= text.drop_first());
}

fn holds_key(keys: &Vec<Vec<char>>, key: &[char]) -> (found: bool)
    ensures
        found == line_views(keys@).contains(key@),
{
    let mut i: usize = 0;
    while i < keys.len()
        invariant
            i <= keys@.len(),
            forall|j: int| 0 <= j < i ==> (#[trigger] keys@[j])@ != key@,
        decreases keys@.len() - i,
    {
        if same_chars(keys[i].as_slice(), key) {
            assert(line_views(keys@)[i as int] == key@);
            return true;
        }
        i += 1;
    }
    assert forall|j: int| 0 <= j < line_views(keys@).len() implies line_views(keys@)[j] != key@ by {
        assert(line_views(keys@)[j] == keys@[j]@);
    }
    false
}

/// A line that belongs to the value above it.
pub open spec fn is_indented(line: Seq<char>) -> bool {
    begins(line, ' ') || begins(line, '\t')
}

fn indented(line: &[char]) -> (r: bool)
    ensures
        r == is_indented(line@),
{
    begins_with(line, ' ') || begins_with(line, '\t')
}

pub open spec fn newlines(n: nat) -> Seq<char> {
    Seq::new(n, |i: int| '\n')
}

/// Fold the indented and blank lines from `i` on to what is `folded` already,
/// after `breaks` blank lines: lines join with a space, and each blank line
/// between them becomes a newline. The second part is the place after the
/// last line taken.
pub open spec fn fold_from(
    lines: Seq<Seq<char>>,
    i: int,
    folded: Seq<char>,
    breaks: nat,
) -> (Seq<char>, int)
    decreases lines.len() - i,
{
    if i < 0 || i >= lines.len() {
        (folded, i)
    } else {
        let text = trim(lines[i]);
        if text.len() == 0 {
            fold_from(lines, i + 1, folded, breaks + 1)
        } else if is_indented(lines[i]) {
            let joint = if folded.len() == 0 {
                Seq::empty()
            } else if breaks > 0 {
                newlines(breaks)
            } else {
                seq![' ']
            };
            fold_from(lines, i + 1, folded + joint + text, 0)
        } else {
            (folded, i)
        }
    }
}

/// A value's source text: its first line and the lines that continue it.
pub open spec fn folded(first: Seq<char>, lines: Seq<Seq<char>>, i: int) -> (Seq<char>, int) {
    fold_from(lines, i, trim(first), 0)
}

fn append_chars(text: &mut Vec<char>, more: &[char])
    ensures
        final(text)@ == old(text)@ + more@,
{
    text.extend_from_slice(more);
}

fn fold_continuation(first: &[char], list: &Vec<Vec<char>>, start: usize) -> (r: (Vec<char>, usize))
    requires
        start <= list@.len(),
    ensures
        (r.0@, r.1 as int) == folded(first@, line_views(list@), start as int),
        start <= r.1 <= list@.len(),
{
    let ghost all = line_views(list@);
    let mut text: Vec<char> = copy_chars(trimmed(first));
    let mut breaks: usize = 0;
    let mut i: usize = start;
    let ghost result = folded(first@, all, start as int);
    while i < list.len()
        invariant
            all == line_views(list@),
            start <= i <= list@.len(),
            breaks <= i - start,
            result == fold_from(all, i as int, text@, breaks as nat),
            result == folded(first@, all, start as int),
        decreases list@.len() - i,
    {
        let line: &[char] = list[i].as_slice();
        assert(all[i as int] == line@);
        let own: &[char] = trimmed(line);
        if own.len() == 0 {
            breaks += 1;
        } else if indented(line) {
            let ghost before = text@;
            if text.len() > 0 {
                if breaks > 0 {
                    let mut k: usize = 0;
                    while k < breaks
                        invariant
                            k <= breaks,
                            text@ =~= before + newlines(k as nat),
                        decreases breaks - k,
                    {
                        text.push('\n');
                        k += 1;
                    }
                } else {
                    text.push(' ');
                    assert(text@ =~= before + seq![' ']);
                }
            } else {
                assert(text@ =~= before + Seq::<char>::empty());
            }
            breaks = 0;
            append_chars(&mut text, own);
        } else {
            return (text, i);
        }
        i += 1;
    }
    (text, i)
}

/// The lines of a block scalar from `i` on: blank lines and the text of
/// indented ones. The second part is the place after the last line taken.
pub open spec fn block_from(lines: Seq<Seq<char>>, i: int, taken: Seq<Seq<char>>) -> (
    Seq<Seq<char>>,
    int,
)
    decreases lines.len() - i,
{
    if i < 0 || i >= lines.len() {
        (taken, i)
    } else if trim(lines[i]).len() == 0 {
        block_from(lines, i + 1, taken.push(Seq::empty()))
    } else if is_indented(lines[i]) {
        block_from(lines, i + 1, taken.push(trim_start(lines[i])))
    } else {
        (taken, i)
    }
}

/// Literal block: one line each.
pub open spec fn joined(list: Seq<Seq<char>>, separator: Seq<char>) -> Seq<char>
    decreases list.len(),
{
    if list.len() == 0 {
        Seq::empty()
    } else if list.len() == 1 {
        list[0]
    } else {
        joined(list.drop_last(), separator) + separator + list.last()
    }
}

/// Folded block: adjacent lines join with a space, a blank line is a newline.
pub open spec fn fold_block(list: Seq<Seq<char>>) -> Seq<char>
    decreases list.len(),
{
    if list.len() == 0 {
        Seq::empty()
    } else {
        let before = fold_block(list.drop_last());
        if list.last().len() == 0 {
            before.push('\n')
        } else if before.len() > 0 && before.last() != '\n' {
            before.push(' ') + list.last()
        } else {
            before + list.last()
        }
    }
}

fn join_lines(list: &Vec<Vec<char>>, separator: &str) -> (text: Vec<char>)
    ensures
        text@ == joined(line_views(list@), separator@),
{
    let ghost all = line_views(list@);
    let between: Vec<char> = chars_of(separator);
    let mut text: Vec<char> = Vec::new();
    let mut i: usize = 0;
    assert(all.take(0) =~= Seq::empty());
    while i < list.len()
        invariant
            all == line_views(list@),
            between@ == separator@,
            i <= list@.len(),
            text@ =~= joined(all.take(i as int), separator@),
        decreases list@.len() - i,
    {
        assert(all.take(i as int + 1).drop_last() =~= all.take(i as int));
        assert(all.take(i as int + 1).last() == list@[i as int]@);
        let ghost before = text@;
        if i > 0 {
            append_chars(&mut text, between.as_slice());
        }
        append_chars(&mut text, list[i].as_slice());
        assert(i == 0 ==> text@ =~= list@[0]@);
        i += 1;
    }
    assert(all.take(i as int) =~= all);
    text
}

fn fold_lines(list: &Vec<Vec<char>>) -> (text: Vec<char>)
    ensures
        text@ == fold_block(line_views(list@)),
{
    let ghost all = line_views(list@);
    let mut text: Vec<char> = Vec::new();
    let mut i: usize = 0;
    assert(all.take(0) =~= Seq::empty());
    while i < list.len()
        invariant
            all == line_views(list@),
            i <= list@.len(),
            text@ =~= fold_block(all.take(i as int)),
        decreases list@.len() - i,
    {
        assert(all.take(i as int + 1).drop_last() =~= all.take(i as int));
        assert(all.take(i as int + 1).last() == list@[i as int]@);
        if list[i].len() == 0 {
            text.push('\n');
        } else {
            let n: usize = text.len();
            if n > 0 && text[n - 1] != '\n' {
                text.push(' ');
            }
            append_chars(&mut text, list[i].as_slice());
        }
        i += 1;
    }
    assert(all.take(i as int) =~= all);
    text
}

/// A scalar on the line of its key and below: a block scalar, or a flow scalar
/// with the lines that continue it.
pub open spec fn scalar_or_block(immediate: Seq<char>, lines: Seq<Seq<char>>, i: int) -> Result<
    (Seq<char>, int),
    FrontmatterError,
> {
    let first = trim(immediate);
    if begins(first, '|') || begins(first, '>') {
        let (block, next) = block_from(lines, i, Seq::empty());
        Ok(
            (
                if begins(first, '>') {
                    fold_block(block)
                } else {
                    joined(block, "\n"@)
                },
                next,
            ),
        )
    } else {
        let (source, next) = folded(first, lines, i);
        match decode_scalar(source) {
            Ok(text) => Ok((text, next)),
            Err(error) => Err(error),
        }
    }
}

fn parse_scalar_or_block(immediate: &[char], list: &Vec<Vec<char>>, start: usize) -> (r: Result<
    (Vec<char>, usize),
    FrontmatterError,
>)
    requires
        start <= list@.len(),
    ensures
        match r {
            Ok((text, next)) => scalar_or_block(immediate@, line_views(list@), start as int)
                == Ok::<(Seq<char>, int), FrontmatterError>((text@, next as int)) && start <= next
                <= list@.len(),
            Err(error) => scalar_or_block(immediate@, line_views(list@), start as int) == Err::<
                (Seq<char>, int),
                FrontmatterError,
            >(error),
        },
{
    let ghost all = line_views(list@);
    let first: &[char] = trimmed(immediate);
    if begins_with(first, '|') || begins_with(first, '>') {
        let ghost result = block_from(all, start as int, Seq::empty());
        let mut block: Vec<Vec<char>> = Vec::new();
        let mut i: usize = start;
        let mut done: bool = false;
        assert(line_views(block@) =~= Seq::empty());
        while i < list.len() && !done
            invariant
                all == line_views(list@),
                start <= i <= list@.len(),
                !done ==> result == block_from(all, i as int, line_views(block@)),
                done ==> result == (line_views(block@), i as int),
            decreases (list@.len() - i) + if done {
                0int
            } else {
                1int
            },
        {
            let line: &[char] = list[i].as_slice();
            assert(all[i as int] == line@);
            let ghost before = line_views(block@);
            if trimmed(line).len() == 0 {
                let empty: Vec<char> = Vec::new();
                block.push(empty);
                assert(line_views(block@) =~= before.push(Seq::empty()));
                i += 1;
            } else if indented(line) {
                block.push(copy_chars(trimmed_start(line)));
                assert(line_views(block@) =~= before.push(trim_start(line@)));
                i += 1;
            } else {
                done = true;
            }
        }
        assert(result == (line_views(block@), i as int));
        let text: Vec<char> = if begins_with(first, '>') {
            fold_lines(&block)
        } else {
            join_lines(&block, "\n")
        };
        return Ok((text, i));
    }
    let (source, next): (Vec<char>, usize) = fold_continuation(first, list, start);
    match scalar(source.as_slice()) {
        Ok(text) => Ok((text, next)),
        Err(error) => Err(error),
    }
}

/// The text of the first line from `i` on that is neither blank nor a comment.
pub open spec fn following(lines: Seq<Seq<char>>, i: int) -> Option<Seq<char>>
    decreases lines.len() - i,
{
    if i < 0 || i >= lines.len() {
        None
    } else if trim(lines[i]).len() == 0 || begins(trim(lines[i]), '#') {
        following(lines, i + 1)
    } else {
        Some(trim(lines[i]))
    }
}

/// A field whose value must be a text. An empty value goes on below its key;
/// a collection there or on the key's line is no text.
pub open spec fn string_field(immediate: Seq<char>, lines: Seq<Seq<char>>, i: int) -> Result<
    (Seq<char>, int),
    FrontmatterError,
> {
    let first = uncommented(immediate);
    if first.len() == 0 {
        let next_text = following(lines, i);
        let (source, next) = folded(Seq::empty(), lines, i);
        if next_text is Some && (is_item(next_text->0) || entry_key(next_text->0) is Some) {
            Err(FrontmatterError::InvalidYamlSyntax)
        } else if begins(source, '[') || begins(source, '{') {
            Err(FrontmatterError::InvalidYamlSyntax)
        } else {
            match decode_scalar(source) {
                Ok(text) => Ok((text, next)),
                Err(error) => Err(error),
            }
        }
    } else if begins(first, '[') || begins(first, '{') {
        Err(FrontmatterError::InvalidYamlSyntax)
    } else {
        scalar_or_block(first, lines, i)
    }
}

fn parse_string_field(immediate: &[char], list: &Vec<Vec<char>>, start: usize) -> (r: Result<
    (Vec<char>, usize),
    FrontmatterError,
>)
    requires
        start <= list@.len(),
    ensures
        match r {
            Ok((text, next)) => string_field(immediate@, line_views(list@), start as int) == Ok::<
                (Seq<char>, int),
                FrontmatterError,
            >((text@, next as int)) && start <= next <= list@.len(),
            Err(error) => string_field(immediate@, line_views(list@), start as int) == Err::<
                (Seq<char>, int),
                FrontmatterError,
            >(error),
        },
{
    let ghost all = line_views(list@);
    let first: &[char] = strip_comment(immediate);
    if first.len() == 0 {
        let mut i: usize = start;
        let mut collection: bool = false;
        let mut done: bool = false;
        while i < list.len() && !done
            invariant
                all == line_views(list@),
                start <= i <= list@.len(),
                !done ==> !collection && following(all, start as int) == following(all, i as int),
                done ==> collection == (following(all, start as int) is Some && (is_item(
                    following(all, start as int)->0,
                ) || entry_key(following(all, start as int)->0) is Some)),
            decreases (list@.len() - i) + if done {
                0int
            } else {
                1int
            },
        {
            let text: &[char] = trimmed(list[i].as_slice());
            assert(all[i as int] == list@[i as int]@);
            if text.len() == 0 || begins_with(text, '#') {
                i += 1;
            } else {
                collection = is_sequence_item(text) || mapping_key(text).is_some();
                done = true;
            }
        }
        if collection {
            return Err(FrontmatterError::InvalidYamlSyntax);
        }
        let nothing: Vec<char> = Vec::new();
        assert(nothing@ =~= Seq::empty());
        let (source, next): (Vec<char>, usize) = fold_continuation(nothing.as_slice(), list, start);
        if begins_with(source.as_slice(), '[') || begins_with(source.as_slice(), '{') {
            return Err(FrontmatterError::InvalidYamlSyntax);
        }
        return match scalar(source.as_slice()) {
            Ok(text) => Ok((text, next)),
            Err(error) => Err(error),
        };
    }
    if begins_with(first, '[') || begins_with(first, '{') {
        return Err(FrontmatterError::InvalidYamlSyntax);
    }
    parse_scalar_or_block(first, list, start)
}

/// The truth value that a text spells.
pub open spec fn boolean_of(text: Seq<char>) -> Result<bool, FrontmatterError> {
    let s = lower(trim(text));
    if s == "true"@ || s == "yes"@ || s == "on"@ || s == "1"@ {
        Ok(true)
    } else if s == "false"@ || s == "no"@ || s == "off"@ || s == "0"@ || s == ""@ {
        Ok(false)
    } else {
        Err(FrontmatterError::InvalidYamlSyntax)
    }
}

fn parse_boolean(text: &[char]) -> (r: Result<bool, FrontmatterError>)
    ensures
        r == boolean_of(text@),
{
    let low: Vec<char> = lowered(trimmed(text));
    let s: &[char] = low.as_slice();
    if is_text(s, "true") || is_text(s, "yes") || is_text(s, "on") || is_text(s, "1") {
        Ok(true)
    } else if is_text(s, "false") || is_text(s, "no") || is_text(s, "off") || is_text(s, "0")
        || is_text(s, "") {
        Ok(false)
    } else {
        Err(FrontmatterError::InvalidYamlSyntax)
    }
}

/// The elements of a flow sequence's interior from `start` on, split at commas
/// outside quotes; `i` is where the scan stands and `quote` the open quote.
pub open spec fn flow_items(inner: Seq<char>, start: int, i: int, quote: Option<char>) -> Seq<
    Seq<char>,
>
    decreases inner.len() - i,
{
    if i < 0 || start < 0 || start > inner.len() || i >= inner.len() {
        seq![trim(inner.skip(start))]
    } else {
        let c = inner[i];
        match quote {
            Some(open) => if open == '"' && c == '\\' && i + 1 < inner.len() {
                flow_items(inner, start, i + 2, quote)
            } else if open == '\'' && c == '\'' && i + 1 < inner.len() && inner[i + 1] == '\'' {
                flow_items(inner, start, i + 2, quote)
            } else if c == open {
                flow_items(inner, start, i + 1, None)
            } else {
                flow_items(inner, start, i + 1, quote)
            },
            None => if (c == '"' || c == '\'') && trim(inner.subrange(start, i)).len() == 0 {
                flow_items(inner, start, i + 1, Some(c))
            } else if c == ',' {
                seq![trim(inner.subrange(start, i))] + flow_items(inner, i + 1, i + 1, None)
            } else {
                flow_items(inner, start, i + 1, None)
            },
        }
    }
}

fn split_flow_items(inner: &[char]) -> (items: Vec<Vec<char>>)
    ensures
        line_views(items@) == flow_items(inner@, 0, 0, None),
{
    let total: usize = inner.len();
    let ghost all = flow_items(inner@, 0, 0, None);
    let mut items: Vec<Vec<char>> = Vec::new();
    let mut start: usize = 0;
    let mut i: usize = 0;
    let mut quote: Option<char> = None;
    assert(line_views(items@) + flow_items(inner@, 0, 0, None) =~= all);
    while i < total
        invariant
            total == inner@.len(),
            start <= i <= total,
            line_views(items@) + flow_items(inner@, start as int, i as int, quote) == all,
        decreases total - i,
    {
        let c: char = inner[i];
        match quote {
            Some(open) => {
                if open == '"' && c == '\\' && i + 1 < total {
                    i += 2;
                } else if open == '\'' && c == '\'' && i + 1 < total && inner[i + 1] == '\'' {
                    i += 2;
                } else {
                    if c == open {
                        quote = None;
                    }
                    i += 1;
                }
            },
            None => {
                let so_far: &[char] = trimmed(part(inner, start, i));
                if (c == '"' || c == '\'') && so_far.len() == 0 {
                    quote = Some(c);
                    i += 1;
                } else if c == ',' {
                    let ghost before = line_views(items@);
                    let ghost rest = flow_items(inner@, i + 1, i + 1, None);
                    items.push(copy_chars(so_far));
                    assert(line_views(items@) =~= before.push(so_far@));
                    assert(before + (seq![so_far@] + rest) =~= line_views(items@) + rest);
                    start = i + 1;
                    i += 1;
                } else {
                    i += 1;
                }
            },
        }
    }
    let ghost before = line_views(items@);
    let last: &[char] = trimmed(tail(inner, start));
    items.push(copy_chars(last));
    assert(line_views(items@) =~= before.push(last@));
    assert(before + seq![last@] =~= line_views(items@));
    items
}

/// A list item's value, trimmed.
pub open spec fn clean(text: Seq<char>) -> Result<Seq<char>, FrontmatterError> {
    match decode_scalar(trim(text)) {
        Ok(s) => Ok(trim(s)),
        Err(error) => Err(error),
    }
}

fn clean_scalar(text: &[char]) -> (r: Result<Vec<char>, FrontmatterError>)
    ensures
        match r {
            Ok(s) => clean(text@) == Ok::<Seq<char>, FrontmatterError>(s@),
            Err(error) => clean(text@) == Err::<Seq<char>, FrontmatterError>(error),
        },
{
    match scalar(trimmed(text)) {
        Ok(s) => Ok(copy_chars(trimmed(s.as_slice()))),
        Err(error) => Err(error),
    }
}

/// The list without the item, or with it where it is not empty.
pub open spec fn with_item(items: Seq<Seq<char>>, item: Seq<char>) -> Seq<Seq<char>> {
    if item.len() == 0 {
        items
    } else {
        items.push(item)
    }
}

/// The non-empty cleaned elements, in order; the first element that is not a
/// scalar fails them all.
pub open spec fn clean_all(elements: Seq<Seq<char>>) -> Result<Seq<Seq<char>>, FrontmatterError>
    decreases elements.len(),
{
    if elements.len() == 0 {
        Ok(Seq::empty())
    } else {
        match (clean_all(elements.drop_last()), clean(elements.last())) {
            (Err(error), _) => Err(error),
            (Ok(_), Err(error)) => Err(error),
            (Ok(items), Ok(item)) => Ok(with_item(items, item)),
        }
    }
}

proof fn early_clean_failure(elements: Seq<Seq<char>>, n: int)
    requires
        0 <= n <= elements.len(),
        clean_all(elements.take(n)) is Err,
    ensures
        clean_all(elements) == clean_all(elements.take(n)),
    decreases elements.len() - n,
{
    if n == elements.len() {
        assert(elements.take(n) =~= elements);
    } else {
        assert(elements.take(n + 1).drop_last() =~= elements.take(n));
        early_clean_failure(elements, n + 1);
    }
}

fn push_item(items: &mut Vec<Vec<char>>, item: Vec<char>)
    ensures
        line_views(final(items)@) == with_item(line_views(old(items)@), item@),
{
    let ghost before = line_views(items@);
    if item.len() > 0 {
        items.push(item);
        assert(line_views(items@) =~= before.push(item@));
    }
}

/// The number of spaces that a line begins with.
pub open spec fn leading_spaces(line: Seq<char>) -> nat
    decreases line.len(),
{
    if begins(line, ' ') {
        1 + leading_spaces(line.drop_first())
    } else {
        0
    }
}

fn count_leading_spaces(line: &[char]) -> (n: usize)
    ensures
        n == leading_spaces(line@),
{
    let mut n: usize = 0;
    assert(line@.skip(0) =~= line@);
    while n < line.len() && line[n] == ' '
        invariant
            n <= line@.len(),
            leading_spaces(line@) == n + leading_spaces(line@.skip(n as int)),
        decreases line@.len() - n,
    {
        assert(line@.skip(n as int)[0] == ' ');
        assert(line@.skip(n as int).drop_first() =~= line@.skip(n as int + 1));
        n += 1;
    }
    assert(n < line@.len() ==> line@.skip(n as int)[0] == line@[n as int]);
    n
}

/// The items of a block sequence from line `i` on, after `items`.
pub open spec fn block_items(lines: Seq<Seq<char>>, i: int, items: Seq<Seq<char>>) -> Result<
    (Seq<Seq<char>>, int),
    FrontmatterError,
>
    decreases lines.len() - i,
{
    if i < 0 || i >= lines.len() {
        Ok((items, i))
    } else {
        let line = lines[i];
        let text = trim(line);
        if text.len() == 0 || begins(text, '#') {
            block_items(lines, i + 1, items)
        } else if leading_spaces(line) > 2 * MAX_FRONTMATTER_DEPTH {
            Err(FrontmatterError::NestingTooDeep)
        } else if (is_indented(line) || begins(line, '-')) && begins(text, '-') {
            match clean(trim(text.skip(1))) {
                Ok(item) => block_items(lines, i + 1, with_item(items, item)),
                Err(error) => Err(error),
            }
        } else {
            Ok((items, i))
        }
    }
}

/// A list: a flow sequence, a single scalar that stands for a one-item list,
/// or a block sequence below.
pub open spec fn list_or_flow(immediate: Seq<char>, lines: Seq<Seq<char>>, i: int) -> Result<
    (Seq<Seq<char>>, int),
    FrontmatterError,
> {
    let first = uncommented(immediate);
    let (source, next) = folded(first, lines, i);
    if begins(first, '[') {
        let s = uncommented(source);
        if !begins(s, '[') || s.len() < 2 || s.last() != ']' {
            Err(FrontmatterError::InvalidYamlSyntax)
        } else {
            match clean_all(flow_items(s.subrange(1, s.len() - 1), 0, 0, None)) {
                Ok(items) => Ok((items, next)),
                Err(error) => Err(error),
            }
        }
    } else if first.len() > 0 {
        match clean(source) {
            Ok(item) => Ok((with_item(Seq::empty(), item), next)),
            Err(error) => Err(error),
        }
    } else {
        block_items(lines, i, Seq::empty())
    }
}

fn parse_list_or_flow(immediate: &[char], list: &Vec<Vec<char>>, start: usize) -> (r: Result<
    (Vec<Vec<char>>, usize),
    FrontmatterError,
>)
    requires
        start <= list@.len(),
    ensures
        match r {
            Ok((items, next)) => list_or_flow(immediate@, line_views(list@), start as int) == Ok::<
                (Seq<Seq<char>>, int),
                FrontmatterError,
            >((line_views(items@), next as int)) && start <= next <= list@.len(),
            Err(error) => list_or_flow(immediate@, line_views(list@), start as int) == Err::<
                (Seq<Seq<char>>, int),
                FrontmatterError,
            >(error),
        },
{
    let ghost all = line_views(list@);
    let first: &[char] = strip_comment(immediate);
    let mut items: Vec<Vec<char>> = Vec::new();
    assert(line_views(items@) =~= Seq::empty());
    if begins_with(first, '[') {
        let (source, next): (Vec<char>, usize) = fold_continuation(first, list, start);
        let s: &[char] = strip_comment(source.as_slice());
        let n: usize = s.len();
        if !begins_with(s, '[') || n < 2 || s[n - 1] != ']' {
            return Err(FrontmatterError::InvalidYamlSyntax);
        }
        let elements: Vec<Vec<char>> = split_flow_items(part(s, 1, n - 1));
        let ghost parts = line_views(elements@);
        let mut k: usize = 0;
        assert(parts.take(0) =~= Seq::empty());
        while k < elements.len()
            invariant
                k <= elements@.len(),
                parts == line_views(elements@),
                clean_all(parts.take(k as int)) == Ok::<Seq<Seq<char>>, FrontmatterError>(
                    line_views(items@),
                ),
                list_or_flow(immediate@, all, start as int) == (match clean_all(parts) {
                    Ok(items) => Ok((items, next as int)),
                    Err(error) => Err(error),
                }),
                all == line_views(list@),
            decreases elements@.len() - k,
        {
            assert(parts.take(k as int + 1).drop_last() =~= parts.take(k as int));
            assert(parts.take(k as int + 1).last() == elements@[k as int]@);
            match clean_scalar(elements[k].as_slice()) {
                Ok(item) => push_item(&mut items, item),
                Err(error) => {
                    proof {
                        early_clean_failure(parts, k as int + 1);
                    }
                    return Err(error);
                },
            }
            k += 1;
        }
        assert(parts.take(k as int) =~= parts);
        return Ok((items, next));
    }
    if first.len() > 0 {
        let (source, next): (Vec<char>, usize) = fold_continuation(first, list, start);
        return match clean_scalar(source.as_slice()) {
            Ok(item) => {
                push_item(&mut items, item);
                Ok((items, next))
            },
            Err(error) => Err(error),
        };
    }
    let mut i: usize = start;
    while i < list.len()
        invariant
            all == line_views(list@),
            start <= i <= list@.len(),
            uncommented(immediate@).len() == 0,
            list_or_flow(immediate@, all, start as int) == block_items(
                all,
                i as int,
                line_views(items@),
            ),
        decreases list@.len() - i,
    {
        let line: &[char] = list[i].as_slice();
        assert(all[i as int] == line@);
        let text: &[char] = trimmed(line);
        if text.len() > 0 && !begins_with(text, '#') {
            if count_leading_spaces(line) > 2 * MAX_FRONTMATTER_DEPTH {
                return Err(FrontmatterError::NestingTooDeep);
            }
            if (indented(line) || begins_with(line, '-')) && begins_with(text, '-') {
                match clean_scalar(trimmed(tail(text, 1))) {
                    Ok(item) => push_item(&mut items, item),
                    Err(error) => {
                        return Err(error);
                    },
                }
            } else {
                return Ok((items, i));
            }
        }
        i += 1;
    }
    Ok((items, i))
}

proof fn fold_advances(lines: Seq<Seq<char>>, i: int, folded: Seq<char>, breaks: nat)
    requires
        0 <= i <= lines.len(),
    ensures
        i <= fold_from(lines, i, folded, breaks).1 <= lines.len(),
    decreases lines.len() - i,
{
    if i < lines.len() {
        let text = trim(lines[i]);
        if text.len() == 0 {
            fold_advances(lines, i + 1, folded, breaks + 1);
        } else if is_indented(lines[i]) {
            let joint = if folded.len() == 0 {
                Seq::empty()
            } else if breaks > 0 {
                newlines(breaks)
            } else {
                seq![' ']
            };
            fold_advances(lines, i + 1, folded + joint + text, 0);
        }
    }
}

proof fn block_advances(lines: Seq<Seq<char>>, i: int, taken: Seq<Seq<char>>)
    requires
        0 <= i <= lines.len(),
    ensures
        i <= block_from(lines, i, taken).1 <= lines.len(),
    decreases lines.len() - i,
{
    if i < lines.len() {
        block_advances(lines, i + 1, taken.push(Seq::empty()));
        block_advances(lines, i + 1, taken.push(trim_start(lines[i])));
    }
}

proof fn items_advance(lines: Seq<Seq<char>>, i: int, items: Seq<Seq<char>>)
    requires
        0 <= i <= lines.len(),
        block_items(lines, i, items) is Ok,
    ensures
        i <= block_items(lines, i, items)->Ok_0.1 <= lines.len(),
    decreases lines.len() - i,
{
    if i < lines.len() {
        let line = lines[i];
        let text = trim(line);
        if text.len() == 0 || begins(text, '#') {
            items_advance(lines, i + 1, items);
        } else if (is_indented(line) || begins(line, '-')) && begins(text, '-') {
            let item = clean(trim(text.skip(1)))->Ok_0;
            items_advance(lines, i + 1, with_item(items, item));
        }
    }
}

proof fn scalar_advances(immediate: Seq<char>, lines: Seq<Seq<char>>, i: int)
    requires
        0 <= i <= lines.len(),
    ensures
        scalar_or_block(immediate, lines, i) is Ok ==> i <= scalar_or_block(
            immediate,
            lines,
            i,
        )->Ok_0.1 <= lines.len(),
{
    fold_advances(lines, i, trim(trim(immediate)), 0);
    block_advances(lines, i, Seq::empty());
}

proof fn string_advances(immediate: Seq<char>, lines: Seq<Seq<char>>, i: int)
    requires
        0 <= i <= lines.len(),
    ensures
        string_field(immediate, lines, i) is Ok ==> i <= string_field(immediate, lines, i)->Ok_0.1
            <= lines.len(),
{
    scalar_advances(uncommented(immediate), lines, i);
    fold_advances(lines, i, trim(Seq::empty()), 0);
}

proof fn list_advances(immediate: Seq<char>, lines: Seq<Seq<char>>, i: int)
    requires
        0 <= i <= lines.len(),
    ensures
        list_or_flow(immediate, lines, i) is Ok ==> i <= list_or_flow(immediate, lines, i)->Ok_0.1
            <= lines.len(),
{
    fold_advances(lines, i, trim(uncommented(immediate)), 0);
    if block_items(lines, i, Seq::empty()) is Ok {
        items_advance(lines, i, Seq::empty());
    }
}

/// What a skill is for.
#[derive(Clone, Copy, Debug, PartialEq, Eq, Structural)]
pub enum UsageKind {
    Reference,
    Workflow,
    Unknown,
}

/// The fields that frontmatter declares.
pub struct FieldsView {
    pub name: Option<Seq<char>>,
    pub description: Seq<char>,
    pub disable_model_invocation: bool,
    pub user_invocable: bool,
    pub usage_kind: UsageKind,
    pub aliases: Seq<Seq<char>>,
    pub tags: Seq<Seq<char>>,
    pub phases: Seq<Seq<char>>,
    pub forked_context: bool,
}

pub open spec fn no_fields() -> FieldsView {
    FieldsView {
        name: None,
        description: Seq::empty(),
        disable_model_invocation: false,
        user_invocable: true,
        usage_kind: UsageKind::Unknown,
        aliases: Seq::empty(),
        tags: Seq::empty(),
        phases: Seq::empty(),
        forked_context: false,
    }
}

/// The one identity of a field that several spellings name.
pub open spec fn canonical_key(key: Seq<char>) -> Seq<char> {
    if key == "disable_model_invocation"@ {
        "disable-model-invocation"@
    } else if key == "user_invocable"@ {
        "user-invocable"@
    } else if key == "usage_kind"@ {
        "usage"@
    } else if key == "alias"@ {
        "aliases"@
    } else if key == "tag"@ {
        "tags"@
    } else if key == "phase"@ {
        "phases"@
    } else {
        key
    }
}

pub open spec fn usage_of(text: Seq<char>) -> UsageKind {
    let s = lower(trim(text));
    if s == "reference"@ {
        UsageKind::Reference
    } else if s == "workflow"@ {
        UsageKind::Workflow
    } else {
        UsageKind::Unknown
    }
}

/// Is the value of this field a text?
pub open spec fn is_text_field(key: Seq<char>) -> bool {
    key == "name"@ || key == "description"@ || key == "disable-model-invocation"@ || key
        == "user-invocable"@ || key == "usage"@ || key == "context"@
}

pub open spec fn is_list_field(key: Seq<char>) -> bool {
    key == "aliases"@ || key == "tags"@ || key == "phases"@
}

/// The fields once a text field is read.
pub open spec fn with_text(fields: FieldsView, key: Seq<char>, text: Seq<char>) -> Result<
    FieldsView,
    FrontmatterError,
> {
    if key == "name"@ {
        Ok(FieldsView { name: Some(trim(text)), ..fields })
    } else if key == "description"@ {
        Ok(FieldsView { description: trim(text), ..fields })
    } else if key == "disable-model-invocation"@ {
        match boolean_of(text) {
            Ok(b) => Ok(FieldsView { disable_model_invocation: b, ..fields }),
            Err(error) => Err(error),
        }
    } else if key == "user-invocable"@ {
        match boolean_of(text) {
            Ok(b) => Ok(FieldsView { user_invocable: b, ..fields }),
            Err(error) => Err(error),
        }
    } else if key == "usage"@ {
        Ok(FieldsView { usage_kind: usage_of(text), ..fields })
    } else {
        Ok(FieldsView { forked_context: lower(trim(text)) == "fork"@, ..fields })
    }
}

pub open spec fn with_list(fields: FieldsView, key: Seq<char>, items: Seq<Seq<char>>) -> FieldsView {
    if key == "aliases"@ {
        FieldsView { aliases: items, ..fields }
    } else if key == "tags"@ {
        FieldsView { tags: items, ..fields }
    } else {
        FieldsView { phases: items, ..fields }
    }
}

/// Read the value of one top-level field, which begins on the line of its key
/// and may go on from line `i`. The second part is the place after it.
pub open spec fn with_field(
    fields: FieldsView,
    key: Seq<char>,
    value: Seq<char>,
    lines: Seq<Seq<char>>,
    i: int,
) -> Result<(FieldsView, int), FrontmatterError> {
    if is_text_field(key) {
        match string_field(value, lines, i) {
            Err(error) => Err(error),
            Ok((text, next)) => match with_text(fields, key, text) {
                Err(error) => Err(error),
                Ok(read) => Ok((read, next)),
            },
        }
    } else if is_list_field(key) {
        match list_or_flow(value, lines, i) {
            Err(error) => Err(error),
            Ok((items, next)) => Ok((with_list(fields, key, items), next)),
        }
    } else if uncommented(value).len() == 0 {
        Ok((fields, i))
    } else {
        match scalar_or_block(value, lines, i) {
            Err(error) => Err(error),
            Ok((_, next)) => Ok((fields, next)),
        }
    }
}

/// Parse the lines from `i` on. `seen` holds the top-level keys so far, and
/// `nested` what is open beneath the last of them.
pub open spec fn parse_lines(
    lines: Seq<Seq<char>>,
    i: int,
    fields: FieldsView,
    seen: Seq<Seq<char>>,
    nested: NestedView,
) -> Result<FieldsView, FrontmatterError>
    decreases lines.len() - i,
    via parse_lines_terminates
{
    if i < 0 || i >= lines.len() {
        Ok(fields)
    } else {
        let line = lines[i];
        let text = trim(line);
        let colon = place_of(line, ':');
        let key = canonical_key(lower(trim(line.take(colon))));
        let value = trim(line.skip(colon + 1));
        if text.len() == 0 || begins(text, '#') {
            parse_lines(lines, i + 1, fields, seen, nested)
        } else if is_indented(line) || is_item(text) {
            match nested.track(indentation(line), text) {
                Err(error) => Err(error),
                Ok(inner) => parse_lines(lines, i + 1, fields, seen, inner),
            }
        } else if colon >= line.len() {
            Err(FrontmatterError::InvalidYamlSyntax)
        } else if seen.contains(key) {
            Err(FrontmatterError::DuplicateKey)
        } else {
            match with_field(fields, key, value, lines, i + 1) {
                Err(error) => Err(error),
                Ok((read, next)) => parse_lines(lines, next, read, seen.push(key), no_nesting()),
            }
        }
    }
}

#[via_fn]
proof fn parse_lines_terminates(
    lines: Seq<Seq<char>>,
    i: int,
    fields: FieldsView,
    seen: Seq<Seq<char>>,
    nested: NestedView,
) {
    if 0 <= i < lines.len() {
        let line = lines[i];
        let value = trim(line.skip(place_of(line, ':') + 1));
        string_advances(value, lines, i + 1);
        list_advances(value, lines, i + 1);
        scalar_advances(value, lines, i + 1);
    }
}

/// The fields of a frontmatter text.
pub open spec fn frontmatter_fields(yaml: Seq<char>) -> Result<FieldsView, FrontmatterError> {
    if anchored(lines(yaml), None) {
        Err(FrontmatterError::AliasForbidden)
    } else {
        parse_lines(lines(yaml), 0, no_fields(), Seq::empty(), no_nesting())
    }
}

struct FrontmatterFields {
    name: Option<Vec<char>>,
    description: Vec<char>,
    disable_model_invocation: bool,
    user_invocable: bool,
    usage_kind: UsageKind,
    aliases: Vec<Vec<char>>,
    tags: Vec<Vec<char>>,
    phases: Vec<Vec<char>>,
    forked_context: bool,
}

impl FrontmatterFields {
    spec fn model(self) -> FieldsView {
        FieldsView {
            name: match self.name {
                Some(n) => Some(n@),
                None => None,
            },
            description: self.description@,
            disable_model_invocation: self.disable_model_invocation,
            user_invocable: self.user_invocable,
            usage_kind: self.usage_kind,
            aliases: line_views(self.aliases@),
            tags: line_views(self.tags@),
            phases: line_views(self.phases@),
            forked_context: self.forked_context,
        }
    }

    fn new() -> (fields: FrontmatterFields)
        ensures
            fields.model() == no_fields(),
    {
        let fields = FrontmatterFields {
            name: None,
            description: Vec::new(),
            disable_model_invocation: false,
            user_invocable: true,
            usage_kind: UsageKind::Unknown,
            aliases: Vec::new(),
            tags: Vec::new(),
            phases: Vec::new(),
            forked_context: false,
        };
        assert(line_views(fields.aliases@) =~= Seq::empty());
        assert(line_views(fields.tags@) =~= Seq::empty());
        assert(line_views(fields.phases@) =~= Seq::empty());
        assert(fields.description@ =~= Seq::empty());
        fields
    }

    fn set_text(&mut self, key: &[char], text: &[char]) -> (r: Result<(), FrontmatterError>)
        requires
            is_text_field(key@),
        ensures
            match r {
                Ok(_) => with_text(old(self).model(), key@, text@) == Ok::<
                    FieldsView,
                    FrontmatterError,
                >(final(self).model()),
                Err(error) => with_text(old(self).model(), key@, text@) == Err::<
                    FieldsView,
                    FrontmatterError,
                >(error),
            },
    {
        if is_text(key, "name") {
            self.name = Some(copy_chars(trimmed(text)));
        } else if is_text(key, "description") {
            self.description = copy_chars(trimmed(text));
        } else if is_text(key, "disable-model-invocation") {
            match parse_boolean(text) {
                Ok(b) => {
                    self.disable_model_invocation = b;
                },
                Err(error) => {
                    return Err(error);
                },
            }
        } else if is_text(key, "user-invocable") {
            match parse_boolean(text) {
                Ok(b) => {
                    self.user_invocable = b;
                },
                Err(error) => {
                    return Err(error);
                },
            }
        } else if is_text(key, "usage") {
            let low: Vec<char> = lowered(trimmed(text));
            self.usage_kind = if is_text(low.as_slice(), "reference") {
                UsageKind::Reference
            } else if is_text(low.as_slice(), "workflow") {
                UsageKind::Workflow
            } else {
                UsageKind::Unknown
            };
        } else {
            let low: Vec<char> = lowered(trimmed(text));
            self.forked_context = is_text(low.as_slice(), "fork");
        }
        Ok(())
    }

    fn set_list(&mut self, key: &[char], items: Vec<Vec<char>>)
        requires
            is_list_field(key@),
        ensures
            final(self).model() == with_list(old(self).model(), key@, line_views(items@)),
    {
        if is_text(key, "aliases") {
            self.aliases = items;
        } else if is_text(key, "tags") {
            self.tags = items;
        } else {
            self.phases = items;
        }
    }

    /// Read the value of one top-level field.
    fn read_field(
        &mut self,
        key: &[char],
        value: &[char],
        list: &Vec<Vec<char>>,
        start: usize,
    ) -> (r: Result<usize, FrontmatterError>)
        requires
            start <= list@.len(),
        ensures
            match r {
                Ok(next) => with_field(
                    old(self).model(),
                    key@,
                    value@,
                    line_views(list@),
                    start as int,
                ) == Ok::<(FieldsView, int), FrontmatterError>((final(self).model(), next as int))
                    && start <= next <= list@.len(),
                Err(error) => with_field(
                    old(self).model(),
                    key@,
                    value@,
                    line_views(list@),
                    start as int,
                ) == Err::<(FieldsView, int), FrontmatterError>(error),
            },
    {
        if is_text(key, "name") || is_text(key, "description") || is_text(
            key,
            "disable-model-invocation",
        ) || is_text(key, "user-invocable") || is_text(key, "usage") || is_text(key, "context") {
            return match parse_string_field(value, list, start) {
                Ok((text, next)) => match self.set_text(key, text.as_slice()) {
                    Ok(_) => Ok(next),
                    Err(error) => Err(error),
                },
                Err(error) => Err(error),
            };
        }
        if is_text(key, "aliases") || is_text(key, "tags") || is_text(key, "phases") {
            return match parse_list_or_flow(value, list, start) {
                Ok((items, next)) => {
                    self.set_list(key, items);
                    Ok(next)
                },
                Err(error) => Err(error),
            };
        }
        if strip_comment(value).len() == 0 {
            return Ok(start);
        }
        match parse_scalar_or_block(value, list, start) {
            Ok((_, next)) => Ok(next),
            Err(error) => Err(error),
        }
    }
}

fn canonical(key: Vec<char>) -> (r: Vec<char>)
    ensures
        r@ == canonical_key(key@),
{
    let k: &[char] = key.as_slice();
    if is_text(k, "disable_model_invocation") {
        chars_of("disable-model-invocation")
    } else if is_text(k, "user_invocable") {
        chars_of("user-invocable")
    } else if is_text(k, "usage_kind") {
        chars_of("usage")
    } else if is_text(k, "alias") {
        chars_of("aliases")
    } else if is_text(k, "tag") {
        chars_of("tags")
    } else if is_text(k, "phase") {
        chars_of("phases")
    } else {
        key
    }
}

fn parse_yaml_frontmatter(yaml: &[char]) -> (r: Result<FrontmatterFields, FrontmatterError>)
    ensures
        match r {
            Ok(fields) => frontmatter_fields(yaml@) == Ok::<FieldsView, FrontmatterError>(
                fields.model(),
            ),
            Err(error) => frontmatter_fields(yaml@) == Err::<FieldsView, FrontmatterError>(error),
        },
{
    let list: Vec<Vec<char>> = lines_of(yaml);
    let ghost all = lines(yaml@);
    if uses_anchor_or_alias(&list) {
        return Err(FrontmatterError::AliasForbidden);
    }
    let mut fields: FrontmatterFields = FrontmatterFields::new();
    let mut seen: Vec<Vec<char>> = Vec::new();
    let mut nested: NestedMappings = NestedMappings::new();
    let mut i: usize = 0;
    assert(line_views(seen@) =~= Seq::empty());
    while i < list.len()
        invariant
            all == line_views(list@),
            i <= list@.len(),
            frontmatter_fields(yaml@) == parse_lines(
                all,
                i as int,
                fields.model(),
                line_views(seen@),
                nested.model(),
            ),
        decreases list@.len() - i,
    {
        let line: &[char] = list[i].as_slice();
        assert(all[i as int] == line@);
        let text: &[char] = trimmed(line);
        if text.len() == 0 || begins_with(text, '#') {
            i += 1;
        } else if indented(line) || is_sequence_item(text) {
            let indent: usize = indent_of(line);
            proof {
                indented_text_fits(line@);
            }
            let size: usize = byte_len_of(line);
            match nested.track(indent, text) {
                Ok(_) => {},
                Err(error) => {
                    return Err(error);
                },
            }
            i += 1;
        } else {
            let colon: usize = find_char(line, ':');
            if colon >= line.len() {
                return Err(FrontmatterError::InvalidYamlSyntax);
            }
            let key: Vec<char> = canonical(lowered(trimmed(head(line, colon))));
            let value: &[char] = trimmed(tail(line, colon + 1));
            if holds_key(&seen, key.as_slice()) {
                return Err(FrontmatterError::DuplicateKey);
            }
            nested = NestedMappings::new();
            match fields.read_field(key.as_slice(), value, &list, i + 1) {
                Ok(next) => {
                    let ghost before = line_views(seen@);
                    seen.push(key);
                    assert(line_views(seen@) =~= before.push(key@));
                    i = next;
                },
                Err(error) => {
                    return Err(error);
                },
            }
        }
    }
    Ok(fields)
}

/// The indentation of a line and its text fit into the line together.
proof fn indented_text_fits(line: Seq<char>)
    ensures
        indentation(line) + byte_length(trim(line)) <= byte_length(line),
{
    trimming_shortens(line);
    end_trimming_shortens(trim_start(line));
}

proof fn end_trimming_shortens(text: Seq<char>)
    ensures
        byte_length(trim_end(text)) <= byte_length(text),
    decreases text.len(),
{
    if text.len() > 0 && is_whitespace(text.last()) {
        end_trimming_shortens(text.drop_last());
        last_adds_bytes(text);
    }
}

proof fn last_adds_bytes(text: Seq<char>)
    requires
        text.len() > 0,
    ensures
        byte_length(text.drop_last()) <= byte_length(text),
    decreases text.len(),
{
    if text.len() > 1 {
        last_adds_bytes(text.drop_first());
        assert(text.drop_first().drop_last() =~= text.drop_last().drop_first());
        assert(text.drop_last()[0] == text[0]);
    }
}

/// What a pass over a Markdown body has found so far.
pub struct OutlineView {
    pub title: Option<Seq<char>>,
    pub paragraph: Seq<Seq<char>>,
    pub body: Seq<Seq<char>>,
    pub in_fence: bool,
    pub in_paragraph: bool,
    pub paragraph_done: bool,
}

pub open spec fn no_outline() -> OutlineView {
    OutlineView {
        title: None,
        paragraph: Seq::empty(),
        body: Seq::empty(),
        in_fence: false,
        in_paragraph: false,
        paragraph_done: false,
    }
}

impl OutlineView {
    /// Take the line into the first paragraph where it belongs to it. A blank
    /// line ends a paragraph that has begun.
    pub open spec fn with_paragraph_line(self, line: Seq<char>) -> OutlineView {
        let text = trim(line);
        let is_prose = text.len() > 0 && !begins(text, '#') && !self.in_fence;
        if self.paragraph_done {
            self
        } else if self.in_paragraph && text.len() == 0 {
            OutlineView { paragraph_done: self.paragraph.len() > 0, ..self }
        } else if is_prose {
            OutlineView { paragraph: self.paragraph.push(text), in_paragraph: true, ..self }
        } else {
            self
        }
    }

    /// Take in one line of the body. Headings inside code fences are code.
    pub open spec fn with_line(self, line: Seq<char>) -> OutlineView {
        let start = trim_start(line);
        if has_prefix(start, "```"@) || has_prefix(start, "~~~"@) {
            OutlineView { in_fence: !self.in_fence, body: self.body.push(line), ..self }
        } else if !self.in_fence && has_prefix(line, "# "@) && self.title is None {
            OutlineView { title: Some(trim(line.skip(2))), in_paragraph: true, ..self }
        } else {
            let ended = !self.in_fence && !has_prefix(line, "# "@) && (has_prefix(line, "## "@)
                || has_prefix(line, "### "@));
            let open = OutlineView {
                body: self.body.push(line),
                in_paragraph: self.in_paragraph && !ended,
                paragraph_done: self.paragraph_done || ended,
                ..self
            };
            open.with_paragraph_line(line)
        }
    }
}

/// What the lines of a Markdown body amount to.
pub open spec fn outline(lines: Seq<Seq<char>>) -> OutlineView
    decreases lines.len(),
{
    if lines.len() == 0 {
        no_outline()
    } else {
        outline(lines.drop_last()).with_line(lines.last())
    }
}

struct Outline {
    title: Option<Vec<char>>,
    paragraph: Vec<Vec<char>>,
    body: Vec<Vec<char>>,
    in_fence: bool,
    in_paragraph: bool,
    paragraph_done: bool,
}

impl Outline {
    spec fn model(self) -> OutlineView {
        OutlineView {
            title: match self.title {
                Some(t) => Some(t@),
                None => None,
            },
            paragraph: line_views(self.paragraph@),
            body: line_views(self.body@),
            in_fence: self.in_fence,
            in_paragraph: self.in_paragraph,
            paragraph_done: self.paragraph_done,
        }
    }

    fn take_line(&mut self, line: &[char])
        ensures
            final(self).model() == old(self).model().with_line(line@),
    {
        let ghost before = self.model();
        let start: &[char] = trimmed_start(line);
        if starts_with(start, "```") || starts_with(start, "~~~") {
            self.in_fence = !self.in_fence;
            self.body.push(copy_chars(line));
            assert(line_views(self.body@) =~= before.body.push(line@));
            return;
        }
        let heading: bool = starts_with(line, "# ");
        if !self.in_fence {
            if heading {
                if self.title.is_none() {
                    proof {
                        reveal_strlit("# ");
                    }
                    self.title = Some(copy_chars(trimmed(tail(line, 2))));
                    self.in_paragraph = true;
                    return;
                }
            } else if starts_with(line, "## ") || starts_with(line, "### ") {
                self.in_paragraph = false;
                self.paragraph_done = true;
            }
        }
        self.body.push(copy_chars(line));
        assert(line_views(self.body@) =~= before.body.push(line@));
        if !self.paragraph_done {
            let text: &[char] = trimmed(line);
            if self.in_paragraph && text.len() == 0 {
                if self.paragraph.len() > 0 {
                    self.paragraph_done = true;
                }
            } else if text.len() > 0 && !begins_with(text, '#') && !self.in_fence {
                let ghost lines_before = line_views(self.paragraph@);
                self.paragraph.push(copy_chars(text));
                assert(line_views(self.paragraph@) =~= lines_before.push(text@));
                self.in_paragraph = true;
            }
        }
    }
}

/// The title, first paragraph and text of a Markdown body.
fn parse_markdown_elements(body: &[char]) -> (r: (Option<Vec<char>>, Vec<char>, Vec<char>))
    ensures
        ({
            let found = outline(lines(body@));
            &&& match r.0 {
                Some(t) => found.title == Some(t@),
                None => found.title is None,
            }
            &&& r.1@ == trim(joined(found.paragraph, " "@))
            &&& r.2@ == trim(joined(found.body, "\n"@))
        }),
{
    let list: Vec<Vec<char>> = lines_of(body);
    let ghost all = lines(body@);
    let mut found = Outline {
        title: None,
        paragraph: Vec::new(),
        body: Vec::new(),
        in_fence: false,
        in_paragraph: false,
        paragraph_done: false,
    };
    assert(line_views(found.paragraph@) =~= Seq::empty());
    assert(line_views(found.body@) =~= Seq::empty());
    let mut i: usize = 0;
    assert(all.take(0) =~= Seq::empty());
    while i < list.len()
        invariant
            all == line_views(list@),
            i <= list@.len(),
            found.model() == outline(all.take(i as int)),
        decreases list@.len() - i,
    {
        assert(all.take(i as int + 1).drop_last() =~= all.take(i as int));
        assert(all.take(i as int + 1).last() == list@[i as int]@);
        found.take_line(list[i].as_slice());
        i += 1;
    }
    assert(all.take(i as int) =~= all);
    let paragraph: Vec<char> = join_lines(&found.paragraph, " ");
    let text: Vec<char> = join_lines(&found.body, "\n");
    (
        found.title,
        copy_chars(trimmed(paragraph.as_slice())),
        copy_chars(trimmed(text.as_slice())),
    )
}

/// What a parse noticed without failing.
#[derive(Clone, Copy, Debug, PartialEq, Eq, Structural)]
pub enum ParseWarning {
    MissingFrontmatter,
}

/// Metadata extracted from a skill file.
#[derive(Clone, Debug)]
pub struct ParsedSkillMetadata {
    /// From frontmatter, else the first heading.
    pub name: Option<String>,
    /// From frontmatter, else the first paragraph.
    pub description: String,
    /// The whole description, for uses that redact before they cut.
    pub description_full: String,
    pub description_short: String,
    pub body_excerpt: String,
    /// The body's excerpt and look-ahead: redact this, then cut the excerpt.
    pub body_window: String,
    pub agent_invocable: bool,
    pub user_invocable: bool,
    pub usage_kind: UsageKind,
    pub aliases: Vec<String>,
    pub tags: Vec<String>,
    pub phases: Vec<String>,
    pub forked_context: bool,
    pub dynamic_content: bool,
    pub parse_warnings: Vec<ParseWarning>,
    pub has_frontmatter: bool,
    pub frontmatter_bytes: usize,
}

pub struct MetadataView {
    pub name: Option<Seq<char>>,
    pub description: Seq<char>,
    pub description_full: Seq<char>,
    pub description_short: Seq<char>,
    pub body_excerpt: Seq<char>,
    pub body_window: Seq<char>,
    pub agent_invocable: bool,
    pub user_invocable: bool,
    pub usage_kind: UsageKind,
    pub aliases: Seq<Seq<char>>,
    pub tags: Seq<Seq<char>>,
    pub phases: Seq<Seq<char>>,
    pub forked_context: bool,
    pub dynamic_content: bool,
    pub parse_warnings: Seq<ParseWarning>,
    pub has_frontmatter: bool,
    pub frontmatter_bytes: nat,
}

impl View for ParsedSkillMetadata {
    type V = MetadataView;

    open spec fn view(&self) -> MetadataView {
        MetadataView {
            name: optional_text(self.name),
            description: self.description@,
            description_full: self.description_full@,
            description_short: self.description_short@,
            body_excerpt: self.body_excerpt@,
            body_window: self.body_window@,
            agent_invocable: self.agent_invocable,
            user_invocable: self.user_invocable,
            usage_kind: self.usage_kind,
            aliases: texts(self.aliases@),
            tags: texts(self.tags@),
            phases: texts(self.phases@),
            forked_context: self.forked_context,
            dynamic_content: self.dynamic_content,
            parse_warnings: self.parse_warnings@,
            has_frontmatter: self.has_frontmatter,
            frontmatter_bytes: self.frontmatter_bytes as nat,
        }
    }
}

/// At most the first `n` characters.
pub open spec fn first_chars(text: Seq<char>, n: nat) -> Seq<char> {
    if text.len() > n {
        text.take(n as int)
    } else {
        text
    }
}

fn take_chars(text: &[char], n: usize) -> (s: String)
    ensures
        s@ == first_chars(text@, n as nat),
{
    if text.len() > n {
        string_of(head(text, n))
    } else {
        string_of(text)
    }
}

/// The metadata that fields and body amount to.
pub open spec fn metadata_of(
    fields: FieldsView,
    body: Seq<char>,
    frontmatter: Option<Seq<char>>,
) -> MetadataView {
    let found = outline(lines(body));
    let excerpt = trim(joined(found.body, "\n"@));
    let description = if fields.description.len() > 0 {
        fields.description
    } else {
        trim(joined(found.paragraph, " "@))
    };
    MetadataView {
        name: if fields.name is Some {
            fields.name
        } else {
            found.title
        },
        description,
        description_full: description,
        description_short: first_chars(description, WIDE_DESCRIPTION_MAX_SCALARS as nat),
        body_excerpt: first_chars(excerpt, BODY_EXCERPT_MAX_SCALARS as nat),
        body_window: first_chars(
            excerpt,
            (BODY_EXCERPT_MAX_SCALARS + REDACTION_LOOKAHEAD_SCALARS) as nat,
        ),
        agent_invocable: !fields.disable_model_invocation,
        user_invocable: fields.user_invocable,
        usage_kind: fields.usage_kind,
        aliases: fields.aliases,
        tags: fields.tags,
        phases: fields.phases,
        forked_context: fields.forked_context,
        dynamic_content: is_dynamic(body),
        parse_warnings: if frontmatter is Some {
            Seq::empty()
        } else {
            seq![ParseWarning::MissingFrontmatter]
        },
        has_frontmatter: frontmatter is Some,
        frontmatter_bytes: match frontmatter {
            Some(text) => byte_length(text),
            None => 0,
        },
    }
}

/// A text without the byte order mark that it may begin with.
pub open spec fn without_mark(text: Seq<char>) -> Seq<char> {
    if begins(text, '\u{feff}') {
        text.skip(1)
    } else {
        text
    }
}

/// The metadata of a skill document.
pub open spec fn skill_metadata(document: Seq<char>) -> Result<MetadataView, FrontmatterError> {
    match split_document(without_mark(document)) {
        Err(error) => Err(error),
        Ok((None, body)) => Ok(metadata_of(no_fields(), body, None)),
        Ok((Some(frontmatter), body)) => match frontmatter_fields(frontmatter) {
            Err(error) => Err(error),
            Ok(fields) => Ok(metadata_of(fields, body, Some(frontmatter))),
        },
    }
}

fn to_strings(list: &Vec<Vec<char>>) -> (r: Vec<String>)
    ensures
        texts(r@) == line_views(list@),
{
    let mut r: Vec<String> = Vec::new();
    let mut i: usize = 0;
    while i < list.len()
        invariant
            i <= list@.len(),
            r@.len() == i,
            forall|j: int| 0 <= j < i ==> (#[trigger] r@[j])@ == list@[j]@,
        decreases list@.len() - i,
    {
        r.push(string_of(list[i].as_slice()));
        i += 1;
    }
    assert(texts(r@) =~= line_views(list@));
    r
}

/// Parse a skill document.
pub fn parse_skill_document(document: &str) -> (r: Result<ParsedSkillMetadata, FrontmatterError>)
    ensures
        match r {
            Ok(metadata) => skill_metadata(document@) == Ok::<MetadataView, FrontmatterError>(
                metadata@,
            ),
            Err(error) => skill_metadata(document@) == Err::<MetadataView, FrontmatterError>(error),
        },
{
    let chars: Vec<char> = chars_of(document);
    let content: &[char] = if begins_with(chars.as_slice(), '\u{feff}') {
        tail(chars.as_slice(), 1)
    } else {
        chars.as_slice()
    };
    let (frontmatter, body): (Option<&[char]>, &[char]) = match extract_frontmatter(content) {
        Ok(parts) => parts,
        Err(error) => {
            return Err(error);
        },
    };
    let mut parse_warnings: Vec<ParseWarning> = Vec::new();
    let (fields, has_frontmatter, frontmatter_bytes): (FrontmatterFields, bool, usize) =
        match frontmatter {
        Some(text) => match parse_yaml_frontmatter(text) {
            Ok(fields) => (fields, true, byte_len_of(text)),
            Err(error) => {
                return Err(error);
            },
        },
        None => {
            parse_warnings.push(ParseWarning::MissingFrontmatter);
            (FrontmatterFields::new(), false, 0)
        },
    };
    assert(parse_warnings@ =~= (if has_frontmatter {
        Seq::empty()
    } else {
        seq![ParseWarning::MissingFrontmatter]
    }));
    let (title, paragraph, excerpt): (Option<Vec<char>>, Vec<char>, Vec<char>) =
        parse_markdown_elements(body);
    let name: Option<String> = match &fields.name {
        Some(name) => Some(string_of(name.as_slice())),
        None => match &title {
            Some(title) => Some(string_of(title.as_slice())),
            None => None,
        },
    };
    let description: &[char] = if fields.description.len() > 0 {
        fields.description.as_slice()
    } else {
        paragraph.as_slice()
    };
    Ok(
        ParsedSkillMetadata {
            name,
            description: string_of(description),
            description_full: string_of(description),
            description_short: take_chars(description, WIDE_DESCRIPTION_MAX_SCALARS),
            body_excerpt: take_chars(excerpt.as_slice(), BODY_EXCERPT_MAX_SCALARS),
            body_window: take_chars(
                excerpt.as_slice(),
                BODY_EXCERPT_MAX_SCALARS + REDACTION_LOOKAHEAD_SCALARS,
            ),
            agent_invocable: !fields.disable_model_invocation,
            user_invocable: fields.user_invocable,
            usage_kind: fields.usage_kind,
            aliases: to_strings(&fields.aliases),
            tags: to_strings(&fields.tags),
            phases: to_strings(&fields.phases),
            forked_context: fields.forked_context,
            dynamic_content: has_dynamic_content(body),
            parse_warnings,
            has_frontmatter,
            frontmatter_bytes,
        },
    )
}

/// Parse a skill file into bounded metadata.
pub fn parse_skill_metadata(content_bytes: &[u8]) -> (r: Result<
    ParsedSkillMetadata,
    FrontmatterError,
>)
    ensures
        content_bytes@.len() > MAX_SKILL_FILE_BYTES ==> r == Err::<
            ParsedSkillMetadata,
            FrontmatterError,
        >(FrontmatterError::FileTooLarge(content_bytes@.len() as usize)),
        content_bytes@.len() <= MAX_SKILL_FILE_BYTES && !valid_utf8(content_bytes@) ==> r == Err::<
            ParsedSkillMetadata,
            FrontmatterError,
        >(FrontmatterError::InvalidUtf8),
        content_bytes@.len() <= MAX_SKILL_FILE_BYTES && valid_utf8(content_bytes@) ==> match r {
            Ok(metadata) => skill_metadata(decode_utf8(content_bytes@)) == Ok::<
                MetadataView,
                FrontmatterError,
            >(metadata@),
            Err(error) => skill_metadata(decode_utf8(content_bytes@)) == Err::<
                MetadataView,
                FrontmatterError,
            >(error),
        },
{
    if content_bytes.len() > MAX_SKILL_FILE_BYTES {
        return Err(FrontmatterError::FileTooLarge(content_bytes.len()));
    }
    match utf8_text(content_bytes) {
        Some(document) => {
            proof {
                encode_utf8_decode_utf8(document@);
            }
            parse_skill_document(document)
        },
        None => Err(FrontmatterError::InvalidUtf8),
    }
}

/// Excerpts are bounded prefixes: the short description of the description,
/// and the body excerpt of its window.
pub proof fn excerpts_are_bounded_prefixes(
    fields: FieldsView,
    body: Seq<char>,
    frontmatter: Option<Seq<char>>,
)
    ensures
        ({
            let m = metadata_of(fields, body, frontmatter);
            &&& m.description_full == m.description
            &&& m.description_short.len() <= WIDE_DESCRIPTION_MAX_SCALARS
            &&& has_prefix(m.description, m.description_short)
            &&& m.body_excerpt.len() <= BODY_EXCERPT_MAX_SCALARS
            &&& m.body_window.len() <= BODY_EXCERPT_MAX_SCALARS + REDACTION_LOOKAHEAD_SCALARS
            &&& has_prefix(m.body_window, m.body_excerpt)
        }),
{
    let m = metadata_of(fields, body, frontmatter);
    assert(m.description.take(m.description_short.len() as int) =~= m.description_short);
    assert(m.body_window.take(m.body_excerpt.len() as int) =~= m.body_excerpt);
}

/// A document without frontmatter is never refused: it is all body, and the
/// parse warns of it.
pub proof fn missing_frontmatter_is_allowed(document: Seq<char>)
    requires
        !has_prefix(skip_line_ends(without_mark(document)), "---"@),
    ensures
        skill_metadata(document) == Ok::<MetadataView, FrontmatterError>(
            metadata_of(no_fields(), without_mark(document), None),
        ),
        skill_metadata(document)->Ok_0.parse_warnings == seq![ParseWarning::MissingFrontmatter],
{
}

/// The top-level keys that a parse from line `i` on reads, after `seen`.
pub open spec fn keys_read(
    lines: Seq<Seq<char>>,
    i: int,
    fields: FieldsView,
    seen: Seq<Seq<char>>,
    nested: NestedView,
) -> Seq<Seq<char>>
    decreases lines.len() - i,
    via keys_read_terminates
{
    if i < 0 || i >= lines.len() {
        seen
    } else {
        let line = lines[i];
        let text = trim(line);
        let colon = place_of(line, ':');
        let key = canonical_key(lower(trim(line.take(colon))));
        let value = trim(line.skip(colon + 1));
        if text.len() == 0 || begins(text, '#') {
            keys_read(lines, i + 1, fields, seen, nested)
        } else if is_indented(line) || is_item(text) {
            match nested.track(indentation(line), text) {
                Err(_) => seen,
                Ok(inner) => keys_read(lines, i + 1, fields, seen, inner),
            }
        } else {
            match with_field(fields, key, value, lines, i + 1) {
                Err(_) => seen.push(key),
                Ok((read, next)) => keys_read(lines, next, read, seen.push(key), no_nesting()),
            }
        }
    }
}

#[via_fn]
proof fn keys_read_terminates(
    lines: Seq<Seq<char>>,
    i: int,
    fields: FieldsView,
    seen: Seq<Seq<char>>,
    nested: NestedView,
) {
    if 0 <= i < lines.len() {
        let line = lines[i];
        let value = trim(line.skip(place_of(line, ':') + 1));
        string_advances(value, lines, i + 1);
        list_advances(value, lines, i + 1);
        scalar_advances(value, lines, i + 1);
    }
}

/// Accepted frontmatter never names a field twice, in whatever spelling.
pub proof fn accepted_fields_are_named_once(yaml: Seq<char>)
    requires
        frontmatter_fields(yaml) is Ok,
    ensures
        keys_read(lines(yaml), 0, no_fields(), Seq::empty(), no_nesting()).no_duplicates(),
{
    distinct_from(lines(yaml), 0, no_fields(), Seq::empty(), no_nesting());
}

proof fn distinct_from(
    lines: Seq<Seq<char>>,
    i: int,
    fields: FieldsView,
    seen: Seq<Seq<char>>,
    nested: NestedView,
)
    requires
        seen.no_duplicates(),
        parse_lines(lines, i, fields, seen, nested) is Ok,
    ensures
        keys_read(lines, i, fields, seen, nested).no_duplicates(),
    decreases lines.len() - i,
{
    if 0 <= i < lines.len() {
        let line = lines[i];
        let text = trim(line);
        let colon = place_of(line, ':');
        let key = canonical_key(lower(trim(line.take(colon))));
        let value = trim(line.skip(colon + 1));
        if text.len() == 0 || begins(text, '#') {
            distinct_from(lines, i + 1, fields, seen, nested);
        } else if is_indented(line) || is_item(text) {
            let inner = nested.track(indentation(line), text)->Ok_0;
            distinct_from(lines, i + 1, fields, seen, inner);
        } else {
            let (read, next) = with_field(fields, key, value, lines, i + 1)->Ok_0;
            string_advances(value, lines, i + 1);
            list_advances(value, lines, i + 1);
            scalar_advances(value, lines, i + 1);
            assert(seen.push(key).no_duplicates());
            distinct_from(lines, next, read, seen.push(key), no_nesting());
        }
    }
}

} // verus!
