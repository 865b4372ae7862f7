//! Byte order marks and carriage returns make no difference to a skill.
use crate::chars::{after_char, begins, has_prefix, lines, occurs_at, place_bounds, place_is, place_of};
use crate::roster::frontmatter::{
    closing_line, frontmatter_fields, is_dynamic, is_parameter_at, metadata_of, no_fields,
    skill_metadata, skip_line_ends, split_document, FrontmatterError, MetadataView,
};
use crate::text::{is_whitespace, trim, trim_end, trim_start};
use vstd::prelude::*;

verus! {

/// A text with a carriage return before every line feed.
pub open spec fn with_returns(text: Seq<char>) -> Seq<char>
    decreases text.len(),
    via with_returns_terminates
{
    let k = place_of(text, '\n');
    if k < text.len() {
        text.take(k) + seq!['\r', '\n'] + with_returns(text.skip(k + 1))
    } else {
        text
    }
}

#[via_fn]
proof fn with_returns_terminates(text: Seq<char>) {
    place_bounds(text, '\n');
}

/// A text without carriage returns.
pub open spec fn has_no_return(text: Seq<char>) -> bool {
    forall|i: int| 0 <= i < text.len() ==> (#[trigger] text[i]) != '\r'
}

/// The first line end of a text with returns.
proof fn first_line_end(text: Seq<char>)
    ensures
        ({
            let k = place_of(text, '\n');
            let long = with_returns(text);
            &&& 0 <= k <= text.len()
            &&& k < text.len() ==> {
                &&& place_of(long, '\n') == k + 1
                &&& long.len() > k + 1
                &&& long[k] == '\r'
                &&& long[k + 1] == '\n'
                &&& long.take(k) == text.take(k)
                &&& long.take(k + 1) == text.take(k).push('\r')
                &&& long.skip(k + 2) == with_returns(text.skip(k + 1))
            }
            &&& k == text.len() ==> long == text && place_of(long, '\n') == long.len()
        }),
{
    let k = place_of(text, '\n');
    let long = with_returns(text);
    place_bounds(text, '\n');
    if k < text.len() {
        assert forall|j: int| 0 <= j < k + 1 implies #[trigger] long[j] != '\n' by {
            if j < k {
                assert(long[j] == text[j]);
            }
        }
        place_is(long, '\n', k + 1);
        assert(long.take(k) =~= text.take(k));
        assert(long.take(k + 1) =~= text.take(k).push('\r'));
        assert(long.skip(k + 2) =~= with_returns(text.skip(k + 1)));
    }
}

/// The lines of a text are the same with returns and without.
pub proof fn lines_ignore_returns(text: Seq<char>)
    requires
        has_no_return(text),
    ensures
        lines(with_returns(text)) == lines(text),
    decreases text.len(),
{
    let k = place_of(text, '\n');
    let long = with_returns(text);
    first_line_end(text);
    if text.len() > 0 && k < text.len() {
        let rest = text.skip(k + 1);
        assert forall|i: int| 0 <= i < rest.len() implies (#[trigger] rest[i]) != '\r' by {
            assert(rest[i] == text[i + k + 1]);
        }
        lines_ignore_returns(rest);
        assert(long.take(k + 1).drop_last() =~= text.take(k));
        if k > 0 {
            assert(text.take(k).last() == text[k - 1]);
        }
    }
}

proof fn skipping_ignores_returns(text: Seq<char>)
    requires
        has_no_return(text),
    ensures
        skip_line_ends(with_returns(text)) == with_returns(skip_line_ends(text)),
        has_no_return(skip_line_ends(text)),
    decreases text.len(),
{
    let long = with_returns(text);
    first_line_end(text);
    if text.len() > 0 {
        if text[0] == '\n' {
            place_is(text, '\n', 0);
            let rest = text.skip(1);
            assert(text.drop_first() =~= rest);
            assert forall|i: int| 0 <= i < rest.len() implies (#[trigger] rest[i]) != '\r' by {
                assert(rest[i] == text[i + 1]);
            }
            skipping_ignores_returns(rest);
            assert(long[0] == '\r');
            assert(long.drop_first()[0] == '\n');
            assert(long.drop_first().drop_first() =~= long.skip(2));
            assert(skip_line_ends(long) == skip_line_ends(long.drop_first()));
            assert(skip_line_ends(long.drop_first()) == skip_line_ends(long.skip(2)));
        } else {
            assert(text[0] != '\r');
            let k = place_of(text, '\n');
            assert(k > 0) by {
                place_bounds(text, '\n');
            }
            if k < text.len() {
                assert(long[0] == long.take(k)[0]);
                assert(text.take(k)[0] == text[0]);
            }
        }
    }
}

proof fn trim_ignores_final_return(line: Seq<char>)
    ensures
        trim(line.push('\r')) == trim(line),
    decreases line.len(),
{
    let long = line.push('\r');
    if line.len() > 0 && is_whitespace(line[0]) {
        assert(long.drop_first() =~= line.drop_first().push('\r'));
        trim_ignores_final_return(line.drop_first());
    } else if line.len() == 0 {
        assert(long.drop_first() =~= Seq::empty());
        assert(trim_start(long) == trim_start(long.drop_first()));
        assert(line =~= Seq::empty());
    } else {
        assert(long[0] == line[0]);
        assert(long.drop_last() =~= line);
        assert(trim_end(long) == trim_end(line));
    }
}

/// The closing line is found in what follows a line start.
proof fn closing_line_shifts(text: Seq<char>, from: int)
    requires
        0 <= from <= text.len(),
    ensures
        closing_line(text, from) == (match closing_line(text.skip(from), 0) {
            Some(end) => Some(from + end),
            None => None,
        }),
    decreases text.len() - from,
{
    let rest = text.skip(from);
    if from < text.len() {
        let k = place_of(rest, '\n');
        place_bounds(rest, '\n');
        assert(rest.skip(0) =~= rest);
        if k < rest.len() {
            closing_line_shifts(text, from + k + 1);
            closing_line_shifts(rest, k + 1);
            assert(rest.skip(k + 1) =~= text.skip(from + k + 1));
        }
    }
}

/// The closing line is the same with returns and without, and so is what
/// stands before it and from it on.
proof fn closing_ignores_returns(text: Seq<char>)
    requires
        has_no_return(text),
    ensures
        match closing_line(text, 0) {
            None => closing_line(with_returns(text), 0) is None,
            Some(end) => {
                &&& closing_line(with_returns(text), 0) is Some
                &&& 0 <= end <= text.len()
                &&& 0 <= closing_line(with_returns(text), 0)->0 <= with_returns(text).len()
                &&& with_returns(text).take(closing_line(with_returns(text), 0)->0)
                    == with_returns(text.take(end))
                &&& with_returns(text).skip(closing_line(with_returns(text), 0)->0)
                    == with_returns(text.skip(end))
            },
        },
    decreases text.len(),
{
    let long = with_returns(text);
    let k = place_of(text, '\n');
    first_line_end(text);
    if text.len() > 0 {
        assert(text.skip(0) =~= text);
        assert(long.skip(0) =~= long);
        assert(long.len() > 0);
        let line = trim(text.take(k));
        if k < text.len() {
            trim_ignores_final_return(text.take(k));
            assert(trim(long.take(k + 1)) == line);
        }
        if line == "---"@ || line == "..."@ {
            assert(long.take(0) =~= Seq::empty());
            assert(text.take(0) =~= Seq::empty());
        } else if k < text.len() {
            let rest = text.skip(k + 1);
            assert forall|i: int| 0 <= i < rest.len() implies (#[trigger] rest[i]) != '\r' by {
                assert(rest[i] == text[i + k + 1]);
            }
            closing_ignores_returns(rest);
            closing_line_shifts(text, k + 1);
            closing_line_shifts(long, k + 2);
            match closing_line(rest, 0) {
                None => {},
                Some(inner) => {
                    let end = k + 1 + inner;
                    let far = closing_line(with_returns(rest), 0)->0;
                    let head = text.take(end);
                    assert forall|j: int| 0 <= j < k implies #[trigger] head[j] != '\n' by {
                        assert(head[j] == text[j]);
                        place_bounds(text, '\n');
                    }
                    place_bounds(text, '\n');
                    assert(head[k] == '\n');
                    place_is(head, '\n', k);
                    assert(head.take(k) =~= text.take(k));
                    assert(head.skip(k + 1) =~= rest.take(inner));
                    assert(long.take(k + 2 + far) =~= text.take(k) + seq!['\r', '\n']
                        + with_returns(rest).take(far)) by {
                        assert(long =~= text.take(k) + seq!['\r', '\n'] + with_returns(rest));
                    }
                    assert(long.skip(k + 2 + far) =~= with_returns(rest).skip(far));
                    assert(text.skip(end) =~= rest.skip(inner));
                },
            }
        }
    }
}

proof fn after_line_ignores_returns(text: Seq<char>)
    ensures
        after_char(with_returns(text), '\n') == with_returns(after_char(text, '\n')),
{
    first_line_end(text);
    if place_of(text, '\n') == text.len() {
        let none = Seq::<char>::empty();
        place_is(none, '\n', 0);
        assert(with_returns(none) == none);
    }
}

/// A pattern without line ends occurs with returns exactly where it occurs
/// without.
proof fn patterns_ignore_returns(text: Seq<char>, pattern: Seq<char>)
    requires
        pattern.len() > 0,
        forall|i: int| 0 <= i < pattern.len() ==> (#[trigger] pattern[i]) != '\r' && pattern[i] != '\n',
    ensures
        (exists|at: int| occurs_at(with_returns(text), pattern, at)) == (exists|at: int|
            occurs_at(text, pattern, at)),
    decreases text.len(),
{
    let long = with_returns(text);
    let k = place_of(text, '\n');
    let n = pattern.len() as int;
    first_line_end(text);
    if k < text.len() {
        let rest = text.skip(k + 1);
        patterns_ignore_returns(rest, pattern);
        place_bounds(text, '\n');
        if exists|at: int| occurs_at(long, pattern, at) {
            let at = choose|at: int| occurs_at(long, pattern, at);
            let found = long.subrange(at, at + n);
            if at + n <= k {
                assert(text.subrange(at, at + n) =~= long.take(k).subrange(at, at + n));
                assert(long.take(k).subrange(at, at + n) =~= found);
                assert(occurs_at(text, pattern, at));
            } else if at >= k + 2 {
                assert(with_returns(rest).subrange(at - k - 2, at - k - 2 + n) =~= found);
                assert(occurs_at(with_returns(rest), pattern, at - k - 2));
                let inner = choose|inner: int| occurs_at(rest, pattern, inner);
                assert(text.subrange(k + 1 + inner, k + 1 + inner + n) =~= rest.subrange(
                    inner,
                    inner + n,
                ));
                assert(occurs_at(text, pattern, k + 1 + inner));
            } else if at <= k {
                assert(found[k - at] == '\r');
                assert(pattern[k - at] != '\r');
            } else {
                assert(found[k + 1 - at] == '\n');
                assert(pattern[k + 1 - at] != '\n');
            }
        }
        if exists|at: int| occurs_at(text, pattern, at) {
            let at = choose|at: int| occurs_at(text, pattern, at);
            let found = text.subrange(at, at + n);
            if at + n <= k {
                assert(long.subrange(at, at + n) =~= long.take(k).subrange(at, at + n));
                assert(text.take(k).subrange(at, at + n) =~= found);
                assert(occurs_at(long, pattern, at));
            } else if at >= k + 1 {
                assert(rest.subrange(at - k - 1, at - k - 1 + n) =~= found);
                assert(occurs_at(rest, pattern, at - k - 1));
                let inner = choose|inner: int| occurs_at(with_returns(rest), pattern, inner);
                assert(long.subrange(k + 2 + inner, k + 2 + inner + n) =~= with_returns(
                    rest,
                ).subrange(inner, inner + n));
                assert(occurs_at(long, pattern, k + 2 + inner));
            } else {
                assert(found[k - at] == '\n');
                assert(pattern[k - at] != '\n');
            }
        }
    }
}

/// A parameter of one digit.
spec fn parameter(c: char) -> Seq<char> {
    seq!['$', c]
}

spec fn has_parameter(text: Seq<char>, c: char) -> bool {
    exists|at: int| occurs_at(text, parameter(c), at)
}

proof fn parameters_are_patterns(text: Seq<char>, other: Seq<char>)
    requires
        forall|c: char|
            '0' <= c <= '9' ==> #[trigger] has_parameter(text, c) == has_parameter(other, c),
    ensures
        (exists|k: int| is_parameter_at(text, k)) ==> (exists|k: int| is_parameter_at(other, k)),
{
    if exists|k: int| is_parameter_at(text, k) {
        let k = choose|k: int| is_parameter_at(text, k);
        let c = text[k + 1];
        assert(text.subrange(k, k + 2) =~= parameter(c));
        assert(occurs_at(text, parameter(c), k));
        assert(has_parameter(text, c));
        let at = choose|at: int| occurs_at(other, parameter(c), at);
        let found = other.subrange(at, at + 2);
        assert(found[0] == '$' && found[1] == c);
        assert(other[at] == found[0] && other[at + 1] == found[1]);
        assert(is_parameter_at(other, at));
    }
}

proof fn dynamics_ignore_returns(body: Seq<char>)
    ensures
        is_dynamic(with_returns(body)) == is_dynamic(body),
{
    plain_pattern("!`"@);
    plain_pattern("$ARGUMENTS"@);
    plain_pattern("${CLAUDE_"@);
    patterns_ignore_returns(body, "!`"@);
    patterns_ignore_returns(body, "$ARGUMENTS"@);
    patterns_ignore_returns(body, "${CLAUDE_"@);
    let long = with_returns(body);
    assert forall|c: char| '0' <= c <= '9' implies #[trigger] has_parameter(long, c)
        == has_parameter(body, c) by {
        patterns_ignore_returns(body, parameter(c));
    }
    parameters_are_patterns(long, body);
    assert forall|c: char| '0' <= c <= '9' implies #[trigger] has_parameter(body, c)
        == has_parameter(long, c) by {
        patterns_ignore_returns(body, parameter(c));
    }
    parameters_are_patterns(body, long);
}

proof fn plain_pattern(pattern: Seq<char>)
    requires
        pattern == "!`"@ || pattern == "$ARGUMENTS"@ || pattern == "${CLAUDE_"@,
    ensures
        pattern.len() > 0,
        forall|i: int|
            0 <= i < pattern.len() ==> (#[trigger] pattern[i]) != '\r' && pattern[i] != '\n',
{
    reveal_strlit("!`");
    reveal_strlit("$ARGUMENTS");
    reveal_strlit("${CLAUDE_");
}

/// The same metadata but for the size of the frontmatter.
pub open spec fn same_but_size(a: MetadataView, b: MetadataView) -> bool {
    a == (MetadataView { frontmatter_bytes: a.frontmatter_bytes, ..b })
}

/// The opening delimiter is found with returns and without.
proof fn opening_ignores_returns(start: Seq<char>)
    requires
        has_no_return(start),
    ensures
        has_prefix(with_returns(start), "---"@) == has_prefix(start, "---"@),
        has_prefix(start, "---"@) ==> with_returns(start).skip(3) == with_returns(start.skip(3)),
{
    reveal_strlit("---");
    let long = with_returns(start);
    let k = place_of(start, '\n');
    first_line_end(start);
    place_bounds(start, '\n');
    if k < start.len() {
        if k < 3 {
            if has_prefix(long, "---"@) {
                assert(long.take(3)[k] == '\r');
                assert("---"@[k] == '-');
            }
            if has_prefix(start, "---"@) {
                assert(start.take(3)[k] == '\n');
                assert("---"@[k] == '-');
            }
        } else {
            assert(long.take(3) =~= long.take(k).take(3));
            assert(start.take(3) =~= start.take(k).take(3));
            let rest = start.skip(3);
            assert forall|j: int| 0 <= j < k - 3 implies #[trigger] rest[j] != '\n' by {
                assert(rest[j] == start[j + 3]);
            }
            assert(rest[k - 3] == start[k]);
            place_is(rest, '\n', k - 3);
            assert(rest.take(k - 3) =~= start.take(k).skip(3));
            assert(rest.skip(k - 2) =~= start.skip(k + 1));
            assert(long =~= start.take(k) + seq!['\r', '\n'] + with_returns(start.skip(k + 1)));
            assert(long.skip(3) =~= start.take(k).skip(3) + seq!['\r', '\n'] + with_returns(
                start.skip(k + 1),
            ));
        }
    } else if has_prefix(start, "---"@) {
        let rest = start.skip(3);
        assert forall|j: int| 0 <= j < rest.len() implies #[trigger] rest[j] != '\n' by {
            assert(rest[j] == start[j + 3]);
        }
        place_is(rest, '\n', rest.len() as int);
    }
}

proof fn metadata_ignores_returns(
    fields: crate::roster::frontmatter::FieldsView,
    body: Seq<char>,
    a: Option<Seq<char>>,
    b: Option<Seq<char>>,
)
    requires
        has_no_return(body),
        a is Some == b is Some,
    ensures
        same_but_size(metadata_of(fields, with_returns(body), a), metadata_of(fields, body, b)),
{
    lines_ignore_returns(body);
    dynamics_ignore_returns(body);
}

/// The parts of a document without returns and with them.
pub open spec fn is_split_alike(
    long: Result<(Option<Seq<char>>, Seq<char>), FrontmatterError>,
    short: Result<(Option<Seq<char>>, Seq<char>), FrontmatterError>,
) -> bool {
    match (long, short) {
        (Ok((None, a)), Ok((None, b))) => a == with_returns(b) && has_no_return(b),
        (Ok((Some(x), a)), Ok((Some(y), b))) => x == with_returns(y) && a == with_returns(b)
            && has_no_return(y) && has_no_return(b),
        (Err(x), Err(y)) => x == y || x is FrontmatterTooLarge || y is FrontmatterTooLarge,
        (Err(x), Ok(_)) => x is FrontmatterTooLarge,
        (Ok(_), Err(y)) => y is FrontmatterTooLarge,
        _ => false,
    }
}

proof fn part_has_no_return(text: Seq<char>, part: Seq<char>, at: int)
    requires
        has_no_return(text),
        0 <= at,
        at + part.len() <= text.len(),
        part == text.subrange(at, at + part.len()),
    ensures
        has_no_return(part),
{
    assert forall|i: int| 0 <= i < part.len() implies (#[trigger] part[i]) != '\r' by {
        assert(part[i] == text[at + i]);
    }
}

proof fn after_has_no_return(text: Seq<char>)
    requires
        has_no_return(text),
    ensures
        has_no_return(after_char(text, '\n')),
{
    let k = place_of(text, '\n');
    place_bounds(text, '\n');
    let after = after_char(text, '\n');
    if k < text.len() {
        assert(after =~= text.subrange(k + 1, k + 1 + after.len()));
        part_has_no_return(text, after, k + 1);
    }
}

proof fn splitting_ignores_returns(content: Seq<char>)
    requires
        has_no_return(content),
    ensures
        is_split_alike(split_document(with_returns(content)), split_document(content)),
{
    reveal_strlit("---");
    skipping_ignores_returns(content);
    let start = skip_line_ends(content);
    opening_ignores_returns(start);
    if has_prefix(start, "---"@) {
        let rest = start.skip(3);
        assert(rest =~= start.subrange(3, 3int + rest.len()));
        part_has_no_return(start, rest, 3);
        first_line_end(rest);
        let k = place_of(rest, '\n');
        if k < rest.len() {
            trim_ignores_final_return(rest.take(k));
        }
        after_line_ignores_returns(rest);
        after_has_no_return(rest);
        let inner = after_char(rest, '\n');
        closing_ignores_returns(inner);
        match closing_line(inner, 0) {
            None => {},
            Some(end) => {
                let front = inner.take(end);
                let tail = inner.skip(end);
                assert(front =~= inner.subrange(0, front.len() as int));
                assert(tail =~= inner.subrange(end, end + tail.len()));
                part_has_no_return(inner, front, 0);
                part_has_no_return(inner, tail, end);
                after_line_ignores_returns(tail);
                after_has_no_return(tail);
            },
        }
    }
}

proof fn mark_ignores_returns(document: Seq<char>)
    requires
        !begins(document, '\u{feff}'),
    ensures
        !begins(with_returns(document), '\u{feff}'),
{
    let long = with_returns(document);
    let k = place_of(document, '\n');
    first_line_end(document);
    place_bounds(document, '\n');
    if k < document.len() {
        if k == 0 {
            assert(long[0] == '\r');
        } else {
            assert(long[0] == long.take(k)[0]);
            assert(document.take(k)[0] == document[0]);
        }
    }
}

/// A document with carriage returns has the metadata of the document without
/// them. Only the size of its frontmatter differs: where neither form exceeds
/// the limit on it, both are read or both are refused alike.
pub proof fn carriage_returns_make_no_difference(document: Seq<char>)
    requires
        has_no_return(document),
        !begins(document, '\u{feff}'),
        !is_too_large(split_document(document)),
        !is_too_large(split_document(with_returns(document))),
    ensures
        match (skill_metadata(with_returns(document)), skill_metadata(document)) {
            (Ok(a), Ok(b)) => same_but_size(a, b),
            (Err(a), Err(b)) => a == b,
            _ => false,
        },
{
    mark_ignores_returns(document);
    splitting_ignores_returns(document);
    match split_document(document) {
        Err(_) => {},
        Ok((None, body)) => {
            metadata_ignores_returns(no_fields(), body, None, None);
        },
        Ok((Some(front), body)) => {
            lines_ignore_returns(front);
            assert(frontmatter_fields(with_returns(front)) == frontmatter_fields(front));
            if let Ok(fields) = frontmatter_fields(front) {
                metadata_ignores_returns(fields, body, Some(with_returns(front)), Some(front));
            }
        },
    }
}

pub open spec fn is_too_large(
    parts: Result<(Option<Seq<char>>, Seq<char>), FrontmatterError>,
) -> bool {
    match parts {
        Err(error) => error is FrontmatterTooLarge,
        Ok(_) => false,
    }
}

/// A byte order mark makes no difference.
pub proof fn byte_order_mark_is_ignored(document: Seq<char>)
    requires
        !begins(document, '\u{feff}'),
    ensures
        skill_metadata(seq!['\u{feff}'] + document) == skill_metadata(document),
{
    assert((seq!['\u{feff}'] + document).skip(1) =~= document);
}

} // verus!
