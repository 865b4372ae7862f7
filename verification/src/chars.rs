//! Scanning of character sequences.
use crate::text::{byte_len, byte_length, chars_of, same_chars, string_of, trim_start, trimmed_start};
use vstd::prelude::*;
use vstd::slice::slice_subrange;

verus! {

/// Does the text begin with `prefix`?
pub open spec fn has_prefix(text: Seq<char>, prefix: Seq<char>) -> bool {
    prefix.len() <= text.len() && text.take(prefix.len() as int) == prefix
}

pub fn starts_with(text: &[char], prefix: &str) -> (r: bool)
    ensures
        r == has_prefix(text@, prefix@),
{
    let wanted: Vec<char> = chars_of(prefix);
    if wanted.len() > text.len() {
        return false;
    }
    let head: &[char] = slice_subrange(text, 0, wanted.len());
    assert(head@ =~= text@.take(prefix@.len() as int));
    same_chars(head, wanted.as_slice())
}

/// Does the text begin with this character?
pub open spec fn begins(text: Seq<char>, c: char) -> bool {
    text.len() > 0 && text[0] == c
}

pub fn begins_with(text: &[char], c: char) -> (r: bool)
    ensures
        r == begins(text@, c),
{
    text.len() > 0 && text[0] == c
}

/// Is the text these characters?
pub fn is_text(text: &[char], expected: &str) -> (r: bool)
    ensures
        r == (text@ == expected@),
{
    let wanted: Vec<char> = chars_of(expected);
    same_chars(text, wanted.as_slice())
}

/// The place of the first `c`, or the length where there is none.
pub open spec fn place_of(text: Seq<char>, c: char) -> int
    decreases text.len(),
{
    if text.len() == 0 || text[0] == c {
        0
    } else {
        1 + place_of(text.drop_first(), c)
    }
}

pub proof fn place_is(text: Seq<char>, c: char, k: int)
    requires
        0 <= k <= text.len(),
        forall|j: int| 0 <= j < k ==> #[trigger] text[j] != c,
        k < text.len() ==> text[k] == c,
    ensures
        place_of(text, c) == k,
    decreases k,
{
    if k > 0 {
        let rest = text.drop_first();
        assert forall|j: int| 0 <= j < k - 1 implies #[trigger] rest[j] != c by {
            assert(rest[j] == text[j + 1]);
        }
        assert(text[0] != c);
        if k < text.len() {
            assert(rest[k - 1] == text[k]);
        }
        place_is(rest, c, k - 1);
    }
}

pub proof fn place_bounds(text: Seq<char>, c: char)
    ensures
        0 <= place_of(text, c) <= text.len(),
        forall|j: int| 0 <= j < place_of(text, c) ==> #[trigger] text[j] != c,
        place_of(text, c) < text.len() ==> text[place_of(text, c)] == c,
    decreases text.len(),
{
    if text.len() > 0 && text[0] != c {
        let rest = text.drop_first();
        place_bounds(rest, c);
        assert forall|j: int| 0 <= j < place_of(text, c) implies #[trigger] text[j] != c by {
            if j > 0 {
                assert(rest[j - 1] == text[j]);
            }
        }
        if place_of(text, c) < text.len() {
            assert(rest[place_of(rest, c)] == text[place_of(text, c)]);
        }
    }
}

pub fn find_char(text: &[char], c: char) -> (k: usize)
    ensures
        k == place_of(text@, c),
        k <= text@.len(),
        k < text@.len() ==> text@[k as int] == c,
{
    let mut k: usize = 0;
    while k < text.len() && text[k] != c
        invariant
            k <= text@.len(),
            forall|j: int| 0 <= j < k ==> #[trigger] text@[j] != c,
        decreases text@.len() - k,
    {
        k += 1;
    }
    proof {
        place_is(text@, c, k as int);
    }
    k
}

/// The text after the first `c`; nothing where there is none.
pub open spec fn after_char(text: Seq<char>, c: char) -> Seq<char> {
    if place_of(text, c) < text.len() {
        text.skip(place_of(text, c) + 1)
    } else {
        Seq::empty()
    }
}

/// A part of a text.
pub fn part(text: &[char], from: usize, to: usize) -> (r: &[char])
    requires
        from <= to <= text@.len(),
    ensures
        r@ == text@.subrange(from as int, to as int),
{
    slice_subrange(text, from, to)
}

/// Everything from `from` on.
pub fn tail(text: &[char], from: usize) -> (r: &[char])
    requires
        from <= text@.len(),
    ensures
        r@ == text@.skip(from as int),
{
    assert(text@.skip(from as int) =~= text@.subrange(from as int, text@.len() as int));
    slice_subrange(text, from, text.len())
}

/// Everything before `to`.
pub fn head(text: &[char], to: usize) -> (r: &[char])
    requires
        to <= text@.len(),
    ensures
        r@ == text@.take(to as int),
{
    assert(text@.take(to as int) =~= text@.subrange(0, to as int));
    slice_subrange(text, 0, to)
}

/// A line without the carriage return of its line end.
pub open spec fn without_return(line: Seq<char>) -> Seq<char> {
    if line.len() > 0 && line.last() == '\r' {
        line.drop_last()
    } else {
        line
    }
}

/// The lines of a text. A line end is a line feed, with the carriage return
/// before it where there is one; a final line end starts no further line.
pub open spec fn lines(text: Seq<char>) -> Seq<Seq<char>>
    decreases text.len(),
    via lines_terminate
{
    if text.len() == 0 {
        Seq::empty()
    } else {
        let k = place_of(text, '\n');
        if k < text.len() {
            seq![without_return(text.take(k))] + lines(text.skip(k + 1))
        } else {
            seq![text]
        }
    }
}

#[via_fn]
proof fn lines_terminate(text: Seq<char>) {
    place_bounds(text, '\n');
}

pub open spec fn line_views(list: Seq<Vec<char>>) -> Seq<Seq<char>> {
    list.map_values(|l: Vec<char>| l@)
}

/// A copy of characters.
pub fn copy_chars(text: &[char]) -> (copy: Vec<char>)
    ensures
        copy@ == text@,
{
    let mut copy: Vec<char> = Vec::new();
    copy.extend_from_slice(text);
    assert(copy@ =~= text@);
    copy
}

/// Split a text into its lines.
pub fn lines_of(text: &[char]) -> (list: Vec<Vec<char>>)
    ensures
        line_views(list@) == lines(text@),
{
    let mut list: Vec<Vec<char>> = Vec::new();
    let mut from: usize = 0;
    assert(line_views(list@) =~= Seq::empty());
    assert(text@.skip(0) =~= text@);
    assert(line_views(list@) + lines(text@.skip(0)) =~= lines(text@));
    while from < text.len()
        invariant
            from <= text@.len(),
            line_views(list@) + lines(text@.skip(from as int)) == lines(text@),
        decreases text@.len() - from,
    {
        let rest: &[char] = tail(text, from);
        let k: usize = find_char(rest, '\n');
        let ghost before = line_views(list@);
        if k < rest.len() {
            let end: usize = if k > 0 && rest[k - 1] == '\r' {
                k - 1
            } else {
                k
            };
            let line: &[char] = head(rest, end);
            assert(line@ =~= without_return(rest@.take(k as int)));
            list.push(copy_chars(line));
            assert(line_views(list@) =~= before.push(line@));
            assert(rest@.skip(k as int + 1) =~= text@.skip(from + k + 1));
            assert(before + (seq![line@] + lines(rest@.skip(k as int + 1))) =~= line_views(list@)
                + lines(rest@.skip(k as int + 1)));
            from = from + k + 1;
        } else {
            list.push(copy_chars(rest));
            assert(line_views(list@) =~= before.push(rest@));
            assert(lines(rest@) =~= seq![rest@]);
            from = text.len();
            assert(text@.skip(from as int) =~= Seq::empty());
            assert(lines(text@.skip(from as int)) =~= Seq::empty());
            assert(line_views(list@) + lines(text@.skip(from as int)) =~= before + seq![rest@]);
        }
    }
    assert(text@.skip(from as int) =~= Seq::empty());
    assert(line_views(list@) =~= lines(text@));
    list
}

/// The segments between the occurrences of `c`.
pub open spec fn split(text: Seq<char>, c: char) -> Seq<Seq<char>>
    decreases text.len(),
    via split_terminates
{
    let k = place_of(text, c);
    if k < text.len() {
        seq![text.take(k)] + split(text.skip(k + 1), c)
    } else {
        seq![text]
    }
}

#[via_fn]
proof fn split_terminates(text: Seq<char>, c: char) {
    place_bounds(text, c);
}

/// The lower-case form of an ASCII letter; any other character as it is.
pub open spec fn lower_char(c: char) -> char {
    if 'A' <= c <= 'Z' {
        ((c as u32) + 32) as char
    } else {
        c
    }
}

/// The text with its ASCII letters in lower case.
pub open spec fn lower(text: Seq<char>) -> Seq<char> {
    text.map_values(|c: char| lower_char(c))
}

fn lower_letter(c: char) -> (r: char)
    ensures
        r == lower_char(c),
{
    if 'A' <= c && c <= 'Z' {
        let byte: u8 = c as u8;
        (byte + 32) as char
    } else {
        c
    }
}

pub fn lowered(text: &[char]) -> (r: Vec<char>)
    ensures
        r@ == lower(text@),
{
    let mut r: Vec<char> = Vec::new();
    let mut i: usize = 0;
    while i < text.len()
        invariant
            i <= text@.len(),
            r@.len() == i,
            forall|j: int| 0 <= j < i ==> #[trigger] r@[j] == lower_char(text@[j]),
        decreases text@.len() - i,
    {
        r.push(lower_letter(text[i]));
        i += 1;
    }
    assert(r@ =~= lower(text@));
    r
}

/// The number of bytes of the whitespace that a line begins with.
pub open spec fn indentation(line: Seq<char>) -> nat {
    (byte_length(line) - byte_length(trim_start(line))) as nat
}

/// `pattern` occurs at `at`.
pub open spec fn occurs_at(text: Seq<char>, pattern: Seq<char>, at: int) -> bool {
    0 <= at && at + pattern.len() <= text.len() && text.subrange(at, at + pattern.len()) == pattern
}

/// Does the text hold the pattern?
pub fn contains(text: &[char], pattern: &str) -> (r: bool)
    ensures
        r == exists|at: int| occurs_at(text@, pattern@, at),
{
    let wanted: Vec<char> = chars_of(pattern);
    let n: usize = wanted.len();
    if n > text.len() {
        return false;
    }
    let total: usize = text.len();
    let last: usize = total - n;
    let mut at: usize = 0;
    loop
        invariant
            total == text@.len(),
            wanted@ == pattern@,
            n == wanted@.len(),
            n + last == text@.len(),
            at <= last,
            forall|j: int| 0 <= j < at ==> !#[trigger] occurs_at(text@, pattern@, j),
        decreases last - at,
    {
        let window: &[char] = part(text, at, at + n);
        if same_chars(window, wanted.as_slice()) {
            assert(occurs_at(text@, pattern@, at as int));
            return true;
        }
        assert(!occurs_at(text@, pattern@, at as int));
        if at == last {
            return false;
        }
        at += 1;
    }
}

/// How often `c` occurs.
pub open spec fn count_of(text: Seq<char>, c: char) -> nat
    decreases text.len(),
{
    if text.len() == 0 {
        0
    } else {
        count_of(text.drop_last(), c) + if text.last() == c {
            1nat
        } else {
            0nat
        }
    }
}

pub fn count_char(text: &[char], c: char) -> (n: usize)
    ensures
        n == count_of(text@, c),
{
    let mut n: usize = 0;
    let mut i: usize = 0;
    assert(text@.take(0) =~= Seq::empty());
    while i < text.len()
        invariant
            i <= text@.len(),
            n <= i,
            n == count_of(text@.take(i as int), c),
        decreases text@.len() - i,
    {
        assert(text@.take(i as int + 1).drop_last() =~= text@.take(i as int));
        assert(text@.take(i as int + 1).last() == text@[i as int]);
        if text[i] == c {
            n += 1;
        }
        i += 1;
    }
    assert(text@.take(i as int) =~= text@);
    n
}

/// The number of bytes of some characters.
pub fn byte_len_of(text: &[char]) -> (n: usize)
    ensures
        n == byte_length(text@),
{
    let s: String = string_of(text);
    byte_len(s.as_str())
}

/// Leading whitespace takes bytes away, never adds them.
pub proof fn trimming_shortens(text: Seq<char>)
    ensures
        byte_length(trim_start(text)) <= byte_length(text),
    decreases text.len(),
{
    if text.len() > 0 {
        trimming_shortens(text.drop_first());
    }
}

/// The number of bytes of the whitespace that a line begins with.
pub fn indent_of(line: &[char]) -> (n: usize)
    ensures
        n == indentation(line@),
{
    proof {
        trimming_shortens(line@);
    }
    byte_len_of(line) - byte_len_of(trimmed_start(line))
}

} // verus!
