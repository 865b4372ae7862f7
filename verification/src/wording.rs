//! What the operations on characters, scores, orders and JSON amount to.
use crate::chars::{count_of, lines, lower, place_is, split, without_return};
use crate::context::branch::lineage::{byte_standing, text_standing, Standing};
use crate::identity::is_identifier;
use crate::json::{decoded, member_count, members_in_members, scan_colons, DecodeError, JsonView};
use crate::runtime::{clock_time, stdin_outcome, EntryClock, InputObservation, ReadOutcome};
use crate::score::Score;
use crate::text::{byte_length, is_whitespace, trim, trim_end, trim_start};
use vstd::prelude::*;
use vstd::utf8::*;

verus! {

proof fn spaces_before_are_dropped(space: Seq<char>, rest: Seq<char>)
    requires
        forall|i: int| 0 <= i < space.len() ==> is_whitespace(#[trigger] space[i]),
        rest.len() == 0 || !is_whitespace(rest[0]),
    ensures
        trim_start(space + rest) == rest,
    decreases space.len(),
{
    let text = space + rest;
    if space.len() == 0 {
        assert(text =~= rest);
    } else {
        assert(text[0] == space[0]);
        assert(text.drop_first() =~= space.drop_first() + rest);
        assert forall|i: int| 0 <= i < space.drop_first().len() implies is_whitespace(
            #[trigger] space.drop_first()[i],
        ) by {
            assert(space.drop_first()[i] == space[i + 1]);
        }
        spaces_before_are_dropped(space.drop_first(), rest);
    }
}

proof fn spaces_behind_are_dropped(rest: Seq<char>, space: Seq<char>)
    requires
        forall|i: int| 0 <= i < space.len() ==> is_whitespace(#[trigger] space[i]),
        rest.len() == 0 || !is_whitespace(rest.last()),
    ensures
        trim_end(rest + space) == rest,
    decreases space.len(),
{
    let text = rest + space;
    if space.len() == 0 {
        assert(text =~= rest);
    } else {
        assert(text.last() == space.last());
        assert(space[space.len() - 1] == space.last());
        assert(text.drop_last() =~= rest + space.drop_last());
        assert forall|i: int| 0 <= i < space.drop_last().len() implies is_whitespace(
            #[trigger] space.drop_last()[i],
        ) by {
            assert(space.drop_last()[i] == space[i]);
        }
        spaces_behind_are_dropped(rest, space.drop_last());
    }
}

/// Whitespace around a text is dropped, and nothing else is: what stands
/// between comes out whole.
pub proof fn trimming_drops_the_space_around(
    before: Seq<char>,
    core: Seq<char>,
    behind: Seq<char>,
)
    requires
        forall|i: int| 0 <= i < before.len() ==> is_whitespace(#[trigger] before[i]),
        forall|i: int| 0 <= i < behind.len() ==> is_whitespace(#[trigger] behind[i]),
        core.len() > 0,
        !is_whitespace(core[0]),
        !is_whitespace(core.last()),
    ensures
        trim(before + core + behind) == core,
        trim(before) == Seq::<char>::empty(),
{
    assert(before + core + behind =~= before + (core + behind));
    spaces_before_are_dropped(before, core + behind);
    spaces_behind_are_dropped(core, behind);
    assert(before + Seq::<char>::empty() =~= before);
    spaces_before_are_dropped(before, Seq::empty());
}

/// A line that ends is the first of its text's lines, without its line end, and
/// the others are those of what follows; an unended one is a line too.
pub proof fn lines_end_at_line_feeds(line: Seq<char>, rest: Seq<char>)
    requires
        forall|i: int| 0 <= i < line.len() ==> #[trigger] line[i] != '\n',
    ensures
        lines(line + seq!['\n'] + rest) == seq![without_return(line)] + lines(rest),
        line.len() > 0 ==> lines(line) == seq![line],
        lines(Seq::<char>::empty()).len() == 0,
        line.len() > 0 && line.last() == '\r' ==> without_return(line) == line.drop_last(),
        line.len() > 0 && line.last() != '\r' ==> without_return(line) == line,
{
    let text = line + seq!['\n'] + rest;
    let k = line.len() as int;
    assert(text[k] == '\n');
    assert forall|j: int| 0 <= j < k implies #[trigger] text[j] != '\n' by {
        assert(text[j] == line[j]);
    }
    place_is(text, '\n', k);
    assert(text.take(k) =~= line);
    assert(text.skip(k + 1) =~= rest);
    place_is(line, '\n', k);
}

/// A text is split at its separators: what stands before the first is the first
/// part, and the others are those of what follows.
pub proof fn splits_cut_at_separators(part: Seq<char>, c: char, rest: Seq<char>)
    requires
        forall|i: int| 0 <= i < part.len() ==> #[trigger] part[i] != c,
    ensures
        split(part + seq![c] + rest, c) == seq![part] + split(rest, c),
        split(part, c) == seq![part],
{
    let text = part + seq![c] + rest;
    let k = part.len() as int;
    assert(text[k] == c);
    assert forall|j: int| 0 <= j < k implies #[trigger] text[j] != c by {
        assert(text[j] == part[j]);
    }
    place_is(text, c, k);
    assert(text.take(k) =~= part);
    assert(text.skip(k + 1) =~= rest);
    place_is(part, c, k);
}

/// Lower case changes the ASCII capitals alone, each to its own small letter.
pub proof fn lower_case_changes_capitals(text: Seq<char>, i: int)
    requires
        0 <= i < text.len(),
    ensures
        lower(text).len() == text.len(),
        'A' <= text[i] <= 'Z' ==> lower(text)[i] as u32 == text[i] as u32 + 32,
        !('A' <= text[i] <= 'Z') ==> lower(text)[i] == text[i],
{
}

/// A character is counted wherever it stands.
pub proof fn characters_are_counted(text: Seq<char>, c: char, d: char)
    ensures
        count_of(text.push(c), c) == count_of(text, c) + 1,
        d != c ==> count_of(text.push(d), c) == count_of(text, c),
        count_of(Seq::<char>::empty(), c) == 0,
{
    assert(text.push(c).drop_last() =~= text);
    assert(text.push(d).drop_last() =~= text);
}

/// An identifier is not empty, not too long and free of control characters; and
/// any such text is one.
pub proof fn identifiers_are_plain(text: Seq<char>)
    ensures
        is_identifier(text) <==> 0 < text.len() && byte_length(text) <= 256 && forall|i: int|
            0 <= i < text.len() ==> '\u{20}' <= #[trigger] text[i] && !('\u{7f}' <= text[i]
                <= '\u{9f}'),
{
    if is_identifier(text) {
        assert forall|i: int| 0 <= i < text.len() implies '\u{20}' <= #[trigger] text[i] && !(
        '\u{7f}' <= text[i] <= '\u{9f}') by {
            assert(!crate::identity::is_control(text[i]));
        }
    }
}

/// Scores that are numbers compare as their values do: those without a sign by
/// their patterns, those with one the other way round, one with a sign before
/// one without, and both zeros alike. Beyond infinity there is no number.
pub proof fn scores_compare_as_numbers(a: Score, b: Score)
    requires
        a.bits <= 0x7ff0_0000_0000_0000 || 0x8000_0000_0000_0000 <= a.bits
            <= 0xfff0_0000_0000_0000,
        b.bits <= 0x7ff0_0000_0000_0000 || 0x8000_0000_0000_0000 <= b.bits
            <= 0xfff0_0000_0000_0000,
    ensures
        a.bits < 0x8000_0000_0000_0000 && b.bits < 0x8000_0000_0000_0000 ==> (a.lt_spec(b) <==>
            a.bits < b.bits),
        a.bits >= 0x8000_0000_0000_0000 && b.bits >= 0x8000_0000_0000_0000 ==> (a.lt_spec(b) <==>
            a.bits > b.bits),
        a.bits > 0x8000_0000_0000_0000 && b.bits < 0x8000_0000_0000_0000 ==> a.lt_spec(b)
            && !b.lt_spec(a),
        a.bits == 0x8000_0000_0000_0000 && b.bits == 0 ==> a.same_value_spec(b) && !a.lt_spec(b)
            && !b.lt_spec(a),
        a.same_value_spec(b) <==> !a.lt_spec(b) && !b.lt_spec(a),
        a.ge_spec(b) <==> !a.lt_spec(b),
        a.is_finite_spec() <==> a.bits != 0x7ff0_0000_0000_0000 && a.bits
            != 0xfff0_0000_0000_0000,
{
}

/// What is not a number compares with nothing, not even with itself.
pub proof fn no_numbers_do_not_compare(a: Score, b: Score)
    requires
        0x7ff0_0000_0000_0000 < a.bits < 0x8000_0000_0000_0000 || 0xfff0_0000_0000_0000 < a.bits,
    ensures
        !a.lt_spec(b) && !b.lt_spec(a) && !a.ge_spec(b) && !b.ge_spec(a),
        !a.same_value_spec(b) && !a.same_value_spec(a),
        !a.is_finite_spec(),
{
}

/// The total order agrees with the values of numbers that differ, and tells the
/// zeros apart.
pub proof fn the_total_order_agrees(a: Score, b: Score)
    ensures
        a.lt_spec(b) ==> a.total_rank() < b.total_rank(),
        a.total_rank() == b.total_rank() <==> a.bits == b.bits,
{
}

/// The first byte that differs decides the order of two texts.
pub proof fn the_first_difference_decides(a: Seq<u8>, b: Seq<u8>, k: int)
    requires
        0 <= k <= a.len(),
        k <= b.len(),
        forall|i: int| 0 <= i < k ==> #[trigger] a[i] == b[i],
    ensures
        k < a.len() && k < b.len() && a[k] < b[k] ==> byte_standing(a, b) == Standing::Before,
        k < a.len() && k < b.len() && a[k] > b[k] ==> byte_standing(a, b) == Standing::After,
        k == a.len() && k < b.len() ==> byte_standing(a, b) == Standing::Before,
        k < a.len() && k == b.len() ==> byte_standing(a, b) == Standing::After,
        k == a.len() && k == b.len() ==> byte_standing(a, b) == Standing::Same,
    decreases k,
{
    if k > 0 {
        assert(a[0] == b[0]);
        assert forall|i: int| 0 <= i < k - 1 implies #[trigger] a.drop_first()[i]
            == b.drop_first()[i] by {
            assert(a[i + 1] == b[i + 1]);
        }
        the_first_difference_decides(a.drop_first(), b.drop_first(), k - 1);
    }
}

/// Texts stand to each other as their bytes do.
pub proof fn texts_order_by_bytes(a: Seq<char>, b: Seq<char>)
    ensures
        text_standing(a, b) == byte_standing(encode_utf8(a), encode_utf8(b)),
{
}

/// A colon counts outside a string and nowhere else; a quote opens and closes a
/// string, and an escaped one does neither.
pub proof fn colons_count_outside_strings(bytes: Seq<u8>, byte: u8)
    ensures
        ({
            let before = scan_colons(bytes);
            let after = scan_colons(bytes.push(byte));
            &&& after.colons == before.colons + (if byte == 0x3a && !before.in_string {
                1nat
            } else {
                0
            })
            &&& !before.in_string ==> (after.in_string <==> byte == 0x22)
            &&& before.in_string ==> (after.in_string <==> byte != 0x22 || before.escaped)
            &&& after.escaped <==> before.in_string && !before.escaped && byte == 0x5c
                || !before.in_string && before.escaped
        }),
        scan_colons(Seq::empty()).colons == 0,
        !scan_colons(Seq::empty()).in_string,
{
    assert(bytes.push(byte).drop_last() =~= bytes);
}

proof fn members_add_up(
    members: Seq<(Seq<char>, JsonView)>,
    key: Seq<char>,
    value: JsonView,
)
    ensures
        members_in_members(members.push((key, value))) == members_in_members(members) + 1
            + member_count(value),
    decreases members.len(),
{
    let all = members.push((key, value));
    if members.len() == 0 {
        assert(all[0] == (key, value));
        assert(all.drop_first() =~= Seq::empty());
        assert(members_in_members(all.drop_first()) == 0);
    } else {
        assert(all[0] == members[0]);
        assert(all.drop_first() =~= members.drop_first().push((key, value)));
        members_add_up(members.drop_first(), key, value);
    }
}

/// A value has as many members as its objects do, at every depth: one more
/// member of an object counts once, with those of its value.
pub proof fn members_count_at_every_depth(
    members: Seq<(Seq<char>, JsonView)>,
    key: Seq<char>,
    value: JsonView,
    text: Seq<char>,
    truth: bool,
)
    ensures
        member_count(JsonView::Object(members.push((key, value)))) == member_count(
            JsonView::Object(members),
        ) + 1 + member_count(value),
        member_count(JsonView::Object(Seq::empty())) == 0,
        member_count(JsonView::Text(text)) == 0,
        member_count(JsonView::Bool(truth)) == 0,
        member_count(JsonView::Null) == 0,
{
    members_add_up(members, key, value);
}

/// A document is decoded exactly where it is not too long, is one and repeats no
/// key; what it decodes to is what it holds.
pub proof fn decoding_keeps_the_document(
    bytes: Seq<u8>,
    max_bytes: nat,
    parsed: Option<JsonView>,
)
    ensures
        decoded(bytes, max_bytes, parsed) matches Ok(value) ==> parsed == Some(value)
            && bytes.len() <= max_bytes && scan_colons(bytes).colons == member_count(value),
        bytes.len() > max_bytes <==> decoded(bytes, max_bytes, parsed) == Err::<
            JsonView,
            DecodeError,
        >(DecodeError::TooLarge),
        bytes.len() <= max_bytes && parsed is None <==> decoded(bytes, max_bytes, parsed) == Err::<
            JsonView,
            DecodeError,
        >(DecodeError::Malformed),
        bytes.len() <= max_bytes && parsed is Some && scan_colons(bytes).colons == member_count(
            parsed->0,
        ) ==> decoded(bytes, max_bytes, parsed) is Ok,
{
}

proof fn members_are_found(
    members: Seq<(Seq<char>, JsonView)>,
    key: Seq<char>,
    last: (Seq<char>, JsonView),
)
    ensures
        JsonView::find(members.push(last), key) == (match JsonView::find(members, key) {
            Some(value) => Some(value),
            None => if last.0 == key {
                Some(last.1)
            } else {
                None
            },
        }),
    decreases members.len(),
{
    let all = members.push(last);
    if members.len() == 0 {
        assert(all[0] == last);
        assert(all.drop_first() =~= Seq::empty());
        assert(JsonView::find(all.drop_first(), key) is None);
    } else {
        assert(all[0] == members[0]);
        assert(all.drop_first() =~= members.drop_first().push(last));
        members_are_found(members.drop_first(), key, last);
    }
}

/// A member is found under its own key, the first of several; what is no object
/// has none.
pub proof fn members_are_found_by_key(
    members: Seq<(Seq<char>, JsonView)>,
    key: Seq<char>,
    other: Seq<char>,
    value: JsonView,
    text: Seq<char>,
)
    ensures
        JsonView::Object(members).get(key) is None ==> JsonView::Object(
            members.push((key, value)),
        ).get(key) == Some(value),
        JsonView::Object(members).get(key) is Some ==> JsonView::Object(
            members.push((key, value)),
        ).get(key) == JsonView::Object(members).get(key),
        other != key ==> JsonView::Object(members.push((key, value))).get(other)
            == JsonView::Object(members).get(other),
        JsonView::Object(Seq::empty()).get(key) is None,
        JsonView::Text(text).get(key) is None,
        JsonView::Null.get(key) is None,
{
    members_are_found(members, key, (key, value));
    members_are_found(members, other, (key, value));
}

/// The bytes that reads gave, up to the first that gave none.
pub open spec fn bytes_read(reads: Seq<InputObservation>) -> Seq<u8>
    decreases reads.len(),
{
    if reads.len() == 0 {
        Seq::empty()
    } else {
        match reads[0].outcome {
            ReadOutcome::Bytes(chunk) => if chunk@.len() == 0 {
                Seq::empty()
            } else {
                chunk@ + bytes_read(reads.skip(1))
            },
            _ => bytes_read(reads.skip(1)),
        }
    }
}

/// An input that was read whole is everything that the reads gave, in their
/// order and nothing else, and its first read was in time.
pub proof fn inputs_are_read_whole(
    clock: EntryClock,
    reads: Seq<InputObservation>,
    held: Seq<u8>,
    max_bytes: nat,
)
    requires
        stdin_outcome(clock, reads, held, max_bytes) is Complete,
    ensures
        stdin_outcome(clock, reads, held, max_bytes)->Complete_0 == held + bytes_read(reads),
        reads.len() > 0,
        clock_time(reads[0].elapsed_ms) < clock.limits().latest_work_ms(),
    decreases reads.len(),
{
    match reads[0].outcome {
        ReadOutcome::Bytes(chunk) => {
            if chunk@.len() > 0 {
                inputs_are_read_whole(clock, reads.skip(1), held + chunk@, max_bytes);
                assert(held + chunk@ + bytes_read(reads.skip(1)) =~= held + (chunk@ + bytes_read(
                    reads.skip(1),
                )));
            } else {
                assert(held + Seq::<u8>::empty() =~= held);
            }
        },
        ReadOutcome::Interrupted => {
            inputs_are_read_whole(clock, reads.skip(1), held, max_bytes);
        },
        ReadOutcome::Failed => {},
    }
}

} // verus!
