//! What the numerals of a Punycode label stand for.
use crate::jev::punycode::{
    basic_chars, digit_of, encode_from, next_code_point, next_is_at_least, pass, pass_char,
    punycode, threshold, variable_length, Encoding,
};
use vstd::prelude::*;

verus! {

/// The value of a numeral: `a` to `z` for the first ones, then the digits.
pub open spec fn numeral_value(c: char) -> int {
    if 'a' <= c <= 'z' {
        c as int - 'a' as int
    } else {
        c as int - '0' as int + 26
    }
}

/// The least value that goes on at a position: the distance from the bias,
/// between one and twenty-six.
pub open spec fn least_to_go_on(k: int, bias: int) -> int {
    if k - bias < 1 {
        1
    } else if k - bias > 26 {
        26
    } else {
        k - bias
    }
}

/// The number that numerals spell from a position on: one below the position's
/// least ends the number, and each that goes on weighs the rest.
pub open spec fn number_spelled(text: Seq<char>, k: int, bias: int) -> int
    decreases text.len(),
{
    if text.len() == 0 {
        0
    } else {
        let value = numeral_value(text[0]);
        let least = least_to_go_on(k, bias);
        if value < least {
            value
        } else {
            value + (36 - least) * number_spelled(text.drop_first(), k + 36, bias)
        }
    }
}

proof fn numerals_have_their_value(d: nat)
    requires
        d <= 35,
    ensures
        numeral_value(digit_of(d)) == d,
{
}

proof fn division_adds_up(q: int, t: int)
    by (nonlinear_arith)
    requires
        1 <= t <= 26,
        t <= q,
    ensures
        q == t + (q - t) % (36 - t) + (36 - t) * ((q - t) / (36 - t)),
        0 <= (q - t) % (36 - t) < 36 - t,
        0 <= (q - t) / (36 - t) < q,
{
}

/// A number that is written in numerals is the number that they spell, wherever
/// the bias stands.
pub proof fn written_numbers_are_spelled(q: nat, k: nat, bias: nat)
    ensures
        number_spelled(variable_length(q, k, bias), k as int, bias as int) == q,
    decreases q,
{
    let t = threshold(k, bias);
    let text = variable_length(q, k, bias);
    assert(t == least_to_go_on(k as int, bias as int));
    if q < t {
        numerals_have_their_value(q);
        assert(text[0] == digit_of(q));
    } else {
        division_adds_up(q as int, t as int);
        let digit = (t + (q - t) % (36 - t)) as nat;
        let rest = ((q - t) / (36 - t)) as nat;
        numerals_have_their_value(digit);
        written_numbers_are_spelled(rest, k + 36, bias);
        assert(text[0] == digit_of(digit));
        assert(text.drop_first() =~= variable_length(rest, k + 36, bias));
    }
}

/// The basic characters of a label stay, in lower case and in their order, and
/// no other does.
pub proof fn basic_characters_stay(label: Seq<char>, c: char)
    ensures
        basic_chars(Seq::empty()).len() == 0,
        c as u32 <= 0x7f ==> basic_chars(label.push(c)).len() == basic_chars(label).len() + 1
            && basic_chars(label.push(c)).drop_last() == basic_chars(label),
        c as u32 <= 0x7f && !('A' <= c <= 'Z') ==> basic_chars(label.push(c)).last() == c,
        c as u32 > 0x7f ==> basic_chars(label.push(c)) == basic_chars(label),
{
    assert(label.push(c).drop_last() =~= label);
    if c as u32 <= 0x7f {
        assert(basic_chars(label.push(c)).drop_last() =~= basic_chars(label));
    }
}

/// The next code point is the smallest of the label's that is not below.
pub proof fn the_next_code_point_is_the_smallest(label: Seq<char>, n: nat, i: int)
    requires
        0 <= i < label.len(),
        n <= label[i] as u32,
    ensures
        next_code_point(label, n) <= label[i] as u32,
        exists|j: int|
            0 <= j < label.len() && n <= (#[trigger] label[j]) as u32 && next_code_point(label, n)
                == label[j] as u32,
    decreases label.len(),
{
    let rest = label.drop_last();
    let last = label.last() as u32 as nat;
    if i < rest.len() {
        assert(rest[i] == label[i]);
        the_next_code_point_is_the_smallest(rest, n, i);
        let j = choose|j: int|
            0 <= j < rest.len() && n <= (#[trigger] rest[j]) as u32 && next_code_point(rest, n)
                == rest[j] as u32;
        assert(label[j] == rest[j]);
        assert(label[label.len() - 1] as u32 == last);
    } else {
        assert(label[label.len() - 1] as u32 == last);
        if !(last < next_code_point(rest, n)) {
            code_points_are_small(label.last());
            nothing_below_is_left(rest, n);
            let j = choose|j: int|
                0 <= j < rest.len() && n <= (#[trigger] rest[j]) as u32 && next_code_point(rest, n)
                    == rest[j] as u32;
            assert(label[j] == rest[j]);
        }
    }
}

proof fn code_points_are_small(c: char)
    ensures
        c as u32 <= 0x10_ffff,
{
}

proof fn nothing_below_is_left(label: Seq<char>, n: nat)
    requires
        next_code_point(label, n) < 0xffff_ffff,
    ensures
        exists|j: int|
            0 <= j < label.len() && n <= (#[trigger] label[j]) as u32 && next_code_point(label, n)
                == label[j] as u32,
    decreases label.len(),
{
    if label.len() > 0 {
        let rest = label.drop_last();
        let last = label.last() as u32 as nat;
        if last >= n && last < next_code_point(rest, n) {
            assert(label[label.len() - 1] as u32 == last);
        } else {
            nothing_below_is_left(rest, n);
            let j = choose|j: int|
                0 <= j < rest.len() && n <= (#[trigger] rest[j]) as u32 && next_code_point(rest, n)
                    == rest[j] as u32;
            assert(label[j] == rest[j]);
        }
    }
}

proof fn passes_extend_the_output(state: Encoding, label: Seq<char>, n: nat, basic: nat)
    requires
        pass(state, label, n, basic) is Some,
    ensures
        state.output.is_prefix_of(pass(state, label, n, basic)->0.output),
    decreases label.len(),
{
    if label.len() > 0 {
        passes_extend_the_output(state, label.drop_last(), n, basic);
        let before = pass(state, label.drop_last(), n, basic)->0;
        let after = pass_char(before, label.last(), n, basic)->0;
        assert(before.output.is_prefix_of(after.output));
    }
}

proof fn encodings_extend_the_output(state: Encoding, label: Seq<char>, n: nat, basic: nat)
    requires
        encode_from(state, label, n, basic) is Some,
    ensures
        state.output.is_prefix_of(encode_from(state, label, n, basic)->0),
    decreases 0x1_0000_0000 - n,
{
    if state.handled < label.len() && n <= 0xffff_ffff {
        next_is_at_least(label, n);
        let m = next_code_point(label, n);
        assert(m >= n);
        let delta = (state.delta + (m - n) * (state.handled + 1)) as nat;
        let start = Encoding { delta, ..state };
        passes_extend_the_output(start, label, m, basic);
        let after = pass(start, label, m, basic)->0;
        let next = Encoding { delta: after.delta + 1, ..after };
        encodings_extend_the_output(next, label, m + 1, basic);
        assert(state.output.is_prefix_of(encode_from(next, label, m + 1, basic)->0));
    }
}

/// An encoded label begins with its basic characters, set off by a dash; one
/// without any begins with a numeral.
pub proof fn encoded_labels_begin_with_their_basics(label: Seq<char>)
    requires
        punycode(label) is Some,
        basic_chars(label).len() > 0,
    ensures
        basic_chars(label).push('-').is_prefix_of(punycode(label)->0),
{
    let basic = basic_chars(label);
    let start = Encoding { delta: 0, bias: 72, handled: basic.len(), output: basic.push('-') };
    encodings_extend_the_output(start, label, 128, basic.len());
}

} // verus!
