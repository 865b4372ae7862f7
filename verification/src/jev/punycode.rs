//! Punycode encoding of internationalized host labels (RFC 3492).
use crate::chars::{lower_char, lowered};
use crate::text::{chars_of, copy_text, string_of};
use vstd::prelude::*;

verus! {

/// The encoding's base.
pub const BASE: u64 = 36;

pub const TMIN: u64 = 1;

pub const TMAX: u64 = 26;

pub const SKEW: u64 = 38;

pub const DAMP: u64 = 700;

pub const INITIAL_BIAS: u64 = 72;

pub const INITIAL_N: u64 = 128;

/// Above this, a delta is scaled down further when the bias adapts.
pub const ADAPT_LIMIT: u64 = 455;

/// Deltas are 32-bit numbers.
pub const MAX_DELTA: u64 = 0xffff_ffff;

/// The character of a digit: `a` to `z`, then `0` to `9`.
pub open spec fn digit_of(d: nat) -> char {
    if d <= 25 {
        (97 + d) as char
    } else if d <= 35 {
        (48 + (d - 26)) as char
    } else {
        '0'
    }
}

fn encode_digit(d: u64) -> (c: char)
    ensures
        c == digit_of(d as nat),
{
    if d <= 25 {
        (97 + d as u8) as char
    } else if d <= 35 {
        (48 + (d - 26) as u8) as char
    } else {
        '0'
    }
}

/// Scale a delta down until it is small, counting the base for each step.
pub open spec fn scale_down(delta: nat, k: nat) -> nat
    decreases delta,
{
    if delta > ADAPT_LIMIT {
        scale_down(delta / 35, k + 36)
    } else {
        k + (36 * delta) / (delta + 38)
    }
}

/// The bias after a delta was encoded as the `points`th code point.
pub open spec fn adapted(delta: nat, points: nat, first: bool) -> nat {
    let halved = if first {
        delta / 700
    } else {
        delta / 2
    };
    scale_down(halved + halved / points, 0)
}

fn adapt_punycode(delta: u64, points: u64, first: bool) -> (bias: u64)
    requires
        delta <= MAX_DELTA,
        points > 0,
    ensures
        bias == adapted(delta as nat, points as nat, first),
        bias <= 36 * MAX_DELTA + 36,
{
    let halved: u64 = if first {
        delta / DAMP
    } else {
        delta / 2
    };
    assert(halved / points <= halved) by (nonlinear_arith)
        requires
            points > 0,
    ;
    let start: u64 = halved + halved / points;
    assert(start <= MAX_DELTA);
    let mut d: u64 = start;
    let mut k: u64 = 0;
    while d > ADAPT_LIMIT
        invariant
            d <= start <= MAX_DELTA,
            k <= 36 * (start - d),
            scale_down(start as nat, 0) == scale_down(d as nat, k as nat),
        decreases d,
    {
        d = d / 35;
        k = k + 36;
    }
    assert((36 * d) / ((d + SKEW) as int) <= 36) by (nonlinear_arith)
        requires
            d >= 0,
            SKEW == 38,
    ;
    k + (36 * d) / (d + SKEW)
}

/// The threshold of a digit position.
pub open spec fn threshold(k: nat, bias: nat) -> nat {
    if k <= bias + TMIN {
        TMIN as nat
    } else if k >= bias + TMAX {
        TMAX as nat
    } else {
        (k - bias) as nat
    }
}

/// A delta as a generalized variable-length integer.
pub open spec fn variable_length(q: nat, k: nat, bias: nat) -> Seq<char>
    decreases q,
    via variable_length_terminates
{
    let t = threshold(k, bias);
    if q < t {
        seq![digit_of(q)]
    } else {
        let rest = ((q - t) / (36 - t)) as nat;
        seq![digit_of((t + (q - t) % (36 - t)) as nat)] + variable_length(rest, k + 36, bias)
    }
}

proof fn quotient_shrinks(q: int, t: int)
    by (nonlinear_arith)
    requires
        1 <= t <= 26,
        t <= q,
    ensures
        0 <= (q - t) / (36 - t) < q,
        0 <= (q - t) % (36 - t) < 36 - t,
{
}

#[via_fn]
proof fn variable_length_terminates(q: nat, k: nat, bias: nat) {
    let t = threshold(k, bias);
    if q >= t {
        quotient_shrinks(q as int, t as int);
    }
}

fn push_variable_length(output: &mut Vec<char>, delta: u64, bias: u64)
    requires
        delta <= MAX_DELTA,
        bias <= 36 * MAX_DELTA + 36,
    ensures
        final(output)@ == old(output)@ + variable_length(delta as nat, 36, bias as nat),
{
    let ghost start = output@;
    let ghost full = variable_length(delta as nat, 36, bias as nat);
    let mut q: u64 = delta;
    let mut k: u64 = BASE;
    assert(output@ + full =~= start + full);
    loop
        invariant_except_break
            q <= delta <= MAX_DELTA,
            bias <= 36 * MAX_DELTA + 36,
            k <= 36 + 36 * (delta - q),
            output@ + variable_length(q as nat, k as nat, bias as nat) == start + full,
        ensures
            output@ == start + full,
        decreases q,
    {
        let t: u64 = if k <= bias + TMIN {
            TMIN
        } else if k >= bias + TMAX {
            TMAX
        } else {
            k - bias
        };
        let ghost before = output@;
        if q < t {
            output.push(encode_digit(q));
            assert(output@ =~= before + seq![digit_of(q as nat)]);
            break;
        }
        proof {
            quotient_shrinks(q as int, t as int);
        }
        let digit: u64 = t + (q - t) % (BASE - t);
        output.push(encode_digit(digit));
        let ghost rest = ((q - t) / (36 - t)) as nat;
        assert(before + (seq![digit_of(digit as nat)] + variable_length(
            rest,
            (k + 36) as nat,
            bias as nat,
        )) =~= output@ + variable_length(rest, (k + 36) as nat, bias as nat));
        q = (q - t) / (BASE - t);
        k = k + BASE;
    }
}

/// The ASCII characters of a label, in lower case.
pub open spec fn basic_chars(label: Seq<char>) -> Seq<char>
    decreases label.len(),
{
    if label.len() == 0 {
        Seq::empty()
    } else if label.last() as u32 <= 0x7f {
        basic_chars(label.drop_last()).push(lower_char(label.last()))
    } else {
        basic_chars(label.drop_last())
    }
}

/// The smallest code point at or above `n`, or the bound where there is none.
pub open spec fn next_code_point(label: Seq<char>, n: nat) -> nat
    decreases label.len(),
{
    if label.len() == 0 {
        MAX_DELTA as nat
    } else {
        let before = next_code_point(label.drop_last(), n);
        let c = label.last() as u32 as nat;
        if c >= n && c < before {
            c
        } else {
            before
        }
    }
}

/// An encoding under way: the delta, the bias, the code points handled so far
/// and the output.
pub struct Encoding {
    pub delta: nat,
    pub bias: nat,
    pub handled: nat,
    pub output: Seq<char>,
}

/// Pass over one character for the code point `n`; nothing on overflow.
pub open spec fn pass_char(state: Encoding, c: char, n: nat, basic: nat) -> Option<Encoding> {
    if (c as u32) < n {
        if state.delta + 1 > MAX_DELTA {
            None
        } else {
            Some(Encoding { delta: state.delta + 1, ..state })
        }
    } else if c as u32 == n {
        Some(
            Encoding {
                delta: 0,
                bias: adapted(state.delta, state.handled + 1, state.handled == basic),
                handled: state.handled + 1,
                output: state.output + variable_length(state.delta, 36, state.bias),
            },
        )
    } else {
        Some(state)
    }
}

/// Pass over the label for the code point `n`.
pub open spec fn pass(state: Encoding, label: Seq<char>, n: nat, basic: nat) -> Option<Encoding>
    decreases label.len(),
{
    if label.len() == 0 {
        Some(state)
    } else {
        match pass(state, label.drop_last(), n, basic) {
            Some(before) => pass_char(before, label.last(), n, basic),
            None => None,
        }
    }
}

/// Encode the code points at or above `n`, one after the other; nothing on
/// overflow.
pub open spec fn encode_from(state: Encoding, label: Seq<char>, n: nat, basic: nat) -> Option<
    Seq<char>,
>
    decreases MAX_DELTA + 1 - n,
    via encode_from_terminates
{
    if state.handled >= label.len() || n > MAX_DELTA {
        Some(state.output)
    } else {
        let m = next_code_point(label, n);
        let delta = state.delta + (m - n) * (state.handled + 1);
        if m < n || delta > MAX_DELTA {
            None
        } else {
            match pass(Encoding { delta: delta as nat, ..state }, label, m, basic) {
                None => None,
                Some(after) => if after.delta + 1 > MAX_DELTA {
                    None
                } else {
                    encode_from(
                        Encoding { delta: after.delta + 1, ..after },
                        label,
                        m + 1,
                        basic,
                    )
                },
            }
        }
    }
}

#[via_fn]
proof fn encode_from_terminates(state: Encoding, label: Seq<char>, n: nat, basic: nat) {
    if n <= MAX_DELTA {
        next_is_at_least(label, n);
    }
}

/// The Punycode form of a label; nothing where a delta overflows.
pub open spec fn punycode(label: Seq<char>) -> Option<Seq<char>> {
    let basic = basic_chars(label);
    encode_from(
        Encoding {
            delta: 0,
            bias: INITIAL_BIAS as nat,
            handled: basic.len(),
            output: if basic.len() > 0 {
                basic.push('-')
            } else {
                basic
            },
        },
        label,
        INITIAL_N as nat,
        basic.len(),
    )
}

/// How many code points are below `n`.
pub open spec fn count_below(label: Seq<char>, n: nat) -> nat
    decreases label.len(),
{
    if label.len() == 0 {
        0
    } else {
        count_below(label.drop_last(), n) + if (label.last() as u32 as nat) < n {
            1nat
        } else {
            0nat
        }
    }
}

proof fn basics_are_below(label: Seq<char>)
    ensures
        basic_chars(label).len() == count_below(label, INITIAL_N as nat),
    decreases label.len(),
{
    if label.len() > 0 {
        basics_are_below(label.drop_last());
    }
}

proof fn counts(label: Seq<char>, n: nat)
    requires
        n <= MAX_DELTA,
    ensures
        count_below(label, n) <= label.len(),
        count_below(label, next_code_point(label, n)) == count_below(label, n),
        count_below(label, n) < label.len() ==> next_code_point(label, n) < MAX_DELTA,
    decreases label.len(),
{
    if label.len() > 0 {
        let front = label.drop_last();
        counts(front, n);
        next_is_at_least(front, n);
        vstd::utf8::char_is_scalar(label.last());
        let before = next_code_point(front, n);
        let c = label.last() as u32 as nat;
        if c >= n && c < before {
            fewer_below(front, n, c, before);
        }
    }
}

proof fn fewer_below(label: Seq<char>, low: nat, mid: nat, high: nat)
    requires
        low <= mid <= high,
        count_below(label, low) == count_below(label, high),
    ensures
        count_below(label, mid) == count_below(label, low),
    decreases label.len(),
{
    if label.len() > 0 {
        more_below(label.drop_last(), low, mid);
        more_below(label.drop_last(), mid, high);
        more_below(label, low, mid);
        more_below(label, mid, high);
    }
}

proof fn more_below(label: Seq<char>, low: nat, high: nat)
    requires
        low <= high,
    ensures
        count_below(label, low) <= count_below(label, high),
    decreases label.len(),
{
    if label.len() > 0 {
        more_below(label.drop_last(), low, high);
    }
}

/// Every occurrence of the code point adds one to the count below the next.
proof fn occurrences(label: Seq<char>, n: nat, i: int)
    requires
        0 <= i <= label.len(),
    ensures
        count_below(label.take(i), n + 1) - count_below(label.take(i), n) <= count_below(
            label,
            n + 1,
        ) - count_below(label, n),
        count_below(label, n + 1) <= label.len(),
    decreases label.len(),
{
    if label.len() > 0 {
        if i < label.len() {
            assert(label.drop_last().take(i) =~= label.take(i));
            occurrences(label.drop_last(), n, i);
        } else {
            assert(label.take(i) =~= label);
            occurrences(label.drop_last(), n, i - 1);
        }
    }
}

pub(crate) proof fn next_is_at_least(label: Seq<char>, n: nat)
    requires
        n <= MAX_DELTA,
    ensures
        n <= next_code_point(label, n) <= MAX_DELTA,
    decreases label.len(),
{
    if label.len() > 0 {
        next_is_at_least(label.drop_last(), n);
    }
}

fn find_next(label: &[char], n: u64) -> (m: u64)
    requires
        n <= MAX_DELTA,
    ensures
        m == next_code_point(label@, n as nat),
{
    let mut m: u64 = MAX_DELTA;
    let mut i: usize = 0;
    assert(label@.take(0) =~= Seq::empty());
    while i < label.len()
        invariant
            i <= label@.len(),
            m == next_code_point(label@.take(i as int), n as nat),
        decreases label@.len() - i,
    {
        assert(label@.take(i as int + 1).drop_last() =~= label@.take(i as int));
        assert(label@.take(i as int + 1).last() == label@[i as int]);
        let c: u64 = label[i] as u32 as u64;
        if c >= n && c < m {
            m = c;
        }
        i += 1;
    }
    assert(label@.take(i as int) =~= label@);
    m
}

proof fn early_overflow(state: Encoding, label: Seq<char>, n: nat, basic: nat, i: int)
    requires
        0 <= i <= label.len(),
        pass(state, label.take(i), n, basic) is None,
    ensures
        pass(state, label, n, basic) is None,
    decreases label.len() - i,
{
    if i == label.len() {
        assert(label.take(i) =~= label);
    } else {
        assert(label.take(i + 1).drop_last() =~= label.take(i));
        early_overflow(state, label, n, basic, i + 1);
    }
}

/// Encode a host label; fails where a delta overflows.
pub fn encode_punycode_label(s: &str) -> (r: Result<String, String>)
    requires
        s@.len() < u32::MAX,
    ensures
        match r {
            Ok(text) => punycode(s@) == Some(text@),
            Err(reason) => punycode(s@) is None && reason@ == "punycode delta overflow"@,
        },
{
    let chars: Vec<char> = chars_of(s);
    let label: &[char] = chars.as_slice();
    let total: usize = label.len();
    let low: Vec<char> = lowered(label);
    let mut output: Vec<char> = Vec::new();
    let mut i: usize = 0;
    assert(label@.take(0) =~= Seq::empty());
    while i < total
        invariant
            total == label@.len(),
            i <= total,
            output@ =~= basic_chars(label@.take(i as int)),
            output@.len() <= i,
            low@.len() == total,
            forall|j: int| 0 <= j < total ==> #[trigger] low@[j] == lower_char(label@[j]),
        decreases total - i,
    {
        assert(label@.take(i as int + 1).drop_last() =~= label@.take(i as int));
        assert(label@.take(i as int + 1).last() == label@[i as int]);
        if label[i] as u32 <= 0x7f {
            output.push(low[i]);
        }
        i += 1;
    }
    assert(label@.take(i as int) =~= label@);
    proof {
        basics_are_below(label@);
        counts(label@, INITIAL_N as nat);
    }
    let basic: usize = output.len();
    if basic > 0 {
        output.push('-');
    }
    let mut handled: usize = basic;
    let mut n: u64 = INITIAL_N;
    let mut delta: u64 = 0;
    let mut bias: u64 = INITIAL_BIAS;
    while handled < total
        invariant
            label@ == s@,
            total == label@.len(),
            total < u32::MAX,
            basic <= handled <= total,
            handled == count_below(label@, n as nat),
            n <= MAX_DELTA,
            delta <= MAX_DELTA,
            bias <= 36 * MAX_DELTA + 36,
            punycode(s@) == encode_from(
                Encoding {
                    delta: delta as nat,
                    bias: bias as nat,
                    handled: handled as nat,
                    output: output@,
                },
                label@,
                n as nat,
                basic as nat,
            ),
        decreases MAX_DELTA - n,
    {
        proof {
            next_is_at_least(label@, n as nat);
            counts(label@, n as nat);
        }
        let m: u64 = find_next(label, n);
        let gap: u64 = m - n;
        let factor: u64 = handled as u64 + 1;
        assert(gap * factor <= 0xffff_ffff * 0xffff_ffff) by (nonlinear_arith)
            requires
                gap <= 0xffff_ffff,
                factor <= 0xffff_ffff,
        ;
        assert(gap * factor >= 0) by (nonlinear_arith)
            requires
                gap >= 0,
                factor >= 0,
        ;
        let step: u64 = gap * factor;
        if step > MAX_DELTA - delta {
            return Err(copy_text("punycode delta overflow"));
        }
        delta = delta + step;
        n = m;
        let ghost start = Encoding {
            delta: delta as nat,
            bias: bias as nat,
            handled: handled as nat,
            output: output@,
        };
        let ghost entered = handled;
        let mut j: usize = 0;
        assert(label@.take(0) =~= Seq::empty());
        while j < total
            invariant
                total == label@.len(),
                total < u32::MAX,
                j <= total,
                basic <= handled,
                entered == count_below(label@, n as nat),
                handled == entered + (count_below(label@.take(j as int), (n + 1) as nat)
                    - count_below(label@.take(j as int), n as nat)),
                n < MAX_DELTA,
                delta <= MAX_DELTA,
                bias <= 36 * MAX_DELTA + 36,
                pass(start, label@.take(j as int), n as nat, basic as nat) == Some(
                    Encoding {
                        delta: delta as nat,
                        bias: bias as nat,
                        handled: handled as nat,
                        output: output@,
                    },
                ),
                label@ == s@,
                punycode(s@) == (match pass(start, label@, n as nat, basic as nat) {
                    None => None,
                    Some(after) => if after.delta + 1 > MAX_DELTA {
                        None
                    } else {
                        encode_from(
                            Encoding { delta: after.delta + 1, ..after },
                            label@,
                            (n + 1) as nat,
                            basic as nat,
                        )
                    },
                }),
            decreases total - j,
        {
            assert(label@.take(j as int + 1).drop_last() =~= label@.take(j as int));
            assert(label@.take(j as int + 1).last() == label@[j as int]);
            proof {
                occurrences(label@, n as nat, j as int);
                occurrences(label@, n as nat, j as int + 1);
            }
            let c: u64 = label[j] as u32 as u64;
            if c < n {
                if delta >= MAX_DELTA {
                    proof {
                        early_overflow(start, label@, n as nat, basic as nat, j as int + 1);
                    }
                    return Err(copy_text("punycode delta overflow"));
                }
                delta = delta + 1;
            } else if c == n {
                push_variable_length(&mut output, delta, bias);
                bias = adapt_punycode(delta, handled as u64 + 1, handled == basic);
                delta = 0;
                handled = handled + 1;
            }
            j += 1;
        }
        assert(label@.take(j as int) =~= label@);
        proof {
            counts(label@, (n + 1) as nat);
        }
        if delta >= MAX_DELTA {
            return Err(copy_text("punycode delta overflow"));
        }
        delta = delta + 1;
        n = n + 1;
    }
    Ok(string_of(output.as_slice()))
}

/// No ASCII capital occurs.
pub open spec fn is_lower_case(text: Seq<char>) -> bool {
    forall|i: int| 0 <= i < text.len() ==> !('A' <= #[trigger] text[i] <= 'Z')
}

proof fn digits_are_lower_case(d: nat)
    ensures
        !('A' <= digit_of(d) <= 'Z'),
{
    if d <= 25 {
        assert(digit_of(d) as u32 == 97 + d);
    } else if d <= 35 {
        assert(digit_of(d) as u32 == 48 + (d - 26));
    }
}

proof fn variable_length_is_lower_case(q: nat, k: nat, bias: nat)
    ensures
        is_lower_case(variable_length(q, k, bias)),
    decreases q,
{
    let t = threshold(k, bias);
    if q < t {
        digits_are_lower_case(q);
    } else {
        quotient_shrinks(q as int, t as int);
        digits_are_lower_case((t + (q - t) % (36 - t)) as nat);
        variable_length_is_lower_case(((q - t) / (36 - t)) as nat, k + 36, bias);
    }
}

proof fn basics_are_lower_case(label: Seq<char>)
    ensures
        is_lower_case(basic_chars(label)),
    decreases label.len(),
{
    if label.len() > 0 {
        basics_are_lower_case(label.drop_last());
        let c = label.last();
        if 'A' <= c <= 'Z' {
            assert(lower_char(c) as u32 == c as u32 + 32);
        }
    }
}

proof fn passes_keep_lower_case(state: Encoding, label: Seq<char>, n: nat, basic: nat)
    requires
        is_lower_case(state.output),
        pass(state, label, n, basic) is Some,
    ensures
        is_lower_case(pass(state, label, n, basic)->0.output),
    decreases label.len(),
{
    if label.len() > 0 {
        passes_keep_lower_case(state, label.drop_last(), n, basic);
        let before = pass(state, label.drop_last(), n, basic)->0;
        variable_length_is_lower_case(before.delta, 36, before.bias);
    }
}

proof fn encoding_keeps_lower_case(state: Encoding, label: Seq<char>, n: nat, basic: nat)
    requires
        is_lower_case(state.output),
        encode_from(state, label, n, basic) is Some,
    ensures
        is_lower_case(encode_from(state, label, n, basic)->0),
    decreases MAX_DELTA + 1 - n,
{
    if !(state.handled >= label.len() || n > MAX_DELTA) {
        next_is_at_least(label, n);
        let m = next_code_point(label, n);
        let delta = state.delta + (m - n) * (state.handled + 1);
        let ready = Encoding { delta: delta as nat, ..state };
        passes_keep_lower_case(ready, label, m, basic);
        let after = pass(ready, label, m, basic)->0;
        encoding_keeps_lower_case(
            Encoding { delta: after.delta + 1, ..after },
            label,
            m + 1,
            basic,
        );
    }
}

/// The Punycode form of a label holds no capital.
pub proof fn punycode_is_lower_case(label: Seq<char>)
    requires
        punycode(label) is Some,
    ensures
        is_lower_case(punycode(label)->0),
{
    basics_are_lower_case(label);
    let basic = basic_chars(label);
    let state = Encoding {
        delta: 0,
        bias: INITIAL_BIAS as nat,
        handled: basic.len(),
        output: if basic.len() > 0 {
            basic.push('-')
        } else {
            basic
        },
    };
    encoding_keeps_lower_case(state, label, INITIAL_N as nat, basic.len());
}

} // verus!
