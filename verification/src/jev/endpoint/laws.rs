//! Equivalent spellings of an endpoint share one origin.
use crate::chars::{lower, lower_char, occurs_at, place_bounds, place_is, place_of, split};
use crate::jev::endpoint::{
    canonical_label, canonical_labels, decimal_digit, digits_number, folded, host_and_port,
    has_two_colons, host_on_loopback, is_ascii_label, is_first_invalid, is_label_char, is_mark,
    is_octet, is_v4, is_v6_char, is_v6_text,
    joins_path, label_complaint, last_place, last_place_from, origin_of, port_of, sanitized,
    scheme_and_authority, scheme_place, scheme_place_is, without_root_dot, AddressReadings,
    EndpointErrorView, OriginView, Scheme, MAX_ENDPOINT_INPUT_BYTES, SYSTEMONE_PATH,
};
use crate::jev::punycode::{is_lower_case, punycode, punycode_is_lower_case};
use crate::text::{byte_length, decimal, digit_char, optional_text};
use vstd::prelude::*;

verus! {

/// An endpoint as it may be written: a scheme, an authority and perhaps the
/// slash of the root path.
pub open spec fn spelling(scheme: Seq<char>, authority: Seq<char>, slash: bool) -> Seq<char> {
    scheme + "://"@ + authority + (if slash {
        "/"@
    } else {
        Seq::empty()
    })
}

/// An authority without path, userinfo, query or fragment.
pub open spec fn is_plain(authority: Seq<char>) -> bool {
    &&& authority.len() > 0
    &&& forall|i: int|
        0 <= i < authority.len() ==> (#[trigger] authority[i]) != '/' && authority[i] != '@'
            && authority[i] != '?' && authority[i] != '#'
}

/// May this spelling be read at all?
pub open spec fn is_spelled(
    scheme: Seq<char>,
    authority: Seq<char>,
    slash: bool,
    meant: Scheme,
) -> bool {
    &&& lower(scheme) == meant.label()
    &&& is_plain(authority)
    &&& byte_length(spelling(scheme, authority, slash)) <= MAX_ENDPOINT_INPUT_BYTES
}

proof fn scheme_letters(scheme: Seq<char>, meant: Scheme, i: int)
    requires
        lower(scheme) == meant.label(),
        0 <= i < scheme.len(),
    ensures
        scheme[i] != ':',
        scheme[i] != '/',
        scheme[i] != '@',
        scheme[i] != '?',
        scheme[i] != '#',
{
    reveal_strlit("https");
    reveal_strlit("http");
    let c = lower(scheme)[i];
    assert(c == lower_char(scheme[i]));
    assert(lower(scheme).len() == scheme.len());
    assert(c == 'h' || c == 't' || c == 'p' || c == 's');
}

proof fn spelling_is_read(scheme: Seq<char>, authority: Seq<char>, slash: bool, meant: Scheme)
    requires
        is_spelled(scheme, authority, slash, meant),
    ensures
        scheme_and_authority(spelling(scheme, authority, slash)) == Ok::<
            (Scheme, Seq<char>),
            EndpointErrorView,
        >((meant, authority)),
{
    reveal_strlit("://");
    reveal_strlit("/");
    reveal_strlit("https");
    reveal_strlit("http");
    reveal_strlit("/v1/systemone");
    reveal_strlit("/v1/systemone/");
    reveal_strlit("/v1");
    reveal_strlit("/v1/");
    let input = spelling(scheme, authority, slash);
    let mark = scheme.len() as int;
    let n = authority.len() as int;
    assert(lower(scheme).len() == scheme.len());
    assert forall|j: int| 0 <= j < input.len() implies (#[trigger] input[j]) != '@' && input[j]
        != '?' && input[j] != '#' by {
        if j < mark {
            scheme_letters(scheme, meant, j);
            assert(input[j] == scheme[j]);
        } else if j < mark + 3 {
            assert(input[j] == "://"@[j - mark]);
        } else if j < mark + 3 + n {
            assert(input[j] == authority[j - mark - 3]);
        } else {
            assert(input[j] == '/');
        }
    }
    assert forall|j: int| 0 <= j < mark implies !#[trigger] is_mark(input, j) by {
        scheme_letters(scheme, meant, j);
        assert(input[j] == scheme[j]);
    }
    assert(is_mark(input, mark)) by {
        assert(input[mark] == "://"@[0]);
        assert(input[mark + 1] == "://"@[1]);
        assert(input[mark + 2] == "://"@[2]);
    }
    scheme_place_is(input, mark);
    place_is(input, '@', input.len() as int);
    place_is(input, '?', input.len() as int);
    place_is(input, '#', input.len() as int);
    assert(input.take(mark) =~= scheme);
    let rest = input.skip(mark + 3);
    let path = if slash {
        "/"@
    } else {
        Seq::empty()
    };
    assert(rest =~= authority + path);
    assert forall|j: int| 0 <= j < n implies #[trigger] rest[j] != '/' by {
        assert(rest[j] == authority[j]);
    }
    place_is(rest, '/', n);
    assert(rest.take(n) =~= authority);
    assert(rest.skip(n) =~= path);
    assert("/v1/systemone"@.len() > 1 && "/v1/systemone/"@.len() > 1 && "/v1"@.len() > 1
        && "/v1/"@.len() > 1);
    assert(!joins_path(path));
    assert("https"@ != "http"@) by {
        assert("https"@.len() == 5 && "http"@.len() == 4);
    }
}

/// A trailing slash makes no difference.
pub proof fn trailing_slash_is_ignored(
    scheme: Seq<char>,
    authority: Seq<char>,
    meant: Scheme,
    readings: AddressReadings,
)
    requires
        is_spelled(scheme, authority, false, meant),
        is_spelled(scheme, authority, true, meant),
    ensures
        origin_of(spelling(scheme, authority, true), readings) == origin_of(
            spelling(scheme, authority, false),
            readings,
        ),
{
    spelling_is_read(scheme, authority, true, meant);
    spelling_is_read(scheme, authority, false, meant);
}

proof fn last_place_is(text: Seq<char>, c: char, k: int, n: int)
    requires
        0 <= k < n <= text.len(),
        text[k] == c,
        forall|j: int| k < j < n ==> (#[trigger] text[j]) != c,
    ensures
        last_place_from(text, c, n) == k,
    decreases n,
{
    if n - 1 > k {
        assert(text[n - 1] != c);
        last_place_is(text, c, k, n - 1);
    }
}

proof fn no_last_place(text: Seq<char>, c: char, n: int)
    requires
        0 <= n <= text.len(),
        forall|j: int| 0 <= j < n ==> (#[trigger] text[j]) != c,
    ensures
        last_place_from(text, c, n) == text.len(),
    decreases n,
{
    if n > 0 {
        assert(text[n - 1] != c);
        no_last_place(text, c, n - 1);
    }
}

proof fn decimal_reads_back(n: nat)
    ensures
        decimal(n).len() > 0,
        digits_number(decimal(n)) == Some(n),
        forall|i: int| 0 <= i < decimal(n).len() ==> '0' <= (#[trigger] decimal(n)[i]) <= '9',
    decreases n,
{
    let text = decimal(n);
    if n < 10 {
        assert(text.drop_last() =~= Seq::empty());
        assert(digits_number(text.drop_last()) == Some(0nat));
        assert(decimal_digit(digit_char(n)) == Some(n));
    } else {
        decimal_reads_back(n / 10);
        assert(text.drop_last() =~= decimal(n / 10));
        assert(decimal_digit(digit_char(n % 10)) == Some(n % 10));
        assert(10 * (n / 10) + n % 10 == n) by (nonlinear_arith);
    }
}

/// A port in decimal notation is read as that port.
proof fn ports_read_back(port: u16)
    requires
        port > 0,
    ensures
        port_of(decimal(port as nat)) == Some(port),
{
    decimal_reads_back(port as nat);
    let text = decimal(port as nat);
    assert('0' <= text[0] <= '9');
}

/// A host name as an authority: no port mark, no bracket.
pub open spec fn is_bare(authority: Seq<char>) -> bool {
    authority.len() > 0 && authority[0] != '[' && !authority.contains(':')
}

proof fn bare_hosts_are_read(host: Seq<char>)
    requires
        is_bare(host),
    ensures
        forall|is_address: bool|
            #[trigger] host_and_port(host, is_address) == Ok::<
                (Seq<char>, Option<u16>),
                EndpointErrorView,
            >((host, None)),
        !has_two_colons(host),
{
    assert forall|j: int| 0 <= j < host.len() implies (#[trigger] host[j]) != ':' by {
        assert(host.contains(host[j]));
    }
    no_last_place(host, ':', host.len() as int);
    place_is(host, ':', host.len() as int);
}

proof fn hosts_with_port_are_read(host: Seq<char>, port: u16)
    requires
        is_bare(host),
        port > 0,
    ensures
        forall|is_address: bool|
            #[trigger] host_and_port(host + ":"@ + decimal(port as nat), is_address) == Ok::<
                (Seq<char>, Option<u16>),
                EndpointErrorView,
            >((host, Some(port))),
{
    reveal_strlit(":");
    let digits = decimal(port as nat);
    let authority = host + ":"@ + digits;
    let k = host.len() as int;
    decimal_reads_back(port as nat);
    ports_read_back(port);
    assert(authority[k] == ':');
    assert(authority[0] == host[0]);
    assert forall|j: int| k < j < authority.len() implies (#[trigger] authority[j]) != ':' by {
        assert(authority[j] == digits[j - k - 1]);
    }
    last_place_is(authority, ':', k, authority.len() as int);
    assert forall|j: int| 0 <= j < k implies (#[trigger] authority[j]) != ':' by {
        assert(authority[j] == host[j]);
        assert(host.contains(host[j]));
    }
    place_is(authority, ':', k);
    assert(authority.take(k) =~= host);
    assert(authority.skip(k + 1) =~= digits);
}

/// An address in brackets, as it stands in an authority.
pub open spec fn is_bracketed(host: Seq<char>) -> bool {
    &&& host.len() >= 2
    &&& host[0] == '['
    &&& host.last() == ']'
    &&& forall|i: int| 0 <= i < host.len() - 1 ==> (#[trigger] host[i]) != ']'
}

/// A host as it stands in an authority.
pub open spec fn is_host_part(host: Seq<char>) -> bool {
    is_bare(host) || is_bracketed(host)
}

/// A host without the brackets of an address.
pub open spec fn inner(host: Seq<char>) -> Seq<char> {
    if host.len() >= 2 && host[0] == '[' {
        host.subrange(1, host.len() - 1)
    } else {
        host
    }
}

/// A host with its port, if it has one.
pub open spec fn with_port(host: Seq<char>, port: Option<u16>) -> Seq<char> {
    match port {
        Some(p) => host + ":"@ + decimal(p as nat),
        None => host,
    }
}

proof fn host_parts_are_read(host: Seq<char>, port: Option<u16>, is_address: bool)
    requires
        is_host_part(host),
        port is Some ==> port->0 > 0,
    ensures
        host_and_port(with_port(host, port), is_address) == Ok::<
            (Seq<char>, Option<u16>),
            EndpointErrorView,
        >((inner(host), port)),
{
    if is_bare(host) {
        match port {
            Some(p) => {
                hosts_with_port_are_read(host, p);
            },
            None => {
                bare_hosts_are_read(host);
            },
        }
    } else {
        reveal_strlit(":");
        let authority = with_port(host, port);
        let rest = authority.skip(1);
        let close = host.len() - 2;
        assert(authority[0] == host[0]);
        assert forall|j: int| 0 <= j < close implies (#[trigger] rest[j]) != ']' by {
            assert(rest[j] == host[j + 1]);
        }
        assert(rest[close] == host[close + 1]);
        place_is(rest, ']', close);
        assert(rest.take(close) =~= inner(host));
        match port {
            Some(p) => {
                let digits = decimal(p as nat);
                assert(rest.skip(close + 1) =~= ":"@ + digits);
                assert((":"@ + digits).skip(1) =~= digits);
                ports_read_back(p);
            },
            None => {
                assert(rest.skip(close + 1) =~= Seq::empty());
            },
        }
    }
}

/// The default port of the scheme makes no difference.
pub proof fn default_port_is_ignored(
    scheme: Seq<char>,
    host: Seq<char>,
    meant: Scheme,
    readings: AddressReadings,
)
    requires
        is_host_part(host),
        is_spelled(scheme, host, false, meant),
        is_spelled(scheme, with_port(host, Some(meant.usual_port())), false, meant),
    ensures
        origin_of(
            spelling(scheme, with_port(host, Some(meant.usual_port())), false),
            readings,
        ) == origin_of(spelling(scheme, host, false), readings),
{
    spelling_is_read(scheme, host, false, meant);
    spelling_is_read(scheme, with_port(host, Some(meant.usual_port())), false, meant);
    host_parts_are_read(host, None, readings.authority_is_v6);
    host_parts_are_read(host, Some(meant.usual_port()), readings.authority_is_v6);
}

proof fn lower_splits(text: Seq<char>)
    ensures
        split(lower(text), '.') == split(text, '.').map_values(|l: Seq<char>| lower(l)),
    decreases text.len(),
{
    let low = lower(text);
    let k = place_of(text, '.');
    place_bounds(text, '.');
    assert forall|j: int| 0 <= j < k implies #[trigger] low[j] != '.' by {
        assert(low[j] == lower_char(text[j]));
        if 'A' <= text[j] <= 'Z' {
            assert(lower_char(text[j]) as u32 == text[j] as u32 + 32);
        }
    }
    if k < text.len() {
        assert(low[k] == '.');
    }
    place_is(low, '.', k);
    if k < text.len() {
        let rest = text.skip(k + 1);
        lower_splits(rest);
        assert(low.take(k) =~= lower(text.take(k)));
        assert(low.skip(k + 1) =~= lower(rest));
        assert(split(low, '.') =~= split(text, '.').map_values(|l: Seq<char>| lower(l)));
    } else {
        assert(split(low, '.') =~= split(text, '.').map_values(|l: Seq<char>| lower(l)));
    }
}

/// All characters are ASCII.
proof fn split_keeps_ascii(text: Seq<char>)
    requires
        is_ascii_label(text),
    ensures
        forall|i: int| 0 <= i < split(text, '.').len() ==> is_ascii_label(#[trigger] split(text, '.')[i]),
    decreases text.len(),
{
    place_bounds(text, '.');
    let k = place_of(text, '.');
    if k < text.len() {
        split_keeps_ascii(text.skip(k + 1));
        let rest = split(text.skip(k + 1), '.');
        assert forall|i: int| 0 <= i < split(text, '.').len() implies is_ascii_label(
            #[trigger] split(text, '.')[i],
        ) by {
            if i > 0 {
                assert(split(text, '.')[i] == rest[i - 1]);
            }
        }
    }
}

/// Labels that differ in case alone.
pub open spec fn fold_alike(a: Seq<Seq<char>>, b: Seq<Seq<char>>) -> bool {
    a.len() == b.len() && forall|i: int|
        0 <= i < a.len() ==> folded(#[trigger] a[i]) == folded(b[i])
}

/// Host names that differ in the case of their letters alone, in any script.
pub open spec fn same_but_case(host: Seq<char>, other: Seq<char>) -> bool {
    &&& fold_alike(split(without_root_dot(host), '.'), split(without_root_dot(other), '.'))
    &&& (host.last() == '.') == (other.last() == '.')
}

proof fn labels_ignore_case(a: Seq<Seq<char>>, b: Seq<Seq<char>>)
    requires
        fold_alike(a, b),
    ensures
        canonical_labels(a) == canonical_labels(b),
    decreases a.len(),
{
    if a.len() > 0 {
        let n = a.len() - 1;
        assert(fold_alike(a.drop_last(), b.drop_last())) by {
            assert forall|i: int| 0 <= i < n implies folded(#[trigger] a.drop_last()[i]) == folded(
                b.drop_last()[i],
            ) by {
                assert(a.drop_last()[i] == a[i]);
                assert(b.drop_last()[i] == b[i]);
            }
        }
        labels_ignore_case(a.drop_last(), b.drop_last());
        assert(folded(a[n]) == folded(b[n]));
    }
}

/// Letter case makes no difference, in the scheme or in a host name of any
/// script.
pub proof fn case_is_ignored(
    scheme: Seq<char>,
    host: Seq<char>,
    other_scheme: Seq<char>,
    other: Seq<char>,
    meant: Scheme,
    readings: AddressReadings,
)
    requires
        is_bare(host),
        is_bare(other),
        !is_v4(host),
        !is_v4(other),
        same_but_case(host, other),
        is_spelled(scheme, host, false, meant),
        is_spelled(other_scheme, other, false, meant),
    ensures
        origin_of(spelling(scheme, host, false), readings) == origin_of(
            spelling(other_scheme, other, false),
            readings,
        ),
{
    spelling_is_read(scheme, host, false, meant);
    spelling_is_read(other_scheme, other, false, meant);
    bare_hosts_are_read(host);
    bare_hosts_are_read(other);
    labels_ignore_case(split(without_root_dot(host), '.'), split(without_root_dot(other), '.'));
}

/// ASCII host names with the same letters, but for their case, differ in case
/// alone.
pub proof fn ascii_letters_differ_in_case_alone(host: Seq<char>, other: Seq<char>)
    requires
        is_ascii_label(host),
        is_ascii_label(other),
        lower(host) == lower(other),
        host.len() > 0,
    ensures
        same_but_case(host, other),
{
    assert(lower(host).len() == host.len());
    assert(lower(other).len() == other.len());
    let a = without_root_dot(host);
    let b = without_root_dot(other);
    same_dots(host, other);
    assert(lower(a) =~= lower(b)) by {
        if a.len() < host.len() {
            assert(lower(a) =~= lower(host).drop_last());
            assert(lower(b) =~= lower(other).drop_last());
        }
    }
    lower_splits(a);
    lower_splits(b);
    split_keeps_ascii(a);
    split_keeps_ascii(b);
    let x = split(a, '.');
    let y = split(b, '.');
    assert(x.map_values(|l: Seq<char>| lower(l)) == y.map_values(|l: Seq<char>| lower(l)));
    assert(x.len() == x.map_values(|l: Seq<char>| lower(l)).len());
    assert(y.len() == y.map_values(|l: Seq<char>| lower(l)).len());
    assert forall|i: int| 0 <= i < x.len() implies folded(#[trigger] x[i]) == folded(y[i]) by {
        assert(x.map_values(|l: Seq<char>| lower(l))[i] == lower(x[i]));
        assert(y.map_values(|l: Seq<char>| lower(l))[i] == lower(y[i]));
        assert(is_ascii_label(x[i]) && is_ascii_label(y[i]));
    }
}

/// Texts that differ in case alone have their dots at the same places.
proof fn same_dots(a: Seq<char>, b: Seq<char>)
    requires
        lower(a) == lower(b),
    ensures
        a.len() == b.len(),
        forall|i: int| 0 <= i < a.len() ==> ((#[trigger] a[i]) == '.' <==> b[i] == '.'),
{
    assert(lower(a).len() == a.len());
    assert(lower(b).len() == b.len());
    assert forall|i: int| 0 <= i < a.len() implies ((#[trigger] a[i]) == '.' <==> b[i] == '.') by {
        assert(lower(a)[i] == lower_char(a[i]));
        assert(lower(b)[i] == lower_char(b[i]));
        if 'A' <= a[i] <= 'Z' {
            assert(lower_char(a[i]) as u32 == a[i] as u32 + 32);
        }
        if 'A' <= b[i] <= 'Z' {
            assert(lower_char(b[i]) as u32 == b[i] as u32 + 32);
        }
    }
}

proof fn first_invalid_exists(label: Seq<char>, k: int)
    requires
        0 <= k < label.len(),
        !is_label_char(label[k]),
    ensures
        exists|j: int| is_first_invalid(label, j),
    decreases k,
{
    if exists|j: int| 0 <= j < k && !is_label_char(#[trigger] label[j]) {
        let j = choose|j: int| 0 <= j < k && !is_label_char(#[trigger] label[j]);
        first_invalid_exists(label, j);
    } else {
        assert(is_first_invalid(label, k));
    }
}

/// A label without complaint holds label characters alone.
proof fn good_labels_are_plain(label: Seq<char>)
    requires
        label_complaint(label) is None,
    ensures
        forall|i: int| 0 <= i < label.len() ==> is_label_char(#[trigger] label[i]),
        is_ascii_label(label),
{
    assert forall|i: int| 0 <= i < label.len() implies is_label_char(#[trigger] label[i]) by {
        if !is_label_char(label[i]) {
            first_invalid_exists(label, i);
        }
    }
    assert forall|i: int| 0 <= i < label.len() implies (#[trigger] label[i]) as u32 <= 0x7f by {
        assert(is_label_char(label[i]));
    }
}

proof fn lower_is_lower_case(text: Seq<char>)
    ensures
        is_lower_case(lower(text)),
        is_lower_case(text) ==> lower(text) == text,
{
    assert forall|i: int| 0 <= i < lower(text).len() implies !('A' <= #[trigger] lower(text)[i]
        <= 'Z') by {
        assert(lower(text)[i] == lower_char(text[i]));
        if 'A' <= text[i] <= 'Z' {
            assert(lower_char(text[i]) as u32 == text[i] as u32 + 32);
        }
    }
    if is_lower_case(text) {
        assert(lower(text) =~= text);
    }
}

/// A canonical label is its own canonical form, without capital letters.
pub proof fn canonical_labels_are_stable(label: Seq<char>)
    requires
        canonical_label(label) is Ok,
    ensures
        canonical_label(canonical_label(label)->Ok_0) == canonical_label(label),
        label_complaint(canonical_label(label)->Ok_0) is None,
        is_lower_case(canonical_label(label)->Ok_0),
        canonical_label(label)->Ok_0.len() > 0,
{
    reveal_strlit("xn--");
    let form = canonical_label(label)->Ok_0;
    let text = folded(label);
    good_labels_are_plain(form);
    if is_ascii_label(text) {
        lower_is_lower_case(text);
        assert(lower(text).len() == text.len());
    } else {
        let encoded = punycode(text)->0;
        punycode_is_lower_case(text);
        assert forall|i: int| 0 <= i < form.len() implies !('A' <= #[trigger] form[i] <= 'Z') by {
            if i < 4 {
                assert(form[i] == "xn--"@[i]);
            } else {
                assert(form[i] == encoded[i - 4]);
            }
        }
    }
    lower_is_lower_case(form);
}

/// An internationalized label and its ASCII form are one label.
pub proof fn international_labels_share_their_form(label: Seq<char>)
    requires
        !is_ascii_label(folded(label)),
        canonical_label(label) is Ok,
    ensures
        punycode(folded(label)) is Some,
        canonical_label("xn--"@ + punycode(folded(label))->0) == canonical_label(label),
{
    canonical_labels_are_stable(label);
}

/// Labels joined by dots.
spec fn dotted(labels: Seq<Seq<char>>) -> Seq<char>
    decreases labels.len(),
{
    if labels.len() == 0 {
        Seq::empty()
    } else if labels.len() == 1 {
        labels[0]
    } else {
        dotted(labels.drop_last()) + "."@ + labels.last()
    }
}

/// A label that stays as it is.
spec fn is_stable(label: Seq<char>) -> bool {
    label.len() > 0 && label_complaint(label) is None && canonical_label(label) == Ok::<
        Seq<char>,
        EndpointErrorView,
    >(label)
}

spec fn all_stable(labels: Seq<Seq<char>>) -> bool {
    forall|i: int| 0 <= i < labels.len() ==> is_stable(#[trigger] labels[i])
}

/// The canonical labels of a host.
spec fn forms(labels: Seq<Seq<char>>) -> Seq<Seq<char>> {
    labels.map_values(|l: Seq<char>| canonical_label(l)->Ok_0)
}

proof fn canonical_hosts_are_dotted(labels: Seq<Seq<char>>)
    requires
        canonical_labels(labels) is Ok,
    ensures
        canonical_labels(labels)->Ok_0 == dotted(forms(labels)),
        all_stable(forms(labels)),
    decreases labels.len(),
{
    if labels.len() > 0 {
        let n = labels.len() - 1;
        let list = forms(labels);
        canonical_hosts_are_dotted(labels.drop_last());
        canonical_labels_are_stable(labels[n]);
        assert(list.drop_last() =~= forms(labels.drop_last()));
        assert forall|i: int| 0 <= i < list.len() implies is_stable(#[trigger] list[i]) by {
            if i < n {
                assert(list[i] == forms(labels.drop_last())[i]);
            }
        }
    }
}

proof fn stable_labels_have_no_dot(label: Seq<char>)
    requires
        is_stable(label),
    ensures
        forall|i: int|
            0 <= i < label.len() ==> (#[trigger] label[i]) != '.' && is_label_char(label[i]),
{
    good_labels_are_plain(label);
    assert forall|i: int| 0 <= i < label.len() implies (#[trigger] label[i]) != '.'
        && is_label_char(label[i]) by {
        assert(is_label_char(label[i]));
    }
}

/// A character of a canonical host name.
spec fn is_host_char(c: char) -> bool {
    is_label_char(c) || c == '.'
}

proof fn dotted_is_plain(labels: Seq<Seq<char>>)
    requires
        all_stable(labels),
        labels.len() > 0,
    ensures
        dotted(labels).len() > 0,
        dotted(labels).last() != '.',
        forall|i: int| 0 <= i < dotted(labels).len() ==> is_host_char(#[trigger] dotted(labels)[i]),
    decreases labels.len(),
{
    let n = labels.len() - 1;
    let text = dotted(labels);
    stable_labels_have_no_dot(labels[n]);
    if labels.len() > 1 {
        reveal_strlit(".");
        let before = dotted(labels.drop_last());
        assert forall|i: int| 0 <= i < n implies is_stable(#[trigger] labels.drop_last()[i]) by {
            assert(labels.drop_last()[i] == labels[i]);
        }
        dotted_is_plain(labels.drop_last());
        assert forall|i: int| 0 <= i < text.len() implies is_host_char(#[trigger] text[i]) by {
            if i < before.len() {
                assert(text[i] == before[i]);
            } else if i == before.len() {
                assert(text[i] == '.');
            } else {
                assert(text[i] == labels[n][i - before.len() - 1]);
            }
        }
        assert(text.last() == labels[n].last());
    }
}

/// Splitting behind a first part that has no dot.
proof fn split_after(first: Seq<char>, rest: Seq<char>)
    requires
        forall|i: int| 0 <= i < first.len() ==> (#[trigger] first[i]) != '.',
    ensures
        split(first + "."@ + rest, '.') == seq![first] + split(rest, '.'),
        split(first, '.') == seq![first],
{
    reveal_strlit(".");
    let text = first + "."@ + rest;
    let k = first.len() as int;
    assert forall|j: int| 0 <= j < k implies #[trigger] text[j] != '.' by {
        assert(text[j] == first[j]);
    }
    place_is(text, '.', k);
    assert(text.take(k) =~= first);
    assert(text.skip(k + 1) =~= rest);
    place_is(first, '.', k);
}

/// Splitting a text at its last dot.
proof fn split_before_last(before: Seq<char>, last: Seq<char>)
    requires
        forall|i: int| 0 <= i < last.len() ==> (#[trigger] last[i]) != '.',
    ensures
        split(before + "."@ + last, '.') == split(before, '.').push(last),
    decreases before.len(),
{
    reveal_strlit(".");
    let k = place_of(before, '.');
    place_bounds(before, '.');
    if k < before.len() {
        let first = before.take(k);
        let rest = before.skip(k + 1);
        split_before_last(rest, last);
        assert(before + "."@ + last =~= first + "."@ + (rest + "."@ + last));
        split_after(first, rest + "."@ + last);
        assert(split(before, '.') == seq![first] + split(rest, '.'));
        assert(seq![first] + split(rest, '.').push(last) =~= (seq![first] + split(
            rest,
            '.',
        )).push(last));
    } else {
        split_after(before, last);
        place_is(last, '.', last.len() as int);
        assert(split(last, '.') == seq![last]);
        assert(split(before, '.') == seq![before]);
        assert(seq![before] + seq![last] =~= seq![before].push(last));
    }
}

proof fn dotted_splits_back(labels: Seq<Seq<char>>)
    requires
        all_stable(labels),
        labels.len() > 0,
    ensures
        split(dotted(labels), '.') == labels,
    decreases labels.len(),
{
    let n = labels.len() - 1;
    stable_labels_have_no_dot(labels[n]);
    if labels.len() == 1 {
        split_after(labels[0], Seq::empty());
        assert(labels =~= seq![labels[0]]);
    } else {
        assert forall|i: int| 0 <= i < n implies is_stable(#[trigger] labels.drop_last()[i]) by {
            assert(labels.drop_last()[i] == labels[i]);
        }
        dotted_splits_back(labels.drop_last());
        split_before_last(dotted(labels.drop_last()), labels[n]);
        assert(labels =~= labels.drop_last().push(labels[n]));
    }
}

proof fn stable_labels_stay(labels: Seq<Seq<char>>)
    requires
        all_stable(labels),
    ensures
        canonical_labels(labels) == Ok::<Seq<char>, EndpointErrorView>(dotted(labels)),
    decreases labels.len(),
{
    if labels.len() > 0 {
        let n = labels.len() - 1;
        assert forall|i: int| 0 <= i < n implies is_stable(#[trigger] labels.drop_last()[i]) by {
            assert(labels.drop_last()[i] == labels[i]);
        }
        stable_labels_stay(labels.drop_last());
        assert(is_stable(labels[n]));
    }
}

proof fn split_is_not_empty(text: Seq<char>)
    ensures
        split(text, '.').len() > 0,
{
    place_bounds(text, '.');
}

/// A plain HTTP origin is a loopback origin: any other host needs HTTPS.
pub proof fn http_needs_loopback(input: Seq<char>, readings: AddressReadings)
    requires
        origin_of(input, readings) is Ok,
    ensures
        origin_of(input, readings)->Ok_0.scheme == Scheme::Http ==> host_on_loopback(
            origin_of(input, readings)->Ok_0.host,
        ),
{
    let origin = origin_of(input, readings)->Ok_0;
    if origin.scheme == Scheme::Http && origin.host == "localhost"@ {
        reveal_strlit("localhost");
        assert(is_lower_case(origin.host));
        lower_is_lower_case(origin.host);
    }
}

/// A label of a canonical host: up to 63 small letters, digits and hyphens,
/// with no hyphen at either end.
pub open spec fn is_host_label(label: Seq<char>) -> bool {
    &&& 0 < label.len() <= 63
    &&& label[0] != '-' && label.last() != '-'
    &&& forall|i: int|
        0 <= i < label.len() ==> 'a' <= (#[trigger] label[i]) <= 'z' || '0' <= label[i] <= '9'
            || label[i] == '-'
}

/// A host name, or an IPv4 address.
pub open spec fn is_host_name(host: Seq<char>) -> bool {
    forall|i: int| 0 <= i < split(host, '.').len() ==> is_host_label(#[trigger] split(host, '.')[i])
}

/// An IPv6 address in brackets.
pub open spec fn is_v6_host(host: Seq<char>) -> bool {
    &&& host.len() > 2
    &&& host[0] == '[' && host.last() == ']'
    &&& forall|i: int| 0 < i < host.len() - 1 ==> is_v6_char(#[trigger] host[i])
}

/// Every character takes at least one byte.
proof fn chars_take_bytes(text: Seq<char>)
    ensures
        text.len() <= byte_length(text),
    decreases text.len(),
{
    if text.len() > 0 {
        chars_take_bytes(text.drop_first());
    }
}

proof fn numbers_are_digits(text: Seq<char>)
    requires
        digits_number(text) is Some,
    ensures
        forall|i: int| 0 <= i < text.len() ==> '0' <= (#[trigger] text[i]) <= '9',
    decreases text.len(),
{
    if text.len() > 0 {
        numbers_are_digits(text.drop_last());
        assert forall|i: int| 0 <= i < text.len() implies '0' <= (#[trigger] text[i]) <= '9' by {
            if i < text.len() - 1 {
                assert(text.drop_last()[i] == text[i]);
            } else {
                assert(text.last() == text[i]);
            }
        }
    }
}

/// A canonical label that carries no complaint has the shape of one.
proof fn stable_labels_have_shape(label: Seq<char>)
    requires
        label.len() > 0,
        label_complaint(label) is None,
        is_lower_case(label),
    ensures
        is_host_label(label),
{
    good_labels_are_plain(label);
    chars_take_bytes(label);
    assert forall|i: int| 0 <= i < label.len() implies 'a' <= (#[trigger] label[i]) <= 'z' || '0'
        <= label[i] <= '9' || label[i] == '-' by {
        assert(is_label_char(label[i]));
    }
}

/// An accepted host is a name of well-formed labels, an IPv4 address, or an
/// IPv6 address in brackets. It holds no capital letter and nothing but ASCII.
pub proof fn accepted_hosts_are_well_formed(
    input: Seq<char>,
    readings: AddressReadings,
)
    requires
        origin_of(input, readings) is Ok,
    ensures
        ({
            let host = origin_of(input, readings)->Ok_0.host;
            is_host_name(host) || is_v6_host(host)
        }),
{
    let host = origin_of(input, readings)->Ok_0.host;
    let (_, authority) = scheme_and_authority(input)->Ok_0;
    let (raw, _) = host_and_port(authority, readings.authority_is_v6)->Ok_0;
    if is_v4(raw) {
        assert forall|i: int| 0 <= i < split(host, '.').len() implies is_host_label(
            #[trigger] split(host, '.')[i],
        ) by {
            assert(is_octet(split(host, '.')[i]));
            numbers_are_digits(split(host, '.')[i]);
        }
    } else if readings.host_v6 is Some && has_two_colons(raw) && is_v6_text(readings.host_v6->0@) {
        reveal_strlit("[");
        reveal_strlit("]");
        let own = readings.host_v6->0@;
        two_colons_take_room(own);
        assert(host == "["@ + own + "]"@);
        assert forall|i: int| 0 < i < host.len() - 1 implies is_v6_char(#[trigger] host[i]) by {
            assert(host[i] == own[i - 1]);
        }
    } else {
        let labels = split(without_root_dot(raw), '.');
        split_is_not_empty(without_root_dot(raw));
        canonical_hosts_are_dotted(labels);
        let list = forms(labels);
        dotted_splits_back(list);
        assert forall|i: int| 0 <= i < split(host, '.').len() implies is_host_label(
            #[trigger] split(host, '.')[i],
        ) by {
            assert(is_stable(list[i]));
            canonical_labels_are_stable(list[i]);
            stable_labels_have_shape(list[i]);
        }
    }
}

/// What holds of every character of every part holds of the whole text, but
/// for its dots.
proof fn names_are_plain(host: Seq<char>)
    requires
        is_host_name(host),
    ensures
        host.len() > 0,
        forall|i: int| 0 <= i < host.len() ==> is_host_char(#[trigger] host[i]),
    decreases host.len(),
{
    let parts = split(host, '.');
    let k = place_of(host, '.');
    place_bounds(host, '.');
    assert(is_host_label(parts[0]));
    assert(parts[0] =~= host.take(k));
    if k < host.len() {
        let rest = host.skip(k + 1);
        assert(parts == seq![host.take(k)] + split(rest, '.'));
        assert forall|i: int| 0 <= i < split(rest, '.').len() implies is_host_label(
            #[trigger] split(rest, '.')[i],
        ) by {
            assert(parts[i + 1] == split(rest, '.')[i]);
        }
        names_are_plain(rest);
        assert forall|i: int| 0 <= i < host.len() implies is_host_char(#[trigger] host[i]) by {
            if i < k {
                assert(host[i] == parts[0][i]);
            } else if i > k {
                assert(host[i] == rest[i - k - 1]);
            }
        }
    } else {
        assert forall|i: int| 0 <= i < host.len() implies is_host_char(#[trigger] host[i]) by {
            assert(host[i] == parts[0][i]);
        }
    }
}

/// A canonical host stands in an authority as it is, and holds no mark of
/// another part.
proof fn canonical_hosts_are_parts(host: Seq<char>, port: Option<u16>)
    requires
        is_host_name(host) || is_v6_host(host),
    ensures
        is_host_part(host),
        is_bare(host) == !is_v6_host(host),
        is_plain(with_port(host, port)),
{
    reveal_strlit(":");
    if is_host_name(host) {
        names_are_plain(host);
        assert(is_host_char(host[0]));
        assert forall|i: int| 0 <= i < host.len() implies (#[trigger] host[i]) != ':' by {
            assert(is_host_char(host[i]));
        }
    } else {
        assert forall|i: int| 0 <= i < host.len() - 1 implies (#[trigger] host[i]) != ']' by {
            if i > 0 {
                assert(is_v6_char(host[i]));
            }
        }
    }
    if let Some(p) = port {
        decimal_reads_back(p as nat);
    }
    let full = with_port(host, port);
    assert forall|i: int| 0 <= i < full.len() implies (#[trigger] full[i]) != '/' && full[i] != '@'
        && full[i] != '?' && full[i] != '#' by {
        if i < host.len() {
            assert(full[i] == host[i]);
            if is_host_name(host) {
                assert(is_host_char(host[i]));
            } else if 0 < i < host.len() - 1 {
                assert(is_v6_char(host[i]));
            }
        } else if i == host.len() {
            assert(full[i] == ':');
        } else {
            assert(full[i] == decimal(port->0 as nat)[i - host.len() - 1]);
        }
    }
}

proof fn labels_of_schemes(scheme: Scheme)
    ensures
        lower(scheme.label()) == scheme.label(),
        scheme.label().len() == (if scheme == Scheme::Https {
            5nat
        } else {
            4nat
        }),
        scheme == Scheme::Https ==> scheme.label()[4] == 's',
{
    reveal_strlit("https");
    reveal_strlit("http");
    let own = scheme.label();
    assert(is_lower_case(own)) by {
        assert forall|i: int| 0 <= i < own.len() implies !('A' <= #[trigger] own[i] <= 'Z') by {
            assert(own[i] == 'h' || own[i] == 't' || own[i] == 'p' || own[i] == 's');
        }
    }
    lower_is_lower_case(own);
}

/// The canonical text is a spelling of its parts.
proof fn texts_are_spellings(origin: OriginView)
    ensures
        origin.text() == spelling(origin.scheme.label(), with_port(origin.host, origin.port), false),
{
    assert(origin.text() =~= spelling(
        origin.scheme.label(),
        with_port(origin.host, origin.port),
        false,
    ));
}

/// A port that was read is not zero.
proof fn ports_are_positive(authority: Seq<char>, is_address: bool)
    ensures
        match host_and_port(authority, is_address) {
            Ok((_, Some(port))) => port > 0,
            _ => true,
        },
{
}

/// A text with two colons is not empty.
proof fn two_colons_take_room(text: Seq<char>)
    requires
        has_two_colons(text),
    ensures
        text.len() > 0,
        0 <= place_of(text, ':') < text.len(),
        text[place_of(text, ':')] == ':',
{
    place_bounds(text, ':');
    last_place_bounds(text, ':', text.len() as int);
}

/// A name that was canonicalized canonicalizes to itself.
proof fn names_stay(raw: Seq<char>)
    requires
        canonical_labels(split(without_root_dot(raw), '.')) is Ok,
    ensures
        ({
            let name = canonical_labels(split(without_root_dot(raw), '.'))->Ok_0;
            &&& name.len() > 0
            &&& name.last() != '.'
            &&& canonical_labels(split(without_root_dot(name), '.')) == Ok::<
                Seq<char>,
                EndpointErrorView,
            >(name)
        }),
{
    let labels = split(without_root_dot(raw), '.');
    split_is_not_empty(without_root_dot(raw));
    canonical_hosts_are_dotted(labels);
    let list = forms(labels);
    dotted_is_plain(list);
    dotted_splits_back(list);
    stable_labels_stay(list);
    assert(without_root_dot(dotted(list)) == dotted(list));
}

/// The canonical text of an origin is the origin's own spelling: reading it
/// again gives the same origin, whether its host is a name or an address. An
/// IPv6 address must be read as itself in its canonical text.
pub proof fn canonical_text_is_its_own_origin(
    input: Seq<char>,
    readings: AddressReadings,
    again: AddressReadings,
)
    requires
        origin_of(input, readings) is Ok,
        byte_length(origin_of(input, readings)->Ok_0.text()) <= MAX_ENDPOINT_INPUT_BYTES,
        is_v6_host(origin_of(input, readings)->Ok_0.host) ==> optional_text(again.host_v6) == Some(
            inner(origin_of(input, readings)->Ok_0.host),
        ),
    ensures
        origin_of(origin_of(input, readings)->Ok_0.text(), again) == origin_of(input, readings),
{
    let origin = origin_of(input, readings)->Ok_0;
    let (scheme, authority) = scheme_and_authority(input)->Ok_0;
    let (raw, port) = host_and_port(authority, readings.authority_is_v6)->Ok_0;
    let host = origin.host;
    accepted_hosts_are_well_formed(input, readings);
    canonical_hosts_are_parts(host, origin.port);
    labels_of_schemes(scheme);
    texts_are_spellings(origin);
    let full = with_port(host, origin.port);
    spelling_is_read(scheme.label(), full, false, scheme);
    ports_are_positive(authority, readings.authority_is_v6);
    host_parts_are_read(host, origin.port, again.authority_is_v6);
    if is_bare(host) {
        bare_hosts_are_read(host);
    }
    if is_v4(raw) {
        assert(host == raw);
        if !is_bare(host) {
            assert(is_octet(split(host, '.')[0]));
            numbers_are_digits(split(host, '.')[0]);
            place_bounds(host, '.');
            assert(split(host, '.')[0][0] == host[0]);
        }
    } else if readings.host_v6 is Some && has_two_colons(raw) && is_v6_text(readings.host_v6->0@) {
        reveal_strlit("[");
        reveal_strlit("]");
        let own = readings.host_v6->0@;
        two_colons_take_room(own);
        assert(host == "["@ + own + "]"@);
        assert(inner(host) =~= own);
        assert(is_v6_host(host)) by {
            assert forall|i: int| 0 < i < host.len() - 1 implies is_v6_char(#[trigger] host[i]) by {
                assert(host[i] == own[i - 1]);
            }
        }
        addresses_are_of_one_kind(own);
    } else {
        names_stay(raw);
        if is_v4(host) && scheme == Scheme::Http {
            reveal_strlit("localhost");
            assert(is_octet(split(host, '.')[0]));
            numbers_are_digits(split(host, '.')[0]);
            place_bounds(host, '.');
            assert(split(host, '.')[0][0] == host[0]);
        }
        dotted_name_is_bare(raw);
        assert(is_bare(host));
        bare_hosts_are_read(host);
    }
}

/// A canonicalized name stands in an authority as it is.
proof fn dotted_name_is_bare(raw: Seq<char>)
    requires
        canonical_labels(split(without_root_dot(raw), '.')) is Ok,
    ensures
        is_bare(canonical_labels(split(without_root_dot(raw), '.'))->Ok_0),
{
    let labels = split(without_root_dot(raw), '.');
    split_is_not_empty(without_root_dot(raw));
    canonical_hosts_are_dotted(labels);
    let name = dotted(forms(labels));
    dotted_is_plain(forms(labels));
    assert(is_host_char(name[0]));
    assert forall|i: int| 0 <= i < name.len() implies (#[trigger] name[i]) != ':' by {
        assert(is_host_char(name[i]));
    }
}

/// What has the colons of an IPv6 address is no IPv4 address.
proof fn addresses_are_of_one_kind(text: Seq<char>)
    requires
        has_two_colons(text),
    ensures
        !is_v4(text),
{
    if is_v4(text) {
        assert forall|i: int| 0 <= i < split(text, '.').len() implies is_host_label(
            #[trigger] split(text, '.')[i],
        ) by {
            assert(is_octet(split(text, '.')[i]));
            numbers_are_digits(split(text, '.')[i]);
        }
        names_are_plain(text);
        two_colons_take_room(text);
        assert(is_host_char(text[place_of(text, ':')]));
    }
}

/// The place where the host of an authority ends.
spec fn host_end(full: Seq<char>) -> int {
    if full.len() > 0 && full[0] == '[' {
        place_of(full, ']') + 1
    } else {
        place_of(full, ':')
    }
}

proof fn hosts_end(host: Seq<char>, port: Option<u16>)
    requires
        is_host_name(host) || is_v6_host(host),
    ensures
        host_end(with_port(host, port)) == host.len(),
        with_port(host, port).take(host.len() as int) == host,
{
    reveal_strlit(":");
    canonical_hosts_are_parts(host, port);
    let full = with_port(host, port);
    let n = host.len() as int;
    assert(full.take(n) =~= host);
    assert(full[0] == host[0]);
    if is_bare(host) {
        assert forall|j: int| 0 <= j < n implies (#[trigger] full[j]) != ':' by {
            assert(full[j] == host[j]);
            assert(host.contains(host[j]));
        }
        if n < full.len() {
            assert(full[n] == ':');
        }
        place_is(full, ':', n);
    } else {
        assert forall|j: int| 0 <= j < n - 1 implies (#[trigger] full[j]) != ']' by {
            assert(full[j] == host[j]);
        }
        assert(full[n - 1] == host[n - 1]);
        place_is(full, ']', n - 1);
    }
}

proof fn ports_are_told_apart(host: Seq<char>, a: Option<u16>, b: Option<u16>)
    requires
        with_port(host, a) == with_port(host, b),
    ensures
        a == b,
{
    reveal_strlit(":");
    let x = with_port(host, a).skip(host.len() as int);
    match (a, b) {
        (Some(p), Some(q)) => {
            decimal_reads_back(p as nat);
            decimal_reads_back(q as nat);
            assert(x.skip(1) =~= decimal(p as nat));
            assert(with_port(host, b).skip(host.len() as int).skip(1) =~= decimal(q as nat));
        },
        (Some(p), None) => {
            assert(with_port(host, a).len() > host.len());
        },
        (None, Some(q)) => {
            assert(with_port(host, b).len() > host.len());
        },
        (None, None) => {},
    }
}

/// Two origins share a key exactly where scheme, host and port agree.
pub proof fn keys_tell_origins_apart(
    a: Seq<char>,
    of_a: AddressReadings,
    b: Seq<char>,
    of_b: AddressReadings,
)
    requires
        origin_of(a, of_a) is Ok,
        origin_of(b, of_b) is Ok,
    ensures
        ({
            let p = origin_of(a, of_a)->Ok_0;
            let q = origin_of(b, of_b)->Ok_0;
            &&& p.text() == q.text() <==> p == q
            &&& p == q <==> p.scheme == q.scheme && p.host == q.host && p.port == q.port
        }),
{
    let p = origin_of(a, of_a)->Ok_0;
    let q = origin_of(b, of_b)->Ok_0;
    accepted_hosts_are_well_formed(a, of_a);
    accepted_hosts_are_well_formed(b, of_b);
    if p.text() == q.text() {
        reveal_strlit("://");
        labels_of_schemes(p.scheme);
        labels_of_schemes(q.scheme);
        texts_are_spellings(p);
        texts_are_spellings(q);
        let n = p.scheme.label().len() as int;
        assert(p.text()[4] == (if p.scheme == Scheme::Https {
            's'
        } else {
            "://"@[0]
        }));
        assert(q.text()[4] == (if q.scheme == Scheme::Https {
            's'
        } else {
            "://"@[0]
        }));
        assert(p.scheme == q.scheme);
        assert(p.text().skip(n + 3) =~= with_port(p.host, p.port));
        assert(q.text().skip(n + 3) =~= with_port(q.host, q.port));
        hosts_end(p.host, p.port);
        hosts_end(q.host, q.port);
        ports_are_told_apart(p.host, p.port, q.port);
    }
}

/// The API path occurs exactly once in a target, at the end of its origin, and
/// a target is refused as a base: it is never joined a second time.
pub proof fn targets_are_joined_once(
    input: Seq<char>,
    readings: AddressReadings,
    again: AddressReadings,
)
    requires
        origin_of(input, readings) is Ok,
    ensures
        ({
            let text = origin_of(input, readings)->Ok_0.text();
            let target = text + SYSTEMONE_PATH@;
            &&& forall|k: int| #[trigger]
                occurs_at(target, SYSTEMONE_PATH@, k) <==> k == text.len()
            &&& origin_of(target, again) is Err
        }),
{
    let origin = origin_of(input, readings)->Ok_0;
    let path = SYSTEMONE_PATH@;
    reveal_strlit("/v1/systemone");
    reveal_strlit("://");
    accepted_hosts_are_well_formed(input, readings);
    canonical_hosts_are_parts(origin.host, origin.port);
    labels_of_schemes(origin.scheme);
    texts_are_spellings(origin);
    let own = origin.scheme.label();
    let full = with_port(origin.host, origin.port);
    let text = origin.text();
    let target = text + path;
    let n = own.len() as int;
    let m = text.len() as int;
    assert(text.len() == n + 3 + full.len());
    assert(target.subrange(m, m + path.len()) =~= path);
    assert forall|k: int| #[trigger] occurs_at(target, path, k) implies k == m by {
        let found = target.subrange(k, k + path.len());
        assert(found[0] == target[k] && found[1] == target[k + 1] && found[3] == target[k + 3]
            && found[4] == target[k + 4]);
        if k < n {
            scheme_letters(own, origin.scheme, k);
            assert(target[k] == own[k]);
        } else if k < n + 2 {
            assert(target[k] == "://"@[k - n]);
            assert(target[k + 1] == "://"@[k + 1 - n]);
        } else if k == n + 2 {
            let at = k + 3;
            if at < m {
                assert(target[at] == full[at - n - 3]);
            } else if at > m {
                assert(target[at] == path[at - m]);
                assert(at - m <= 1);
            } else {
                assert(target[k + 4] == path[1]);
            }
        } else if k < m {
            assert(target[k] == full[k - n - 3]);
        }
    }
    assert forall|j: int| 0 <= j < n implies !#[trigger] is_mark(target, j) by {
        scheme_letters(own, origin.scheme, j);
        assert(target[j] == own[j]);
    }
    assert(is_mark(target, n)) by {
        assert(target[n] == "://"@[0]);
        assert(target[n + 1] == "://"@[1]);
        assert(target[n + 2] == "://"@[2]);
    }
    scheme_place_is(target, n);
    let rest = target.skip(n + 3);
    assert(rest =~= full + path);
    assert forall|j: int| 0 <= j < full.len() implies #[trigger] rest[j] != '/' by {
        assert(rest[j] == full[j]);
    }
    assert(rest[full.len() as int] == path[0]);
    place_is(rest, '/', full.len() as int);
    assert(rest.skip(full.len() as int) =~= path);
}

/// No query mark occurs.
pub open spec fn has_no_query(text: Seq<char>) -> bool {
    forall|i: int| 0 <= i < text.len() ==> (#[trigger] text[i]) != '?'
}

/// A sanitized URL carries no query.
pub proof fn sanitized_urls_carry_no_query(url: Seq<char>)
    requires
        has_no_query(url.take(scheme_place(url))),
    ensures
        has_no_query(sanitized(url)),
{
    reveal_strlit("[REDACTED]@");
    reveal_strlit("[QUERY-REDACTED]");
    scheme_place_bounds(url);
    let mark = scheme_place(url);
    let from = if mark < url.len() {
        mark + 3
    } else {
        0
    };
    let rest = url.skip(from);
    let slash = place_of(rest, '/');
    place_bounds(rest, '/');
    let authority = rest.take(slash);
    let remainder = rest.skip(slash);
    let at = last_place(authority, '@');
    last_place_bounds(authority, '@', authority.len() as int);
    let host = if at < authority.len() {
        authority.skip(at + 1)
    } else {
        authority
    };
    place_bounds(host, '?');
    place_bounds(remainder, '?');
    let head = url.take(from);
    assert(has_no_query(head)) by {
        assert forall|i: int| 0 <= i < head.len() implies (#[trigger] head[i]) != '?' by {
            if i < mark {
                assert(head[i] == url.take(mark)[i]);
            }
        }
    }
    let shown = if at < authority.len() {
        "[REDACTED]@"@
    } else {
        Seq::empty()
    };
    assert(has_no_query(shown));
    assert(has_no_query("[QUERY-REDACTED]"@));
    let tail = sanitized(url).skip((head.len() + shown.len()) as int);
    assert(sanitized(url) =~= head + shown + tail);
    let early = place_of(host, '?');
    let query = place_of(remainder, '?');
    if early < host.len() {
        assert(tail =~= host.take(early) + "[QUERY-REDACTED]"@);
        joined_without_query(host.take(early), "[QUERY-REDACTED]"@);
    } else if query < remainder.len() {
        assert(tail =~= host + remainder.take(query) + "[QUERY-REDACTED]"@);
        joined_without_query(host, remainder.take(query));
        joined_without_query(host + remainder.take(query), "[QUERY-REDACTED]"@);
    } else {
        assert(tail =~= host + remainder);
        joined_without_query(host, remainder);
    }
    joined_without_query(head, shown);
    joined_without_query(head + shown, tail);
}

proof fn joined_without_query(a: Seq<char>, b: Seq<char>)
    requires
        has_no_query(a),
        has_no_query(b),
    ensures
        has_no_query(a + b),
{
    assert forall|i: int| 0 <= i < (a + b).len() implies (#[trigger] (a + b)[i]) != '?' by {
        if i < a.len() {
            assert((a + b)[i] == a[i]);
        } else {
            assert((a + b)[i] == b[i - a.len()]);
        }
    }
}

proof fn scheme_place_bounds(text: Seq<char>)
    ensures
        0 <= scheme_place(text) <= text.len(),
        scheme_place(text) < text.len() ==> is_mark(
            text,
            scheme_place(text),
        ),
    decreases text.len(),
{
    if text.len() == 0 {
    } else if crate::chars::has_prefix(text, seq![':', '/', '/']) {
        let head = text.take(3);
        assert(head[0] == ':' && head[1] == '/' && head[2] == '/');
    } else {
        let rest = text.drop_first();
        scheme_place_bounds(rest);
        let k = scheme_place(rest);
        if k < rest.len() {
            assert(is_mark(rest, k));
            assert(rest[k] == text[k + 1] && rest[k + 1] == text[k + 2] && rest[k + 2] == text[k
                + 3]);
        }
    }
}

proof fn last_place_bounds(text: Seq<char>, c: char, n: int)
    requires
        0 <= n <= text.len(),
    ensures
        0 <= last_place_from(text, c, n) <= text.len(),
    decreases n,
{
    if n > 0 && text[n - 1] != c {
        last_place_bounds(text, c, n - 1);
    }
}

/// Userinfo: it ends before the path begins.
pub open spec fn is_userinfo(text: Seq<char>) -> bool {
    forall|i: int| 0 <= i < text.len() ==> (#[trigger] text[i]) != '/'
}

/// What follows userinfo: a host without `@`, and perhaps a path.
pub open spec fn follows_userinfo(rest: Seq<char>) -> bool {
    forall|i: int| 0 <= i < place_of(rest, '/') ==> (#[trigger] rest[i]) != '@'
}

/// The credentials of a URL leave no trace in its sanitized form: whatever
/// they are, the form is the same.
pub proof fn sanitized_urls_hide_credentials(
    scheme: Seq<char>,
    meant: Scheme,
    userinfo: Seq<char>,
    other: Seq<char>,
    rest: Seq<char>,
)
    requires
        lower(scheme) == meant.label(),
        is_userinfo(userinfo),
        is_userinfo(other),
        follows_userinfo(rest),
    ensures
        sanitized(scheme + "://"@ + userinfo + "@"@ + rest) == sanitized(
            scheme + "://"@ + other + "@"@ + rest,
        ),
{
    sanitized_form(scheme, meant, userinfo, rest);
    sanitized_form(scheme, meant, other, rest);
}

/// What follows the credentials, sanitized.
spec fn sanitized_rest(rest: Seq<char>) -> Seq<char> {
    let slash = place_of(rest, '/');
    let host = rest.take(slash);
    let remainder = rest.skip(slash);
    let early = place_of(host, '?');
    let query = place_of(remainder, '?');
    if early < host.len() {
        host.take(early) + "[QUERY-REDACTED]"@
    } else if query < remainder.len() {
        host + remainder.take(query) + "[QUERY-REDACTED]"@
    } else {
        host + remainder
    }
}

proof fn sanitized_form(scheme: Seq<char>, meant: Scheme, userinfo: Seq<char>, rest: Seq<char>)
    requires
        lower(scheme) == meant.label(),
        is_userinfo(userinfo),
        follows_userinfo(rest),
    ensures
        sanitized(scheme + "://"@ + userinfo + "@"@ + rest) == scheme + "://"@ + "[REDACTED]@"@
            + sanitized_rest(rest),
{
    reveal_strlit("://");
    reveal_strlit("@");
    let url = scheme + "://"@ + userinfo + "@"@ + rest;
    let mark = scheme.len() as int;
    assert forall|j: int| 0 <= j < mark implies !#[trigger] is_mark(url, j) by {
        scheme_letters(scheme, meant, j);
        assert(url[j] == scheme[j]);
    }
    assert(is_mark(url, mark)) by {
        assert(url[mark] == "://"@[0]);
        assert(url[mark + 1] == "://"@[1]);
        assert(url[mark + 2] == "://"@[2]);
    }
    scheme_place_is(url, mark);
    let from = mark + 3;
    let all = url.skip(from);
    let n = userinfo.len() as int;
    assert(all =~= userinfo + "@"@ + rest);
    let slash = place_of(rest, '/');
    place_bounds(rest, '/');
    assert forall|j: int| 0 <= j < n + 1 + slash implies #[trigger] all[j] != '/' by {
        if j < n {
            assert(all[j] == userinfo[j]);
        } else if j == n {
            assert(all[j] == '@');
        } else {
            assert(all[j] == rest[j - n - 1]);
        }
    }
    if slash < rest.len() {
        assert(all[n + 1 + slash] == rest[slash]);
    }
    place_is(all, '/', n + 1 + slash);
    let authority = all.take(n + 1 + slash);
    assert forall|j: int| n < j < authority.len() implies #[trigger] authority[j] != '@' by {
        assert(authority[j] == rest[j - n - 1]);
    }
    assert(authority[n] == '@');
    last_place_is(authority, '@', n, authority.len() as int);
    assert(authority.skip(n + 1) =~= rest.take(slash));
    assert(all.skip(n + 1 + slash) =~= rest.skip(slash));
    assert(url.take(from) =~= scheme + "://"@);
    let tail = sanitized_rest(rest);
    assert(scheme + "://"@ + "[REDACTED]@"@ + tail =~= url.take(from) + "[REDACTED]@"@ + tail);
}

} // verus!
