//! Endpoint canonicalization, origin-scoped credential routing, redirect
//! prohibition and proxy safety.
//!
//! An endpoint is a base origin, not a path. Its scheme is HTTPS, with HTTP
//! for loopback hosts only. Equivalent spellings (trailing slash, default
//! port, case, internationalized names) share one canonical text. Credentials
//! are bound to one origin and never sent over HTTP. Redirects are refused.
use crate::chars::{
    begins_with, byte_len_of, find_char, has_prefix, head, is_text, line_views, lower, lower_char,
    lowered, part, place_is, place_of, split, tail,
};
use crate::jev::punycode::{encode_punycode_label, punycode};
use crate::text::{
    byte_len, byte_length, chars_of, copy_text, decimal, decimal_text, join, optional_text,
    same_text, string_of, texts,
};
use vstd::prelude::*;
use vstd::string::*;

pub mod laws;

verus! {

/// Production base origin.
pub const DEFAULT_TYPESAFE_ENDPOINT: &'static str = "https://api.typesafe.ai";

/// The path that is joined once to an origin.
pub const SYSTEMONE_PATH: &'static str = "/v1/systemone";

/// Maximum bytes of an endpoint text.
pub const MAX_ENDPOINT_INPUT_BYTES: usize = 2048;

/// Supported URL schemes.
#[derive(Clone, Copy, Debug, PartialEq, Eq, Structural)]
pub enum Scheme {
    Https,
    Http,
}

impl Scheme {
    pub open spec fn label(self) -> Seq<char> {
        match self {
            Scheme::Https => "https"@,
            Scheme::Http => "http"@,
        }
    }

    pub open spec fn usual_port(self) -> u16 {
        match self {
            Scheme::Https => 443,
            Scheme::Http => 80,
        }
    }

    pub fn as_str(self) -> (label: &'static str)
        ensures
            label@ == self.label(),
    {
        match self {
            Scheme::Https => "https",
            Scheme::Http => "http",
        }
    }

    pub fn default_port(self) -> (port: u16)
        ensures
            port == self.usual_port(),
    {
        match self {
            Scheme::Https => 443,
            Scheme::Http => 80,
        }
    }
}

/// Why an endpoint was refused.
#[derive(Clone, Debug)]
pub enum EndpointError {
    EmptyInput,
    InputTooLong(usize),
    MissingScheme,
    UnsupportedScheme(String),
    InsecureScheme { scheme: String, host: String },
    UserinfoForbidden,
    QueryForbidden,
    FragmentForbidden,
    NonRootPathForbidden { path: String },
    DuplicatePathJoin { path: String },
    EmptyHost,
    InvalidHost(String),
    InvalidPort(String),
    PunycodeEncodingError(String),
}

pub enum EndpointErrorView {
    EmptyInput,
    InputTooLong(nat),
    MissingScheme,
    UnsupportedScheme(Seq<char>),
    InsecureScheme { scheme: Seq<char>, host: Seq<char> },
    UserinfoForbidden,
    QueryForbidden,
    FragmentForbidden,
    NonRootPathForbidden { path: Seq<char> },
    DuplicatePathJoin { path: Seq<char> },
    EmptyHost,
    InvalidHost(Seq<char>),
    InvalidPort(Seq<char>),
    PunycodeEncodingError(Seq<char>),
}

impl View for EndpointError {
    type V = EndpointErrorView;

    open spec fn view(&self) -> EndpointErrorView {
        match self {
            EndpointError::EmptyInput => EndpointErrorView::EmptyInput,
            EndpointError::InputTooLong(len) => EndpointErrorView::InputTooLong(*len as nat),
            EndpointError::MissingScheme => EndpointErrorView::MissingScheme,
            EndpointError::UnsupportedScheme(s) => EndpointErrorView::UnsupportedScheme(s@),
            EndpointError::InsecureScheme { scheme, host } => EndpointErrorView::InsecureScheme {
                scheme: scheme@,
                host: host@,
            },
            EndpointError::UserinfoForbidden => EndpointErrorView::UserinfoForbidden,
            EndpointError::QueryForbidden => EndpointErrorView::QueryForbidden,
            EndpointError::FragmentForbidden => EndpointErrorView::FragmentForbidden,
            EndpointError::NonRootPathForbidden { path } =>
                EndpointErrorView::NonRootPathForbidden { path: path@ },
            EndpointError::DuplicatePathJoin { path } => EndpointErrorView::DuplicatePathJoin {
                path: path@,
            },
            EndpointError::EmptyHost => EndpointErrorView::EmptyHost,
            EndpointError::InvalidHost(reason) => EndpointErrorView::InvalidHost(reason@),
            EndpointError::InvalidPort(port) => EndpointErrorView::InvalidPort(port@),
            EndpointError::PunycodeEncodingError(reason) =>
                EndpointErrorView::PunycodeEncodingError(reason@),
        }
    }
}

impl EndpointErrorView {
    pub open spec fn message(self) -> Seq<char> {
        match self {
            EndpointErrorView::EmptyInput => "endpoint base origin cannot be empty"@,
            EndpointErrorView::InputTooLong(len) => "endpoint base origin length ("@ + decimal(len)
                + " bytes) exceeds limit (2048)"@,
            EndpointErrorView::MissingScheme =>
                "endpoint base origin must include scheme (e.g. 'https://')"@,
            EndpointErrorView::UnsupportedScheme(scheme) => "unsupported scheme '"@ + scheme
                + "'; only HTTPS (and loopback HTTP) is permitted"@,
            EndpointErrorView::InsecureScheme { scheme, host } => "insecure scheme '"@ + scheme
                + "://' for non-loopback host '"@ + host + "'; HTTPS is required"@,
            EndpointErrorView::UserinfoForbidden =>
                "userinfo in endpoint URL is forbidden; credentials must be provided via TYPESAFE_API_KEY"@,
            EndpointErrorView::QueryForbidden => "query string in base origin is forbidden"@,
            EndpointErrorView::FragmentForbidden => "fragment in base origin is forbidden"@,
            EndpointErrorView::NonRootPathForbidden { path } =>
                "base origin must have root path, found '"@ + path
                + "'; TYPESAFE_ENDPOINT is an origin only"@,
            EndpointErrorView::DuplicatePathJoin { path } =>
                "endpoint base origin already contains '"@ + path
                + "'; TYPESAFE_ENDPOINT must be an origin without /v1/systemone"@,
            EndpointErrorView::EmptyHost => "endpoint host cannot be empty"@,
            EndpointErrorView::InvalidHost(reason) => "invalid host in base origin: "@ + reason,
            EndpointErrorView::InvalidPort(port) => "invalid port '"@ + port + "' in base origin"@,
            EndpointErrorView::PunycodeEncodingError(reason) => "IDN punycode encoding error: "@
                + reason,
        }
    }
}

impl EndpointError {
    pub fn message(&self) -> (text: String)
        ensures
            text@ == self@.message(),
    {
        match self {
            EndpointError::EmptyInput => copy_text("endpoint base origin cannot be empty"),
            EndpointError::InputTooLong(len) => {
                let n: String = decimal_text(*len as u64);
                join("endpoint base origin length (", n.as_str()).concat(
                    " bytes) exceeds limit (2048)",
                )
            },
            EndpointError::MissingScheme => copy_text(
                "endpoint base origin must include scheme (e.g. 'https://')",
            ),
            EndpointError::UnsupportedScheme(scheme) => join(
                "unsupported scheme '",
                scheme.as_str(),
            ).concat("'; only HTTPS (and loopback HTTP) is permitted"),
            EndpointError::InsecureScheme { scheme, host } => join(
                "insecure scheme '",
                scheme.as_str(),
            ).concat("://' for non-loopback host '").concat(host.as_str()).concat(
                "'; HTTPS is required",
            ),
            EndpointError::UserinfoForbidden => copy_text(
                "userinfo in endpoint URL is forbidden; credentials must be provided via TYPESAFE_API_KEY",
            ),
            EndpointError::QueryForbidden => copy_text("query string in base origin is forbidden"),
            EndpointError::FragmentForbidden => copy_text("fragment in base origin is forbidden"),
            EndpointError::NonRootPathForbidden { path } => join(
                "base origin must have root path, found '",
                path.as_str(),
            ).concat("'; TYPESAFE_ENDPOINT is an origin only"),
            EndpointError::DuplicatePathJoin { path } => join(
                "endpoint base origin already contains '",
                path.as_str(),
            ).concat("'; TYPESAFE_ENDPOINT must be an origin without /v1/systemone"),
            EndpointError::EmptyHost => copy_text("endpoint host cannot be empty"),
            EndpointError::InvalidHost(reason) => join(
                "invalid host in base origin: ",
                reason.as_str(),
            ),
            EndpointError::InvalidPort(port) => join("invalid port '", port.as_str()).concat(
                "' in base origin",
            ),
            EndpointError::PunycodeEncodingError(reason) => join(
                "IDN punycode encoding error: ",
                reason.as_str(),
            ),
        }
    }
}

/// The place of the first `"://"`, or the length where there is none.
pub open spec fn scheme_place(text: Seq<char>) -> int
    decreases text.len(),
{
    if text.len() == 0 || has_prefix(text, seq![':', '/', '/']) {
        0
    } else {
        1 + scheme_place(text.drop_first())
    }
}

pub proof fn scheme_place_is(text: Seq<char>, k: int)
    requires
        0 <= k <= text.len(),
        forall|j: int| 0 <= j < k ==> !#[trigger] is_mark(text, j),
        k < text.len() ==> is_mark(text, k),
    ensures
        scheme_place(text) == k,
    decreases k,
{
    if k == 0 {
        if text.len() > 0 {
            assert(text.take(3) =~= seq![':', '/', '/']);
        }
    } else {
        let rest = text.drop_first();
        assert(!is_mark(text, 0));
        if has_prefix(text, seq![':', '/', '/']) {
            let head = text.take(3);
            assert(head[0] == ':' && head[1] == '/' && head[2] == '/');
        }
        assert forall|j: int| 0 <= j < k - 1 implies !#[trigger] is_mark(rest, j) by {
            assert(!is_mark(text, j + 1));
        }
        if k < text.len() {
            assert(is_mark(text, k));
        }
        scheme_place_is(rest, k - 1);
    }
}

/// A scheme mark at `j`.
pub open spec fn is_mark(text: Seq<char>, j: int) -> bool {
    j + 2 < text.len() && text[j] == ':' && text[j + 1] == '/' && text[j + 2] == '/'
}

fn find_scheme_mark(text: &[char]) -> (k: usize)
    ensures
        k == scheme_place(text@),
        k <= text@.len(),
        k < text@.len() ==> k + 3 <= text@.len(),
{
    let total: usize = text.len();
    let mut k: usize = 0;
    while k < total
        invariant
            total == text@.len(),
            k <= total,
            forall|j: int| 0 <= j < k ==> !#[trigger] is_mark(text@, j),
        decreases total - k,
    {
        if total - k > 2 && text[k] == ':' && text[k + 1] == '/' && text[k + 2] == '/' {
            assert(is_mark(text@, k as int));
            proof {
                scheme_place_is(text@, k as int);
            }
            return k;
        }
        assert(!is_mark(text@, k as int));
        k += 1;
    }
    proof {
        scheme_place_is(text@, k as int);
    }
    k
}

/// Does an `@` stand before the path?
pub open spec fn has_userinfo(input: Seq<char>) -> bool {
    let mark = scheme_place(input);
    let from = if mark < input.len() {
        mark + 3
    } else {
        0
    };
    let rest = input.skip(from);
    let at = place_of(input, '@');
    let slash = place_of(rest, '/');
    at < input.len() && (slash == rest.len() || at < from + slash)
}

/// A path that already joins the API path.
pub open spec fn joins_path(path: Seq<char>) -> bool {
    path == "/v1/systemone"@ || path == "/v1/systemone/"@ || path == "/v1"@ || path == "/v1/"@
}

/// The scheme and authority of an endpoint text.
pub open spec fn scheme_and_authority(input: Seq<char>) -> Result<
    (Scheme, Seq<char>),
    EndpointErrorView,
> {
    let mark = scheme_place(input);
    let name = lower(input.take(mark));
    let rest = input.skip(mark + 3);
    let authority = rest.take(place_of(rest, '/'));
    let path = rest.skip(place_of(rest, '/'));
    if input.len() == 0 {
        Err(EndpointErrorView::EmptyInput)
    } else if byte_length(input) > MAX_ENDPOINT_INPUT_BYTES {
        Err(EndpointErrorView::InputTooLong(byte_length(input)))
    } else if has_userinfo(input) {
        Err(EndpointErrorView::UserinfoForbidden)
    } else if place_of(input, '?') < input.len() {
        Err(EndpointErrorView::QueryForbidden)
    } else if place_of(input, '#') < input.len() {
        Err(EndpointErrorView::FragmentForbidden)
    } else if mark >= input.len() {
        Err(EndpointErrorView::MissingScheme)
    } else if name != "https"@ && name != "http"@ {
        Err(EndpointErrorView::UnsupportedScheme(name))
    } else if joins_path(path) {
        Err(EndpointErrorView::DuplicatePathJoin { path })
    } else if path.len() > 0 && path != "/"@ {
        Err(EndpointErrorView::NonRootPathForbidden { path })
    } else if authority.len() == 0 {
        Err(EndpointErrorView::EmptyHost)
    } else {
        Ok(
            (
                if name == "https"@ {
                    Scheme::Https
                } else {
                    Scheme::Http
                },
                authority,
            ),
        )
    }
}

/// Read the scheme and authority of an endpoint text.
pub fn read_authority(input: &str) -> (r: Result<(Scheme, String), EndpointError>)
    ensures
        match r {
            Ok((scheme, authority)) => scheme_and_authority(input@) == Ok::<
                (Scheme, Seq<char>),
                EndpointErrorView,
            >((scheme, authority@)),
            Err(error) => scheme_and_authority(input@) == Err::<
                (Scheme, Seq<char>),
                EndpointErrorView,
            >(error@),
        },
{
    if input.is_empty() {
        return Err(EndpointError::EmptyInput);
    }
    let size: usize = byte_len(input);
    if size > MAX_ENDPOINT_INPUT_BYTES {
        return Err(EndpointError::InputTooLong(size));
    }
    let all: Vec<char> = chars_of(input);
    let text: &[char] = all.as_slice();
    let total: usize = text.len();
    let mark: usize = find_scheme_mark(text);
    let from: usize = if mark < total {
        mark + 3
    } else {
        0
    };
    let at: usize = find_char(text, '@');
    if at < total {
        let after: &[char] = tail(text, from);
        let slash: usize = find_char(after, '/');
        if slash == after.len() || at < from + slash {
            return Err(EndpointError::UserinfoForbidden);
        }
    }
    if find_char(text, '?') < total {
        return Err(EndpointError::QueryForbidden);
    }
    if find_char(text, '#') < total {
        return Err(EndpointError::FragmentForbidden);
    }
    if mark >= total {
        return Err(EndpointError::MissingScheme);
    }
    let name: Vec<char> = lowered(head(text, mark));
    let rest: &[char] = tail(text, mark + 3);
    let scheme: Scheme = if is_text(name.as_slice(), "https") {
        Scheme::Https
    } else if is_text(name.as_slice(), "http") {
        Scheme::Http
    } else {
        return Err(EndpointError::UnsupportedScheme(string_of(name.as_slice())));
    };
    let slash: usize = find_char(rest, '/');
    let authority: &[char] = head(rest, slash);
    let path: &[char] = tail(rest, slash);
    if is_text(path, "/v1/systemone") || is_text(path, "/v1/systemone/") || is_text(path, "/v1")
        || is_text(path, "/v1/") {
        return Err(EndpointError::DuplicatePathJoin { path: string_of(path) });
    }
    if path.len() > 0 && !is_text(path, "/") {
        return Err(EndpointError::NonRootPathForbidden { path: string_of(path) });
    }
    if authority.len() == 0 {
        return Err(EndpointError::EmptyHost);
    }
    proof {
        // The two schemes are different texts.
        reveal_strlit("https");
        reveal_strlit("http");
        assert("https"@.len() != "http"@.len());
    }
    Ok((scheme, string_of(authority)))
}

/// The value of a decimal digit.
pub open spec fn decimal_digit(c: char) -> Option<nat> {
    if '0' <= c <= '9' {
        Some((c as u32 - '0' as u32) as nat)
    } else {
        None
    }
}

/// The number that decimal digits spell, where there is nothing else.
pub open spec fn digits_number(text: Seq<char>) -> Option<nat>
    decreases text.len(),
{
    if text.len() == 0 {
        Some(0)
    } else {
        match (digits_number(text.drop_last()), decimal_digit(text.last())) {
            (Some(high), Some(low)) => Some(10 * high + low),
            _ => None,
        }
    }
}

/// The port that a text spells: decimal digits, with an optional plus sign,
/// of a number from 1 to 65535.
pub open spec fn port_of(text: Seq<char>) -> Option<u16> {
    let digits = if text.len() > 0 && text[0] == '+' {
        text.skip(1)
    } else {
        text
    };
    if digits.len() == 0 {
        None
    } else {
        match digits_number(digits) {
            Some(n) => if 0 < n <= u16::MAX {
                Some(n as u16)
            } else {
                None
            },
            None => None,
        }
    }
}

/// Is the text a number, and zero?
pub open spec fn is_zero_port(text: Seq<char>) -> bool {
    let digits = if text.len() > 0 && text[0] == '+' {
        text.skip(1)
    } else {
        text
    };
    digits.len() > 0 && digits_number(digits) == Some(0nat)
}

/// What an invalid port is reported as: a zero in its shortest form.
pub open spec fn invalid_port(text: Seq<char>) -> EndpointErrorView {
    if is_zero_port(text) {
        EndpointErrorView::InvalidPort("0"@)
    } else {
        EndpointErrorView::InvalidPort(text)
    }
}

proof fn digits_grow(text: Seq<char>, n: int)
    requires
        0 <= n <= text.len(),
        digits_number(text.take(n)) is None || digits_number(text.take(n))->0 > u16::MAX,
    ensures
        digits_number(text) is None || digits_number(text)->0 > u16::MAX,
    decreases text.len() - n,
{
    if n == text.len() {
        assert(text.take(n) =~= text);
    } else {
        assert(text.take(n + 1).drop_last() =~= text.take(n));
        digits_grow(text, n + 1);
    }
}

/// Read a port.
fn read_port(text: &[char]) -> (r: Result<u16, EndpointError>)
    ensures
        match r {
            Ok(port) => port_of(text@) == Some(port),
            Err(error) => port_of(text@) is None && error@ == invalid_port(text@),
        },
{
    let digits: &[char] = if begins_with(text, '+') {
        tail(text, 1)
    } else {
        text
    };
    let mut n: u32 = 0;
    let mut i: usize = 0;
    assert(digits@.take(0) =~= Seq::empty());
    while i < digits.len()
        invariant
            i <= digits@.len(),
            digits@ == (if text@.len() > 0 && text@[0] == '+' {
                text@.skip(1)
            } else {
                text@
            }),
            n <= u16::MAX,
            digits_number(digits@.take(i as int)) == Some(n as nat),
        decreases digits@.len() - i,
    {
        assert(digits@.take(i as int + 1).drop_last() =~= digits@.take(i as int));
        assert(digits@.take(i as int + 1).last() == digits@[i as int]);
        let c: char = digits[i];
        let valid: bool = '0' <= c && c <= '9';
        if valid {
            n = 10 * n + (c as u32 - '0' as u32);
        }
        if !valid || n > u16::MAX as u32 {
            proof {
                digits_grow(digits@, i as int + 1);
            }
            return Err(EndpointError::InvalidPort(string_of(text)));
        }
        i += 1;
    }
    assert(digits@.take(i as int) =~= digits@);
    if digits.len() == 0 {
        return Err(EndpointError::InvalidPort(string_of(text)));
    }
    if n == 0 {
        return Err(EndpointError::InvalidPort(copy_text("0")));
    }
    Ok(n as u16)
}

/// The place of the last `c`, or the length where there is none.
pub open spec fn last_place(text: Seq<char>, c: char) -> int
    decreases text.len(),
{
    last_place_from(text, c, text.len() as int)
}

pub open spec fn last_place_from(text: Seq<char>, c: char, n: int) -> int
    decreases n,
{
    if n <= 0 {
        text.len() as int
    } else if text[n - 1] == c {
        n - 1
    } else {
        last_place_from(text, c, n - 1)
    }
}

fn find_last(text: &[char], c: char) -> (k: usize)
    ensures
        k == last_place(text@, c),
        k <= text@.len(),
{
    let mut n: usize = text.len();
    while n > 0
        invariant
            n <= text@.len(),
            last_place(text@, c) == last_place_from(text@, c, n as int),
        decreases n,
    {
        if text[n - 1] == c {
            return n - 1;
        }
        n -= 1;
    }
    text.len()
}

/// The text has more than one colon, as every IPv6 address has.
pub open spec fn has_two_colons(text: Seq<char>) -> bool {
    place_of(text, ':') < last_place(text, ':')
}

/// A character of an IPv6 address in its canonical text.
pub open spec fn is_v6_char(c: char) -> bool {
    '0' <= c <= '9' || 'a' <= c <= 'f' || c == ':' || c == '.'
}

/// A text that an IPv6 address can have as its canonical form.
pub open spec fn is_v6_text(text: Seq<char>) -> bool {
    has_two_colons(text) && forall|i: int| 0 <= i < text.len() ==> is_v6_char(#[trigger] text[i])
}

fn two_colons(text: &[char]) -> (r: bool)
    ensures
        r == has_two_colons(text@),
{
    find_char(text, ':') < find_last(text, ':')
}

fn reads_v6_text(text: &str) -> (r: bool)
    ensures
        r == is_v6_text(text@),
{
    let chars: Vec<char> = chars_of(text);
    if !two_colons(chars.as_slice()) {
        return false;
    }
    let mut i: usize = 0;
    while i < chars.len()
        invariant
            i <= chars@.len(),
            chars@ == text@,
            forall|j: int| 0 <= j < i ==> is_v6_char(#[trigger] text@[j]),
        decreases chars@.len() - i,
    {
        let c: char = chars[i];
        if !(('0' <= c && c <= '9') || ('a' <= c && c <= 'f') || c == ':' || c == '.') {
            assert(!is_v6_char(text@[i as int]));
            return false;
        }
        i += 1;
    }
    true
}

/// The host and port of an authority. `is_address` tells whether the whole
/// authority reads as an IPv6 address; it counts only where it can be one.
pub open spec fn host_and_port(authority: Seq<char>, is_address: bool) -> Result<
    (Seq<char>, Option<u16>),
    EndpointErrorView,
> {
    if authority.len() > 0 && authority[0] == '[' {
        let inner = authority.skip(1);
        let close = place_of(inner, ']');
        let after = inner.skip(close + 1);
        if close >= inner.len() {
            Err(EndpointErrorView::InvalidHost("unclosed IPv6 bracket in authority"@))
        } else if after.len() == 0 {
            Ok((inner.take(close), None))
        } else if after[0] == ':' {
            match port_of(after.skip(1)) {
                Some(port) => Ok((inner.take(close), Some(port))),
                None => Err(invalid_port(after.skip(1))),
            }
        } else {
            Err(
                EndpointErrorView::InvalidHost(
                    "unexpected trailing data after IPv6: '"@ + after + "'"@,
                ),
            )
        }
    } else if is_address && has_two_colons(authority) {
        Ok((authority, None))
    } else {
        let colon = last_place(authority, ':');
        if colon < authority.len() {
            match port_of(authority.skip(colon + 1)) {
                Some(port) => Ok((authority.take(colon), Some(port))),
                None => Err(invalid_port(authority.skip(colon + 1))),
            }
        } else {
            Ok((authority, None))
        }
    }
}

/// Read the host and port of an authority.
pub fn parse_authority(authority: &str, is_address: bool) -> (r: Result<
    (String, Option<u16>),
    EndpointError,
>)
    ensures
        match r {
            Ok((host, port)) => host_and_port(authority@, is_address) == Ok::<
                (Seq<char>, Option<u16>),
                EndpointErrorView,
            >((host@, port)),
            Err(error) => host_and_port(authority@, is_address) == Err::<
                (Seq<char>, Option<u16>),
                EndpointErrorView,
            >(error@),
        },
{
    let all: Vec<char> = chars_of(authority);
    let text: &[char] = all.as_slice();
    if begins_with(text, '[') {
        let inner: &[char] = tail(text, 1);
        let close: usize = find_char(inner, ']');
        if close >= inner.len() {
            return Err(EndpointError::InvalidHost(copy_text("unclosed IPv6 bracket in authority")));
        }
        let host: String = string_of(head(inner, close));
        let after: &[char] = tail(inner, close + 1);
        if after.len() == 0 {
            return Ok((host, None));
        }
        if after[0] == ':' {
            return match read_port(tail(after, 1)) {
                Ok(port) => Ok((host, Some(port))),
                Err(error) => Err(error),
            };
        }
        let rest: String = string_of(after);
        return Err(
            EndpointError::InvalidHost(
                join("unexpected trailing data after IPv6: '", rest.as_str()).concat("'"),
            ),
        );
    }
    if is_address && two_colons(text) {
        return Ok((copy_text(authority), None));
    }
    let colon: usize = find_last(text, ':');
    if colon < text.len() {
        match read_port(tail(text, colon + 1)) {
            Ok(port) => Ok((string_of(head(text, colon)), Some(port))),
            Err(error) => Err(error),
        }
    } else {
        Ok((copy_text(authority), None))
    }
}

/// A character that a host label may hold.
pub open spec fn is_label_char(c: char) -> bool {
    'a' <= c <= 'z' || 'A' <= c <= 'Z' || '0' <= c <= '9' || c == '-'
}

/// `k` is the first character that a label may not hold.
pub open spec fn is_first_invalid(label: Seq<char>, k: int) -> bool {
    0 <= k < label.len() && !is_label_char(label[k]) && forall|j: int|
        0 <= j < k ==> is_label_char(#[trigger] label[j])
}

/// The complaint about an ASCII label, if any.
pub open spec fn label_complaint(label: Seq<char>) -> Option<Seq<char>> {
    if byte_length(label) > 63 {
        Some("label '"@ + label + "' exceeds 63 characters"@)
    } else if label.len() > 0 && (label[0] == '-' || label.last() == '-') {
        Some("label '"@ + label + "' cannot start or end with hyphen"@)
    } else if exists|k: int| is_first_invalid(label, k) {
        Some(
            "invalid character '"@ + seq![label[choose|k: int| is_first_invalid(label, k)]]
                + "' in hostname label"@,
        )
    } else {
        None
    }
}

fn validate_ascii_label(label: &[char]) -> (r: Result<(), EndpointError>)
    ensures
        match r {
            Ok(_) => label_complaint(label@) is None,
            Err(error) => label_complaint(label@) is Some && error@
                == EndpointErrorView::InvalidHost(label_complaint(label@)->0),
        },
{
    let n: usize = label.len();
    if byte_len_of(label) > 63 {
        let own: String = string_of(label);
        return Err(
            EndpointError::InvalidHost(
                join("label '", own.as_str()).concat("' exceeds 63 characters"),
            ),
        );
    }
    if n > 0 && (label[0] == '-' || label[n - 1] == '-') {
        let own: String = string_of(label);
        return Err(
            EndpointError::InvalidHost(
                join("label '", own.as_str()).concat("' cannot start or end with hyphen"),
            ),
        );
    }
    let mut k: usize = 0;
    while k < n
        invariant
            n == label@.len(),
            k <= n,
            byte_length(label@) <= 63,
            !(n > 0 && (label@[0] == '-' || label@[n as int - 1] == '-')),
            forall|j: int| 0 <= j < k ==> is_label_char(#[trigger] label@[j]),
        decreases n - k,
    {
        let c: char = label[k];
        if !(('a' <= c && c <= 'z') || ('A' <= c && c <= 'Z') || ('0' <= c && c <= '9') || c
            == '-') {
            assert(is_first_invalid(label@, k as int));
            let ghost w = choose|j: int| is_first_invalid(label@, j);
            assert(w == k) by {
                if w < k {
                    assert(is_label_char(label@[w]));
                }
                if w > k {
                    assert(is_label_char(label@[k as int]));
                }
            }
            let one: &[char] = part(label, k, k + 1);
            assert(one@ =~= seq![c]);
            let own: String = string_of(one);
            return Err(
                EndpointError::InvalidHost(
                    join("invalid character '", own.as_str()).concat("' in hostname label"),
                ),
            );
        }
        k += 1;
    }
    Ok(())
}

pub open spec fn is_ascii_label(label: Seq<char>) -> bool {
    forall|i: int| 0 <= i < label.len() ==> (#[trigger] label[i]) as u32 <= 0x7f
}

/// The lower-case form of a text by Unicode's mapping, in any script.
pub uninterp spec fn lowercase(text: Seq<char>) -> Seq<char>;

/// `str::to_lowercase`: the lower-case form of the text, a function of the text
/// alone and of no locale. Which form that is, is left to the name
/// `lowercase`.
#[verifier::external_body]
fn to_lowercase(text: &str) -> (low: String)
    ensures
        low@ == lowercase(text@),
{
    text.to_lowercase()
}

/// A host label without regard to case.
pub open spec fn folded(label: Seq<char>) -> Seq<char> {
    if is_ascii_label(label) {
        lower(label)
    } else {
        lowercase(label)
    }
}

/// The ASCII form of a label that was folded; nothing where it has none.
pub open spec fn ascii_form(text: Seq<char>) -> Option<Seq<char>> {
    if is_ascii_label(text) {
        Some(lower(text))
    } else if text.len() >= u32::MAX {
        None
    } else {
        match punycode(text) {
            Some(encoded) => Some("xn--"@ + encoded),
            None => None,
        }
    }
}

/// The canonical form of a host label: folded, and encoded where it is not
/// ASCII.
pub open spec fn canonical_label(label: Seq<char>) -> Result<Seq<char>, EndpointErrorView> {
    let text = folded(label);
    if text.len() == 0 {
        Err(EndpointErrorView::InvalidHost("empty label in hostname"@))
    } else {
        match ascii_form(text) {
            None => Err(EndpointErrorView::PunycodeEncodingError("punycode delta overflow"@)),
            Some(form) => match label_complaint(form) {
                Some(reason) => Err(EndpointErrorView::InvalidHost(reason)),
                None => Ok(form),
            },
        }
    }
}

fn all_ascii(text: &[char]) -> (r: bool)
    ensures
        r == is_ascii_label(text@),
{
    let n: usize = text.len();
    let mut i: usize = 0;
    while i < n
        invariant
            n == text@.len(),
            i <= n,
            forall|j: int| 0 <= j < i ==> (#[trigger] text@[j]) as u32 <= 0x7f,
        decreases n - i,
    {
        if text[i] as u32 > 0x7f {
            assert(!(text@[i as int] as u32 <= 0x7f));
            return false;
        }
        i += 1;
    }
    true
}

fn canonicalize_label(label: &[char]) -> (r: Result<Vec<char>, EndpointError>)
    ensures
        match r {
            Ok(text) => canonical_label(label@) == Ok::<Seq<char>, EndpointErrorView>(text@),
            Err(error) => canonical_label(label@) == Err::<Seq<char>, EndpointErrorView>(error@),
        },
{
    let text: Vec<char> = if all_ascii(label) {
        lowered(label)
    } else {
        let own: String = string_of(label);
        let low: String = to_lowercase(own.as_str());
        chars_of(low.as_str())
    };
    if text.len() == 0 {
        return Err(EndpointError::InvalidHost(copy_text("empty label in hostname")));
    }
    let form: Vec<char> = if all_ascii(text.as_slice()) {
        lowered(text.as_slice())
    } else {
        if text.len() as u64 >= u32::MAX as u64 {
            return Err(
                EndpointError::PunycodeEncodingError(copy_text("punycode delta overflow")),
            );
        }
        let own: String = string_of(text.as_slice());
        match encode_punycode_label(own.as_str()) {
            Ok(encoded) => {
                let joined: String = join("xn--", encoded.as_str());
                chars_of(joined.as_str())
            },
            Err(reason) => {
                return Err(EndpointError::PunycodeEncodingError(reason));
            },
        }
    };
    match validate_ascii_label(form.as_slice()) {
        Ok(_) => Ok(form),
        Err(error) => Err(error),
    }
}

/// The canonical labels joined by dots; the first label that is refused
/// refuses them all.
pub open spec fn canonical_labels(labels: Seq<Seq<char>>) -> Result<Seq<char>, EndpointErrorView>
    decreases labels.len(),
{
    if labels.len() == 0 {
        Ok(Seq::empty())
    } else {
        match (canonical_labels(labels.drop_last()), canonical_label(labels.last())) {
            (Err(error), _) => Err(error),
            (Ok(_), Err(error)) => Err(error),
            (Ok(before), Ok(label)) => if labels.len() == 1 {
                Ok(label)
            } else {
                Ok(before + "."@ + label)
            },
        }
    }
}

/// A host name without the dot of the root zone.
pub open spec fn without_root_dot(host: Seq<char>) -> Seq<char> {
    if host.len() > 1 && host.last() == '.' && host[host.len() - 2] != '.' {
        host.drop_last()
    } else {
        host
    }
}

/// An octet in decimal notation: at most 255, without leading zeros.
pub open spec fn is_octet(text: Seq<char>) -> bool {
    &&& 0 < text.len() <= 3
    &&& text.len() > 1 ==> text[0] != '0'
    &&& digits_number(text) is Some && digits_number(text)->0 <= 255
}

/// An IPv4 address in dotted decimal notation. An address has no other
/// spelling, so the text is its own canonical form.
pub open spec fn is_v4(text: Seq<char>) -> bool {
    let octets = split(text, '.');
    octets.len() == 4 && forall|i: int| 0 <= i < octets.len() ==> is_octet(#[trigger] octets[i])
}

/// An IPv4 address of the loopback network.
pub open spec fn is_v4_loopback(text: Seq<char>) -> bool {
    is_v4(text) && split(text, '.')[0] == "127"@
}

/// The canonical text of the IPv6 loopback address.
pub open spec fn v6_loopback() -> Seq<char> {
    "::1"@
}

/// Is a canonical host a loopback host: the loopback name, an address of
/// 127.0.0.0/8, or ::1?
pub open spec fn host_on_loopback(host: Seq<char>) -> bool {
    lower(host) == "localhost"@ || is_v4_loopback(host) || host == "["@ + v6_loopback() + "]"@
}

/// The canonical form of a host, and whether it may be reached without
/// encryption. `v6` is the canonical text of the IPv6 address that the host
/// reads as, if it reads as one; it counts only where it can be one.
pub open spec fn canonical_host(host: Seq<char>, v6: Option<Seq<char>>) -> Result<
    (Seq<char>, bool),
    EndpointErrorView,
> {
    if host.len() == 0 {
        Err(EndpointErrorView::EmptyHost)
    } else if is_v4(host) {
        Ok((host, is_v4_loopback(host)))
    } else if v6 is Some && has_two_colons(host) && is_v6_text(v6->0) {
        Ok(("["@ + v6->0 + "]"@, v6->0 == v6_loopback()))
    } else {
        match canonical_labels(split(without_root_dot(host), '.')) {
            Ok(name) => Ok((name, name == "localhost"@ && host.last() != '.')),
            Err(error) => Err(error),
        }
    }
}

proof fn early_label_failure(labels: Seq<Seq<char>>, n: int)
    requires
        0 <= n <= labels.len(),
        canonical_labels(labels.take(n)) is Err,
    ensures
        canonical_labels(labels) == canonical_labels(labels.take(n)),
    decreases labels.len() - n,
{
    if n == labels.len() {
        assert(labels.take(n) =~= labels);
    } else {
        assert(labels.take(n + 1).drop_last() =~= labels.take(n));
        early_label_failure(labels, n + 1);
    }
}

fn split_labels(name: &[char]) -> (labels: Vec<Vec<char>>)
    ensures
        line_views(labels@) == split(name@, '.'),
{
    let total: usize = name.len();
    let ghost all = split(name@, '.');
    let mut labels: Vec<Vec<char>> = Vec::new();
    let mut from: usize = 0;
    assert(name@.skip(0) =~= name@);
    assert(line_views(labels@) + split(name@.skip(0), '.') =~= all);
    loop
        invariant
            total == name@.len(),
            from <= total,
            line_views(labels@) + split(name@.skip(from as int), '.') == all,
            all == split(name@, '.'),
        decreases total - from,
    {
        let rest: &[char] = tail(name, from);
        let k: usize = find_char(rest, '.');
        let label: &[char] = head(rest, k);
        let ghost before = line_views(labels@);
        labels.push(crate::chars::copy_chars(label));
        assert(line_views(labels@) =~= before.push(label@));
        if k == rest.len() {
            assert(label@ =~= rest@);
            assert(split(rest@, '.') =~= seq![rest@]);
            assert(line_views(labels@) =~= before + seq![rest@]);
            return labels;
        }
        proof {
            let more = split(rest@.skip(k as int + 1), '.');
            assert(split(rest@, '.') == seq![label@] + more);
            assert(rest@.skip(k as int + 1) =~= name@.skip(from + k + 1));
            assert(before + (seq![label@] + more) =~= line_views(labels@) + more);
        }
        from = from + k + 1;
    }
}

fn reads_octet(text: &[char]) -> (r: bool)
    ensures
        r == is_octet(text@),
{
    let n: usize = text.len();
    if n == 0 || n > 3 || (n > 1 && text[0] == '0') {
        return false;
    }
    let mut value: u32 = 0;
    let mut i: usize = 0;
    assert(text@.take(0) =~= Seq::empty());
    while i < n
        invariant
            n == text@.len(),
            n <= 3,
            i <= n,
            i == 0 ==> value == 0,
            i == 1 ==> value <= 9,
            i == 2 ==> value <= 99,
            i == 3 ==> value <= 999,
            digits_number(text@.take(i as int)) == Some(value as nat),
        decreases n - i,
    {
        let c: char = text[i];
        assert(text@.take(i as int + 1).drop_last() =~= text@.take(i as int));
        assert(text@.take(i as int + 1).last() == c);
        if !('0' <= c && c <= '9') {
            proof {
                no_digits_no_number(text@, i as int + 1);
            }
            return false;
        }
        value = 10 * value + (c as u32 - '0' as u32);
        i += 1;
    }
    assert(text@.take(i as int) =~= text@);
    value <= 255
}

proof fn no_digits_no_number(text: Seq<char>, n: int)
    requires
        0 <= n <= text.len(),
        digits_number(text.take(n)) is None,
    ensures
        digits_number(text) is None,
    decreases text.len() - n,
{
    if n == text.len() {
        assert(text.take(n) =~= text);
    } else {
        assert(text.take(n + 1).drop_last() =~= text.take(n));
        no_digits_no_number(text, n + 1);
    }
}

/// Is the text an IPv4 address, and is it a loopback address?
fn reads_v4(text: &[char]) -> (r: (bool, bool))
    ensures
        r.0 == is_v4(text@),
        r.1 == is_v4_loopback(text@),
{
    let octets: Vec<Vec<char>> = split_labels(text);
    let ghost parts = split(text@, '.');
    if octets.len() != 4 {
        return (false, false);
    }
    let mut i: usize = 0;
    while i < 4
        invariant
            octets@.len() == 4,
            parts == line_views(octets@),
            parts == split(text@, '.'),
            i <= 4,
            forall|j: int| 0 <= j < i ==> is_octet(#[trigger] parts[j]),
        decreases 4 - i,
    {
        assert(parts[i as int] == octets@[i as int]@);
        if !reads_octet(octets[i].as_slice()) {
            return (false, false);
        }
        i += 1;
    }
    assert(parts[0] == octets@[0]@);
    (true, is_text(octets[0].as_slice(), "127"))
}

/// Is a canonical host a loopback host?
fn reads_loopback(host: &str) -> (r: bool)
    ensures
        r == host_on_loopback(host@),
{
    let chars: Vec<char> = chars_of(host);
    let low: Vec<char> = lowered(chars.as_slice());
    let own: String = join("[", "::1").concat("]");
    is_text(low.as_slice(), "localhost") || reads_v4(chars.as_slice()).1 || same_text(
        host,
        own.as_str(),
    )
}

/// Canonicalize a host, given the canonical text of the IPv6 address that it
/// spells, if it spells one.
pub fn canonicalize_host(host: &str, v6: &Option<String>) -> (r: Result<(String, bool), EndpointError>)
    ensures
        match r {
            Ok((name, loopback)) => canonical_host(host@, optional_text(*v6)) == Ok::<
                (Seq<char>, bool),
                EndpointErrorView,
            >((name@, loopback)),
            Err(error) => canonical_host(host@, optional_text(*v6)) == Err::<
                (Seq<char>, bool),
                EndpointErrorView,
            >(error@),
        },
{
    if host.is_empty() {
        return Err(EndpointError::EmptyHost);
    }
    let all: Vec<char> = chars_of(host);
    let text: &[char] = all.as_slice();
    let n: usize = text.len();
    let (address, loopback): (bool, bool) = reads_v4(text);
    if address {
        return Ok((copy_text(host), loopback));
    }
    match v6 {
        Some(own) => {
            if two_colons(text) && reads_v6_text(own.as_str()) {
                return Ok((join("[", own.as_str()).concat("]"), same_text(own.as_str(), "::1")));
            }
        },
        None => {},
    }
    let name: &[char] = if n > 1 && text[n - 1] == '.' && text[n - 2] != '.' {
        assert(text@.drop_last() =~= text@.take(n as int - 1));
        head(text, n - 1)
    } else {
        text
    };
    let labels: Vec<Vec<char>> = split_labels(name);
    let ghost parts = split(without_root_dot(host@), '.');
    let mut canonical: String = String::new();
    let mut i: usize = 0;
    assert(parts.take(0) =~= Seq::empty());
    while i < labels.len()
        invariant
            i <= labels@.len(),
            parts == line_views(labels@),
            canonical_labels(parts.take(i as int)) == Ok::<Seq<char>, EndpointErrorView>(canonical@),
            canonical_host(host@, optional_text(*v6)) == (match canonical_labels(parts) {
                Ok(name) => Ok((name, name == "localhost"@ && host@.last() != '.')),
                Err(error) => Err(error),
            }),
        decreases labels@.len() - i,
    {
        assert(parts.take(i as int + 1).drop_last() =~= parts.take(i as int));
        assert(parts.take(i as int + 1).last() == labels@[i as int]@);
        match canonicalize_label(labels[i].as_slice()) {
            Ok(label) => {
                let own: String = string_of(label.as_slice());
                canonical = if i == 0 {
                    own
                } else {
                    canonical.concat(".").concat(own.as_str())
                };
            },
            Err(error) => {
                proof {
                    early_label_failure(parts, i as int + 1);
                }
                return Err(error);
            },
        }
        i += 1;
    }
    assert(parts.take(i as int) =~= parts);
    let loopback: bool = same_text(canonical.as_str(), "localhost") && all[n - 1] != '.';
    Ok((canonical, loopback))
}

/// What an IPv6 address parser reads in an endpoint: whether the whole
/// authority is an address, and the canonical text of the one that the host
/// spells.
#[derive(Clone, Debug)]
pub struct AddressReadings {
    pub authority_is_v6: bool,
    pub host_v6: Option<String>,
}

impl AddressReadings {
    /// No part of the endpoint is an IPv6 address.
    pub fn named_host() -> (readings: AddressReadings)
        ensures
            !readings.authority_is_v6,
            readings.host_v6 is None,
    {
        AddressReadings { authority_is_v6: false, host_v6: None }
    }
}

/// A canonical base origin.
#[derive(Debug)]
pub struct CanonicalOrigin {
    scheme: Scheme,
    host: String,
    port: Option<u16>,
    canonical: String,
    loopback: bool,
}

pub struct OriginView {
    pub scheme: Scheme,
    pub host: Seq<char>,
    pub port: Option<u16>,
}

impl OriginView {
    /// The canonical text: the identity under which caches and budgets are
    /// shared.
    pub open spec fn text(self) -> Seq<char> {
        let base = self.scheme.label() + "://"@ + self.host;
        match self.port {
            Some(port) => base + ":"@ + decimal(port as nat),
            None => base,
        }
    }
}

impl View for CanonicalOrigin {
    type V = OriginView;

    closed spec fn view(&self) -> OriginView {
        OriginView { scheme: self.scheme, host: self.host@, port: self.port }
    }
}

/// The port of an origin, without the one that its scheme implies.
pub open spec fn canonical_port(scheme: Scheme, port: Option<u16>) -> Option<u16> {
    if port == Some(scheme.usual_port()) {
        None
    } else {
        port
    }
}

/// The origin of an endpoint text.
pub open spec fn origin_of(input: Seq<char>, readings: AddressReadings) -> Result<
    OriginView,
    EndpointErrorView,
> {
    match scheme_and_authority(input) {
        Err(error) => Err(error),
        Ok((scheme, authority)) => match host_and_port(authority, readings.authority_is_v6) {
            Err(error) => Err(error),
            Ok((host, port)) => match canonical_host(host, optional_text(readings.host_v6)) {
                Err(error) => Err(error),
                Ok((name, loopback)) => if scheme == Scheme::Http && !loopback {
                    Err(EndpointErrorView::InsecureScheme { scheme: "http"@, host: name })
                } else {
                    Ok(
                        OriginView { scheme, host: name, port: canonical_port(scheme, port) },
                    )
                },
            },
        },
    }
}

impl CanonicalOrigin {
    /// The canonical text and the loopback mark belong to the parts.
    #[verifier::type_invariant]
    closed spec fn is_canonical(self) -> bool {
        &&& self.canonical@ == (OriginView {
            scheme: self.scheme,
            host: self.host@,
            port: self.port,
        }).text()
        &&& self.loopback == host_on_loopback(self.host@)
    }

    /// Is the host a loopback host?
    pub open spec fn on_loopback(self) -> bool {
        host_on_loopback(self@.host)
    }

    /// Parse and canonicalize a base origin, given what an IPv6 address parser
    /// reads in its text.
    pub fn parse(input: &str, readings: &AddressReadings) -> (r: Result<
        CanonicalOrigin,
        EndpointError,
    >)
        ensures
            match r {
                Ok(origin) => origin_of(input@, *readings) == Ok::<OriginView, EndpointErrorView>(
                    origin@,
                ),
                Err(error) => origin_of(input@, *readings) == Err::<OriginView, EndpointErrorView>(
                    error@,
                ),
            },
    {
        let (scheme, authority): (Scheme, String) = match read_authority(input) {
            Ok(parts) => parts,
            Err(error) => {
                return Err(error);
            },
        };
        let (host, port): (String, Option<u16>) = match parse_authority(
            authority.as_str(),
            readings.authority_is_v6,
        ) {
            Ok(parts) => parts,
            Err(error) => {
                return Err(error);
            },
        };
        let (name, loopback): (String, bool) = match canonicalize_host(
            host.as_str(),
            &readings.host_v6,
        ) {
            Ok(parts) => parts,
            Err(error) => {
                return Err(error);
            },
        };
        if scheme == Scheme::Http && !loopback {
            return Err(EndpointError::InsecureScheme { scheme: copy_text("http"), host: name });
        }
        let port: Option<u16> = match port {
            Some(p) => if p == scheme.default_port() {
                None
            } else {
                Some(p)
            },
            None => None,
        };
        let base: String = join(scheme.as_str(), "://").concat(name.as_str());
        let canonical: String = match port {
            Some(p) => {
                let number: String = decimal_text(p as u64);
                base.concat(":").concat(number.as_str())
            },
            None => base,
        };
        let loopback: bool = reads_loopback(name.as_str());
        Ok(CanonicalOrigin { scheme, host: name, port, canonical, loopback })
    }

    /// The production origin.
    pub fn production() -> (origin: CanonicalOrigin)
        ensures
            origin@ == (OriginView { scheme: Scheme::Https, host: "api.typesafe.ai"@, port: None }),
            origin@.text() == DEFAULT_TYPESAFE_ENDPOINT@,
            !origin.on_loopback(),
    {
        proof {
            reveal_strlit("https");
            reveal_strlit("://");
            reveal_strlit("api.typesafe.ai");
            reveal_strlit("https://api.typesafe.ai");
            assert("https"@ + "://"@ + "api.typesafe.ai"@ =~= "https://api.typesafe.ai"@);
            production_is_remote();
        }
        CanonicalOrigin {
            scheme: Scheme::Https,
            host: copy_text("api.typesafe.ai"),
            port: None,
            canonical: copy_text(DEFAULT_TYPESAFE_ENDPOINT),
            loopback: false,
        }
    }

    /// Parse and canonicalize an endpoint from a configuration override.
    pub fn from_override(endpoint: &str, readings: &AddressReadings) -> (r: Result<
        CanonicalOrigin,
        EndpointError,
    >)
        ensures
            match r {
                Ok(origin) => origin_of(endpoint@, *readings) == Ok::<
                    OriginView,
                    EndpointErrorView,
                >(origin@),
                Err(error) => origin_of(endpoint@, *readings) == Err::<
                    OriginView,
                    EndpointErrorView,
                >(error@),
            },
    {
        CanonicalOrigin::parse(endpoint, readings)
    }

    /// The canonical text.
    pub fn as_str(&self) -> (text: &str)
        ensures
            text@ == self@.text(),
    {
        proof {
            use_type_invariant(self);
        }
        self.canonical.as_str()
    }

    /// The key under which caches and attempt allowances are shared.
    pub fn origin_key(&self) -> (text: &str)
        ensures
            text@ == self@.text(),
    {
        proof {
            use_type_invariant(self);
        }
        self.canonical.as_str()
    }

    pub fn scheme(&self) -> (scheme: Scheme)
        ensures
            scheme == self@.scheme,
    {
        self.scheme
    }

    pub fn host(&self) -> (host: &str)
        ensures
            host@ == self@.host,
    {
        self.host.as_str()
    }

    pub fn port(&self) -> (port: Option<u16>)
        ensures
            port == self@.port,
    {
        self.port
    }

    pub fn is_secure(&self) -> (r: bool)
        ensures
            r == (self@.scheme == Scheme::Https),
    {
        self.scheme == Scheme::Https
    }

    pub fn is_loopback(&self) -> (r: bool)
        ensures
            r == self.on_loopback(),
    {
        proof {
            use_type_invariant(self);
        }
        self.loopback
    }

    /// A copy of the origin.
    pub fn copied(&self) -> (copy: CanonicalOrigin)
        ensures
            copy@ == self@,
            copy.on_loopback() == self.on_loopback(),
    {
        proof {
            use_type_invariant(self);
        }
        CanonicalOrigin {
            scheme: self.scheme,
            host: copy_text(self.host.as_str()),
            port: self.port,
            canonical: copy_text(self.canonical.as_str()),
            loopback: self.loopback,
        }
    }
}

/// The production host is no loopback host.
proof fn production_is_remote()
    ensures
        !host_on_loopback("api.typesafe.ai"@),
{
    reveal_strlit("api.typesafe.ai");
    reveal_strlit("localhost");
    reveal_strlit("[");
    let host = "api.typesafe.ai"@;
    assert(lower(host)[0] == lower_char(host[0]));
    assert("localhost"@[0] == 'l');
    place_is(host, '.', 3);
    let first = split(host, '.')[0];
    assert(first == host.take(3));
    assert(first.last() == 'i');
    assert(digits_number(first) is None);
    assert(("["@ + v6_loopback() + "]"@)[0] == '[');
}

/// The target URL of an origin: the API path joined exactly once.
#[derive(Debug)]
pub struct TargetUrl {
    origin: CanonicalOrigin,
    url: String,
}

impl TargetUrl {
    pub closed spec fn origin_view(self) -> OriginView {
        self.origin@
    }

    #[verifier::type_invariant]
    closed spec fn is_joined(self) -> bool {
        self.url@ == self.origin@.text() + SYSTEMONE_PATH@
    }

    pub fn as_str(&self) -> (url: &str)
        ensures
            url@ == self.origin_view().text() + SYSTEMONE_PATH@,
    {
        proof {
            use_type_invariant(self);
        }
        self.url.as_str()
    }

    pub fn origin(&self) -> (origin: &CanonicalOrigin)
        ensures
            origin@ == self.origin_view(),
    {
        &self.origin
    }
}

impl CanonicalOrigin {
    /// Append the API path exactly once.
    pub fn join_systemone(&self) -> (target: TargetUrl)
        ensures
            target.origin_view() == self@,
    {
        let origin: CanonicalOrigin = self.copied();
        let url: String = join(origin.as_str(), SYSTEMONE_PATH);
        TargetUrl { origin, url }
    }
}

/// An endpoint: its origin and target URL.
#[derive(Debug)]
pub struct EndpointConfig {
    origin: CanonicalOrigin,
    target: TargetUrl,
}

impl EndpointConfig {
    pub closed spec fn origin_view(self) -> OriginView {
        self.origin@
    }

    #[verifier::type_invariant]
    closed spec fn is_consistent(self) -> bool {
        self.target.origin_view() == self.origin@
    }

    pub fn from_base_origin_str(raw: &str, readings: &AddressReadings) -> (r: Result<
        EndpointConfig,
        EndpointError,
    >)
        ensures
            match r {
                Ok(config) => origin_of(raw@, *readings) == Ok::<OriginView, EndpointErrorView>(
                    config.origin_view(),
                ),
                Err(error) => origin_of(raw@, *readings) == Err::<OriginView, EndpointErrorView>(
                    error@,
                ),
            },
    {
        match CanonicalOrigin::parse(raw, readings) {
            Ok(origin) => {
                let target: TargetUrl = origin.join_systemone();
                Ok(EndpointConfig { origin, target })
            },
            Err(error) => Err(error),
        }
    }

    /// The production endpoint.
    pub fn production() -> (config: EndpointConfig)
        ensures
            config.origin_view() == (OriginView {
                scheme: Scheme::Https,
                host: "api.typesafe.ai"@,
                port: None,
            }),
            config.origin_view().text() == DEFAULT_TYPESAFE_ENDPOINT@,
            !host_on_loopback(config.origin_view().host),
    {
        let origin: CanonicalOrigin = CanonicalOrigin::production();
        let target: TargetUrl = origin.join_systemone();
        EndpointConfig { origin, target }
    }

    /// The endpoint of a configuration override.
    pub fn from_override(endpoint: &str, readings: &AddressReadings) -> (r: Result<
        EndpointConfig,
        EndpointError,
    >)
        ensures
            match r {
                Ok(config) => origin_of(endpoint@, *readings) == Ok::<
                    OriginView,
                    EndpointErrorView,
                >(config.origin_view()),
                Err(error) => origin_of(endpoint@, *readings) == Err::<
                    OriginView,
                    EndpointErrorView,
                >(error@),
            },
    {
        EndpointConfig::from_base_origin_str(endpoint, readings)
    }

    pub fn origin(&self) -> (origin: &CanonicalOrigin)
        ensures
            origin@ == self.origin_view(),
    {
        &self.origin
    }

    pub fn target_url(&self) -> (target: &TargetUrl)
        ensures
            target.origin_view() == self.origin_view(),
    {
        proof {
            use_type_invariant(self);
        }
        &self.target
    }
}

/// Why a credential was not routed.
#[derive(Clone, Debug)]
pub enum CredentialRoutingError {
    /// Credentials are never sent over unencrypted HTTP.
    InsecureHttpForbidden { origin: String },
    /// Credentials are sent only to the origin that they are bound to.
    OriginMismatch { expected: String, actual: String },
}

/// The kind of a refused configuration or routing.
#[derive(Clone, Copy, Debug, PartialEq, Eq, Structural)]
pub enum RoutingKind {
    InvalidConfiguration,
    Authentication,
    ProviderFailure,
}

impl EndpointError {
    pub fn kind(&self) -> (kind: RoutingKind)
        ensures
            kind == RoutingKind::InvalidConfiguration,
    {
        RoutingKind::InvalidConfiguration
    }
}

impl CredentialRoutingError {
    pub fn kind(&self) -> (kind: RoutingKind)
        ensures
            kind == (match *self {
                CredentialRoutingError::InsecureHttpForbidden { .. } =>
                    RoutingKind::InvalidConfiguration,
                CredentialRoutingError::OriginMismatch { .. } => RoutingKind::Authentication,
            }),
    {
        match self {
            CredentialRoutingError::InsecureHttpForbidden { .. } =>
                RoutingKind::InvalidConfiguration,
            CredentialRoutingError::OriginMismatch { .. } => RoutingKind::Authentication,
        }
    }

    pub open spec fn text(self) -> Seq<char> {
        match self {
            CredentialRoutingError::InsecureHttpForbidden { origin } =>
                "refusing to bind credentials to unencrypted HTTP origin '"@ + origin@
                + "'; loopback HTTP is credential-free"@,
            CredentialRoutingError::OriginMismatch { expected, actual } =>
                "credential origin mismatch: credential is bound to '"@ + expected@
                + "' but request target is '"@ + actual@ + "'"@,
        }
    }

    pub fn message(&self) -> (text: String)
        ensures
            text@ == self.text(),
    {
        match self {
            CredentialRoutingError::InsecureHttpForbidden { origin } => join(
                "refusing to bind credentials to unencrypted HTTP origin '",
                origin.as_str(),
            ).concat("'; loopback HTTP is credential-free"),
            CredentialRoutingError::OriginMismatch { expected, actual } => join(
                "credential origin mismatch: credential is bound to '",
                expected.as_str(),
            ).concat("' but request target is '").concat(actual.as_str()).concat("'"),
        }
    }
}

/// A credential bound to one origin, which is secure.
pub struct OriginScopedCredential {
    origin: CanonicalOrigin,
    credential: String,
}

impl OriginScopedCredential {
    pub closed spec fn origin_view(self) -> OriginView {
        self.origin@
    }

    pub closed spec fn secret(self) -> Seq<char> {
        self.credential@
    }

    /// Credentials are bound to HTTPS origins only.
    #[verifier::type_invariant]
    closed spec fn is_secure(self) -> bool {
        self.origin@.scheme == Scheme::Https
    }

    /// Bind a credential to an origin.
    pub fn bind(credential: String, origin: &CanonicalOrigin) -> (r: Result<
        OriginScopedCredential,
        CredentialRoutingError,
    >)
        ensures
            match r {
                Ok(bound) => origin@.scheme == Scheme::Https && bound.origin_view() == origin@
                    && bound.secret() == credential@,
                Err(error) => origin@.scheme == Scheme::Http && error is InsecureHttpForbidden
                    && error->origin@ == origin@.text(),
            },
    {
        if !origin.is_secure() {
            return Err(
                CredentialRoutingError::InsecureHttpForbidden { origin: copy_text(origin.as_str()) },
            );
        }
        Ok(OriginScopedCredential { origin: origin.copied(), credential })
    }

    pub fn origin(&self) -> (origin: &CanonicalOrigin)
        ensures
            origin@ == self.origin_view(),
            origin@.scheme == Scheme::Https,
    {
        proof {
            use_type_invariant(self);
        }
        &self.origin
    }

    /// The authorization header for a request to `target`: only the bound
    /// origin gets one.
    pub fn authorization_header_for(&self, target: &CanonicalOrigin) -> (r: Result<
        String,
        CredentialRoutingError,
    >)
        ensures
            match r {
                Ok(header) => target@ == self.origin_view() && target@.scheme == Scheme::Https
                    && header@ == "Bearer "@ + self.secret(),
                Err(error) => target@ != self.origin_view() && error is OriginMismatch
                    && error->expected@ == self.origin_view().text() && error->actual@
                    == target@.text(),
            },
    {
        proof {
            use_type_invariant(self);
        }
        let same_port: bool = match (target.port(), self.origin.port()) {
            (None, None) => true,
            (Some(a), Some(b)) => a == b,
            _ => false,
        };
        if target.scheme() == self.origin.scheme() && same_port && same_text(target.host(), self.origin.host()) {
            Ok(join("Bearer ", self.credential.as_str()))
        } else {
            Err(
                CredentialRoutingError::OriginMismatch {
                    expected: copy_text(self.origin.as_str()),
                    actual: copy_text(target.as_str()),
                },
            )
        }
    }
}

/// A diagnostic form of a URL: without credentials and query. Credentials end
/// at the last `@` of the authority.
pub open spec fn sanitized(url: Seq<char>) -> Seq<char> {
    let mark = scheme_place(url);
    let from = if mark < url.len() {
        mark + 3
    } else {
        0
    };
    let rest = url.skip(from);
    let slash = place_of(rest, '/');
    let authority = rest.take(slash);
    let remainder = rest.skip(slash);
    let at = last_place(authority, '@');
    let host = if at < authority.len() {
        authority.skip(at + 1)
    } else {
        authority
    };
    let early = place_of(host, '?');
    let query = place_of(remainder, '?');
    url.take(from) + (if at < authority.len() {
        "[REDACTED]@"@
    } else {
        Seq::empty()
    }) + (if early < host.len() {
        host.take(early) + "[QUERY-REDACTED]"@
    } else if query < remainder.len() {
        host + remainder.take(query) + "[QUERY-REDACTED]"@
    } else {
        host + remainder
    })
}

/// Remove credentials and query from a URL before it is reported.
pub fn sanitize_url_for_diagnostics(url: &str) -> (text: String)
    ensures
        text@ == sanitized(url@),
{
    let all: Vec<char> = chars_of(url);
    let chars: &[char] = all.as_slice();
    let mark: usize = find_scheme_mark(chars);
    let from: usize = if mark < chars.len() {
        mark + 3
    } else {
        0
    };
    let prefix: String = string_of(head(chars, from));
    let rest: &[char] = tail(chars, from);
    let slash: usize = find_char(rest, '/');
    let authority: &[char] = head(rest, slash);
    let remainder: &[char] = tail(rest, slash);
    let at: usize = find_last(authority, '@');
    let redacted: bool = at < authority.len();
    let host: &[char] = if redacted {
        tail(authority, at + 1)
    } else {
        authority
    };
    let shown: String = if redacted {
        prefix.concat("[REDACTED]@")
    } else {
        prefix
    };
    assert(shown@ =~= url@.take(from as int) + (if redacted {
        "[REDACTED]@"@
    } else {
        Seq::empty()
    }));
    let early: usize = find_char(host, '?');
    if early < host.len() {
        let name: String = string_of(head(host, early)).concat("[QUERY-REDACTED]");
        return shown.concat(name.as_str());
    }
    let name: String = string_of(host);
    let query: usize = find_char(remainder, '?');
    if query < remainder.len() {
        let path: String = string_of(head(remainder, query));
        let rest: String = name.concat(path.as_str()).concat("[QUERY-REDACTED]");
        return shown.concat(rest.as_str());
    }
    let path: String = string_of(remainder);
    let rest: String = name.concat(path.as_str());
    shown.concat(rest.as_str())
}

/// An HTTP redirect that was refused.
#[derive(Clone, Debug)]
pub enum RedirectError {
    RedirectForbidden { status_code: u16, location: Option<String> },
}

impl RedirectError {
    pub fn kind(&self) -> (kind: RoutingKind)
        ensures
            kind == RoutingKind::ProviderFailure,
    {
        RoutingKind::ProviderFailure
    }

    pub open spec fn text(self) -> Seq<char> {
        match self {
            RedirectError::RedirectForbidden { status_code, location } => match location {
                Some(loc) => "HTTP redirect ("@ + decimal(status_code as nat) + ") to '"@ + loc@
                    + "' refused; redirects are strictly disabled by policy"@,
                None => "HTTP redirect ("@ + decimal(status_code as nat)
                    + ") refused; redirects are strictly disabled by policy"@,
            },
        }
    }

    pub fn message(&self) -> (text: String)
        ensures
            text@ == self.text(),
    {
        match self {
            RedirectError::RedirectForbidden { status_code, location } => {
                let code: String = decimal_text(*status_code as u64);
                match location {
                    Some(loc) => join("HTTP redirect (", code.as_str()).concat(") to '").concat(
                        loc.as_str(),
                    ).concat("' refused; redirects are strictly disabled by policy"),
                    None => join("HTTP redirect (", code.as_str()).concat(
                        ") refused; redirects are strictly disabled by policy",
                    ),
                }
            },
        }
    }
}

/// All redirects are prohibited.
#[derive(Clone, Copy, Debug, PartialEq, Eq, Structural)]
pub struct RedirectPolicy;

impl RedirectPolicy {
    /// Refuse every redirect status. The location is reported sanitized.
    pub fn validate_response_status(status_code: u16, location_header: Option<&str>) -> (r: Result<
        (),
        RedirectError,
    >)
        ensures
            match r {
                Ok(_) => !(300 <= status_code <= 399),
                Err(error) => 300 <= status_code <= 399 && error->status_code == status_code
                    && optional_text(error->location) == (match location_header {
                    Some(location) => Some(sanitized(location@)),
                    None => None,
                }),
            },
    {
        if 300 <= status_code && status_code <= 399 {
            let location: Option<String> = match location_header {
                Some(text) => Some(sanitize_url_for_diagnostics(text)),
                None => None,
            };
            Err(RedirectError::RedirectForbidden { status_code, location })
        } else {
            Ok(())
        }
    }
}

/// How connections may be made.
#[derive(Clone, Debug)]
pub enum ProxyPolicy {
    /// Direct connections only; ambient proxy variables are ignored.
    DirectOnly,
    /// An explicitly authorized proxy.
    Explicit { host: String, port: u16, is_secure: bool },
}

/// An environment variable.
#[derive(Clone, Debug)]
pub struct EnvVar {
    pub name: String,
    pub value: String,
}

/// The variables that name an ambient proxy.
pub open spec fn is_proxy_var(name: Seq<char>) -> bool {
    name == "HTTP_PROXY"@ || name == "HTTPS_PROXY"@ || name == "ALL_PROXY"@ || name
        == "http_proxy"@ || name == "https_proxy"@ || name == "all_proxy"@ || name == "NO_PROXY"@
        || name == "no_proxy"@
}

/// The set proxy variables among the first `n`, with sanitized values.
pub open spec fn ambient_proxies(vars: Seq<EnvVar>, n: int) -> Seq<(Seq<char>, Seq<char>)>
    decreases n,
{
    if n <= 0 {
        Seq::empty()
    } else if is_proxy_var(vars[n - 1].name@) && vars[n - 1].value@.len() > 0 {
        ambient_proxies(vars, n - 1).push((vars[n - 1].name@, sanitized(vars[n - 1].value@)))
    } else {
        ambient_proxies(vars, n - 1)
    }
}

pub open spec fn env_views(vars: Seq<EnvVar>) -> Seq<(Seq<char>, Seq<char>)> {
    vars.map_values(|v: EnvVar| (v.name@, v.value@))
}

impl ProxyPolicy {
    /// The ambient proxy variables that are set, with sanitized values.
    pub fn inspect_ambient_environment(vars: &Vec<EnvVar>) -> (detected: Vec<EnvVar>)
        ensures
            env_views(detected@) == ambient_proxies(vars@, vars@.len() as int),
    {
        let mut detected: Vec<EnvVar> = Vec::new();
        let mut i: usize = 0;
        assert(env_views(detected@) =~= ambient_proxies(vars@, 0));
        while i < vars.len()
            invariant
                i <= vars@.len(),
                env_views(detected@) == ambient_proxies(vars@, i as int),
            decreases vars@.len() - i,
        {
            let name: &str = vars[i].name.as_str();
            let known: bool = same_text(name, "HTTP_PROXY") || same_text(name, "HTTPS_PROXY")
                || same_text(name, "ALL_PROXY") || same_text(name, "http_proxy") || same_text(
                name,
                "https_proxy",
            ) || same_text(name, "all_proxy") || same_text(name, "NO_PROXY") || same_text(
                name,
                "no_proxy",
            );
            if known && !vars[i].value.as_str().is_empty() {
                let ghost before = env_views(detected@);
                let value: String = sanitize_url_for_diagnostics(vars[i].value.as_str());
                detected.push(EnvVar { name: copy_text(name), value });
                assert(env_views(detected@) =~= before.push(
                    (vars@[i as int].name@, sanitized(vars@[i as int].value@)),
                ));
            }
            i += 1;
        }
        detected
    }
}

} // verus!
