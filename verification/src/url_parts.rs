//! URLs, taken apart into plain values.

use crate::hex::{hex_digit_value, hex_val, lemma_upper_digit, upper_digit};
use crate::text::bytes_eq;
use vstd::prelude::*;
use vstd::utf8::{encode_utf8, is_ascii_chars, is_ascii_chars_encode_utf8};

verus! {

/// An IP address as a number, the first octet or group in its highest bits.
#[derive(Debug, Clone, Copy, PartialEq, Eq, Structural)]
pub enum IpAddress {
    /// An IPv4 address.
    V4(u32),
    /// An IPv6 address.
    V6(u128),
}

/// The host of a URL.
#[derive(Debug)]
pub enum UrlHost {
    /// A name. In a URL whose scheme is not a web scheme, it may also be the
    /// text of an IPv4 address.
    Domain(String),
    /// An address.
    Address(IpAddress),
}

/// The host of a URL as mathematical data.
pub enum HostView {
    /// A name.
    Domain(Seq<char>),
    /// An address.
    Address(IpAddress),
}

impl View for UrlHost {
    type V = HostView;

    open spec fn view(&self) -> HostView {
        match self {
            UrlHost::Domain(name) => HostView::Domain(name@),
            UrlHost::Address(address) => HostView::Address(*address),
        }
    }
}

/// A URL, taken apart.
#[derive(Debug)]
pub struct UrlParts {
    /// The scheme, without a colon.
    pub scheme: String,
    /// The host as it is written in the URL.
    pub hostname: Option<String>,
    /// The port, where it is not the usual one of the scheme.
    pub port: Option<u16>,
    /// The path.
    pub path: String,
    /// The query, without a question mark.
    pub query: Option<String>,
    /// The fragment, without a number sign.
    pub fragment: Option<String>,
    /// The whole URL.
    pub href: String,
}

/// A URL, taken apart, as mathematical data.
pub struct UrlView {
    /// The scheme.
    pub scheme: Seq<char>,
    /// The host.
    pub hostname: Option<Seq<char>>,
    /// The port.
    pub port: Option<u16>,
    /// The path.
    pub path: Seq<char>,
    /// The query.
    pub query: Option<Seq<char>>,
    /// The fragment.
    pub fragment: Option<Seq<char>>,
    /// The whole URL.
    pub href: Seq<char>,
}

/// The characters of an optional string.
pub open spec fn optional_text(s: Option<String>) -> Option<Seq<char>> {
    match s {
        Some(t) => Some(t@),
        None => None,
    }
}

/// The characters of an optional string slice.
pub open spec fn optional_str(s: Option<&str>) -> Option<Seq<char>> {
    match s {
        Some(t) => Some(t@),
        None => None,
    }
}

impl View for UrlParts {
    type V = UrlView;

    open spec fn view(&self) -> UrlView {
        UrlView {
            scheme: self.scheme@,
            hostname: optional_text(self.hostname),
            port: self.port,
            path: self.path@,
            query: optional_text(self.query),
            fragment: optional_text(self.fragment),
            href: self.href@,
        }
    }
}

/// What the `url` crate makes of a string, resolved against a base where there
/// is one: the parts of the URL, or nothing where one of the two is no URL.
pub uninterp spec fn resolved_url(base: Option<Seq<char>>, input: Seq<char>) -> Option<UrlView>;

/// `url::ParseOptions::parse`, which `Url::parse` and `Url::join` call: parses
/// `input`, resolved against the URL `base` where there is one. Whether it
/// succeeds, and what it gives, depends on the two strings alone; it is only named.
#[verifier::external_body]
pub(crate) fn resolve_url(base: Option<&str>, input: &str) -> (r: Option<UrlParts>)
    ensures
        match r {
            Some(parts) => resolved_url(optional_str(base), input@) == Some(parts@),
            None => resolved_url(optional_str(base), input@) is None,
        },
{
    let base_url = base.map(url::Url::parse).transpose().ok()?;
    let parsed = url::Url::options().base_url(base_url.as_ref()).parse(input).ok()?;
    Some(UrlParts {
        scheme: parsed.scheme().to_string(),
        hostname: parsed.host_str().map(String::from),
        port: parsed.port(),
        path: parsed.path().to_string(),
        query: parsed.query().map(String::from),
        fragment: parsed.fragment().map(String::from),
        href: parsed.to_string(),
    })
}

/// The host that the `url` crate finds in a string: nothing where the string is
/// no URL or the URL has no host.
pub uninterp spec fn host_of_url(input: Seq<char>) -> Option<HostView>;

/// `url::Url::host`, of the URL that a string is parsed to. What it gives
/// depends on the string alone; it is only named.
#[verifier::external_body]
pub(crate) fn url_host(input: &str) -> (r: Option<UrlHost>)
    ensures
        match r {
            Some(host) => host_of_url(input@) == Some(host@),
            None => host_of_url(input@) is None,
        },
{
    match url::Url::parse(input).ok()?.host()? {
        url::Host::Domain(name) => Some(UrlHost::Domain(name.to_string())),
        url::Host::Ipv4(address) => Some(UrlHost::Address(IpAddress::V4(address.to_bits()))),
        url::Host::Ipv6(address) => Some(UrlHost::Address(IpAddress::V6(address.to_bits()))),
    }
}

/// The bytes that a path stands for: `%` and two hexadecimal digits are a byte,
/// and everything else stands for itself.
pub open spec fn path_bytes(t: Seq<u8>) -> Seq<u8>
    decreases t.len(),
{
    if t.len() == 0 {
        seq![]
    } else if t[0] == 37 && t.len() > 2 && hex_digit_value(t[1]) is Some && hex_digit_value(
        t[2],
    ) is Some {
        seq![(hex_digit_value(t[1])->0 * 16 + hex_digit_value(t[2])->0) as u8] + path_bytes(
            t.skip(3),
        )
    } else {
        seq![t[0]] + path_bytes(t.skip(1))
    }
}

/// The bytes that a path stands for.
pub fn path_bytes_of(path: &str) -> (r: Vec<u8>)
    ensures
        r@ == path_bytes(encode_utf8(path@)),
{
    let bytes = path.as_bytes();
    let mut out: Vec<u8> = Vec::new();
    let mut i: usize = 0;
    assert(bytes@.skip(0) =~= bytes@);
    assert(Seq::<u8>::empty() + path_bytes(bytes@) =~= path_bytes(bytes@));
    while i < bytes.len()
        invariant
            i <= bytes@.len(),
            out@ + path_bytes(bytes@.skip(i as int)) == path_bytes(bytes@),
        decreases bytes@.len() - i,
    {
        let ghost before = out@;
        let ghost rest = bytes@.skip(i as int);
        let mut step: usize = 1;
        let mut byte: u8 = bytes[i];
        if byte == 37 && bytes.len() - i > 2 {
            match (hex_val(bytes[i + 1]), hex_val(bytes[i + 2])) {
                (Some(hi), Some(lo)) => {
                    byte = hi * 16 + lo;
                    step = 3;
                },
                _ => {},
            }
        }
        out.push(byte);
        proof {
            let next = bytes@.skip(i + step);
            assert(rest.skip(step as int) =~= next);
            assert(out@ + path_bytes(next) =~= before + (seq![byte] + path_bytes(next)));
        }
        i = i + step;
    }
    proof {
        assert(bytes@.skip(i as int).len() == 0);
        assert(out@ =~= path_bytes(bytes@));
    }
    out
}

/// Whether two paths stand for the same bytes, however they are escaped.
pub open spec fn same_path(a: Seq<char>, b: Seq<char>) -> bool {
    path_bytes(encode_utf8(a)) == path_bytes(encode_utf8(b))
}

/// Whether two paths stand for the same bytes, however they are escaped.
pub fn is_same_path(a: &str, b: &str) -> (r: bool)
    ensures
        r == same_path(a@, b@),
{
    bytes_eq(path_bytes_of(a).as_slice(), path_bytes_of(b).as_slice())
}

/// A byte string with every byte written as `%` and two hexadecimal digits.
pub open spec fn fully_escaped(b: Seq<u8>) -> Seq<char>
    decreases b.len(),
{
    if b.len() == 0 {
        seq![]
    } else {
        seq!['%', upper_digit(b[0] as int / 16), upper_digit(b[0] as int % 16)] + fully_escaped(
            b.skip(1),
        )
    }
}

/// A byte string that is escaped stands for itself.
pub proof fn lemma_fully_escaped(b: Seq<u8>)
    ensures
        is_ascii_chars(fully_escaped(b)),
        path_bytes(encode_utf8(fully_escaped(b))) == b,
    decreases b.len(),
{
    let e = fully_escaped(b);
    if b.len() > 0 {
        let rest = fully_escaped(b.skip(1));
        lemma_fully_escaped(b.skip(1));
        lemma_upper_digit(b[0] as int / 16);
        lemma_upper_digit(b[0] as int % 16);
        assert forall|i: int| 0 <= i < e.len() implies '\0' <= #[trigger] e[i] <= '\u{7f}' by {
            if i >= 3 {
                assert(e[i] == rest[i - 3]);
            }
        }
        is_ascii_chars_encode_utf8(e);
        is_ascii_chars_encode_utf8(rest);
        let t = encode_utf8(e);
        assert(t.skip(3) =~= encode_utf8(rest));
        assert(t[0] == 37 && t[1] == upper_digit(b[0] as int / 16) as u8 && t[2] == upper_digit(
            b[0] as int % 16,
        ) as u8);
        assert((b[0] / 16) * 16 + b[0] % 16 == b[0]);
        assert(path_bytes(t) =~= seq![b[0]] + b.skip(1));
        assert(seq![b[0]] + b.skip(1) =~= b);
    } else {
        is_ascii_chars_encode_utf8(e);
        assert(path_bytes(encode_utf8(e)) =~= b);
    }
}

/// Bytes without escapes stand for themselves.
pub proof fn lemma_no_escapes(t: Seq<u8>)
    requires
        !t.contains(37),
    ensures
        path_bytes(t) == t,
    decreases t.len(),
{
    if t.len() > 0 {
        assert forall|i: int| 0 <= i < t.skip(1).len() implies t.skip(1)[i] != 37 by {
            assert(t[i + 1] != 37);
        }
        assert(t[0] != 37);
        lemma_no_escapes(t.skip(1));
        assert(path_bytes(t) =~= t);
    }
}

proof fn lemma_path_bytes_front(a: Seq<u8>, rest: Seq<u8>)
    requires
        !a.contains(37),
    ensures
        path_bytes(a + rest) == a + path_bytes(rest),
    decreases a.len(),
{
    if a.len() == 0 {
        assert(a + rest =~= rest);
        assert(a + path_bytes(rest) =~= path_bytes(rest));
    } else {
        let b = a.skip(1);
        assert(a.contains(a[0]));
        assert forall|i: int| 0 <= i < b.len() implies b[i] != 37 by {
            assert(a.contains(a[i + 1]));
        }
        lemma_path_bytes_front(b, rest);
        assert((a + rest).skip(1) =~= b + rest);
        assert((a + rest)[0] == a[0]);
        assert(seq![a[0]] + (b + path_bytes(rest)) =~= a + path_bytes(rest));
    }
}

/// What a path stands for, read up to its first percent sign and on from there: a
/// percent sign with two hexadecimal digits behind it is one byte, any other
/// percent sign is itself, and everything else is itself.
pub proof fn law_path_escapes(a: Seq<u8>, x: u8, y: u8, rest: Seq<u8>)
    requires
        !a.contains('%' as u8),
    ensures
        path_bytes(a) == a,
        hex_digit_value(x) is Some && hex_digit_value(y) is Some ==> path_bytes(
            a + seq!['%' as u8, x, y] + rest,
        ) == a + seq![(hex_digit_value(x)->0 * 16 + hex_digit_value(y)->0) as u8] + path_bytes(
            rest,
        ),
        rest.len() < 2 || hex_digit_value(rest[0]) is None || hex_digit_value(rest[1]) is None
            ==> path_bytes(a + seq!['%' as u8] + rest) == a + seq!['%' as u8] + path_bytes(rest),
{
    let e = seq![37u8, x, y];
    let p = seq![37u8];
    lemma_path_bytes_front(a, seq![]);
    assert(a + Seq::<u8>::empty() =~= a);
    assert(path_bytes(Seq::<u8>::empty()) =~= seq![]);
    assert(a + e + rest =~= a + (e + rest));
    assert(a + p + rest =~= a + (p + rest));
    lemma_path_bytes_front(a, e + rest);
    lemma_path_bytes_front(a, p + rest);
    let t = e + rest;
    let u = p + rest;
    assert(t.skip(3) =~= rest);
    assert(u.skip(1) =~= rest);
    assert(t[0] == 37 && t[1] == x && t[2] == y);
    assert(u[0] == 37);
    if rest.len() >= 2 {
        assert(u[1] == rest[0] && u[2] == rest[1]);
    }
    if hex_digit_value(x) is Some && hex_digit_value(y) is Some {
        let v = seq![(hex_digit_value(x)->0 * 16 + hex_digit_value(y)->0) as u8];
        assert(a + (v + path_bytes(rest)) =~= a + v + path_bytes(rest));
    }
    assert(a + (p + path_bytes(rest)) =~= a + p + path_bytes(rest));
}

/// Two paths are the same exactly when they stand for the same bytes.
pub proof fn law_same_path(a: Seq<char>, b: Seq<char>)
    ensures
        same_path(a, b) <==> path_bytes(encode_utf8(a)) == path_bytes(encode_utf8(b)),
        same_path(a, a),
{
}

/// Taking strings as mathematical data loses nothing: an optional string is there
/// with all its characters or not at all, and the parts of a URL are all there.
pub proof fn law_views_keep_url_parts(text: String, slice: &str, parts: UrlParts)
    ensures
        optional_text(Some(text)) == Some(text@),
        optional_text(None) is None,
        optional_str(Some(slice)) == Some(slice@),
        optional_str(None) is None,
        parts@.scheme == parts.scheme@ && parts@.port == parts.port && parts@.path == parts.path@
            && parts@.href == parts.href@,
        parts.hostname is None ==> parts@.hostname is None,
        parts.hostname matches Some(name) ==> parts@.hostname == Some(name@),
        parts.query is None ==> parts@.query is None,
        parts.query matches Some(query) ==> parts@.query == Some(query@),
        parts.fragment is None ==> parts@.fragment is None,
        parts.fragment matches Some(fragment) ==> parts@.fragment == Some(fragment@),
{
}

} // verus!
