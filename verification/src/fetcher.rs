//! Fetches of absolute URLs: which targets may be reached, and what becomes of
//! an answer.

use crate::dispatch::{is_request_for, outgoing_request, OutgoingRequest};
use crate::pairs::law_joined;
use crate::text::{
    chars_of, decimal, law_split_and_join, lemma_split_concat, lemma_split_single, pairs_view,
    split, split_on, str_eq, strings_view,
};
use crate::fetch_result::{error_json, DispatchResult, DispatchView, FetchFailure};
use crate::json::law_json_keeps_plain_text;
use crate::url_parts::{host_of_url, url_host, HostView, IpAddress, UrlHost};
use vstd::arithmetic::div_mod::lemma_fundamental_div_mod_converse;
use vstd::prelude::*;
use vstd::utf8::is_ascii_chars_encode_utf8;

verus! {

/// The number of a decimal octet: one to three digits, no needless zero in
/// front, at most 255.
pub open spec fn octet_value(s: Seq<char>) -> Option<nat> {
    if s.len() == 0 || s.len() > 3 || !(forall|i: int|
        0 <= i < s.len() ==> '0' <= #[trigger] s[i] <= '9') || (s.len() > 1 && s[0] == '0') {
        None
    } else {
        let n = digits_value(s);
        if n <= 255 {
            Some(n)
        } else {
            None
        }
    }
}

/// The number that decimal digits stand for.
pub open spec fn digits_value(s: Seq<char>) -> nat
    decreases s.len(),
{
    if s.len() == 0 {
        0
    } else {
        (digits_value(s.drop_last()) * 10 + (s.last() as u32 - '0' as u32)) as nat
    }
}

/// The IPv4 address that a string is the text of: four decimal octets with dots
/// between them.
pub open spec fn ipv4_of_text(s: Seq<char>) -> Option<u32> {
    let parts = split(s, '.');
    if parts.len() != 4 {
        None
    } else {
        match (
            octet_value(parts[0]),
            octet_value(parts[1]),
            octet_value(parts[2]),
            octet_value(parts[3]),
        ) {
            (Some(a), Some(b), Some(c), Some(d)) => Some(
                (a * 0x100_0000 + b * 0x1_0000 + c * 0x100 + d) as u32,
            ),
            _ => None,
        }
    }
}

/// 127.0.0.0/8.
pub open spec fn is_loopback_v4(ip: u32) -> bool {
    ip as int / 0x100_0000 == 127
}

/// 169.254.0.0/16.
pub open spec fn is_link_local_v4(ip: u32) -> bool {
    ip as int / 0x1_0000 == 169 * 256 + 254
}

/// 10.0.0.0/8, 172.16.0.0/12 and 192.168.0.0/16.
pub open spec fn is_private_v4(ip: u32) -> bool {
    ip as int / 0x100_0000 == 10 || ip as int / 0x10_0000 == 172 * 16 + 1 || ip as int / 0x1_0000
        == 192 * 256 + 168
}

/// Whether an IPv4 address is out of bounds: loopback, unspecified, link-local
/// or private.
pub open spec fn is_blocked_v4(ip: u32) -> bool {
    is_loopback_v4(ip) || ip == 0 || is_link_local_v4(ip) || is_private_v4(ip)
}

/// fe80::/10.
pub open spec fn is_link_local_v6(ip: u128) -> bool {
    ip as int / 0x40_0000_0000_0000_0000_0000_0000_0000 == 0x3fa
}

/// fc00::/7.
pub open spec fn is_unique_local_v6(ip: u128) -> bool {
    ip as int / 0x200_0000_0000_0000_0000_0000_0000_0000 == 0x7e
}

/// The IPv4 address that an IPv6 address maps (`::ffff:a.b.c.d`) or is
/// compatible with (`::a.b.c.d`).
pub open spec fn embedded_v4(ip: u128) -> Option<u32> {
    if ip as int / 0x1_0000_0000 == 0 || ip as int / 0x1_0000_0000 == 0xffff {
        Some((ip as int % 0x1_0000_0000) as u32)
    } else {
        None
    }
}

/// Whether an IPv6 address is out of bounds: loopback, unspecified, link-local,
/// unique local, or one that stands for an IPv4 address out of bounds.
pub open spec fn is_blocked_v6(ip: u128) -> bool {
    ip == 1 || ip == 0 || is_link_local_v6(ip) || is_unique_local_v6(ip) || (embedded_v4(
        ip,
    ) matches Some(v4) && is_blocked_v4(v4))
}

/// Whether an address is out of bounds.
pub open spec fn is_blocked_address(ip: IpAddress) -> bool {
    match ip {
        IpAddress::V4(v4) => is_blocked_v4(v4),
        IpAddress::V6(v6) => is_blocked_v6(v6),
    }
}

/// Whether a host may be reached: any but `localhost` and the addresses out of
/// bounds. Without a host there is nothing to reach.
pub open spec fn host_allowed(host: Option<HostView>) -> bool {
    match host {
        None => false,
        Some(HostView::Address(ip)) => !is_blocked_address(ip),
        Some(HostView::Domain(name)) => name != "localhost"@ && (ipv4_of_text(name) matches Some(
            ip,
        ) ==> !is_blocked_v4(ip)),
    }
}

/// A host as mathematical data.
pub open spec fn host_view(host: Option<UrlHost>) -> Option<HostView> {
    match host {
        Some(h) => Some(h@),
        None => None,
    }
}

/// The number of a decimal octet.
fn parse_octet(text: &str) -> (r: Option<u32>)
    ensures
        match r {
            Some(n) => octet_value(text@) == Some(n as nat) && n <= 255,
            None => octet_value(text@) is None,
        },
{
    let chars = chars_of(text);
    if chars.len() == 0 || chars.len() > 3 || (chars.len() > 1 && chars[0] == '0') {
        return None;
    }
    let mut n: u32 = 0;
    let mut i: usize = 0;
    while i < chars.len()
        invariant
            i <= chars@.len() <= 3,
            chars@ == text@,
            n == digits_value(chars@.take(i as int)),
            i == 0 ==> n == 0,
            i == 1 ==> n <= 9,
            i == 2 ==> n <= 99,
            i == 3 ==> n <= 999,
            forall|j: int| 0 <= j < i ==> '0' <= #[trigger] chars@[j] <= '9',
        decreases chars@.len() - i,
    {
        let c = chars[i];
        if c < '0' || c > '9' {
            assert(!('0' <= text@[i as int] <= '9'));
            return None;
        }
        proof {
            assert(chars@.take(i + 1).drop_last() =~= chars@.take(i as int));
        }
        n = n * 10 + (c as u32 - '0' as u32);
        i = i + 1;
    }
    assert(chars@.take(i as int) =~= chars@);
    if n <= 255 {
        Some(n)
    } else {
        None
    }
}

/// The IPv4 address that a string is the text of.
pub fn parse_ipv4(text: &str) -> (r: Option<u32>)
    ensures
        r == ipv4_of_text(text@),
{
    let parts = split_on(text, '.');
    let ghost p = strings_view(parts@);
    if parts.len() != 4 {
        assert(p.len() != 4);
        return None;
    }
    assert(p[0] == parts@[0]@ && p[1] == parts@[1]@ && p[2] == parts@[2]@ && p[3] == parts@[3]@);
    match (
        parse_octet(parts[0].as_str()),
        parse_octet(parts[1].as_str()),
        parse_octet(parts[2].as_str()),
        parse_octet(parts[3].as_str()),
    ) {
        (Some(a), Some(b), Some(c), Some(d)) => Some(
            a * 0x100_0000 + b * 0x1_0000 + c * 0x100 + d,
        ),
        _ => None,
    }
}

/// Whether an address is link-local: 169.254.0.0/16 or fe80::/10.
pub fn is_link_local(ip: &IpAddress) -> (r: bool)
    ensures
        r == (match *ip {
            IpAddress::V4(v4) => is_link_local_v4(v4),
            IpAddress::V6(v6) => is_link_local_v6(v6),
        }),
{
    match *ip {
        IpAddress::V4(v4) => v4 / 0x1_0000 == 169 * 256 + 254,
        IpAddress::V6(v6) => v6 / 0x40_0000_0000_0000_0000_0000_0000_0000 == 0x3fa,
    }
}

/// Whether an IPv4 address is private. No IPv6 address is; those that are local
/// to a site are told by [`is_ipv6_unique_local`].
pub fn is_private(ip: &IpAddress) -> (r: bool)
    ensures
        r == (match *ip {
            IpAddress::V4(v4) => is_private_v4(v4),
            IpAddress::V6(_) => false,
        }),
{
    match *ip {
        IpAddress::V4(v4) => v4 / 0x100_0000 == 10 || v4 / 0x10_0000 == 172 * 16 + 1 || v4
            / 0x1_0000 == 192 * 256 + 168,
        IpAddress::V6(_) => false,
    }
}

/// Whether an IPv6 address is unique local: fc00::/7.
pub fn is_ipv6_unique_local(v6: u128) -> (r: bool)
    ensures
        r == is_unique_local_v6(v6),
{
    v6 / 0x200_0000_0000_0000_0000_0000_0000_0000 == 0x7e
}

/// Whether an IPv4 address is out of bounds.
fn is_ipv4_blocked(v4: u32) -> (r: bool)
    ensures
        r == is_blocked_v4(v4),
{
    let ip = IpAddress::V4(v4);
    v4 / 0x100_0000 == 127 || v4 == 0 || is_link_local(&ip) || is_private(&ip)
}

/// Whether an address is out of bounds.
pub fn is_address_blocked(ip: &IpAddress) -> (r: bool)
    ensures
        r == is_blocked_address(*ip),
{
    match *ip {
        IpAddress::V4(v4) => is_ipv4_blocked(v4),
        IpAddress::V6(v6) => {
            if v6 <= 1 || is_link_local(ip) || is_ipv6_unique_local(v6) {
                return true;
            }
            let high: u128 = v6 / 0x1_0000_0000;
            (high == 0 || high == 0xffff) && is_ipv4_blocked((v6 % 0x1_0000_0000) as u32)
        },
    }
}

/// Whether a host may be reached.
pub fn is_host_allowed(host: &Option<UrlHost>) -> (r: bool)
    ensures
        r == host_allowed(host_view(*host)),
{
    match host {
        None => false,
        Some(UrlHost::Address(ip)) => !is_address_blocked(ip),
        Some(UrlHost::Domain(name)) => {
            if str_eq(name.as_str(), "localhost") {
                return false;
            }
            match parse_ipv4(name.as_str()) {
                Some(v4) => !is_ipv4_blocked(v4),
                None => true,
            }
        },
    }
}

/// Whether a page may fetch a URL: its host must not be `localhost`, nor an
/// address that is loopback, unspecified, link-local (the metadata endpoint of
/// cloud providers among them), private or unique local. A string that is no
/// URL, or one without a host, is not allowed.
pub fn is_url_allowed(url: &str) -> (r: bool)
    ensures
        r == host_allowed(host_of_url(url@)),
{
    is_host_allowed(&url_host(url))
}

/// What is done about a fetch of a host: refused, or sent as a request.
pub fn begin_fetch_to(host: &Option<UrlHost>, method: &str, headers: &[(String, String)]) -> (r:
    Result<OutgoingRequest, DispatchResult>)
    ensures
        match r {
            Ok(request) => host_allowed(host_view(*host)) && is_request_for(
                request,
                method@,
                pairs_view(headers@),
            ),
            Err(answer) => !host_allowed(host_view(*host)) && answer@
                == FetchFailure::Forbidden.answer(),
        },
{
    if is_host_allowed(host) {
        Ok(outgoing_request(method, headers))
    } else {
        Err(FetchFailure::Forbidden.result())
    }
}

/// What is done about a fetch of a URL: one that may not be fetched is answered
/// with an error and reaches nothing; any other is sent.
pub fn begin_fetch(url: &str, method: &str, headers: &[(String, String)]) -> (r: Result<
    OutgoingRequest,
    DispatchResult,
>)
    ensures
        match r {
            Ok(request) => host_allowed(host_of_url(url@)) && is_request_for(
                request,
                method@,
                pairs_view(headers@),
            ),
            Err(answer) => !host_allowed(host_of_url(url@)) && answer@
                == FetchFailure::Forbidden.answer(),
        },
{
    begin_fetch_to(&url_host(url), method, headers)
}

/// How long the body of an answer may be: 10 MB.
pub const MAX_EXTERNAL_BODY_SIZE: usize = 10 * 1024 * 1024;

/// Whether an answer whose length is announced is too long to be read. If so,
/// the page gets an error instead.
pub fn check_announced_length(content_length: Option<u64>) -> (r: Option<DispatchResult>)
    ensures
        match r {
            Some(answer) => content_length matches Some(n) && n > MAX_EXTERNAL_BODY_SIZE && answer@
                == FetchFailure::TooLarge.answer(),
            None => content_length matches Some(n) ==> n <= MAX_EXTERNAL_BODY_SIZE,
        },
{
    match content_length {
        Some(n) => if n > MAX_EXTERNAL_BODY_SIZE as u64 {
            Some(FetchFailure::TooLarge.result())
        } else {
            None
        },
        None => None,
    }
}

/// What a page gets of an answer: the body is empty where it could not be read,
/// and an error stands for an answer that turned out too long.
pub open spec fn fetch_answer(
    status: u16,
    headers: Seq<(Seq<char>, Seq<char>)>,
    body: Option<Seq<u8>>,
) -> DispatchView {
    match body {
        Some(bytes) => if bytes.len() > MAX_EXTERNAL_BODY_SIZE {
            FetchFailure::TooLarge.answer()
        } else {
            DispatchView { status, headers, body: bytes }
        },
        None => DispatchView { status, headers, body: seq![] },
    }
}

/// What a page gets of an answer: its status, header fields and body.
pub fn finish_fetch(
    status: u16,
    headers: Vec<(String, String)>,
    body: Option<Vec<u8>>,
) -> (r: DispatchResult)
    ensures
        r@ == fetch_answer(
            status,
            pairs_view(headers@),
            match body {
                Some(bytes) => Some(bytes@),
                None => None,
            },
        ),
{
    match body {
        Some(bytes) => if bytes.len() > MAX_EXTERNAL_BODY_SIZE {
            FetchFailure::TooLarge.result()
        } else {
            DispatchResult { status, headers, body: bytes }
        },
        None => DispatchResult { status, headers, body: Vec::new() },
    }
}

/// The loopback, unspecified, link-local and private IPv4 addresses are refused
/// in every form in which a URL can hold them: as an address, as its text, and
/// inside an IPv6 address.
pub proof fn law_blocked_address_in_every_form(ip: u32, name: Seq<char>)
    requires
        is_blocked_v4(ip),
        ipv4_of_text(name) == Some(ip),
    ensures
        !host_allowed(Some(HostView::Address(IpAddress::V4(ip)))),
        !host_allowed(Some(HostView::Domain(name))),
        !host_allowed(Some(HostView::Address(IpAddress::V6(ip as u128)))),
        !host_allowed(Some(HostView::Address(IpAddress::V6((0xffff_0000_0000 + ip) as u128)))),
{
    let mapped = (0xffff_0000_0000 + ip) as u128;
    assert(mapped as int % 0x1_0000_0000 == ip && mapped as int / 0x1_0000_0000 == 0xffff);
}

/// No page gets a body longer than [`MAX_EXTERNAL_BODY_SIZE`] from a fetch.
pub proof fn law_fetched_body_is_bounded(
    status: u16,
    headers: Seq<(Seq<char>, Seq<char>)>,
    body: Option<Seq<u8>>,
)
    ensures
        fetch_answer(status, headers, body).body.len() <= MAX_EXTERNAL_BODY_SIZE,
{
    let message = "response body exceeds size limit"@;
    let text = error_json(message);
    reveal_strlit("response body exceeds size limit");
    law_json_keeps_plain_text(message);
    reveal_strlit("{\"error\":\"");
    reveal_strlit("\"}");
    is_ascii_chars_encode_utf8(text);
}

/// The text of an IPv4 address: its four octets in decimal, with dots between them.
pub open spec fn dotted(a: u8, b: u8, c: u8, d: u8) -> Seq<char> {
    decimal(a as nat) + seq!['.'] + decimal(b as nat) + seq!['.'] + decimal(c as nat) + seq!['.']
        + decimal(d as nat)
}

proof fn lemma_decimal_digits(n: nat)
    ensures
        decimal(n).len() > 0,
        digits_value(decimal(n)) == n,
        forall|i: int| 0 <= i < decimal(n).len() ==> '0' <= #[trigger] decimal(n)[i] <= '9',
        n >= 10 ==> decimal(n).len() > 1,
        n > 0 ==> decimal(n)[0] != '0',
        n < 10 ==> decimal(n).len() == 1,
        n < 100 ==> decimal(n).len() <= 2,
        n < 1000 ==> decimal(n).len() <= 3,
    decreases n,
{
    let t = decimal(n);
    if n < 10 {
        assert(t.drop_last().len() == 0);
        assert(digits_value(t.drop_last()) == 0);
        assert(t.last() == (48 + n) as char);
    } else {
        lemma_decimal_digits(n / 10);
        assert(t.drop_last() =~= decimal(n / 10));
        assert(t.last() == (48 + n % 10) as char);
        assert(t[0] == decimal(n / 10)[0]);
        assert forall|i: int| 0 <= i < t.len() implies '0' <= #[trigger] t[i] <= '9' by {
            if i < t.len() - 1 {
                assert(t[i] == decimal(n / 10)[i]);
            }
        }
    }
}

proof fn lemma_octet(n: nat)
    requires
        n <= 255,
    ensures
        octet_value(decimal(n)) == Some(n),
        !decimal(n).contains('.'),
{
    lemma_decimal_digits(n);
    if decimal(n).contains('.') {
        let i = choose|i: int| 0 <= i < decimal(n).len() && decimal(n)[i] == '.';
        assert('0' <= decimal(n)[i] <= '9');
    }
}

proof fn lemma_octet_text(s: Seq<char>, n: nat)
    requires
        octet_value(s) == Some(n),
    ensures
        n <= 255,
        s == decimal(n),
{
    reveal_with_fuel(digits_value, 4);
    assert('0' <= s[0] <= '9');
    if s.len() == 1 {
        assert(s.drop_last().len() == 0);
        assert(s =~= decimal(n));
    } else if s.len() == 2 {
        assert('0' <= s[1] <= '9');
        let t = s.drop_last();
        assert(t.drop_last().len() == 0);
        assert(n == (s[0] as u32 - 48) * 10 + (s[1] as u32 - 48));
        assert(n / 10 == s[0] as u32 - 48 && n % 10 == s[1] as u32 - 48);
        assert(decimal(n / 10) =~= seq![s[0]]);
        assert(s =~= decimal(n));
    } else {
        assert('0' <= s[1] <= '9' && '0' <= s[2] <= '9');
        let t = s.drop_last();
        let u = t.drop_last();
        assert(u.drop_last().len() == 0);
        let m = ((s[0] as u32 - 48) * 10 + (s[1] as u32 - 48)) as nat;
        assert(n == m * 10 + (s[2] as u32 - 48));
        assert(n / 10 == m && n % 10 == s[2] as u32 - 48);
        assert(m / 10 == s[0] as u32 - 48 && m % 10 == s[1] as u32 - 48);
        assert(decimal(m / 10) =~= seq![s[0]]);
        assert(decimal(m) =~= seq![s[0], s[1]]);
        assert(s =~= decimal(n));
    }
}

/// The text of an address is read as that address, whatever its octets are.
pub proof fn law_dotted_text_is_read(a: u8, b: u8, c: u8, d: u8)
    ensures
        ipv4_of_text(dotted(a, b, c, d)) == Some(
            (a * 16_777_216 + b * 65_536 + c * 256 + d) as u32,
        ),
{
    let (x, y, z, w) = (
        decimal(a as nat),
        decimal(b as nat),
        decimal(c as nat),
        decimal(d as nat),
    );
    lemma_octet(a as nat);
    lemma_octet(b as nat);
    lemma_octet(c as nat);
    lemma_octet(d as nat);
    lemma_split_single(x, '.');
    lemma_split_single(y, '.');
    lemma_split_single(z, '.');
    lemma_split_single(w, '.');
    let xy = x + seq!['.'] + y;
    let xyz = xy + seq!['.'] + z;
    lemma_split_concat(x, '.', y);
    lemma_split_concat(xy, '.', z);
    lemma_split_concat(xyz, '.', w);
    assert(dotted(a, b, c, d) =~= xyz + seq!['.'] + w);
    assert(split(dotted(a, b, c, d), '.') =~= seq![x, y, z, w]);
}

/// Nothing but the text of an address is read as one.
pub proof fn law_only_dotted_text_is_read(s: Seq<char>)
    requires
        ipv4_of_text(s) is Some,
    ensures
        exists|a: u8, b: u8, c: u8, d: u8| s == #[trigger] dotted(a, b, c, d),
{
    let p = split(s, '.');
    law_split_and_join(s, '.');
    let (a, b, c, d) = (
        octet_value(p[0])->0,
        octet_value(p[1])->0,
        octet_value(p[2])->0,
        octet_value(p[3])->0,
    );
    lemma_octet_text(p[0], a);
    lemma_octet_text(p[1], b);
    lemma_octet_text(p[2], c);
    lemma_octet_text(p[3], d);
    let sep = seq!['.'];
    assert(p =~= seq![p[0]] + seq![p[1]] + seq![p[2]] + seq![p[3]]);
    law_joined(seq![p[0]], seq![p[1]], p[0], sep);
    law_joined(seq![p[0]] + seq![p[1]], seq![p[2]], p[1], sep);
    law_joined(seq![p[0]] + seq![p[1]] + seq![p[2]], seq![p[3]], p[2], sep);
    law_joined(seq![], seq![], p[3], sep);
    assert(s =~= dotted(a as u8, b as u8, c as u8, d as u8));
}

/// The IPv4 addresses out of bounds, by their octets: 127.x.x.x, 10.x.x.x,
/// 172.16.x.x to 172.31.x.x, 192.168.x.x, 169.254.x.x and 0.0.0.0; and no others.
pub proof fn law_blocked_ipv4(a: u8, b: u8, c: u8, d: u8)
    ensures
        ({
            let ip = (a * 16_777_216 + b * 65_536 + c * 256 + d) as u32;
            is_blocked_address(IpAddress::V4(ip)) <==> a == 127 || a == 10 || (a == 172 && 16 <= b
                <= 31) || (a == 192 && b == 168) || (a == 169 && b == 254) || (a == 0 && b == 0
                && c == 0 && d == 0)
        }),
{
    let n = a * 16_777_216 + b * 65_536 + c * 256 + d;
    assert(0 <= n <= 0xffff_ffff);
    assert(n / 16_777_216 == a as int);
    assert(n / 65_536 == a * 256 + b);
    assert(n / 0x10_0000 == a * 16 + b / 16);
}

/// The IPv6 addresses out of bounds, by their first group of 16 bits and the rest:
/// fc00 to fdff, fe80 to febf, `::`, `::1`, and those whose lower 32 bits are an
/// IPv4 address out of bounds behind zeros or behind `ffff`; and no others.
pub proof fn law_blocked_ipv6(ip: u128, group: int, rest: int)
    requires
        ip == group * 0x1_0000_0000_0000_0000_0000_0000_0000 + rest,
        0 <= rest < 0x1_0000_0000_0000_0000_0000_0000_0000,
    ensures
        is_blocked_address(IpAddress::V6(ip)) <==> 0xfc00 <= group <= 0xfdff || 0xfe80 <= group
            <= 0xfebf || ip == 0 || ip == 1 || ((ip as int / 0x1_0000_0000 == 0 || ip as int
            / 0x1_0000_0000 == 0xffff) && is_blocked_address(
            IpAddress::V4((ip as int % 0x1_0000_0000) as u32),
        )),
{
    let n = ip as int;
    let unit: int = 0x1_0000_0000_0000_0000_0000_0000_0000;
    assert(n / 0x40_0000_0000_0000_0000_0000_0000_0000 == group / 64) by {
        lemma_fundamental_div_mod_converse(
            n,
            0x40_0000_0000_0000_0000_0000_0000_0000,
            group / 64,
            (group % 64) * unit + rest,
        );
    }
    assert(n / 0x200_0000_0000_0000_0000_0000_0000_0000 == group / 512) by {
        lemma_fundamental_div_mod_converse(
            n,
            0x200_0000_0000_0000_0000_0000_0000_0000,
            group / 512,
            (group % 512) * unit + rest,
        );
    }
}

/// A host may be reached unless it is `localhost`, an address out of bounds, or a
/// name that is the text of an IPv4 address out of bounds. A URL without a host
/// reaches nothing.
pub proof fn law_hosts(name: Seq<char>, ip: IpAddress)
    ensures
        !host_allowed(None),
        host_allowed(Some(HostView::Address(ip))) <==> !is_blocked_address(ip),
        !host_allowed(Some(HostView::Domain("localhost"@))),
        name != "localhost"@ ==> (host_allowed(Some(HostView::Domain(name)))
            <==> !(ipv4_of_text(name) matches Some(v4) && is_blocked_address(IpAddress::V4(v4)))),
        name != "localhost"@ && (forall|a: u8, b: u8, c: u8, d: u8|
            name != #[trigger] dotted(a, b, c, d)) ==> host_allowed(Some(HostView::Domain(name))),
{
    reveal_strlit("localhost");
    if ipv4_of_text(name) is Some {
        law_only_dotted_text_is_read(name);
    }
}

/// A page gets an answer just as it came, with its status, its header fields and all
/// of its body, unless the body is longer than ten times 1024 times 1024 bytes; a
/// body that could not be read is empty.
pub proof fn law_fetched_answer(
    status: u16,
    headers: Seq<(Seq<char>, Seq<char>)>,
    body: Seq<u8>,
)
    ensures
        body.len() <= 10_485_760 ==> fetch_answer(status, headers, Some(body)) == (DispatchView {
            status,
            headers,
            body,
        }),
        body.len() > 10_485_760 ==> fetch_answer(status, headers, Some(body))
            == FetchFailure::TooLarge.answer(),
        fetch_answer(status, headers, None) == (DispatchView { status, headers, body: seq![] }),
        body.len() <= MAX_EXTERNAL_BODY_SIZE <==> body.len() <= 10_485_760,
{
}

/// A host as mathematical data is the same host: its name with all its characters,
/// or its address, or none.
pub proof fn law_view_keeps_the_host(name: String, ip: IpAddress)
    ensures
        host_view(None) is None,
        host_view(Some(UrlHost::Domain(name))) == Some(HostView::Domain(name@)),
        host_view(Some(UrlHost::Address(ip))) == Some(HostView::Address(ip)),
{
}

/// The kinds of addresses out of bounds, by their octets and by their first group of
/// 16 bits.
pub proof fn law_kinds_of_addresses(a: u8, b: u8, c: u8, d: u8, v6: u128, group: int, rest: int)
    requires
        v6 == group * 0x1_0000_0000_0000_0000_0000_0000_0000 + rest,
        0 <= rest < 0x1_0000_0000_0000_0000_0000_0000_0000,
    ensures
        ({
            let ip = (a * 16_777_216 + b * 65_536 + c * 256 + d) as u32;
            &&& is_loopback_v4(ip) <==> a == 127
            &&& is_link_local_v4(ip) <==> a == 169 && b == 254
            &&& is_private_v4(ip) <==> a == 10 || (a == 172 && 16 <= b <= 31) || (a == 192 && b
                == 168)
        }),
        is_link_local_v6(v6) <==> 0xfe80 <= group <= 0xfebf,
        is_unique_local_v6(v6) <==> 0xfc00 <= group <= 0xfdff,
{
    let n = a * 16_777_216 + b * 65_536 + c * 256 + d;
    assert(0 <= n <= 0xffff_ffff);
    assert(n / 16_777_216 == a as int);
    assert(n / 65_536 == a * 256 + b);
    assert(n / 0x10_0000 == a * 16 + b / 16);
    let unit: int = 0x1_0000_0000_0000_0000_0000_0000_0000;
    lemma_fundamental_div_mod_converse(
        v6 as int,
        0x40_0000_0000_0000_0000_0000_0000_0000,
        group / 64,
        (group % 64) * unit + rest,
    );
    lemma_fundamental_div_mod_converse(
        v6 as int,
        0x200_0000_0000_0000_0000_0000_0000_0000,
        group / 512,
        (group % 512) * unit + rest,
    );
}

} // verus!
