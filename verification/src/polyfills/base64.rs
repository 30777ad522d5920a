//! `btoa` and `atob`: Base64 over Latin-1 strings.

use crate::text::{chars_of, lemma_encode_utf8_concat, lemma_encode_utf8_injective};
use vstd::arithmetic::div_mod::lemma_fundamental_div_mod_converse;
use vstd::prelude::*;
use vstd::utf8::{encode_utf8, is_ascii_chars, is_ascii_chars_encode_utf8};

verus! {

/// Why a string was not encoded or decoded.
#[derive(Debug, Clone, Copy, PartialEq, Eq, Structural)]
pub enum Base64Error {
    /// `btoa` was given a character above U+00FF.
    OutsideLatin1,
    /// `atob` was given one character more than a multiple of four.
    Truncated,
    /// `atob` was given a character outside the Base64 alphabet.
    InvalidCharacter,
}

impl Base64Error {
    /// The message that the JavaScript exception carries.
    pub fn message(&self) -> (r: String)
        ensures
            r@ == (match *self {
                Base64Error::OutsideLatin1 => "btoa: character outside Latin1 range"@,
                Base64Error::Truncated => "atob: string to decode is not correctly encoded"@,
                Base64Error::InvalidCharacter => "atob: invalid character"@,
            }),
    {
        match *self {
            Base64Error::OutsideLatin1 => "btoa: character outside Latin1 range".to_string(),
            Base64Error::Truncated => "atob: string to decode is not correctly encoded".to_string(),
            Base64Error::InvalidCharacter => "atob: invalid character".to_string(),
        }
    }
}

/// The character of the Base64 alphabet for a number below 64.
pub open spec fn b64_symbol(v: int) -> char {
    if v < 26 {
        (65 + v) as char
    } else if v < 52 {
        (97 + v - 26) as char
    } else if v < 62 {
        (48 + v - 52) as char
    } else if v == 62 {
        '+'
    } else {
        '/'
    }
}

/// Whether a byte is a character of the Base64 alphabet.
pub open spec fn is_b64_byte(b: u8) -> bool {
    65 <= b <= 90 || 97 <= b <= 122 || 48 <= b <= 57 || b == 43 || b == 47
}

/// The number below 64 that a byte of the alphabet stands for, 0 for any other byte.
pub open spec fn b64_value(b: u8) -> int {
    if 65 <= b <= 90 {
        b - 65
    } else if 97 <= b <= 122 {
        b - 97 + 26
    } else if 48 <= b <= 57 {
        b - 48 + 52
    } else if b == 43 {
        62
    } else if b == 47 {
        63
    } else {
        0
    }
}

/// Base64 of a byte string, padded: three bytes become four characters.
pub open spec fn b64_encode(b: Seq<u8>) -> Seq<char>
    decreases b.len(),
{
    if b.len() == 0 {
        seq![]
    } else if b.len() == 1 {
        seq![b64_symbol(b[0] as int / 4), b64_symbol((b[0] % 4) * 16), '=', '=']
    } else if b.len() == 2 {
        seq![
            b64_symbol(b[0] as int / 4),
            b64_symbol((b[0] % 4) * 16 + b[1] / 16),
            b64_symbol((b[1] % 16) * 4),
            '=',
        ]
    } else {
        seq![
            b64_symbol(b[0] as int / 4),
            b64_symbol((b[0] % 4) * 16 + b[1] / 16),
            b64_symbol((b[1] % 16) * 4 + b[2] / 64),
            b64_symbol(b[2] as int % 64),
        ] + b64_encode(b.skip(3))
    }
}

/// The bytes that a Base64 text without padding stands for. Bits that do not
/// fill a byte are dropped.
pub open spec fn b64_decode(t: Seq<u8>) -> Seq<u8>
    decreases t.len(),
{
    if t.len() < 2 {
        seq![]
    } else {
        let first = (b64_value(t[0]) * 4 + b64_value(t[1]) / 16) as u8;
        if t.len() == 2 {
            seq![first]
        } else {
            let second = ((b64_value(t[1]) % 16) * 16 + b64_value(t[2]) / 4) as u8;
            if t.len() == 3 {
                seq![first, second]
            } else {
                let third = ((b64_value(t[2]) % 4) * 64 + b64_value(t[3])) as u8;
                seq![first, second, third] + b64_decode(t.skip(4))
            }
        }
    }
}

/// Whether every character is at most U+00FF.
pub open spec fn is_latin1(s: Seq<char>) -> bool {
    forall|i: int| 0 <= i < s.len() ==> (#[trigger] s[i]) as u32 <= 255
}

/// The bytes of a Latin-1 string.
pub open spec fn latin1_bytes(s: Seq<char>) -> Seq<u8> {
    Seq::new(s.len(), |i: int| s[i] as u8)
}

/// The Latin-1 string of bytes.
pub open spec fn latin1_chars(b: Seq<u8>) -> Seq<char> {
    Seq::new(b.len(), |i: int| b[i] as char)
}

/// ASCII whitespace: tab, line feed, form feed, carriage return and space.
pub open spec fn is_ascii_space(b: u8) -> bool {
    b == 9 || b == 10 || b == 12 || b == 13 || b == 32
}

/// A byte string without its ASCII whitespace.
pub open spec fn without_spaces(b: Seq<u8>) -> Seq<u8>
    decreases b.len(),
{
    if b.len() == 0 {
        b
    } else if is_ascii_space(b.last()) {
        without_spaces(b.drop_last())
    } else {
        without_spaces(b.drop_last()).push(b.last())
    }
}

/// How many `=` a byte string ends in.
pub open spec fn trailing_pads(b: Seq<u8>) -> nat
    decreases b.len(),
{
    if b.len() == 0 || b.last() != 61 {
        0
    } else {
        trailing_pads(b.drop_last()) + 1
    }
}

/// A byte string without its padding: where the length is a multiple of four,
/// one or two `=` at the end are dropped.
pub open spec fn without_padding(b: Seq<u8>) -> Seq<u8> {
    if b.len() % 4 == 0 && trailing_pads(b) <= 2 {
        b.take(b.len() - trailing_pads(b))
    } else {
        b
    }
}

/// What `btoa` gives for a string.
pub open spec fn btoa_result(s: Seq<char>) -> Result<Seq<char>, Base64Error> {
    if is_latin1(s) {
        Ok(b64_encode(latin1_bytes(s)))
    } else {
        Err(Base64Error::OutsideLatin1)
    }
}

/// What `atob` gives for a string. It forgives whitespace and missing padding.
pub open spec fn atob_result(s: Seq<char>) -> Result<Seq<char>, Base64Error> {
    let t = without_padding(without_spaces(encode_utf8(s)));
    if t.len() % 4 == 1 {
        Err(Base64Error::Truncated)
    } else if exists|i: int| 0 <= i < t.len() && !is_b64_byte(#[trigger] t[i]) {
        Err(Base64Error::InvalidCharacter)
    } else {
        Ok(latin1_chars(b64_decode(t)))
    }
}

/// The characters of an outcome.
pub open spec fn outcome_view(r: Result<String, Base64Error>) -> Result<Seq<char>, Base64Error> {
    match r {
        Ok(s) => Ok(s@),
        Err(e) => Err(e),
    }
}

fn symbol(v: u8) -> (r: char)
    requires
        v < 64,
    ensures
        r == b64_symbol(v as int),
        r == "ABCDEFGHIJKLMNOPQRSTUVWXYZabcdefghijklmnopqrstuvwxyz0123456789+/"@[v as int],
{
    proof {
        law_base64_alphabet(v as int, 0);
    }
    if v < 26 {
        (65 + v) as char
    } else if v < 52 {
        (97 + (v - 26)) as char
    } else if v < 62 {
        (48 + (v - 52)) as char
    } else if v == 62 {
        '+'
    } else {
        '/'
    }
}

/// The number that a byte of the alphabet stands for, 0 for any other byte.
pub fn lookup_b64(byte: u8) -> (r: u8)
    ensures
        r == b64_value(byte),
        r < 64,
{
    if 65 <= byte && byte <= 90 {
        byte - 65
    } else if 97 <= byte && byte <= 122 {
        byte - 97 + 26
    } else if 48 <= byte && byte <= 57 {
        byte - 48 + 52
    } else if byte == 43 {
        62
    } else if byte == 47 {
        63
    } else {
        0
    }
}

/// The bytes of a Latin-1 string, if it is one.
fn latin1_bytes_of(input: &str) -> (r: Option<Vec<u8>>)
    ensures
        match r {
            Some(bytes) => is_latin1(input@) && bytes@ == latin1_bytes(input@),
            None => !is_latin1(input@),
        },
{
    let chars = chars_of(input);
    let mut bytes: Vec<u8> = Vec::new();
    let mut i: usize = 0;
    while i < chars.len()
        invariant
            i <= chars@.len(),
            chars@ == input@,
            bytes@.len() == i,
            forall|j: int| 0 <= j < i ==> (#[trigger] chars@[j]) as u32 <= 255,
            forall|j: int| 0 <= j < i ==> bytes@[j] == (#[trigger] chars@[j]) as u8,
        decreases chars@.len() - i,
    {
        let c = chars[i];
        if c as u32 > 255 {
            return None;
        }
        bytes.push(c as u8);
        i = i + 1;
    }
    assert(bytes@ =~= latin1_bytes(input@));
    Some(bytes)
}

/// `btoa`: encodes a Latin-1 string to Base64.
pub fn btoa_encode(input: &str) -> (r: Result<String, Base64Error>)
    ensures
        outcome_view(r) == btoa_result(input@),
        match r {
            Ok(text) => btoa_result(input@) == Ok::<Seq<char>, Base64Error>(text@),
            Err(e) => btoa_result(input@) == Err::<Seq<char>, Base64Error>(e),
        },
{
    let bytes = match latin1_bytes_of(input) {
        Some(bytes) => bytes,
        None => {
            return Err(Base64Error::OutsideLatin1);
        },
    };
    let mut out = String::new();
    let mut i: usize = 0;
    assert(bytes@.skip(0) =~= bytes@);
    while i < bytes.len()
        invariant
            i <= bytes@.len(),
            out@ + b64_encode(bytes@.skip(i as int)) == b64_encode(bytes@),
        decreases bytes@.len() - i,
    {
        let ghost before = out@;
        let ghost rest = bytes@.skip(i as int);
        let left: usize = bytes.len() - i;
        let a: u8 = bytes[i];
        let b: u8 = if left > 1 {
            bytes[i + 1]
        } else {
            0
        };
        let c: u8 = if left > 2 {
            bytes[i + 2]
        } else {
            0
        };
        out.push(symbol(a / 4));
        out.push(symbol((a % 4) * 16 + b / 16));
        out.push(if left > 1 {
            symbol((b % 16) * 4 + c / 64)
        } else {
            '='
        });
        out.push(if left > 2 {
            symbol(c % 64)
        } else {
            '='
        });
        let step: usize = if left > 2 {
            3
        } else {
            left
        };
        proof {
            let next = bytes@.skip(i + step);
            if left > 2 {
                assert(rest.skip(3) =~= next);
            } else {
                assert(next.len() == 0);
            }
            assert(out@ + b64_encode(next) =~= before + b64_encode(rest));
        }
        i = i + step;
    }
    proof {
        assert(bytes@.skip(i as int).len() == 0);
        assert(out@ =~= b64_encode(bytes@));
    }
    Ok(out)
}

/// The bytes of a string without its ASCII whitespace.
fn non_space_bytes(input: &str) -> (r: Vec<u8>)
    ensures
        r@ == without_spaces(encode_utf8(input@)),
{
    let raw = input.as_bytes();
    let mut out: Vec<u8> = Vec::new();
    let mut i: usize = 0;
    assert(raw@.take(0).len() == 0);
    while i < raw.len()
        invariant
            i <= raw@.len(),
            out@ == without_spaces(raw@.take(i as int)),
        decreases raw@.len() - i,
    {
        let b: u8 = raw[i];
        proof {
            assert(raw@.take(i + 1).drop_last() =~= raw@.take(i as int));
        }
        if !(b == 9 || b == 10 || b == 12 || b == 13 || b == 32) {
            out.push(b);
        }
        i = i + 1;
    }
    assert(raw@.take(i as int) =~= raw@);
    out
}

proof fn lemma_trailing_pads(b: Seq<u8>, n: nat)
    requires
        n <= b.len(),
        forall|j: int| b.len() - n <= j < b.len() ==> b[j] == 61,
        n < b.len() ==> b[b.len() - n - 1] != 61,
    ensures
        trailing_pads(b) == n,
    decreases n,
{
    if n > 0 {
        lemma_trailing_pads(b.drop_last(), (n - 1) as nat);
    }
}

/// How many bytes are left of a Base64 text once its padding is dropped.
fn unpadded_len(data: &Vec<u8>) -> (r: usize)
    ensures
        r <= data@.len(),
        data@.take(r as int) == without_padding(data@),
{
    let mut pads: usize = 0;
    while pads < data.len() && data[data.len() - pads - 1] == 61
        invariant
            pads <= data@.len(),
            forall|j: int| data@.len() - pads <= j < data@.len() ==> data@[j] == 61,
        decreases data@.len() - pads,
    {
        pads = pads + 1;
    }
    proof {
        lemma_trailing_pads(data@, pads as nat);
        assert(data@.take(data@.len() as int) =~= data@);
    }
    if data.len() % 4 == 0 && pads <= 2 {
        data.len() - pads
    } else {
        data.len()
    }
}

/// `atob`: decodes a Base64 string to a Latin-1 string.
#[verifier::rlimit(40)]
pub fn atob_decode(input: &str) -> (r: Result<String, Base64Error>)
    ensures
        outcome_view(r) == atob_result(input@),
        match r {
            Ok(text) => atob_result(input@) == Ok::<Seq<char>, Base64Error>(text@),
            Err(e) => atob_result(input@) == Err::<Seq<char>, Base64Error>(e),
        },
{
    let data = non_space_bytes(input);
    let n: usize = unpadded_len(&data);
    let ghost t = without_padding(without_spaces(encode_utf8(input@)));
    if n % 4 == 1 {
        return Err(Base64Error::Truncated);
    }
    let mut i: usize = 0;
    while i < n
        invariant
            i <= n <= data@.len(),
            t == data@.take(n as int),
            t == without_padding(without_spaces(encode_utf8(input@))),
            n % 4 != 1,
            forall|j: int| 0 <= j < i ==> is_b64_byte(#[trigger] t[j]),
        decreases n - i,
    {
        let b: u8 = data[i];
        if !(65 <= b && b <= 90 || 97 <= b && b <= 122 || 48 <= b && b <= 57 || b == 43 || b
            == 47) {
            assert(!is_b64_byte(t[i as int]));
            return Err(Base64Error::InvalidCharacter);
        }
        i = i + 1;
    }
    let mut out = String::new();
    i = 0;
    assert(t.skip(0) =~= t);
    while i < n
        invariant
            i <= n <= data@.len(),
            t == data@.take(n as int),
            (n - i) % 4 != 1,
            out@ + latin1_chars(b64_decode(t.skip(i as int))) == latin1_chars(b64_decode(t)),
        decreases n - i,
    {
        let ghost before = out@;
        let ghost rest = t.skip(i as int);
        let left: usize = n - i;
        let a: u8 = lookup_b64(data[i]);
        let b: u8 = lookup_b64(data[i + 1]);
        out.push((a * 4 + b / 16) as char);
        let mut step: usize = 2;
        if left > 2 {
            let c: u8 = lookup_b64(data[i + 2]);
            out.push(((b % 16) * 16 + c / 4) as char);
            step = 3;
            if left > 3 {
                let d: u8 = lookup_b64(data[i + 3]);
                out.push(((c % 4) * 64 + d) as char);
                step = 4;
            }
        }
        proof {
            let next = t.skip(i + step);
            if left > 3 {
                assert(rest.skip(4) =~= next);
            } else {
                assert(next.len() == 0);
            }
            assert(out@ + latin1_chars(b64_decode(next)) =~= before + latin1_chars(
                b64_decode(rest),
            ));
        }
        i = i + step;
    }
    proof {
        assert(t.skip(i as int).len() == 0);
        assert(out@ =~= latin1_chars(b64_decode(t)));
        assert(forall|j: int| 0 <= j < t.len() ==> is_b64_byte(#[trigger] t[j]));
    }
    Ok(out)
}

/// How many `=` the encoding of a byte string ends in.
spec fn pad_count(b: Seq<u8>) -> int {
    if b.len() % 3 == 0 {
        0
    } else {
        3 - b.len() % 3
    }
}

/// The encoding of a byte string without its padding, as bytes.
spec fn unpadded(b: Seq<u8>) -> Seq<u8> {
    Seq::new((b64_encode(b).len() - pad_count(b)) as nat, |i: int| b64_encode(b)[i] as u8)
}

proof fn lemma_symbol(v: int)
    requires
        0 <= v < 64,
    ensures
        b64_symbol(v) as u32 <= 127,
        is_b64_byte(b64_symbol(v) as u8),
        b64_value(b64_symbol(v) as u8) == v,
        b64_symbol(v) as u8 != 61,
{
}

/// The bits of three bytes, cut into groups of six and put together again.
proof fn lemma_regroup(x: int, y: int, z: int)
    requires
        0 <= x < 256,
        0 <= y < 256,
        0 <= z < 256,
    ensures
        (x / 4) * 4 + ((x % 4) * 16 + y / 16) / 16 == x,
        (((x % 4) * 16 + y / 16) % 16) * 16 + ((y % 16) * 4 + z / 64) / 4 == y,
        (((y % 16) * 4 + z / 64) % 4) * 64 + z % 64 == z,
{
    lemma_fundamental_div_mod_converse((x % 4) * 16 + y / 16, 16, x % 4, y / 16);
    lemma_fundamental_div_mod_converse((y % 16) * 4 + z / 64, 4, y % 16, z / 64);
}

#[verifier::spinoff_prover]
proof fn lemma_encode_shape(b: Seq<u8>)
    ensures
        b64_encode(b).len() % 4 == 0,
        b64_encode(b).len() >= pad_count(b),
        unpadded(b).len() % 4 != 1,
        forall|i: int|
            0 <= i < b64_encode(b).len() - pad_count(b) ==> (#[trigger] b64_encode(b)[i]) as u32
                <= 127 && is_b64_byte(b64_encode(b)[i] as u8),
        forall|i: int|
            b64_encode(b).len() - pad_count(b) <= i < b64_encode(b).len()
                ==> #[trigger] b64_encode(b)[i] == '=',
        b64_decode(unpadded(b)) == b,
    decreases b.len(),
{
    let e = b64_encode(b);
    if b.len() == 0 {
        assert(unpadded(b).len() == 0);
        assert(b64_decode(unpadded(b)) =~= b);
    } else {
        let b1: int = if b.len() > 1 {
            b[1] as int
        } else {
            0
        };
        let b2: int = if b.len() > 2 {
            b[2] as int
        } else {
            0
        };
        lemma_symbol(b[0] as int / 4);
        lemma_symbol((b[0] % 4) * 16 + b1 / 16);
        lemma_symbol((b1 % 16) * 4 + b2 / 64);
        lemma_symbol(b2 % 64);
        lemma_regroup(b[0] as int, b1, b2);
        if b.len() < 3 {
            assert(b64_decode(unpadded(b)) =~= b);
        } else {
            let rest = b.skip(3);
            lemma_encode_shape(rest);
            assert forall|i: int| 4 <= i < e.len() implies e[i] == b64_encode(rest)[i - 4] by {}
            assert(unpadded(b).skip(4) =~= unpadded(rest));
            assert(b64_decode(unpadded(b)) =~= b);
        }
    }
}

proof fn lemma_no_spaces(b: Seq<u8>)
    requires
        forall|i: int| 0 <= i < b.len() ==> !is_ascii_space(#[trigger] b[i]),
    ensures
        without_spaces(b) == b,
    decreases b.len(),
{
    if b.len() > 0 {
        lemma_no_spaces(b.drop_last());
        assert(b.drop_last().push(b.last()) =~= b);
    }
}

proof fn lemma_char_bounds(c: char)
    ensures
        c as u32 <= 127 ==> '\0' <= c <= '\u{7f}',
        c as u32 <= 255 ==> (c as u8) as char == c,
{
}

/// Decoding undoes encoding: for every Latin-1 string, `atob(btoa(s))` is `s`.
#[verifier::spinoff_prover]
pub proof fn law_atob_undoes_btoa(s: Seq<char>)
    requires
        is_latin1(s),
    ensures
        btoa_result(s) is Ok,
        atob_result(btoa_result(s)->Ok_0) == Ok::<Seq<char>, Base64Error>(s),
{
    let b = latin1_bytes(s);
    let e = b64_encode(b);
    lemma_encode_shape(b);
    assert(is_ascii_chars(e)) by {
        assert forall|i: int| 0 <= i < e.len() implies '\0' <= #[trigger] e[i] <= '\u{7f}' by {
            if i >= e.len() - pad_count(b) {
                assert(e[i] == '=');
            } else {
                lemma_char_bounds(e[i]);
            }
        }
    }
    is_ascii_chars_encode_utf8(e);
    let u = encode_utf8(e);
    assert forall|i: int| 0 <= i < u.len() implies !is_ascii_space(#[trigger] u[i]) by {
        assert(u[i] == e[i] as u8);
        if i >= e.len() - pad_count(b) {
            assert(e[i] == '=');
        } else {
            assert(is_b64_byte(e[i] as u8));
        }
    }
    lemma_no_spaces(u);
    assert forall|j: int| u.len() - pad_count(b) <= j < u.len() implies u[j] == 61 by {
        assert(e[j] == '=');
        assert(u[j] == e[j] as u8);
    }
    if pad_count(b) < u.len() {
        let k = u.len() - pad_count(b) - 1;
        assert(u[k] == e[k] as u8);
        assert(is_b64_byte(e[k] as u8));
    }
    lemma_trailing_pads(u, pad_count(b) as nat);
    let t = without_padding(u);
    assert(t =~= unpadded(b));
    assert forall|i: int| 0 <= i < t.len() implies is_b64_byte(#[trigger] t[i]) by {
        assert(is_b64_byte(e[i] as u8));
    }
    assert forall|i: int| 0 <= i < s.len() implies latin1_chars(b)[i] == s[i] by {
        lemma_char_bounds(s[i]);
    }
    assert(latin1_chars(b) =~= s);
}

/// The symbol of each number below 64 is the character at its place in the Base64
/// alphabet, it is read back as that number, and no other character belongs to
/// the alphabet.
pub proof fn law_base64_alphabet(v: int, b: u8)
    requires
        0 <= v < 64,
    ensures
        b64_symbol(v) == "ABCDEFGHIJKLMNOPQRSTUVWXYZabcdefghijklmnopqrstuvwxyz0123456789+/"@[v],
        b64_value(
            "ABCDEFGHIJKLMNOPQRSTUVWXYZabcdefghijklmnopqrstuvwxyz0123456789+/"@[v] as u8,
        ) == v,
        is_b64_byte(b)
            <==> "ABCDEFGHIJKLMNOPQRSTUVWXYZabcdefghijklmnopqrstuvwxyz0123456789+/"@.contains(
            b as char,
        ),
{
    let all = "ABCDEFGHIJKLMNOPQRSTUVWXYZabcdefghijklmnopqrstuvwxyz0123456789+/"@;
    lemma_alphabet();
    lemma_symbol(v);
    if is_b64_byte(b) {
        lemma_value(b);
        assert(all[b64_value(b)] == b as char);
    }
    if all.contains(b as char) {
        let i = choose|i: int| 0 <= i < all.len() && all[i] == b as char;
        lemma_symbol(i);
        assert(all[i] == b64_symbol(i));
        assert(((b as char) as u8) == b);
    }
}

proof fn lemma_value(b: u8)
    requires
        is_b64_byte(b),
    ensures
        0 <= b64_value(b) < 64,
        b64_symbol(b64_value(b)) == b as char,
{
}

proof fn lemma_alphabet()
    ensures
        "ABCDEFGHIJKLMNOPQRSTUVWXYZabcdefghijklmnopqrstuvwxyz0123456789+/"@ == Seq::new(
            64,
            |i: int| b64_symbol(i),
        ),
{
    let all = "ABCDEFGHIJKLMNOPQRSTUVWXYZabcdefghijklmnopqrstuvwxyz0123456789+/"@;
    reveal_strlit("ABCDEFGHIJKLMNOPQRSTUVWXYZabcdefghijklmnopqrstuvwxyz0123456789+/");
    let listed = seq![
        'A', 'B', 'C', 'D', 'E', 'F', 'G', 'H', 'I', 'J', 'K', 'L', 'M', 'N', 'O', 'P', 'Q', 'R',
        'S', 'T', 'U', 'V', 'W', 'X', 'Y', 'Z', 'a', 'b', 'c', 'd', 'e', 'f', 'g', 'h', 'i', 'j',
        'k', 'l', 'm', 'n', 'o', 'p', 'q', 'r', 's', 't', 'u', 'v', 'w', 'x', 'y', 'z', '0', '1',
        '2', '3', '4', '5', '6', '7', '8', '9', '+', '/',
    ];
    assert(all =~= listed);
    assert(listed =~= Seq::new(64, |i: int| b64_symbol(i)));
}

proof fn lemma_encode_concat(a: Seq<u8>, b: Seq<u8>)
    requires
        a.len() % 3 == 0,
    ensures
        b64_encode(a + b) == b64_encode(a) + b64_encode(b),
    decreases a.len(),
{
    if a.len() == 0 {
        assert(a + b =~= b);
        assert(b64_encode(a) + b64_encode(b) =~= b64_encode(b));
    } else {
        lemma_encode_concat(a.skip(3), b);
        assert((a + b).skip(3) =~= a.skip(3) + b);
        assert(b64_encode(a + b) =~= b64_encode(a) + b64_encode(b));
    }
}

/// The 24 bits of three bytes, in groups of six.
proof fn lemma_groups(x: int, y: int, z: int)
    requires
        0 <= x < 256,
        0 <= y < 256,
        0 <= z < 256,
    ensures
        (x * 65536 + y * 256 + z) / 262144 == x / 4,
        (x * 65536 + y * 256 + z) / 4096 % 64 == (x % 4) * 16 + y / 16,
        (x * 65536 + y * 256 + z) / 64 % 64 == (y % 16) * 4 + z / 64,
        (x * 65536 + y * 256 + z) % 64 == z % 64,
        0 <= x / 4 < 64,
        0 <= (x % 4) * 16 + y / 16 < 64,
        0 <= (y % 16) * 4 + z / 64 < 64,
        0 <= z % 64 < 64,
{
    let n = x * 65536 + y * 256 + z;
    lemma_fundamental_div_mod_converse(n, 262144, x / 4, (x % 4) * 65536 + y * 256 + z);
    lemma_fundamental_div_mod_converse(n, 4096, x * 16 + y / 16, (y % 16) * 256 + z);
    lemma_fundamental_div_mod_converse(x * 16 + y / 16, 64, x / 4, (x % 4) * 16 + y / 16);
    lemma_fundamental_div_mod_converse(n, 64, x * 1024 + y * 4 + z / 64, z % 64);
    lemma_fundamental_div_mod_converse(
        x * 1024 + y * 4 + z / 64,
        64,
        x * 16 + y / 16,
        (y % 16) * 4 + z / 64,
    );
}

/// `btoa` encodes a string three characters at a time, one group after the other.
pub proof fn law_btoa_goes_by_three(s: Seq<char>, rest: Seq<char>)
    requires
        forall|i: int| 0 <= i < s.len() ==> (#[trigger] s[i]) as u32 <= 255,
        forall|i: int| 0 <= i < rest.len() ==> (#[trigger] rest[i]) as u32 <= 255,
        s.len() % 3 == 0,
    ensures
        btoa_result(s + rest) == Ok::<Seq<char>, Base64Error>(
            btoa_result(s)->Ok_0 + btoa_result(rest)->Ok_0,
        ),
        btoa_result(seq![]) == Ok::<Seq<char>, Base64Error>(seq![]),
{
    assert(is_latin1(s + rest)) by {
        assert forall|i: int| 0 <= i < (s + rest).len() implies (#[trigger] (s + rest)[i]) as u32
            <= 255 by {
            if i < s.len() {
                assert((s + rest)[i] == s[i]);
            } else {
                assert((s + rest)[i] == rest[i - s.len()]);
            }
        }
    }
    assert(latin1_bytes(s + rest) =~= latin1_bytes(s) + latin1_bytes(rest));
    lemma_encode_concat(latin1_bytes(s), latin1_bytes(rest));
    assert(latin1_bytes(seq![]).len() == 0);
    assert(b64_encode(latin1_bytes(seq![])) =~= seq![]);
}

/// Three characters become four symbols of the alphabet, whose numbers are the 24
/// bits of the characters in groups of six.
#[verifier::spinoff_prover]
pub proof fn law_btoa_of_three(a: char, b: char, c: char)
    requires
        a as u32 <= 255 && b as u32 <= 255 && c as u32 <= 255,
    ensures
        ({
            let alphabet = "ABCDEFGHIJKLMNOPQRSTUVWXYZabcdefghijklmnopqrstuvwxyz0123456789+/"@;
            let n = a as int * 65536 + b as int * 256 + c as int;
            btoa_result(seq![a, b, c]) == Ok::<Seq<char>, Base64Error>(
                seq![
                    alphabet[n / 262144],
                    alphabet[n / 4096 % 64],
                    alphabet[n / 64 % 64],
                    alphabet[n % 64],
                ],
            )
        }),
{
    let alphabet = "ABCDEFGHIJKLMNOPQRSTUVWXYZabcdefghijklmnopqrstuvwxyz0123456789+/"@;
    let n = a as int * 65536 + b as int * 256 + c as int;
    let bytes = seq![a as u8, b as u8, c as u8];
    lemma_alphabet();
    lemma_groups(a as int, b as int, c as int);
    assert(latin1_bytes(seq![a, b, c]) =~= bytes);
    assert(bytes.skip(3).len() == 0);
    assert(b64_encode(bytes.skip(3)) =~= seq![]);
    assert(b64_encode(bytes) =~= seq![
        alphabet[n / 262144],
        alphabet[n / 4096 % 64],
        alphabet[n / 64 % 64],
        alphabet[n % 64],
    ]);
}

/// Two characters or one at the end become three symbols or two, with zero bits to
/// fill the last of them, and as many `=` as are missing to four.
#[verifier::spinoff_prover]
pub proof fn law_btoa_of_fewer(a: char, b: char)
    requires
        a as u32 <= 255 && b as u32 <= 255,
    ensures
        ({
            let alphabet = "ABCDEFGHIJKLMNOPQRSTUVWXYZabcdefghijklmnopqrstuvwxyz0123456789+/"@;
            let n = a as int * 65536 + b as int * 256;
            btoa_result(seq![a, b]) == Ok::<Seq<char>, Base64Error>(
                seq![alphabet[n / 262144], alphabet[n / 4096 % 64], alphabet[n / 64 % 64], '='],
            )
        }),
        ({
            let alphabet = "ABCDEFGHIJKLMNOPQRSTUVWXYZabcdefghijklmnopqrstuvwxyz0123456789+/"@;
            let n = a as int * 65536;
            btoa_result(seq![a]) == Ok::<Seq<char>, Base64Error>(
                seq![alphabet[n / 262144], alphabet[n / 4096 % 64], '=', '='],
            )
        }),
{
    let alphabet = "ABCDEFGHIJKLMNOPQRSTUVWXYZabcdefghijklmnopqrstuvwxyz0123456789+/"@;
    let two = a as int * 65536 + b as int * 256;
    let one = a as int * 65536;
    lemma_alphabet();
    lemma_groups(a as int, b as int, 0);
    lemma_groups(a as int, 0, 0);
    assert(latin1_bytes(seq![a, b]) =~= seq![a as u8, b as u8]);
    assert(latin1_bytes(seq![a]) =~= seq![a as u8]);
    assert(b64_encode(seq![a as u8, b as u8]) =~= seq![
        alphabet[two / 262144],
        alphabet[two / 4096 % 64],
        alphabet[two / 64 % 64],
        '=',
    ]);
    assert(b64_encode(seq![a as u8]) =~= seq![
        alphabet[one / 262144],
        alphabet[one / 4096 % 64],
        '=',
        '=',
    ]);
}

/// `btoa` refuses a string exactly when one of its characters is above U+00FF.
pub proof fn law_btoa_refuses(s: Seq<char>)
    ensures
        btoa_result(s) == Err::<Seq<char>, _>(Base64Error::OutsideLatin1) <==> exists|i: int|
            0 <= i < s.len() && (#[trigger] s[i]) as u32 > 255,
        btoa_result(s) is Ok <==> forall|i: int| 0 <= i < s.len() ==> (#[trigger] s[i]) as u32
            <= 255,
{
}

/// Whether a string is made of symbols of the Base64 alphabet alone.
pub open spec fn is_symbols(s: Seq<char>) -> bool {
    forall|i: int|
        0 <= i < s.len()
            ==> "ABCDEFGHIJKLMNOPQRSTUVWXYZabcdefghijklmnopqrstuvwxyz0123456789+/"@.contains(
            #[trigger] s[i],
        )
}

proof fn lemma_without_spaces_concat(a: Seq<u8>, b: Seq<u8>)
    ensures
        without_spaces(a + b) == without_spaces(a) + without_spaces(b),
    decreases b.len(),
{
    if b.len() == 0 {
        assert(a + b =~= a);
        assert(without_spaces(a) + without_spaces(b) =~= without_spaces(a));
    } else {
        lemma_without_spaces_concat(a, b.drop_last());
        assert((a + b).drop_last() =~= a + b.drop_last());
        assert((a + b).last() == b.last());
        assert(without_spaces(a + b) =~= without_spaces(a) + without_spaces(b));
    }
}

/// `atob` passes over whitespace, wherever it stands.
#[verifier::spinoff_prover]
pub proof fn law_atob_passes_over_whitespace(a: Seq<char>, space: char, b: Seq<char>)
    requires
        space == ' ' || space == '\t' || space == '\n' || space == '\u{c}' || space == '\r',
    ensures
        atob_result(a + seq![space] + b) == atob_result(a + b),
{
    lemma_encode_utf8_concat(a + seq![space], b);
    lemma_encode_utf8_concat(a, seq![space]);
    lemma_encode_utf8_concat(a, b);
    is_ascii_chars_encode_utf8(seq![space]);
    let w = encode_utf8(seq![space]);
    assert(w =~= seq![space as u8]);
    lemma_without_spaces_concat(encode_utf8(a) + w, encode_utf8(b));
    lemma_without_spaces_concat(encode_utf8(a), w);
    lemma_without_spaces_concat(encode_utf8(a), encode_utf8(b));
    assert(w.drop_last() =~= seq![]);
    assert(without_spaces(w.drop_last()) =~= seq![]);
    assert(is_ascii_space(w.last()));
    assert(without_spaces(w) =~= seq![]);
    assert(without_spaces(encode_utf8(a)) + without_spaces(w) =~= without_spaces(encode_utf8(a)));
}

/// What `atob` reads of symbols that are followed by some `=`.
#[verifier::spinoff_prover]
proof fn lemma_symbols(s: Seq<char>, pads: nat)
    requires
        is_symbols(s),
    ensures
        is_ascii_chars(s),
        encode_utf8(s).len() == s.len(),
        forall|i: int| 0 <= i < s.len() ==> #[trigger] encode_utf8(s)[i] == s[i] as u8,
        forall|i: int| 0 <= i < s.len() ==> is_b64_byte(#[trigger] encode_utf8(s)[i]),
        without_spaces(encode_utf8(s + Seq::new(pads, |i: int| '='))) == encode_utf8(s) + Seq::new(
            pads,
            |i: int| 61u8,
        ),
        trailing_pads(encode_utf8(s) + Seq::new(pads, |i: int| 61u8)) == pads,
{
    let all = "ABCDEFGHIJKLMNOPQRSTUVWXYZabcdefghijklmnopqrstuvwxyz0123456789+/"@;
    lemma_alphabet();
    assert forall|i: int| 0 <= i < s.len() implies '\0' <= #[trigger] s[i] <= '\u{7f}'
        && is_b64_byte(s[i] as u8) by {
        assert(all.contains(s[i]));
        let v = choose|v: int| 0 <= v < all.len() && all[v] == s[i];
        lemma_symbol(v);
        assert(s[i] == b64_symbol(v));
        lemma_char_bounds(s[i]);
    }
    is_ascii_chars_encode_utf8(s);
    let p = Seq::new(pads, |i: int| '=');
    let q = Seq::new(pads, |i: int| 61u8);
    is_ascii_chars_encode_utf8(p);
    assert(encode_utf8(p) =~= q);
    lemma_encode_utf8_concat(s, p);
    let u = encode_utf8(s) + q;
    assert forall|i: int| 0 <= i < u.len() implies !is_ascii_space(#[trigger] u[i]) by {
        if i < s.len() {
            assert(is_b64_byte(s[i] as u8));
        }
    }
    lemma_no_spaces(u);
    if s.len() > 0 {
        assert(is_b64_byte(s[s.len() - 1] as u8));
    }
    lemma_trailing_pads(u, pads);
}

/// `atob` takes symbols with or without the padding that fills their number up to
/// a multiple of four, and refuses one symbol more than such a number.
pub proof fn law_atob_takes_symbols(s: Seq<char>)
    requires
        is_symbols(s),
    ensures
        atob_result(s) is Ok <==> s.len() % 4 != 1,
        s.len() % 4 == 1 ==> atob_result(s) == Err::<Seq<char>, _>(Base64Error::Truncated),
        s.len() % 4 == 2 ==> atob_result(s + seq!['=', '=']) == atob_result(s),
        s.len() % 4 == 3 ==> atob_result(s + seq!['=']) == atob_result(s),
{
    lemma_atob_padded(s, 0);
    assert(s + Seq::new(0, |i: int| '=') =~= s);
    if s.len() % 4 == 3 {
        lemma_atob_padded(s, 1);
        assert(Seq::new(1, |i: int| '=') =~= seq!['=']);
    }
    if s.len() % 4 == 2 {
        lemma_atob_padded(s, 2);
        assert(Seq::new(2, |i: int| '=') =~= seq!['=', '=']);
    }
}

/// What `atob` gives for symbols and the padding that may follow them.
#[verifier::spinoff_prover]
proof fn lemma_atob_padded(s: Seq<char>, pads: nat)
    requires
        is_symbols(s),
        pads == 0 || (pads <= 2 && (s.len() + pads) % 4 == 0),
    ensures
        s.len() % 4 == 1 ==> atob_result(s + Seq::new(pads, |i: int| '=')) == Err::<Seq<char>, _>(
            Base64Error::Truncated,
        ),
        s.len() % 4 != 1 ==> atob_result(s + Seq::new(pads, |i: int| '=')) == Ok::<
            Seq<char>,
            Base64Error,
        >(latin1_chars(b64_decode(encode_utf8(s)))),
{
    let u = encode_utf8(s);
    lemma_symbols(s, pads);
    let d = u + Seq::new(pads, |i: int| 61u8);
    assert(d.take(d.len() - pads) =~= u);
    assert(d.len() == s.len() + pads);
    assert(without_padding(d) =~= u);
}

/// `atob` decodes symbols four at a time, one group after the other.
#[verifier::spinoff_prover]
pub proof fn law_atob_goes_by_four(s: Seq<char>, rest: Seq<char>)
    requires
        is_symbols(s),
        is_symbols(rest),
        s.len() % 4 == 0,
        rest.len() % 4 != 1,
    ensures
        atob_result(s + rest) == Ok::<Seq<char>, Base64Error>(
            atob_result(s)->Ok_0 + atob_result(rest)->Ok_0,
        ),
        atob_result(seq![]) == Ok::<Seq<char>, Base64Error>(seq![]),
{
    let none = Seq::<char>::empty();
    assert(is_symbols(s + rest)) by {
        let all = "ABCDEFGHIJKLMNOPQRSTUVWXYZabcdefghijklmnopqrstuvwxyz0123456789+/"@;
        assert forall|i: int| 0 <= i < (s + rest).len() implies all.contains(
            #[trigger] (s + rest)[i],
        ) by {
            if i < s.len() {
                assert((s + rest)[i] == s[i]);
            } else {
                assert((s + rest)[i] == rest[i - s.len()]);
            }
        }
    }
    lemma_atob_of_symbols(s);
    lemma_atob_of_symbols(rest);
    lemma_atob_of_symbols(s + rest);
    lemma_atob_of_symbols(none);
    lemma_encode_utf8_concat(s, rest);
    lemma_symbols(s, 0);
    lemma_decode_concat(encode_utf8(s), encode_utf8(rest));
    let (x, y) = (b64_decode(encode_utf8(s)), b64_decode(encode_utf8(rest)));
    assert(latin1_chars(x + y) =~= latin1_chars(x) + latin1_chars(y));
    assert(encode_utf8(none).len() == 0);
    assert(latin1_chars(b64_decode(encode_utf8(none))) =~= none);
}

proof fn lemma_atob_of_symbols(s: Seq<char>)
    requires
        is_symbols(s),
        s.len() % 4 != 1,
    ensures
        atob_result(s) == Ok::<Seq<char>, Base64Error>(latin1_chars(b64_decode(encode_utf8(s)))),
{
    lemma_atob_padded(s, 0);
    assert(s + Seq::new(0, |i: int| '=') =~= s);
}

proof fn lemma_decode_concat(a: Seq<u8>, b: Seq<u8>)
    requires
        a.len() % 4 == 0,
    ensures
        b64_decode(a + b) == b64_decode(a) + b64_decode(b),
    decreases a.len(),
{
    if a.len() == 0 {
        assert(a + b =~= b);
        assert(b64_decode(a) + b64_decode(b) =~= b64_decode(b));
    } else {
        lemma_decode_concat(a.skip(4), b);
        assert((a + b).skip(4) =~= a.skip(4) + b);
        assert(b64_decode(a + b) =~= b64_decode(a) + b64_decode(b));
    }
}

/// Four symbols become the three characters that their numbers are the bits of, in
/// groups of six. Of three symbols or two the bits that fill no character are
/// dropped.
#[verifier::spinoff_prover]
#[verifier::rlimit(40)]
pub proof fn law_atob_of_four(p: int, q: int, r: int, t: int)
    requires
        0 <= p < 64 && 0 <= q < 64 && 0 <= r < 64 && 0 <= t < 64,
    ensures
        ({
            let alphabet = "ABCDEFGHIJKLMNOPQRSTUVWXYZabcdefghijklmnopqrstuvwxyz0123456789+/"@;
            let n = p * 262144 + q * 4096 + r * 64 + t;
            &&& atob_result(seq![alphabet[p], alphabet[q], alphabet[r], alphabet[t]]) == Ok::<
                Seq<char>,
                Base64Error,
            >(seq![(n / 65536) as char, (n / 256 % 256) as char, (n % 256) as char])
            &&& atob_result(seq![alphabet[p], alphabet[q], alphabet[r]]) == Ok::<
                Seq<char>,
                Base64Error,
            >(seq![(n / 65536) as char, (n / 256 % 256) as char])
            &&& atob_result(seq![alphabet[p], alphabet[q]]) == Ok::<Seq<char>, Base64Error>(
                seq![(n / 65536) as char],
            )
        }),
{
    let alphabet = "ABCDEFGHIJKLMNOPQRSTUVWXYZabcdefghijklmnopqrstuvwxyz0123456789+/"@;
    let n = p * 262144 + q * 4096 + r * 64 + t;
    let four = seq![alphabet[p], alphabet[q], alphabet[r], alphabet[t]];
    let three = seq![alphabet[p], alphabet[q], alphabet[r]];
    let two = seq![alphabet[p], alphabet[q]];
    lemma_alphabet();
    lemma_symbol(p);
    lemma_symbol(q);
    lemma_symbol(r);
    lemma_symbol(t);
    lemma_atob_of_symbols(four);
    lemma_atob_of_symbols(three);
    lemma_atob_of_symbols(two);
    lemma_symbols(four, 0);
    lemma_symbols(three, 0);
    lemma_symbols(two, 0);
    lemma_ungroup(p, q, r, t);
    let u = encode_utf8(four);
    assert(u.skip(4).len() == 0);
    assert(b64_decode(u.skip(4)) =~= seq![]);
    assert(u[0] == four[0] as u8 && u[1] == four[1] as u8 && u[2] == four[2] as u8 && u[3]
        == four[3] as u8);
    assert(b64_decode(u) =~= seq![(n / 65536) as u8, (n / 256 % 256) as u8, (n % 256) as u8]);
    assert(latin1_chars(b64_decode(u)) =~= seq![
        (n / 65536) as char,
        (n / 256 % 256) as char,
        (n % 256) as char,
    ]);
    let v = encode_utf8(three);
    assert(v[0] == three[0] as u8 && v[1] == three[1] as u8 && v[2] == three[2] as u8);
    assert(latin1_chars(b64_decode(v)) =~= seq![(n / 65536) as char, (n / 256 % 256) as char]);
    let w = encode_utf8(two);
    assert(w[0] == two[0] as u8 && w[1] == two[1] as u8);
    assert(latin1_chars(b64_decode(w)) =~= seq![(n / 65536) as char]);
}

/// The bits of four numbers below 64, in groups of eight.
proof fn lemma_ungroup(p: int, q: int, r: int, t: int)
    requires
        0 <= p < 64 && 0 <= q < 64 && 0 <= r < 64 && 0 <= t < 64,
    ensures
        (p * 262144 + q * 4096 + r * 64 + t) / 65536 == p * 4 + q / 16,
        (p * 262144 + q * 4096 + r * 64 + t) / 256 % 256 == (q % 16) * 16 + r / 4,
        (p * 262144 + q * 4096 + r * 64 + t) % 256 == (r % 4) * 64 + t,
        0 <= p * 4 + q / 16 < 256,
        0 <= (q % 16) * 16 + r / 4 < 256,
        0 <= (r % 4) * 64 + t < 256,
{
    let n = p * 262144 + q * 4096 + r * 64 + t;
    lemma_fundamental_div_mod_converse(n, 65536, p * 4 + q / 16, (q % 16) * 4096 + r * 64 + t);
    lemma_fundamental_div_mod_converse(n, 256, p * 1024 + q * 16 + r / 4, (r % 4) * 64 + t);
    lemma_fundamental_div_mod_converse(
        p * 1024 + q * 16 + r / 4,
        256,
        p * 4 + q / 16,
        (q % 16) * 16 + r / 4,
    );
}

proof fn lemma_without_spaces_keeps(b: Seq<u8>, i: int)
    requires
        0 <= i < b.len(),
        !is_ascii_space(b[i]),
    ensures
        without_spaces(b).contains(b[i]),
    decreases b.len(),
{
    let before = without_spaces(b.drop_last());
    if i == b.len() - 1 {
        assert(without_spaces(b)[before.len() as int] == b[i]);
    } else {
        lemma_without_spaces_keeps(b.drop_last(), i);
        let k = choose|k: int| 0 <= k < before.len() && before[k] == b[i];
        assert(without_spaces(b)[k] == b[i]);
    }
}

proof fn lemma_pads_are_pads(b: Seq<u8>)
    ensures
        trailing_pads(b) <= b.len(),
        forall|j: int| b.len() - trailing_pads(b) <= j < b.len() ==> b[j] == 61,
    decreases b.len(),
{
    if b.len() > 0 && b.last() == 61 {
        lemma_pads_are_pads(b.drop_last());
        assert forall|j: int| b.len() - trailing_pads(b) <= j < b.len() implies b[j] == 61 by {
            if j < b.len() - 1 {
                assert(b.drop_last()[j] == 61);
            }
        }
    }
}

/// `atob` refuses a string that holds any character but symbols of the alphabet,
/// `=` and whitespace.
#[verifier::spinoff_prover]
pub proof fn law_atob_refuses_other_characters(s: Seq<char>, i: int)
    requires
        0 <= i < s.len(),
        !"ABCDEFGHIJKLMNOPQRSTUVWXYZabcdefghijklmnopqrstuvwxyz0123456789+/"@.contains(s[i]),
        s[i] != '=' && s[i] != ' ' && s[i] != '\t' && s[i] != '\n' && s[i] != '\u{c}' && s[i]
            != '\r',
    ensures
        atob_result(s) is Err,
{
    let u = encode_utf8(s);
    let d = without_spaces(u);
    let t = without_padding(d);
    if atob_result(s) is Ok {
        lemma_pads_are_pads(d);
        assert forall|k: int| 0 <= k < u.len() implies u[k] < 128 && (is_ascii_space(u[k])
            || is_b64_byte(u[k]) || u[k] == 61) by {
            if !is_ascii_space(u[k]) {
                lemma_without_spaces_keeps(u, k);
                let j = choose|j: int| 0 <= j < d.len() && d[j] == u[k];
                if j < t.len() {
                    assert(t[j] == d[j]);
                    assert(is_b64_byte(t[j]));
                } else {
                    assert(d[j] == 61);
                }
            }
        }
        let c = Seq::new(u.len(), |k: int| u[k] as char);
        is_ascii_chars_encode_utf8(c);
        assert(encode_utf8(c) =~= u);
        lemma_encode_utf8_injective(s, c);
        assert(s[i] == u[i] as char);
        law_base64_alphabet(0, u[i]);
    }
}

/// `atob` refuses `=` in any other number than the one that fills the symbols up
/// to a multiple of four, and `=` before a symbol.
#[verifier::spinoff_prover]
pub proof fn law_atob_refuses_wrong_padding(s: Seq<char>, pads: nat, before: Seq<char>)
    requires
        is_symbols(s),
    ensures
        pads > 0 && !(pads <= 2 && (s.len() + pads) % 4 == 0) ==> atob_result(
            s + Seq::new(pads, |i: int| '='),
        ) is Err,
        s.len() > 0 ==> atob_result(before + seq!['='] + s) is Err,
{
    let u = encode_utf8(s);
    lemma_symbols(s, pads);
    let d = u + Seq::new(pads, |i: int| 61u8);
    if pads > 0 && !(pads <= 2 && (s.len() + pads) % 4 == 0) {
        assert(without_padding(d) == d);
        assert(!is_b64_byte(d[s.len() as int]));
    }
    if s.len() > 0 {
        let x = before + seq!['='];
        lemma_symbols(s, 0);
        assert(s + Seq::new(0, |i: int| '=') =~= s);
        assert(u + Seq::new(0, |i: int| 61u8) =~= u);
        lemma_encode_utf8_concat(x, s);
        lemma_encode_utf8_concat(before, seq!['=']);
        is_ascii_chars_encode_utf8(seq!['=']);
        let e = encode_utf8(seq!['=']);
        assert(e =~= seq![61u8]);
        lemma_without_spaces_concat(encode_utf8(x), u);
        let w = encode_utf8(before) + e;
        assert(w[w.len() - 1] == 61);
        lemma_without_spaces_keeps(w, w.len() - 1);
        let y = without_spaces(w);
        let k = choose|k: int| 0 <= k < y.len() && y[k] == 61;
        let all = y + u;
        assert(all.last() == u[u.len() - 1]);
        assert(is_b64_byte(u[u.len() - 1]));
        assert(trailing_pads(all) == 0);
        assert(all.take(all.len() as int) =~= all);
        assert(!is_b64_byte(all[k]));
    }
}

/// Which complaint `atob` makes of an ASCII string without whitespace and padding:
/// one character more than a multiple of four is too few, and else a character
/// outside the alphabet is one too many.
#[verifier::spinoff_prover]
pub proof fn law_atob_complaints(s: Seq<char>)
    requires
        forall|i: int|
            0 <= i < s.len() ==> ' ' < #[trigger] s[i] <= '\u{7f}' && s[i] != '=',
    ensures
        s.len() % 4 == 1 ==> atob_result(s) == Err::<Seq<char>, _>(Base64Error::Truncated),
        s.len() % 4 != 1 && !is_symbols(s) ==> atob_result(s) == Err::<Seq<char>, _>(
            Base64Error::InvalidCharacter,
        ),
{
    is_ascii_chars_encode_utf8(s);
    let u = encode_utf8(s);
    assert forall|i: int| 0 <= i < u.len() implies !is_ascii_space(#[trigger] u[i]) && u[i]
        != 61 by {
        assert(u[i] == s[i] as u8);
        lemma_char_bounds(s[i]);
    }
    lemma_no_spaces(u);
    assert(trailing_pads(u) == 0) by {
        if u.len() > 0 {
            assert(u[u.len() - 1] != 61);
        }
    }
    assert(u.take(u.len() as int) =~= u);
    if !is_symbols(s) {
        let all = "ABCDEFGHIJKLMNOPQRSTUVWXYZabcdefghijklmnopqrstuvwxyz0123456789+/"@;
        let i = choose|i: int| 0 <= i < s.len() && !all.contains(#[trigger] s[i]);
        law_base64_alphabet(0, u[i]);
        lemma_char_bounds(s[i]);
        assert(u[i] as char == s[i]);
        assert(!is_b64_byte(u[i]));
    }
}

} // verus!
