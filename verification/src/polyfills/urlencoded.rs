//! The escapes of `application/x-www-form-urlencoded`.

use crate::hex::{
    hex_digit_value, hex_val, law_hex_digits, lemma_upper_digit, upper_digit, upper_hex_digit,
};
use crate::text::lemma_encode_utf8_concat;
use vstd::prelude::*;
use vstd::utf8::{
    decode_utf8, encode_utf8, encode_utf8_decode_utf8, encode_utf8_valid_utf8, is_ascii_chars,
    is_ascii_chars_encode_utf8, valid_utf8,
};

verus! {

/// The bytes that stand for themselves: letters, digits and `-`, `_`, `.`, `*`.
pub open spec fn is_plain_byte(b: u8) -> bool {
    65 <= b <= 90 || 97 <= b <= 122 || 48 <= b <= 57 || b == 45 || b == 95 || b == 46 || b == 42
}

/// What a byte is written as: a space as `+`, a plain byte as itself, and any
/// other as `%` and two uppercase hexadecimal digits.
pub open spec fn encoded_byte(b: u8) -> Seq<char> {
    if b == 32 {
        seq!['+']
    } else if is_plain_byte(b) {
        seq![b as char]
    } else {
        seq!['%', upper_digit(b as int / 16), upper_digit(b as int % 16)]
    }
}

/// What a byte string is written as.
pub open spec fn encoded_bytes(b: Seq<u8>) -> Seq<char>
    decreases b.len(),
{
    if b.len() == 0 {
        seq![]
    } else {
        encoded_bytes(b.drop_last()) + encoded_byte(b.last())
    }
}

/// What a string is written as.
pub open spec fn form_encoded(s: Seq<char>) -> Seq<char> {
    encoded_bytes(encode_utf8(s))
}

/// The bytes that a form-encoded text stands for: `+` is a space, and `%` and
/// two hexadecimal digits are a byte. `None` where a `%` has no two digits.
pub open spec fn unescaped(t: Seq<u8>) -> Option<Seq<u8>>
    decreases t.len(),
{
    if t.len() == 0 {
        Some(seq![])
    } else if t[0] == 37 {
        if t.len() < 3 {
            None
        } else {
            match (hex_digit_value(t[1]), hex_digit_value(t[2]), unescaped(t.skip(3))) {
                (Some(x), Some(y), Some(rest)) => Some(seq![(x * 16 + y) as u8] + rest),
                _ => None,
            }
        }
    } else {
        match unescaped(t.skip(1)) {
            Some(rest) => Some(
                seq![
                    if t[0] == 43 {
                        32u8
                    } else {
                        t[0]
                    },
                ] + rest,
            ),
            None => None,
        }
    }
}

/// The string that a form-encoded string stands for. A malformed one, with a
/// broken escape or with bytes that are no UTF-8, stands for itself.
pub open spec fn form_decoded(s: Seq<char>) -> Seq<char> {
    match unescaped(encode_utf8(s)) {
        Some(bytes) => if valid_utf8(bytes) {
            decode_utf8(bytes)
        } else {
            s
        },
        None => s,
    }
}

/// Writes a string in the form encoding.
pub fn percent_encode(s: &str) -> (r: String)
    ensures
        r@ == form_encoded(s@),
{
    let bytes = s.as_bytes();
    let mut out = String::new();
    let mut i: usize = 0;
    assert(encoded_bytes(bytes@.take(0)) =~= seq![]);
    while i < bytes.len()
        invariant
            i <= bytes@.len(),
            out@ == encoded_bytes(bytes@.take(i as int)),
        decreases bytes@.len() - i,
    {
        let ghost before = out@;
        let b: u8 = bytes[i];
        if b == 32 {
            out.push('+');
        } else if 65 <= b && b <= 90 || 97 <= b && b <= 122 || 48 <= b && b <= 57 || b == 45 || b
            == 95 || b == 46 || b == 42 {
            out.push(b as char);
        } else {
            out.push('%');
            out.push(upper_hex_digit(b / 16));
            out.push(upper_hex_digit(b % 16));
        }
        proof {
            assert(bytes@.take(i + 1).drop_last() =~= bytes@.take(i as int));
            assert(out@ =~= before + encoded_byte(b));
        }
        i = i + 1;
    }
    assert(bytes@.take(i as int) =~= bytes@);
    out
}

/// The bytes that a form-encoded text stands for, if every escape is whole.
fn unescape(t: &[u8]) -> (r: Option<Vec<u8>>)
    ensures
        match r {
            Some(bytes) => unescaped(t@) == Some(bytes@),
            None => unescaped(t@) is None,
        },
{
    let mut out: Vec<u8> = Vec::new();
    let mut i: usize = 0;
    assert(t@.skip(0) =~= t@);
    assert(forall|x: Seq<u8>| #[trigger] (Seq::<u8>::empty() + x) =~= x);
    while i < t.len()
        invariant
            i <= t@.len(),
            unescaped(t@.skip(i as int)) is None ==> unescaped(t@) is None,
            unescaped(t@.skip(i as int)) matches Some(rest) ==> unescaped(t@) == Some(out@ + rest),
        decreases t@.len() - i,
    {
        let ghost before = out@;
        let ghost rest = t@.skip(i as int);
        let c: u8 = t[i];
        if c == 37 {
            if t.len() - i < 3 {
                return None;
            }
            proof {
                assert(rest.skip(3) =~= t@.skip(i + 3));
            }
            match (hex_val(t[i + 1]), hex_val(t[i + 2])) {
                (Some(x), Some(y)) => {
                    out.push(x * 16 + y);
                },
                _ => {
                    return None;
                },
            }
            proof {
                if let Some(tail) = unescaped(t@.skip(i + 3)) {
                    assert(out@ + tail =~= before + (seq![out@.last()] + tail));
                }
            }
            i = i + 3;
        } else {
            out.push(
                if c == 43 {
                    32
                } else {
                    c
                },
            );
            proof {
                assert(rest.skip(1) =~= t@.skip(i + 1));
                if let Some(tail) = unescaped(t@.skip(i + 1)) {
                    assert(out@ + tail =~= before + (seq![out@.last()] + tail));
                }
            }
            i = i + 1;
        }
    }
    proof {
        assert(t@.skip(i as int).len() == 0);
        assert(unescaped(t@.skip(i as int)) == Some(Seq::<u8>::empty()));
        assert(out@ + Seq::<u8>::empty() =~= out@);
    }
    Some(out)
}

/// Reads a form-encoded string, as `decodeURIComponent` does but for `+`, which
/// is a space. A malformed string is given back as it is.
pub fn safe_decode(s: &str) -> (r: String)
    ensures
        r@ == form_decoded(s@),
{
    match unescape(s.as_bytes()) {
        Some(bytes) => match String::from_utf8(bytes) {
            Ok(text) => text,
            Err(_) => s.to_string(),
        },
        None => s.to_string(),
    }
}

/// An encoded byte is ASCII and holds none of the characters that part a query.
proof fn lemma_encoded_byte(b: u8)
    ensures
        is_ascii_chars(encoded_byte(b)),
        encoded_byte(b).len() > 0,
        forall|i: int|
            0 <= i < encoded_byte(b).len() ==> #[trigger] encoded_byte(b)[i] != '&'
                && encoded_byte(b)[i] != '=' && encoded_byte(b)[i] != '?',
{
    lemma_upper_digit(b as int / 16);
    lemma_upper_digit(b as int % 16);
}

/// An encoded string is ASCII and holds none of `&`, `=` and `?`.
pub proof fn lemma_encoded_bytes(b: Seq<u8>)
    ensures
        is_ascii_chars(encoded_bytes(b)),
        forall|i: int|
            0 <= i < encoded_bytes(b).len() ==> #[trigger] encoded_bytes(b)[i] != '&'
                && encoded_bytes(b)[i] != '=' && encoded_bytes(b)[i] != '?',
    decreases b.len(),
{
    if b.len() > 0 {
        lemma_encoded_bytes(b.drop_last());
        lemma_encoded_byte(b.last());
        let x = encoded_bytes(b.drop_last());
        let y = encoded_byte(b.last());
        assert forall|i: int| 0 <= i < (x + y).len() implies '\0' <= #[trigger] (x + y)[i]
            <= '\u{7f}' && (x + y)[i] != '&' && (x + y)[i] != '=' && (x + y)[i] != '?' by {
            if i < x.len() {
                assert((x + y)[i] == x[i]);
            } else {
                assert((x + y)[i] == y[i - x.len()]);
            }
        }
    }
}

/// The ASCII bytes of a string.
spec fn ascii_bytes(s: Seq<char>) -> Seq<u8> {
    Seq::new(s.len(), |i: int| s[i] as u8)
}

proof fn lemma_unescaped_byte(b: u8, rest: Seq<u8>)
    ensures
        unescaped(ascii_bytes(encoded_byte(b)) + rest) == (match unescaped(rest) {
            Some(bytes) => Some(seq![b] + bytes),
            None => None,
        }),
{
    let e = ascii_bytes(encoded_byte(b));
    let t = e + rest;
    lemma_encoded_byte(b);
    if b == 32 || is_plain_byte(b) {
        assert(t.skip(1) =~= rest);
        assert(t[0] == e[0]);
        if b != 32 {
            assert(e[0] == (b as char) as u8);
        }
    } else {
        lemma_upper_digit(b as int / 16);
        lemma_upper_digit(b as int % 16);
        assert(t.skip(3) =~= rest);
        assert(t[0] == e[0] && t[1] == e[1] && t[2] == e[2]);
        assert((b / 16) * 16 + b % 16 == b);
    }
}

proof fn lemma_unescaped_bytes(b: Seq<u8>, rest: Seq<u8>, tail: Seq<u8>)
    requires
        unescaped(rest) == Some(tail),
    ensures
        unescaped(ascii_bytes(encoded_bytes(b)) + rest) == Some(b + tail),
    decreases b.len(),
{
    if b.len() == 0 {
        assert(ascii_bytes(encoded_bytes(b)) + rest =~= rest);
        assert(b + tail =~= tail);
    } else {
        let e = ascii_bytes(encoded_byte(b.last()));
        lemma_unescaped_byte(b.last(), rest);
        lemma_unescaped_bytes(b.drop_last(), e + rest, seq![b.last()] + tail);
        assert(ascii_bytes(encoded_bytes(b)) + rest =~= ascii_bytes(encoded_bytes(b.drop_last()))
            + (e + rest));
        assert(b + tail =~= b.drop_last() + (seq![b.last()] + tail));
    }
}

/// Decoding undoes encoding, for every string.
pub proof fn law_decode_undoes_encode(s: Seq<char>)
    ensures
        form_decoded(form_encoded(s)) == s,
{
    let b = encode_utf8(s);
    let e = encoded_bytes(b);
    lemma_encoded_bytes(b);
    is_ascii_chars_encode_utf8(e);
    assert(encode_utf8(e) =~= ascii_bytes(e) + Seq::<u8>::empty());
    lemma_unescaped_bytes(b, Seq::<u8>::empty(), Seq::<u8>::empty());
    assert(b + Seq::<u8>::empty() =~= b);
    encode_utf8_valid_utf8(s);
    encode_utf8_decode_utf8(s);
}

proof fn lemma_encoded_concat(a: Seq<u8>, b: Seq<u8>)
    ensures
        encoded_bytes(a + b) == encoded_bytes(a) + encoded_bytes(b),
    decreases b.len(),
{
    if b.len() == 0 {
        assert(a + b =~= a);
        assert(encoded_bytes(a) + encoded_bytes(b) =~= encoded_bytes(a));
    } else {
        lemma_encoded_concat(a, b.drop_last());
        assert((a + b).drop_last() =~= a + b.drop_last());
        assert((a + b).last() == b.last());
        assert(encoded_bytes(a + b) =~= encoded_bytes(a) + encoded_bytes(b));
    }
}

/// A string is encoded character by character, and each character byte by byte.
pub proof fn law_encoding_goes_byte_by_byte(a: Seq<char>, b: Seq<char>, x: Seq<u8>, y: Seq<u8>)
    ensures
        form_encoded(a + b) == form_encoded(a) + form_encoded(b),
        form_encoded(a) == encoded_bytes(encode_utf8(a)),
        encoded_bytes(x + y) == encoded_bytes(x) + encoded_bytes(y),
        encoded_bytes(seq![]) == Seq::<char>::empty(),
{
    lemma_encode_utf8_concat(a, b);
    lemma_encoded_concat(encode_utf8(a), encode_utf8(b));
    lemma_encoded_concat(x, y);
}

/// A letter, a digit, a hyphen, an underscore, a dot and an asterisk stand for
/// themselves, a space is a plus sign, and any other byte is a percent sign and its
/// two uppercase hexadecimal digits.
pub proof fn law_encoding_of_a_byte(b: u8)
    ensures
        "ABCDEFGHIJKLMNOPQRSTUVWXYZabcdefghijklmnopqrstuvwxyz0123456789-_.*"@.contains(b as char)
            ==> encoded_bytes(seq![b]) == seq![b as char],
        b == ' ' as u8 ==> encoded_bytes(seq![b]) == seq!['+'],
        b != ' ' as u8
            && !"ABCDEFGHIJKLMNOPQRSTUVWXYZabcdefghijklmnopqrstuvwxyz0123456789-_.*"@.contains(
            b as char,
        ) ==> encoded_bytes(seq![b]) == seq![
            '%',
            "0123456789ABCDEF"@[b as int / 16],
            "0123456789ABCDEF"@[b as int % 16],
        ],
{
    assert(seq![b].drop_last() =~= seq![]);
    assert(encoded_bytes(seq![b].drop_last()) =~= seq![]);
    assert(seq![b].last() == b);
    assert(encoded_bytes(seq![b]) =~= encoded_byte(b));
    lemma_plain_bytes(b);
    law_hex_digits(b as int / 16, b);
    law_hex_digits(b as int % 16, b);
}

proof fn lemma_plain_bytes(b: u8)
    ensures
        is_plain_byte(b)
            <==> "ABCDEFGHIJKLMNOPQRSTUVWXYZabcdefghijklmnopqrstuvwxyz0123456789-_.*"@.contains(
            b as char,
        ),
{
    let all = "ABCDEFGHIJKLMNOPQRSTUVWXYZabcdefghijklmnopqrstuvwxyz0123456789-_.*"@;
    reveal_strlit("ABCDEFGHIJKLMNOPQRSTUVWXYZabcdefghijklmnopqrstuvwxyz0123456789-_.*");
    let listed = seq![
        'A', 'B', 'C', 'D', 'E', 'F', 'G', 'H', 'I', 'J', 'K', 'L', 'M', 'N', 'O', 'P', 'Q', 'R',
        'S', 'T', 'U', 'V', 'W', 'X', 'Y', 'Z', 'a', 'b', 'c', 'd', 'e', 'f', 'g', 'h', 'i', 'j',
        'k', 'l', 'm', 'n', 'o', 'p', 'q', 'r', 's', 't', 'u', 'v', 'w', 'x', 'y', 'z', '0', '1',
        '2', '3', '4', '5', '6', '7', '8', '9', '-', '_', '.', '*',
    ];
    assert(all =~= listed);
    if 65 <= b <= 90 {
        assert(listed[b - 65] == b as char);
    } else if 97 <= b <= 122 {
        assert(listed[b - 97 + 26] == b as char);
    } else if 48 <= b <= 57 {
        assert(listed[b - 48 + 52] == b as char);
    } else if b == 45 {
        assert(listed[62] == b as char);
    } else if b == 95 {
        assert(listed[63] == b as char);
    } else if b == 46 {
        assert(listed[64] == b as char);
    } else if b == 42 {
        assert(listed[65] == b as char);
    }
    if all.contains(b as char) {
        let i = choose|i: int| 0 <= i < all.len() && all[i] == b as char;
        assert(is_plain_byte(listed[i] as u8));
        assert(((b as char) as u8) == b);
    }
}

proof fn lemma_unescaped_front(a: Seq<u8>, rest: Seq<u8>)
    requires
        !a.contains(37),
        !a.contains(43),
    ensures
        unescaped(a + rest) == (match unescaped(rest) {
            Some(bytes) => Some(a + bytes),
            None => None,
        }),
    decreases a.len(),
{
    if a.len() == 0 {
        assert(a + rest =~= rest);
        if let Some(bytes) = unescaped(rest) {
            assert(a + bytes =~= bytes);
        }
    } else {
        let b = a.skip(1);
        assert(a.contains(a[0]));
        assert forall|i: int| 0 <= i < b.len() implies b[i] != 37 && b[i] != 43 by {
            assert(a.contains(a[i + 1]));
        }
        lemma_unescaped_front(b, rest);
        assert((a + rest).skip(1) =~= b + rest);
        assert((a + rest)[0] == a[0]);
        if let Some(bytes) = unescaped(rest) {
            assert(seq![a[0]] + (b + bytes) =~= a + bytes);
        }
    }
}

/// What an encoded text stands for, read up to its first percent or plus sign and
/// on from there: a plus sign is a space, a percent sign with two hexadecimal
/// digits behind it is one byte, and with anything else behind it the text is
/// malformed. Everything else is itself.
pub proof fn law_decoding(a: Seq<u8>, x: u8, y: u8, rest: Seq<u8>)
    requires
        !a.contains('%' as u8),
        !a.contains('+' as u8),
    ensures
        unescaped(a) == Some(a),
        unescaped(a + seq!['+' as u8] + rest) == (match unescaped(rest) {
            Some(bytes) => Some(a + seq![' ' as u8] + bytes),
            None => None,
        }),
        hex_digit_value(x) is Some && hex_digit_value(y) is Some ==> unescaped(
            a + seq!['%' as u8, x, y] + rest,
        ) == (match unescaped(rest) {
            Some(bytes) => Some(
                a + seq![(hex_digit_value(x)->0 * 16 + hex_digit_value(y)->0) as u8] + bytes,
            ),
            None => None,
        }),
        rest.len() < 2 || hex_digit_value(rest[0]) is None || hex_digit_value(rest[1]) is None
            ==> unescaped(a + seq!['%' as u8] + rest) is None,
{
    let none = Seq::<u8>::empty();
    let plus = seq![43u8];
    let percent = seq![37u8];
    let e = seq![37u8, x, y];
    lemma_unescaped_front(a, none);
    assert(a + none =~= a);
    assert(unescaped(none) == Some(none));
    lemma_unescaped_front(a, plus + rest);
    lemma_unescaped_front(a, percent + rest);
    lemma_unescaped_front(a, e + rest);
    assert(a + plus + rest =~= a + (plus + rest));
    assert(a + percent + rest =~= a + (percent + rest));
    assert(a + e + rest =~= a + (e + rest));
    assert((plus + rest).skip(1) =~= rest);
    assert((e + rest).skip(3) =~= rest);
    assert((plus + rest)[0] == 43);
    let t = percent + rest;
    assert(t[0] == 37);
    if rest.len() >= 2 {
        assert(t[1] == rest[0] && t[2] == rest[1]);
    }
    let u = e + rest;
    assert(u[0] == 37 && u[1] == x && u[2] == y);
    if let Some(bytes) = unescaped(rest) {
        assert(a + (seq![32u8] + bytes) =~= a + seq![32u8] + bytes);
        if hex_digit_value(x) is Some && hex_digit_value(y) is Some {
            let v = seq![(hex_digit_value(x)->0 * 16 + hex_digit_value(y)->0) as u8];
            assert(a + (v + bytes) =~= a + v + bytes);
        }
    }
}

/// A text is decoded to the string that its bytes are the encoding of, once its
/// escapes are read; a malformed text, and one whose bytes are no UTF-8, is left as
/// it is.
pub proof fn law_decoded_string(text: Seq<char>, s: Seq<char>)
    ensures
        unescaped(encode_utf8(text)) == Some(encode_utf8(s)) ==> form_decoded(text) == s,
        unescaped(encode_utf8(text)) is None ==> form_decoded(text) == text,
        unescaped(encode_utf8(text)) matches Some(bytes) && !valid_utf8(bytes) ==> form_decoded(
            text,
        ) == text,
{
    encode_utf8_valid_utf8(s);
    encode_utf8_decode_utf8(s);
}

} // verus!
