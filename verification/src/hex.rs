//! Hexadecimal digits and hexadecimal text.

use vstd::prelude::*;
use vstd::utf8::{encode_utf8, is_ascii_chars, is_ascii_chars_encode_utf8};

verus! {

/// The number that a byte stands for as a hexadecimal digit, in either case.
pub open spec fn hex_digit_value(b: u8) -> Option<u8> {
    if 48 <= b <= 57 {
        Some((b - 48) as u8)
    } else if 97 <= b <= 102 {
        Some((b - 97 + 10) as u8)
    } else if 65 <= b <= 70 {
        Some((b - 65 + 10) as u8)
    } else {
        None
    }
}

/// The lowercase hexadecimal digit of a number below 16.
pub open spec fn lower_digit(v: int) -> char {
    if v < 10 {
        (48 + v) as char
    } else {
        (97 + v - 10) as char
    }
}

/// The uppercase hexadecimal digit of a number below 16.
pub open spec fn upper_digit(v: int) -> char {
    if v < 10 {
        (48 + v) as char
    } else {
        (65 + v - 10) as char
    }
}

/// The lowercase hexadecimal text of a byte string: two digits for each byte.
pub open spec fn hex_text(b: Seq<u8>) -> Seq<char> {
    Seq::new(
        2 * b.len(),
        |i: int|
            lower_digit(
                if i % 2 == 0 {
                    b[i / 2] as int / 16
                } else {
                    b[i / 2] as int % 16
                },
            ),
    )
}

/// The byte that two characters stand for in base 16. The first may be a plus
/// sign, which stands for no digit.
pub open spec fn hex_pair_value(a: u8, b: u8) -> Option<u8> {
    match (hex_digit_value(a), hex_digit_value(b)) {
        (Some(x), Some(y)) => Some((x * 16 + y) as u8),
        (None, Some(y)) => if a == 43 {
            Some(y)
        } else {
            None
        },
        _ => None,
    }
}

/// The bytes that a text stands for, read two characters at a time. A pair that
/// is no number in base 16 is skipped, and so is a single character at the end.
pub open spec fn hex_bytes(t: Seq<u8>) -> Seq<u8>
    decreases t.len(),
{
    if t.len() < 2 {
        seq![]
    } else {
        match hex_pair_value(t[0], t[1]) {
            Some(v) => seq![v] + hex_bytes(t.skip(2)),
            None => hex_bytes(t.skip(2)),
        }
    }
}

/// The number that a byte stands for as a hexadecimal digit, if it is one.
pub fn hex_val(b: u8) -> (r: Option<u8>)
    ensures
        r == hex_digit_value(b),
        r matches Some(v) ==> v < 16,
{
    if 48 <= b && b <= 57 {
        Some(b - 48)
    } else if 97 <= b && b <= 102 {
        Some(b - 97 + 10)
    } else if 65 <= b && b <= 70 {
        Some(b - 65 + 10)
    } else {
        None
    }
}

/// The lowercase hexadecimal digit of a number below 16.
pub fn lower_hex_digit(v: u8) -> (r: char)
    requires
        v < 16,
    ensures
        r == lower_digit(v as int),
{
    if v < 10 {
        (48 + v) as char
    } else {
        (97 + (v - 10)) as char
    }
}

/// The uppercase hexadecimal digit of a number below 16.
pub fn upper_hex_digit(v: u8) -> (r: char)
    requires
        v < 16,
    ensures
        r == upper_digit(v as int),
{
    if v < 10 {
        (48 + v) as char
    } else {
        (65 + (v - 10)) as char
    }
}

/// The lowercase hexadecimal text of a byte string.
pub fn bytes_to_hex(bytes: &[u8]) -> (r: String)
    ensures
        r@ == hex_text(bytes@),
{
    let mut out = String::new();
    let mut i: usize = 0;
    while i < bytes.len()
        invariant
            i <= bytes@.len(),
            out@ =~= hex_text(bytes@.take(i as int)),
        decreases bytes@.len() - i,
    {
        let b: u8 = bytes[i];
        out.push(lower_hex_digit(b / 16));
        out.push(lower_hex_digit(b % 16));
        i = i + 1;
    }
    assert(bytes@.take(i as int) =~= bytes@);
    out
}

/// The bytes that a hexadecimal text stands for, leaving out what is no number.
pub fn hex_to_bytes(text: &str) -> (r: Vec<u8>)
    ensures
        r@ == hex_bytes(encode_utf8(text@)),
{
    let t = text.as_bytes();
    let mut out: Vec<u8> = Vec::new();
    let mut i: usize = 0;
    assert(t@.skip(0) =~= t@);
    while t.len() - i >= 2
        invariant
            i <= t@.len(),
            out@ + hex_bytes(t@.skip(i as int)) == hex_bytes(t@),
        decreases t@.len() - i,
    {
        let ghost before = out@;
        let ghost rest = t@.skip(i as int);
        let a = hex_val(t[i]);
        let b = hex_val(t[i + 1]);
        match (a, b) {
            (Some(x), Some(y)) => {
                out.push(x * 16 + y);
            },
            (None, Some(y)) => {
                if t[i] == 43 {
                    out.push(y);
                }
            },
            _ => {},
        }
        proof {
            assert(rest.skip(2) =~= t@.skip(i + 2));
            assert(out@ + hex_bytes(t@.skip(i + 2)) =~= before + hex_bytes(rest));
        }
        i = i + 2;
    }
    proof {
        assert(hex_bytes(t@.skip(i as int)) =~= seq![]);
        assert(out@ =~= hex_bytes(t@));
    }
    out
}

/// An uppercase hexadecimal digit is an ASCII digit or letter, and is read back
/// as the number that it stands for.
pub proof fn lemma_upper_digit(v: int)
    requires
        0 <= v < 16,
    ensures
        '0' <= upper_digit(v) <= '9' || 'A' <= upper_digit(v) <= 'F',
        hex_digit_value(upper_digit(v) as u8) == Some(v as u8),
{
}

/// A lowercase hexadecimal digit is ASCII, and is read back as the number that it
/// stands for.
pub proof fn lemma_lower_digit(v: int)
    requires
        0 <= v < 16,
    ensures
        lower_digit(v) as u32 <= 127,
        hex_digit_value(lower_digit(v) as u8) == Some(v as u8),
{
}

proof fn lemma_hex_bytes_of_text(b: Seq<u8>)
    ensures
        hex_bytes(Seq::new(2 * b.len(), |i: int| hex_text(b)[i] as u8)) == b,
    decreases b.len(),
{
    let t = Seq::new(2 * b.len(), |i: int| hex_text(b)[i] as u8);
    if b.len() == 0 {
        assert(hex_bytes(t) =~= b);
    } else {
        let rest = b.skip(1);
        lemma_hex_bytes_of_text(rest);
        let u = Seq::new(2 * rest.len(), |i: int| hex_text(rest)[i] as u8);
        assert forall|i: int| 0 <= i < u.len() implies t.skip(2)[i] == u[i] by {
            assert((i + 2) / 2 == i / 2 + 1);
            assert((i + 2) % 2 == i % 2);
        }
        assert(t.skip(2) =~= u);
        lemma_lower_digit(b[0] as int / 16);
        lemma_lower_digit(b[0] as int % 16);
        assert(t[0] == lower_digit(b[0] as int / 16) as u8);
        assert(t[1] == lower_digit(b[0] as int % 16) as u8);
        assert(hex_bytes(t) =~= seq![b[0]] + rest);
        assert(seq![b[0]] + rest =~= b);
    }
}

/// Reading a hexadecimal text gives back the bytes that it was written from.
pub proof fn law_hex_round_trip(b: Seq<u8>)
    ensures
        hex_bytes(encode_utf8(hex_text(b))) == b,
{
    let h = hex_text(b);
    assert(is_ascii_chars(h)) by {
        assert forall|i: int| 0 <= i < h.len() implies '\0' <= #[trigger] h[i] <= '\u{7f}' by {
            let v: int = if i % 2 == 0 {
                b[i / 2] as int / 16
            } else {
                b[i / 2] as int % 16
            };
            lemma_lower_digit(v);
            assert(h[i] == lower_digit(v));
        }
    }
    is_ascii_chars_encode_utf8(h);
    assert(encode_utf8(h) =~= Seq::new(2 * b.len(), |i: int| h[i] as u8));
    lemma_hex_bytes_of_text(b);
}

/// The hexadecimal digits are those of the two usual alphabets, each at the place
/// of the number that it stands for, and nothing else is a digit.
pub proof fn law_hex_digits(v: int, b: u8)
    requires
        0 <= v < 16,
    ensures
        lower_digit(v) == "0123456789abcdef"@[v],
        upper_digit(v) == "0123456789ABCDEF"@[v],
        hex_digit_value("0123456789abcdef"@[v] as u8) == Some(v as u8),
        hex_digit_value("0123456789ABCDEF"@[v] as u8) == Some(v as u8),
        hex_digit_value(b) is Some <==> "0123456789abcdefABCDEF"@.contains(b as char),
{
    reveal_strlit("0123456789abcdef");
    reveal_strlit("0123456789ABCDEF");
    reveal_strlit("0123456789abcdefABCDEF");
    let all = "0123456789abcdefABCDEF"@;
    assert("0123456789abcdef"@ =~= seq![
        '0', '1', '2', '3', '4', '5', '6', '7', '8', '9', 'a', 'b', 'c', 'd', 'e', 'f',
    ]);
    assert("0123456789ABCDEF"@ =~= seq![
        '0', '1', '2', '3', '4', '5', '6', '7', '8', '9', 'A', 'B', 'C', 'D', 'E', 'F',
    ]);
    assert(all =~= seq![
        '0', '1', '2', '3', '4', '5', '6', '7', '8', '9', 'a', 'b', 'c', 'd', 'e', 'f', 'A', 'B',
        'C', 'D', 'E', 'F',
    ]);
    if 48 <= b <= 57 {
        assert(all[b - 48] == b as char);
    } else if 97 <= b <= 102 {
        assert(all[b - 97 + 10] == b as char);
    } else if 65 <= b <= 70 {
        assert(all[b - 65 + 16] == b as char);
    }
    if all.contains(b as char) {
        let i = choose|i: int| 0 <= i < all.len() && all[i] == b as char;
        assert(hex_digit_value(all[i] as u8) is Some);
        assert(((b as char) as u8) == b);
    }
}

/// The hexadecimal text of a byte string is that of its bytes, one after the
/// other: for each the digit of its upper half and that of its lower half.
pub proof fn law_hex_text(a: Seq<u8>, b: Seq<u8>, byte: u8)
    ensures
        hex_text(a + b) == hex_text(a) + hex_text(b),
        hex_text(seq![byte]) == seq![
            "0123456789abcdef"@[byte as int / 16],
            "0123456789abcdef"@[byte as int % 16],
        ],
        hex_text(seq![]) == Seq::<char>::empty(),
{
    let t = hex_text(a + b);
    let n = hex_text(a).len() as int;
    assert forall|i: int| 0 <= i < t.len() implies t[i] == (hex_text(a) + hex_text(b))[i] by {
        if i >= n {
            assert(i / 2 - a.len() == (i - n) / 2);
            assert(i % 2 == (i - n) % 2);
        }
    }
    assert(t =~= hex_text(a) + hex_text(b));
    law_hex_digits(byte as int / 16, byte);
    law_hex_digits(byte as int % 16, byte);
    assert(hex_text(seq![byte]) =~= seq![
        "0123456789abcdef"@[byte as int / 16],
        "0123456789abcdef"@[byte as int % 16],
    ]);
}

/// A hexadecimal text is read two characters at a time: two digits give the byte
/// that they stand for, whatever their case, and two characters that are not both
/// digits give nothing, but for a plus sign before a digit.
pub proof fn law_hex_bytes(x: u8, y: u8, rest: Seq<u8>)
    ensures
        hex_digit_value(x) is Some && hex_digit_value(y) is Some ==> hex_bytes(seq![x, y] + rest)
            == seq![(hex_digit_value(x)->0 * 16 + hex_digit_value(y)->0) as u8] + hex_bytes(rest),
        hex_digit_value(y) is None || (hex_digit_value(x) is None && x != '+' as u8) ==> hex_bytes(
            seq![x, y] + rest,
        ) == hex_bytes(rest),
        x == '+' as u8 && hex_digit_value(y) is Some ==> hex_bytes(seq![x, y] + rest) == seq![
            hex_digit_value(y)->0,
        ] + hex_bytes(rest),
        hex_bytes(seq![x]) == Seq::<u8>::empty(),
{
    assert((seq![x, y] + rest).skip(2) =~= rest);
}

} // verus!
