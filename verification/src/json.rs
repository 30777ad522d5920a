//! Strings as JSON writes them.

use crate::hex::{
    hex_digit_value, law_hex_digits, lemma_lower_digit, lower_digit, lower_hex_digit,
};
use vstd::prelude::*;

verus! {

/// Whether a character stands for itself inside the quotes of a JSON string: it
/// is no quote, no backslash and no control character.
pub open spec fn is_json_plain(c: char) -> bool {
    c != '"' && c != '\\' && 0x20 <= c as u32
}

/// What a character is written as: a quote and a backslash with a backslash
/// before them, a control character by its short escape or else by its number,
/// and any other as itself.
pub open spec fn json_escaped_char(c: char) -> Seq<char> {
    if c == '"' {
        seq!['\\', '"']
    } else if c == '\\' {
        seq!['\\', '\\']
    } else if c == '\u{8}' {
        seq!['\\', 'b']
    } else if c == '\t' {
        seq!['\\', 't']
    } else if c == '\n' {
        seq!['\\', 'n']
    } else if c == '\u{c}' {
        seq!['\\', 'f']
    } else if c == '\r' {
        seq!['\\', 'r']
    } else if (c as u32) < 0x20 {
        seq!['\\', 'u', '0', '0', lower_digit(c as int / 16), lower_digit(c as int % 16)]
    } else {
        seq![c]
    }
}

/// What a string is written as, between the quotes of a JSON string.
pub open spec fn json_escaped(s: Seq<char>) -> Seq<char>
    decreases s.len(),
{
    if s.len() == 0 {
        seq![]
    } else {
        json_escaped(s.drop_last()) + json_escaped_char(s.last())
    }
}

/// The number that a character stands for as a hexadecimal digit.
pub open spec fn char_digit(c: char) -> Option<u8> {
    if (c as u32) < 128 {
        hex_digit_value(c as u8)
    } else {
        None
    }
}

/// The number that four hexadecimal digits stand for, at a place in a text.
pub open spec fn four_digits(t: Seq<char>, at: int) -> Option<int> {
    if t.len() < at + 4 {
        None
    } else {
        match (
            char_digit(t[at]),
            char_digit(t[at + 1]),
            char_digit(t[at + 2]),
            char_digit(t[at + 3]),
        ) {
            (Some(a), Some(b), Some(c), Some(d)) => Some(a * 4096 + b * 256 + c * 16 + d),
            _ => None,
        }
    }
}

/// The character that a text begins with, as a JSON reader sees it, and how much
/// of the text it takes up. A character outside the first plane may be written
/// as two numbers, the halves of a surrogate pair. `None` where the text begins
/// with a bare quote, a bare control character or no escape that JSON knows.
#[verifier::opaque]
pub open spec fn json_first(t: Seq<char>) -> Option<(char, int)> {
    if t.len() == 0 {
        None
    } else if is_json_plain(t[0]) {
        Some((t[0], 1))
    } else if t[0] != '\\' || t.len() < 2 {
        None
    } else if t[1] == '"' || t[1] == '\\' || t[1] == '/' {
        Some((t[1], 2))
    } else if t[1] == 'b' {
        Some(('\u{8}', 2))
    } else if t[1] == 'f' {
        Some(('\u{c}', 2))
    } else if t[1] == 'n' {
        Some(('\n', 2))
    } else if t[1] == 'r' {
        Some(('\r', 2))
    } else if t[1] == 't' {
        Some(('\t', 2))
    } else if t[1] != 'u' {
        None
    } else {
        match four_digits(t, 2) {
            None => None,
            Some(high) => if !(0xd800 <= high < 0xe000) {
                Some((high as char, 6))
            } else if high < 0xdc00 && t.len() >= 12 && t[6] == '\\' && t[7] == 'u' {
                match four_digits(t, 8) {
                    Some(low) => if 0xdc00 <= low < 0xe000 {
                        Some(
                            (
                                (0x10000 + (high - 0xd800) * 0x400 + (low - 0xdc00)) as char,
                                12,
                            ),
                        )
                    } else {
                        None
                    },
                    None => None,
                }
            } else {
                None
            },
        }
    }
}

/// The string that a text between the quotes of a JSON string stands for. `None`
/// where the text cannot stand there.
pub open spec fn json_read(t: Seq<char>) -> Option<Seq<char>>
    decreases t.len(),
{
    if t.len() == 0 {
        Some(seq![])
    } else {
        proof {
            reveal(json_first);
        }
        match json_first(t) {
            Some((c, taken)) => match json_read(t.skip(taken)) {
                Some(rest) => Some(seq![c] + rest),
                None => None,
            },
            None => None,
        }
    }
}

/// Writes a character at the end of a text as it stands between the quotes of a
/// JSON string.
fn push_escaped(out: &mut String, c: char)
    ensures
        final(out)@ == old(out)@ + json_escaped_char(c),
{
    if c == '"' || c == '\\' {
        out.push('\\');
        out.push(c);
    } else if c == '\u{8}' {
        out.push('\\');
        out.push('b');
    } else if c == '\t' {
        out.push('\\');
        out.push('t');
    } else if c == '\n' {
        out.push('\\');
        out.push('n');
    } else if c == '\u{c}' {
        out.push('\\');
        out.push('f');
    } else if c == '\r' {
        out.push('\\');
        out.push('r');
    } else if (c as u32) < 0x20 {
        let b: u8 = c as u8;
        out.push('\\');
        out.push('u');
        out.push('0');
        out.push('0');
        out.push(lower_hex_digit(b / 16));
        out.push(lower_hex_digit(b % 16));
    } else {
        out.push(c);
    }
    assert(out@ =~= old(out)@ + json_escaped_char(c));
}

/// Writes a string as it stands between the quotes of a JSON string.
pub fn json_escape(s: &str) -> (r: String)
    ensures
        r@ == json_escaped(s@),
{
    let mut out = String::new();
    for c in it: s.chars()
        invariant
            out@ == json_escaped(s@.take(it.index())),
            it.seq() == s@,
    {
        proof {
            assert(s@.take(it.index() + 1).drop_last() =~= s@.take(it.index()));
            assert(s@.take(it.index() + 1).last() == c);
        }
        push_escaped(&mut out, c);
    }
    assert(s@.take(s@.len() as int) =~= s@);
    out
}

proof fn lemma_read_char(c: char, rest: Seq<char>)
    ensures
        json_read(json_escaped_char(c) + rest) == (match json_read(rest) {
            Some(tail) => Some(seq![c] + tail),
            None => None,
        }),
{
    reveal(json_first);
    let e = json_escaped_char(c);
    let t = e + rest;
    assert(forall|i: int| 0 <= i < e.len() ==> #[trigger] t[i] == e[i]);
    assert(t.skip(e.len() as int) =~= rest);
    if e.len() == 6 {
        lemma_lower_digit(c as int / 16);
        lemma_lower_digit(c as int % 16);
        assert(four_digits(t, 2) == Some(c as int));
    }
    assert(json_first(t) == Some((c, e.len() as int)));
}

proof fn lemma_read_escaped(s: Seq<char>, rest: Seq<char>, tail: Seq<char>)
    requires
        json_read(rest) == Some(tail),
    ensures
        json_read(json_escaped(s) + rest) == Some(s + tail),
    decreases s.len(),
{
    if s.len() == 0 {
        assert(json_escaped(s) + rest =~= rest);
        assert(s + tail =~= tail);
    } else {
        let e = json_escaped_char(s.last());
        lemma_read_char(s.last(), rest);
        lemma_read_escaped(s.drop_last(), e + rest, seq![s.last()] + tail);
        assert(json_escaped(s) + rest =~= json_escaped(s.drop_last()) + (e + rest));
        assert(s + tail =~= s.drop_last() + (seq![s.last()] + tail));
    }
}

/// A string that is written between the quotes of a JSON string is read back as
/// it was, whatever it holds.
pub proof fn law_json_gives_back_what_was_written(s: Seq<char>)
    ensures
        json_read(json_escaped(s)) == Some(s),
{
    let none = Seq::<char>::empty();
    lemma_read_escaped(s, none, none);
    assert(json_escaped(s) + none =~= json_escaped(s));
    assert(s + none =~= s);
}

/// A string without quotes, backslashes and control characters is written as it
/// is.
pub proof fn law_json_keeps_plain_text(s: Seq<char>)
    requires
        forall|i: int| 0 <= i < s.len() ==> is_json_plain(#[trigger] s[i]),
    ensures
        json_escaped(s) == s,
    decreases s.len(),
{
    if s.len() > 0 {
        law_json_keeps_plain_text(s.drop_last());
        assert(is_json_plain(s[s.len() - 1]));
        assert(s.drop_last() + seq![s.last()] =~= s);
    }
}

/// What is written for a string is what is written for its characters, one after
/// the other: each of the characters that JSON has a short escape for by that
/// escape, any other control character by its number in four hexadecimal digits,
/// and everything else as it is.
pub proof fn law_json_escapes(a: Seq<char>, b: Seq<char>, c: char)
    ensures
        json_escaped(a + b) == json_escaped(a) + json_escaped(b),
        json_escaped(seq!['"']) == "\\\""@,
        json_escaped(seq!['\\']) == "\\\\"@,
        json_escaped(seq!['\u{8}']) == "\\b"@,
        json_escaped(seq!['\t']) == "\\t"@,
        json_escaped(seq!['\n']) == "\\n"@,
        json_escaped(seq!['\u{c}']) == "\\f"@,
        json_escaped(seq!['\r']) == "\\r"@,
        (c as u32) < 0x20 && c != '\u{8}' && c != '\t' && c != '\n' && c != '\u{c}' && c != '\r'
            ==> json_escaped(seq![c]) == "\\u00"@ + seq![
            "0123456789abcdef"@[c as int / 16],
            "0123456789abcdef"@[c as int % 16],
        ],
        0x20 <= c as u32 && c != '"' && c != '\\' ==> json_escaped(seq![c]) == seq![c],
{
    lemma_escaped_concat(a, b);
    lemma_escaped_single('"');
    lemma_escaped_single('\\');
    lemma_escaped_single('\u{8}');
    lemma_escaped_single('\t');
    lemma_escaped_single('\n');
    lemma_escaped_single('\u{c}');
    lemma_escaped_single('\r');
    lemma_escaped_single(c);
    reveal_strlit("\\\"");
    reveal_strlit("\\\\");
    reveal_strlit("\\b");
    reveal_strlit("\\t");
    reveal_strlit("\\n");
    reveal_strlit("\\f");
    reveal_strlit("\\r");
    reveal_strlit("\\u00");
    assert(json_escaped(seq!['"']) =~= "\\\""@);
    assert(json_escaped(seq!['\\']) =~= "\\\\"@);
    assert(json_escaped(seq!['\u{8}']) =~= "\\b"@);
    assert(json_escaped(seq!['\t']) =~= "\\t"@);
    assert(json_escaped(seq!['\n']) =~= "\\n"@);
    assert(json_escaped(seq!['\u{c}']) =~= "\\f"@);
    assert(json_escaped(seq!['\r']) =~= "\\r"@);
    if (c as u32) < 0x20 {
        law_hex_digits(c as int / 16, 0);
        law_hex_digits(c as int % 16, 0);
        if c != '\u{8}' && c != '\t' && c != '\n' && c != '\u{c}' && c != '\r' {
            assert(json_escaped(seq![c]) =~= "\\u00"@ + seq![
                "0123456789abcdef"@[c as int / 16],
                "0123456789abcdef"@[c as int % 16],
            ]);
        }
    }
}

proof fn lemma_escaped_single(c: char)
    ensures
        json_escaped(seq![c]) == json_escaped_char(c),
{
    assert(seq![c].drop_last().len() == 0);
    assert(json_escaped(seq![c].drop_last()) =~= seq![]);
    assert(seq![c].last() == c);
    assert(json_escaped(seq![c]) =~= json_escaped_char(c));
}

proof fn lemma_escaped_concat(a: Seq<char>, b: Seq<char>)
    ensures
        json_escaped(a + b) == json_escaped(a) + json_escaped(b),
    decreases b.len(),
{
    if b.len() == 0 {
        assert(a + b =~= a);
        assert(json_escaped(a) + json_escaped(b) =~= json_escaped(a));
    } else {
        lemma_escaped_concat(a, b.drop_last());
        assert((a + b).drop_last() =~= a + b.drop_last());
        assert((a + b).last() == b.last());
        assert(json_escaped(a + b) =~= json_escaped(a) + json_escaped(b));
    }
}

} // verus!
