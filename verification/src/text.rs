//! Strings and lists of string pairs: the views that the contracts of this
//! crate speak of, and the small operations on them that every module shares.

use crate::pairs::joined;
use vstd::prelude::*;
use vstd::slice::slice_to_vec;
use vstd::utf8::{decode_utf8, encode_utf8, is_ascii_chars, valid_utf8};

verus! {

/// `String::push`: the character is added at the end.
pub assume_specification[ String::push ](s: &mut String, c: char)
    ensures
        final(s)@ == old(s)@.push(c),
;

/// The error of [`String::from_utf8`], carried and never looked into.
#[verifier::external_type_specification]
#[verifier::external_body]
pub struct ExFromUtf8Error(std::string::FromUtf8Error);

/// `String::from_utf8`: it succeeds on valid UTF-8 alone, and the string then
/// holds the characters that the bytes encode.
pub assume_specification[ String::from_utf8 ](bytes: Vec<u8>) -> (r: Result<
    String,
    std::string::FromUtf8Error,
>)
    ensures
        r is Ok <==> valid_utf8(bytes@),
        r matches Ok(s) ==> s@ == decode_utf8(bytes@),
;

/// What `String::from_utf8_lossy` makes of bytes that are no UTF-8.
pub uninterp spec fn repaired_utf8(bytes: Seq<u8>) -> Seq<char>;

/// The text that bytes stand for, repaired where they are no UTF-8.
pub open spec fn lossy_text(bytes: Seq<u8>) -> Seq<char> {
    if valid_utf8(bytes) {
        decode_utf8(bytes)
    } else {
        repaired_utf8(bytes)
    }
}

/// `String::from_utf8_lossy`: valid UTF-8 is decoded. In other bytes the invalid
/// sequences are replaced, and what then comes out is only named.
#[verifier::external_body]
pub(crate) fn decode_lossy(bytes: &[u8]) -> (r: String)
    ensures
        valid_utf8(bytes@) ==> r@ == decode_utf8(bytes@),
        !valid_utf8(bytes@) ==> r@ == repaired_utf8(bytes@),
{
    String::from_utf8_lossy(bytes).into_owned()
}

/// A character with `A` to `Z` replaced by `a` to `z`.
pub open spec fn ascii_lower(c: char) -> char {
    if 'A' <= c <= 'Z' {
        (c as u32 + 32) as char
    } else {
        c
    }
}

/// A string with `A` to `Z` replaced by `a` to `z`.
pub open spec fn ascii_lowercase(s: Seq<char>) -> Seq<char> {
    Seq::new(s.len(), |i: int| ascii_lower(s[i]))
}

/// What `str::to_lowercase` makes of a string that is not ASCII alone.
pub uninterp spec fn unicode_lowercase(s: Seq<char>) -> Seq<char>;

/// The lowercase form of a string.
pub open spec fn lowercase(s: Seq<char>) -> Seq<char> {
    if is_ascii_chars(s) {
        ascii_lowercase(s)
    } else {
        unicode_lowercase(s)
    }
}

/// `str::to_lowercase`: the Unicode lowercase mapping, which depends on the
/// string alone. An ASCII string has its letters lowered and nothing else
/// changed; what other strings become is only named.
pub assume_specification[ str::to_lowercase ](s: &str) -> (r: String)
    ensures
        is_ascii_chars(s@) ==> r@ == ascii_lowercase(s@),
        !is_ascii_chars(s@) ==> r@ == unicode_lowercase(s@),
;

/// The characters of a pair of strings.
pub open spec fn pair_view(p: (String, String)) -> (Seq<char>, Seq<char>) {
    (p.0@, p.1@)
}

/// The characters of a list of string pairs, such as headers or parameters.
pub open spec fn pairs_view(s: Seq<(String, String)>) -> Seq<(Seq<char>, Seq<char>)> {
    Seq::new(s.len(), |i: int| pair_view(s[i]))
}

/// The characters of a list of strings.
pub open spec fn strings_view(s: Seq<String>) -> Seq<Seq<char>> {
    Seq::new(s.len(), |i: int| s[i]@)
}

/// The characters of a string, as a vector.
pub fn chars_of(s: &str) -> (r: Vec<char>)
    ensures
        r@ == s@,
{
    let mut out: Vec<char> = Vec::new();
    for c in it: s.chars()
        invariant
            out@ == s@.take(it.index()),
            it.seq() == s@,
    {
        proof {
            assert(s@.take(it.index() + 1) =~= s@.take(it.index()).push(c));
        }
        out.push(c);
    }
    proof {
        assert(s@.take(s@.len() as int) =~= s@);
    }
    out
}

/// The string of the characters `chars[from..to]`.
pub fn string_of(chars: &Vec<char>, from: usize, to: usize) -> (r: String)
    requires
        from <= to <= chars@.len(),
    ensures
        r@ == chars@.subrange(from as int, to as int),
{
    let mut out = String::new();
    let mut i: usize = from;
    while i < to
        invariant
            from <= i <= to <= chars@.len(),
            out@ == chars@.subrange(from as int, i as int),
        decreases to - i,
    {
        out.push(chars[i]);
        proof {
            assert(chars@.subrange(from as int, i + 1) =~= chars@.subrange(
                from as int,
                i as int,
            ).push(chars@[i as int]));
        }
        i = i + 1;
    }
    out
}

/// The segments of a string between the occurrences of a character. There is
/// always one, and an empty one at each end that the character stands at.
pub open spec fn split(s: Seq<char>, c: char) -> Seq<Seq<char>>
    decreases s.len(),
{
    if s.len() == 0 {
        seq![seq![]]
    } else {
        let before = split(s.drop_last(), c);
        if s.last() == c {
            before.push(seq![])
        } else {
            before.drop_last().push(before.last().push(s.last()))
        }
    }
}

/// There is always a segment.
pub proof fn lemma_split_nonempty(s: Seq<char>, c: char)
    ensures
        split(s, c).len() > 0,
    decreases s.len(),
{
    if s.len() > 0 {
        lemma_split_nonempty(s.drop_last(), c);
    }
}

/// The segments of a string between the occurrences of a character.
pub fn split_on(s: &str, c: char) -> (r: Vec<String>)
    ensures
        strings_view(r@) == split(s@, c),
{
    let chars = chars_of(s);
    let mut out: Vec<String> = Vec::new();
    let mut from: usize = 0;
    let mut i: usize = 0;
    proof {
        assert(chars@.subrange(0, 0) =~= Seq::<char>::empty());
        assert(chars@.take(0) =~= Seq::<char>::empty());
        assert(strings_view(out@).push(Seq::<char>::empty()) =~= split(chars@.take(0), c));
    }
    while i < chars.len()
        invariant
            from <= i <= chars@.len(),
            split(chars@.take(i as int), c) == strings_view(out@).push(
                chars@.subrange(from as int, i as int),
            ),
        decreases chars@.len() - i,
    {
        let ghost segment = chars@.subrange(from as int, i as int);
        let ghost before = out@;
        proof {
            assert(chars@.take(i + 1).drop_last() =~= chars@.take(i as int));
            assert(strings_view(before).push(segment).drop_last() =~= strings_view(before));
        }
        if chars[i] == c {
            out.push(string_of(&chars, from, i));
            proof {
                assert(strings_view(out@) =~= strings_view(before).push(segment));
                assert(chars@.subrange(i + 1, i + 1) =~= Seq::<char>::empty());
            }
            from = i + 1;
        } else {
            assert(chars@.subrange(from as int, i + 1) =~= segment.push(chars@[i as int]));
        }
        i = i + 1;
    }
    let ghost before = out@;
    out.push(string_of(&chars, from, i));
    proof {
        assert(chars@.take(i as int) =~= chars@);
        assert(strings_view(out@) =~= strings_view(before).push(
            chars@.subrange(from as int, i as int),
        ));
    }
    out
}

/// Whether a string holds another.
pub open spec fn holds_text(s: Seq<char>, t: Seq<char>) -> bool {
    exists|i: int| 0 <= i <= s.len() - t.len() && #[trigger] s.subrange(i, i + t.len()) == t
}

/// Whether a string holds another.
pub fn contains_str(s: &str, t: &str) -> (r: bool)
    ensures
        r == holds_text(s@, t@),
{
    let hay = chars_of(s);
    let needle = chars_of(t);
    let mut i: usize = 0;
    while needle.len() <= hay.len() - i
        invariant
            hay@ == s@,
            needle@ == t@,
            i <= hay@.len(),
            forall|k: int| 0 <= k < i ==> #[trigger] s@.subrange(k, k + t@.len()) != t@,
        decreases hay@.len() - i,
    {
        let mut j: usize = 0;
        while j < needle.len() && hay[i + j] == needle[j]
            invariant
                hay@ == s@,
                needle@ == t@,
                needle@.len() <= hay@.len() - i,
                hay@.len() <= usize::MAX,
                j <= needle@.len(),
                forall|k: int| 0 <= k < j ==> hay@[i + k] == needle@[k],
            decreases needle@.len() - j,
        {
            j = j + 1;
        }
        if j == needle.len() {
            assert(s@.subrange(i as int, i + t@.len()) =~= t@);
            return true;
        }
        assert(s@.subrange(i as int, i + t@.len())[j as int] != t@[j as int]);
        i = i + 1;
    }
    false
}

/// The bytes of a string, as a vector.
pub fn bytes_of(s: &str) -> (r: Vec<u8>)
    ensures
        r@ == encode_utf8(s@),
{
    slice_to_vec(s.as_bytes())
}

/// The decimal digits of a number.
pub open spec fn decimal(n: nat) -> Seq<char>
    decreases n,
{
    if n < 10 {
        seq![(48 + n) as char]
    } else {
        decimal(n / 10).push((48 + n % 10) as char)
    }
}

/// The decimal digits of a number.
pub fn decimal_of(n: u64) -> (r: String)
    ensures
        r@ == decimal(n as nat),
    decreases n,
{
    let digit = (48 + (n % 10) as u8) as char;
    if n < 10 {
        let mut out = String::new();
        out.push(digit);
        assert(out@ =~= decimal(n as nat));
        out
    } else {
        let mut out = decimal_of(n / 10);
        out.push(digit);
        out
    }
}

/// Two strings have the same bytes exactly when they have the same characters.
pub proof fn lemma_encode_utf8_injective(a: Seq<char>, b: Seq<char>)
    ensures
        encode_utf8(a) == encode_utf8(b) <==> a == b,
{
    vstd::utf8::encode_utf8_decode_utf8(a);
    vstd::utf8::encode_utf8_decode_utf8(b);
}

/// Whether two byte strings are the same.
pub fn bytes_eq(a: &[u8], b: &[u8]) -> (r: bool)
    ensures
        r == (a@ == b@),
{
    if a.len() != b.len() {
        return false;
    }
    let mut i: usize = 0;
    while i < a.len()
        invariant
            i <= a@.len(),
            a@.len() == b@.len(),
            forall|j: int| 0 <= j < i ==> a@[j] == b@[j],
        decreases a@.len() - i,
    {
        if a[i] != b[i] {
            return false;
        }
        i = i + 1;
    }
    assert(a@ =~= b@);
    true
}

/// Whether two strings hold the same characters.
pub fn str_eq(a: &str, b: &str) -> (r: bool)
    ensures
        r == (a@ == b@),
{
    proof {
        lemma_encode_utf8_injective(a@, b@);
    }
    bytes_eq(a.as_bytes(), b.as_bytes())
}

/// A character with `A` to `Z` replaced by `a` to `z`.
fn lower_char(c: char) -> (r: char)
    ensures
        r == ascii_lower(c),
{
    if 'A' <= c && c <= 'Z' {
        (c as u8 + 32) as char
    } else {
        c
    }
}

/// Whether two strings are the same but for the case of their ASCII letters.
pub fn eq_ignore_ascii_case(a: &str, b: &str) -> (r: bool)
    ensures
        r == (ascii_lowercase(a@) == ascii_lowercase(b@)),
{
    let x = chars_of(a);
    let y = chars_of(b);
    if x.len() != y.len() {
        assert(ascii_lowercase(a@).len() != ascii_lowercase(b@).len());
        return false;
    }
    let mut i: usize = 0;
    while i < x.len()
        invariant
            i <= x@.len(),
            x@ == a@,
            y@ == b@,
            x@.len() == y@.len(),
            forall|j: int| 0 <= j < i ==> ascii_lower(#[trigger] x@[j]) == ascii_lower(y@[j]),
        decreases x@.len() - i,
    {
        if lower_char(x[i]) != lower_char(y[i]) {
            assert(ascii_lowercase(a@)[i as int] != ascii_lowercase(b@)[i as int]);
            return false;
        }
        i = i + 1;
    }
    assert(ascii_lowercase(a@) =~= ascii_lowercase(b@));
    true
}

/// Lowercasing replaces each letter of the uppercase ASCII alphabet by the letter
/// at the same place of the lowercase one, and changes nothing else.
pub proof fn law_ascii_lowercase(s: Seq<char>, i: int, place: int)
    requires
        0 <= i < s.len(),
    ensures
        ascii_lowercase(s).len() == s.len(),
        0 <= place < 26 && s[i] == "ABCDEFGHIJKLMNOPQRSTUVWXYZ"@[place] ==> ascii_lowercase(s)[i]
            == "abcdefghijklmnopqrstuvwxyz"@[place],
        !"ABCDEFGHIJKLMNOPQRSTUVWXYZ"@.contains(s[i]) ==> ascii_lowercase(s)[i] == s[i],
{
    let upper = "ABCDEFGHIJKLMNOPQRSTUVWXYZ"@;
    let lower = "abcdefghijklmnopqrstuvwxyz"@;
    reveal_strlit("ABCDEFGHIJKLMNOPQRSTUVWXYZ");
    reveal_strlit("abcdefghijklmnopqrstuvwxyz");
    assert(upper =~= Seq::new(26, |v: int| (65 + v) as char)) by {
        assert(upper =~= seq![
            'A', 'B', 'C', 'D', 'E', 'F', 'G', 'H', 'I', 'J', 'K', 'L', 'M', 'N', 'O', 'P', 'Q',
            'R', 'S', 'T', 'U', 'V', 'W', 'X', 'Y', 'Z',
        ]);
    }
    assert(lower =~= Seq::new(26, |v: int| (97 + v) as char)) by {
        assert(lower =~= seq![
            'a', 'b', 'c', 'd', 'e', 'f', 'g', 'h', 'i', 'j', 'k', 'l', 'm', 'n', 'o', 'p', 'q',
            'r', 's', 't', 'u', 'v', 'w', 'x', 'y', 'z',
        ]);
    }
    if 'A' <= s[i] <= 'Z' {
        assert(upper[s[i] as int - 65] == s[i]);
    }
}

/// The views of lists of strings keep every character of every string, in place.
pub proof fn law_views_keep_strings(pairs: Seq<(String, String)>, strings: Seq<String>, i: int)
    ensures
        pairs_view(pairs).len() == pairs.len(),
        strings_view(strings).len() == strings.len(),
        0 <= i < pairs.len() ==> pairs_view(pairs)[i].0 == pairs[i].0@ && pairs_view(pairs)[i].1
            == pairs[i].1@,
        0 <= i < strings.len() ==> strings_view(strings)[i] == strings[i]@,
{
}

/// The segments of a string hold the separator nowhere, and give the string back
/// when they are joined with it.
pub proof fn law_split_and_join(s: Seq<char>, c: char)
    ensures
        split(s, c).len() > 0,
        forall|i: int| 0 <= i < split(s, c).len() ==> !(#[trigger] split(s, c)[i]).contains(c),
        joined(split(s, c), seq![c]) == s,
    decreases s.len(),
{
    if s.len() == 0 {
        assert(joined(split(s, c), seq![c]) =~= s);
    } else {
        let before = split(s.drop_last(), c);
        let after = split(s, c);
        law_split_and_join(s.drop_last(), c);
        if s.last() == c {
            assert(after.drop_last() =~= before);
            assert(joined(after, seq![c]) =~= s);
            assert forall|i: int| 0 <= i < after.len() implies !(#[trigger] after[i]).contains(
                c,
            ) by {
                if i < before.len() {
                    assert(after[i] == before[i]);
                }
            }
        } else {
            assert(after.drop_last() =~= before.drop_last());
            assert(after.last() == before.last().push(s.last()));
            assert(joined(after, seq![c]) =~= joined(before, seq![c]).push(s.last()));
            assert(joined(after, seq![c]) =~= s);
            assert forall|i: int| 0 <= i < after.len() implies !(#[trigger] after[i]).contains(
                c,
            ) by {
                assert(!before[i].contains(c));
                if i == before.len() - 1 && after[i].contains(c) {
                    let j = choose|j: int| 0 <= j < after[i].len() && after[i][j] == c;
                    assert(before[i][j] == c);
                }
            }
        }
    }
}

/// A string holds another exactly when it is the other with something before and
/// something after it, either of which may be empty.
pub proof fn law_holds_text(s: Seq<char>, t: Seq<char>, before: Seq<char>, after: Seq<char>)
    ensures
        holds_text(before + t + after, t),
        holds_text(s, t) ==> exists|a: Seq<char>, b: Seq<char>| s == #[trigger] (a + t + b),
{
    let whole = before + t + after;
    assert(whole.subrange(before.len() as int, (before.len() + t.len()) as int) =~= t);
    if holds_text(s, t) {
        let i = choose|i: int|
            0 <= i <= s.len() - t.len() && #[trigger] s.subrange(i, i + t.len()) == t;
        assert(s =~= s.take(i) + t + s.skip(i + t.len())) by {
            assert(t.len() > 0 ==> s.subrange(i, i + t.len()) == t);
        }
    }
}

/// The decimal text of a number ends in the digit of its remainder by ten, behind
/// the text of what is left, if anything is.
pub proof fn law_decimal(n: nat, d: nat)
    requires
        d < 10,
    ensures
        decimal(d) == seq!["0123456789"@[d as int]],
        n > 0 ==> decimal(10 * n + d) == decimal(n).push("0123456789"@[d as int]),
{
    reveal_strlit("0123456789");
    assert("0123456789"@ =~= seq!['0', '1', '2', '3', '4', '5', '6', '7', '8', '9']);
    assert("0123456789"@[d as int] == (48 + d) as char);
    assert((10 * n + d) / 10 == n && (10 * n + d) % 10 == d);
}

/// Bytes that are the encoding of a string are read as that string, and any other
/// bytes as `String::from_utf8_lossy` repairs them.
pub proof fn law_lossy_text(s: Seq<char>, bytes: Seq<u8>)
    ensures
        lossy_text(encode_utf8(s)) == s,
        !valid_utf8(bytes) ==> lossy_text(bytes) == repaired_utf8(bytes),
{
    vstd::utf8::encode_utf8_valid_utf8(s);
    vstd::utf8::encode_utf8_decode_utf8(s);
}

/// The bytes of two strings, one after the other, are those of the one and then
/// those of the other.
pub proof fn lemma_encode_utf8_concat(a: Seq<char>, b: Seq<char>)
    ensures
        encode_utf8(a + b) == encode_utf8(a) + encode_utf8(b),
    decreases a.len(),
{
    if a.len() == 0 {
        assert(a + b =~= b);
        assert(encode_utf8(a) + encode_utf8(b) =~= encode_utf8(b));
    } else {
        lemma_encode_utf8_concat(a.drop_first(), b);
        assert((a + b).drop_first() =~= a.drop_first() + b);
        assert(encode_utf8(a + b) =~= encode_utf8(a) + encode_utf8(b));
    }
}

/// What stands before and after a separator is split apart there.
pub proof fn lemma_split_concat(a: Seq<char>, c: char, b: Seq<char>)
    ensures
        split(a + seq![c] + b, c) == split(a, c) + split(b, c),
    decreases b.len(),
{
    let s = a + seq![c] + b;
    lemma_split_nonempty(a, c);
    if b.len() == 0 {
        assert(s.drop_last() =~= a);
        assert(s.last() == c);
        assert(split(s, c) =~= split(a, c) + split(b, c));
    } else {
        lemma_split_concat(a, c, b.drop_last());
        lemma_split_nonempty(b.drop_last(), c);
        assert(s.drop_last() =~= a + seq![c] + b.drop_last());
        assert(s.last() == b.last());
        let x = split(a, c);
        let y = split(b.drop_last(), c);
        assert((x + y).drop_last() =~= x + y.drop_last());
        assert((x + y).last() == y.last());
        assert(split(s, c) =~= split(a, c) + split(b, c));
    }
}

/// A string without the separator is one segment.
pub proof fn lemma_split_single(s: Seq<char>, c: char)
    requires
        !s.contains(c),
    ensures
        split(s, c) == seq![s],
    decreases s.len(),
{
    if s.len() == 0 {
        assert(s =~= seq![]);
        assert(split(s, c) =~= seq![s]);
    } else {
        let t = s.drop_last();
        assert(s.contains(s[s.len() - 1]));
        assert forall|i: int| 0 <= i < t.len() implies t[i] != c by {
            assert(s.contains(s[i]));
        }
        lemma_split_single(t, c);
        assert(t.push(s.last()) =~= s);
        assert(split(s, c) =~= seq![s]);
    }
}

/// An ASCII string is put in lowercase letter by letter, and any other string as
/// `str::to_lowercase` does it.
pub proof fn law_lowercase(s: Seq<char>)
    ensures
        (forall|i: int| 0 <= i < s.len() ==> '\0' <= #[trigger] s[i] <= '\u{7f}') ==> lowercase(s)
            == ascii_lowercase(s),
        (exists|i: int| 0 <= i < s.len() && #[trigger] s[i] > '\u{7f}') ==> lowercase(s)
            == unicode_lowercase(s),
{
}

} // verus!
