//! `crypto`: random bytes, random UUIDs and digests.

use crate::hex::{bytes_to_hex, hex_bytes, hex_text, hex_to_bytes, lower_digit, lower_hex_digit};
use vstd::prelude::*;
use vstd::utf8::encode_utf8;

verus! {

/// `Rng::fill_bytes` of the `rand` crate's thread-local generator: as many bytes
/// as were asked for. Nothing can be said of their values.
#[verifier::external_body]
fn random_bytes(len: usize) -> (r: Vec<u8>)
    ensures
        r@.len() == len,
{
    let mut bytes = vec![0u8; len];
    rand::Rng::fill_bytes(&mut rand::rng(), &mut bytes);
    bytes
}

/// The SHA-256 digest of bytes.
pub uninterp spec fn sha256(data: Seq<u8>) -> Seq<u8>;

/// `sha2::Sha256::digest`: 32 bytes that depend on the data alone. Which ones is
/// only named.
#[verifier::external_body]
fn sha256_digest(data: &[u8]) -> (r: Vec<u8>)
    ensures
        r@ == sha256(data@),
        r@.len() == 32,
{
    <sha2::Sha256 as sha2::Digest>::digest(data).to_vec()
}

/// The hexadecimal text of random bytes, of which `len` are asked for.
pub fn random_hex(len: usize) -> (r: String)
    ensures
        exists|bytes: Seq<u8>| bytes.len() == len && r@ == #[trigger] hex_text(bytes),
{
    let bytes = random_bytes(len);
    bytes_to_hex(bytes.as_slice())
}

/// Sixteen bytes with the version and the variant of a random UUID in place: the
/// seventh byte starts with the digit 4, and the ninth with the bits 10.
pub open spec fn uuid_bytes(b: Seq<u8>) -> Seq<u8> {
    b.update(6, (b[6] % 16 + 64) as u8).update(8, (b[8] % 64 + 128) as u8)
}

/// The text of a UUID: hexadecimal digits in groups of 8, 4, 4, 4 and 12.
pub open spec fn uuid_text(b: Seq<u8>) -> Seq<char> {
    let h = hex_text(uuid_bytes(b));
    h.subrange(0, 8) + seq!['-'] + h.subrange(8, 12) + seq!['-'] + h.subrange(12, 16) + seq!['-']
        + h.subrange(16, 20) + seq!['-'] + h.subrange(20, 32)
}

/// The random UUID that sixteen bytes make.
pub fn uuid_from_bytes(random: Vec<u8>) -> (r: String)
    requires
        random@.len() == 16,
    ensures
        r@ == uuid_text(random@),
{
    let mut bytes = random;
    let seventh: u8 = bytes[6] % 16 + 64;
    bytes.set(6, seventh);
    let ninth: u8 = bytes[8] % 64 + 128;
    bytes.set(8, ninth);
    let ghost h = hex_text(uuid_bytes(random@));
    assert(bytes@ =~= uuid_bytes(random@));
    let mut out = String::new();
    let mut i: usize = 0;
    while i < 16
        invariant
            i <= 16,
            bytes@.len() == 16,
            h == hex_text(bytes@),
            out@ == grouped(h, 2 * i as int),
        decreases 16 - i,
    {
        let ghost before = out@;
        if i == 4 || i == 6 || i == 8 || i == 10 {
            out.push('-');
        }
        let ghost opened = out@;
        out.push(lower_hex_digit(bytes[i] / 16));
        out.push(lower_hex_digit(bytes[i] % 16));
        proof {
            let n = 2 * i as int;
            assert(h[n] == lower_digit(bytes@[i as int] as int / 16));
            assert(h[n + 1] == lower_digit(bytes@[i as int] as int % 16));
            assert(out@ == opened.push(h[n]).push(h[n + 1]));
            reveal_with_fuel(grouped, 3);
        }
        i = i + 1;
    }
    proof {
        lemma_grouped(h);
    }
    out
}

/// The first `n` digits of a UUID with the hyphens before and between them.
spec fn grouped(h: Seq<char>, n: int) -> Seq<char>
    decreases n,
{
    if n <= 0 {
        seq![]
    } else {
        let before = grouped(h, n - 1);
        let at = n - 1;
        if at == 8 || at == 12 || at == 16 || at == 20 {
            before.push('-').push(h[at])
        } else {
            before.push(h[at])
        }
    }
}

proof fn lemma_grouped_run(h: Seq<char>, from: int, n: int)
    requires
        0 <= from <= n <= h.len(),
        !(from <= 8 < n) && !(from <= 12 < n) && !(from <= 16 < n) && !(from <= 20 < n),
    ensures
        grouped(h, n) == grouped(h, from) + h.subrange(from, n),
    decreases n - from,
{
    if n == from {
        assert(grouped(h, from) + h.subrange(from, n) =~= grouped(h, from));
    } else {
        lemma_grouped_run(h, from, n - 1);
        assert(grouped(h, n) =~= grouped(h, from) + h.subrange(from, n));
    }
}

proof fn lemma_grouped(h: Seq<char>)
    requires
        h.len() == 32,
    ensures
        grouped(h, 32) == h.subrange(0, 8) + seq!['-'] + h.subrange(8, 12) + seq!['-']
            + h.subrange(12, 16) + seq!['-'] + h.subrange(16, 20) + seq!['-'] + h.subrange(20, 32),
{
    lemma_grouped_run(h, 0, 8);
    lemma_grouped_run(h, 9, 12);
    lemma_grouped_run(h, 13, 16);
    lemma_grouped_run(h, 17, 20);
    lemma_grouped_run(h, 21, 32);
    assert(grouped(h, 8) =~= h.subrange(0, 8));
    assert(grouped(h, 12) =~= h.subrange(0, 8) + seq!['-'] + h.subrange(8, 12));
    assert(grouped(h, 16) =~= grouped(h, 12) + seq!['-'] + h.subrange(12, 16));
    assert(grouped(h, 20) =~= grouped(h, 16) + seq!['-'] + h.subrange(16, 20));
    assert(grouped(h, 32) =~= grouped(h, 20) + seq!['-'] + h.subrange(20, 32));
}

/// A random UUID.
pub fn random_uuid() -> (r: String)
    ensures
        exists|bytes: Seq<u8>| bytes.len() == 16 && r@ == #[trigger] uuid_text(bytes),
{
    let bytes = random_bytes(16);
    uuid_from_bytes(bytes)
}

/// The digest of data that is given, and gives itself, as hexadecimal text. It
/// is SHA-256, whichever algorithm is asked for.
pub fn subtle_digest_hex(_algorithm: &str, data_hex: &str) -> (r: String)
    ensures
        r@ == hex_text(sha256(hex_bytes(encode_utf8(data_hex@)))),
        r@.len() == 64,
{
    let bytes = hex_to_bytes(data_hex);
    let digest = sha256_digest(bytes.as_slice());
    bytes_to_hex(digest.as_slice())
}

/// A random UUID has 36 characters, hyphens at four places, the version 4, one of
/// the four digits of its variant, and hexadecimal digits everywhere else.
pub proof fn law_uuid_shape(b: Seq<u8>, i: int)
    requires
        b.len() == 16,
        0 <= i < 36,
    ensures
        uuid_text(b).len() == 36,
        uuid_text(b)[8] == '-' && uuid_text(b)[13] == '-' && uuid_text(b)[18] == '-' && uuid_text(
            b,
        )[23] == '-',
        uuid_text(b)[14] == '4',
        uuid_text(b)[19] == '8' || uuid_text(b)[19] == '9' || uuid_text(b)[19] == 'a' || uuid_text(
            b,
        )[19] == 'b',
        i != 8 && i != 13 && i != 18 && i != 23 ==> '0' <= uuid_text(b)[i] <= '9' || 'a'
            <= uuid_text(b)[i] <= 'f',
{
    let c = uuid_bytes(b);
    let h = hex_text(c);
    let t = uuid_text(b);
    assert(t[14] == h[12]);
    assert(h[12] == lower_digit(c[6] as int / 16));
    assert(c[6] as int / 16 == 4);
    assert(t[19] == h[16]);
    assert(h[16] == lower_digit(c[8] as int / 16));
    assert(8 <= c[8] as int / 16 <= 11);
    if i != 8 && i != 13 && i != 18 && i != 23 {
        let j = if i < 8 {
            i
        } else if i < 13 {
            i - 1
        } else if i < 18 {
            i - 2
        } else if i < 23 {
            i - 3
        } else {
            i - 4
        };
        assert(t[i] == h[j]);
        let v = if j % 2 == 0 {
            c[j / 2] as int / 16
        } else {
            c[j / 2] as int % 16
        };
        assert(h[j] == lower_digit(v));
        assert(0 <= v < 16);
    }
}

/// The digits of a random UUID are those of its bytes, all of them and in order, but
/// for the digit of the version and the two highest bits of the digit of the
/// variant.
pub proof fn law_uuid_digits(b: Seq<u8>, j: int)
    requires
        b.len() == 16,
        0 <= j < 32,
        j != 12 && j != 16,
    ensures
        uuid_text(b)[if j < 8 {
            j
        } else if j < 12 {
            j + 1
        } else if j < 16 {
            j + 2
        } else if j < 20 {
            j + 3
        } else {
            j + 4
        }] == hex_text(b)[j],
        uuid_text(b)[19] == "89ab"@[b[8] as int / 16 % 4],
{
    let c = uuid_bytes(b);
    let h = hex_text(c);
    assert(b[6] % 16 == c[6] % 16);
    assert(b[8] % 16 == c[8] % 16);
    assert(h[j] == hex_text(b)[j]);
    reveal_strlit("89ab");
    assert("89ab"@ =~= seq!['8', '9', 'a', 'b']);
    assert(c[8] as int == b[8] as int % 64 + 128);
    assert(c[8] as int / 16 == b[8] as int / 16 % 4 + 8);
    assert(uuid_text(b)[19] == h[16]);
    assert(h[16] == lower_digit(c[8] as int / 16));
}

} // verus!
