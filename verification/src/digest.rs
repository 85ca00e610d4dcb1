//! SHA-256 digests: as hexadecimal text, and as identities.

use sha2::Digest;
use vstd::prelude::*;
use vstd::string::*;
use vstd::utf8::encode_utf8;

verus! {

/// The SHA-256 digest of a sequence of bytes, as `sha2` computes it.
pub uninterp spec fn sha256(data: Seq<u8>) -> Seq<u8>;

/// `sha2::Sha256::digest`: the digest, which has 32 bytes.
#[verifier::external_body]
fn sha256_digest(data: &[u8]) -> (r: Vec<u8>)
    ensures
        r@ == sha256(data@),
        r@.len() == 32,
{
    sha2::Sha256::digest(data).to_vec()
}

/// The number that the first eight bytes of a digest stand for, the highest byte first and without
/// its highest bit.
pub open spec fn leading_number(digest: Seq<u8>) -> int {
    let top = (digest[0] % 128) as int;
    ((((((top * 256 + digest[1]) * 256 + digest[2]) * 256 + digest[3]) * 256 + digest[4]) * 256
        + digest[5]) * 256 + digest[6]) * 256 + digest[7]
}

/// The identity that a digest stands for: a negative number.
pub open spec fn id_of_digest(digest: Seq<u8>) -> int {
    let n = leading_number(digest);
    if n >= 1 {
        -n
    } else {
        -1
    }
}

/// The identity of a text, from its digest.
pub open spec fn stable_id_of(text: Seq<char>) -> i64 {
    id_of_digest(sha256(encode_utf8(text))) as i64
}

/// The identity that a digest stands for.
pub fn digest_id(digest: &Vec<u8>) -> (r: i64)
    requires
        digest@.len() >= 8,
    ensures
        r == id_of_digest(digest@),
        r < 0,
{
    let a: i64 = (digest[0] % 128) as i64;
    let b: i64 = a * 256 + digest[1] as i64;
    let c: i64 = b * 256 + digest[2] as i64;
    let d: i64 = c * 256 + digest[3] as i64;
    let e: i64 = d * 256 + digest[4] as i64;
    let f: i64 = e * 256 + digest[5] as i64;
    let g: i64 = f * 256 + digest[6] as i64;
    let n: i64 = g * 256 + digest[7] as i64;
    if n >= 1 {
        -n
    } else {
        -1
    }
}

/// The identity of a text: the same text has the same identity, and it is negative, so it is none
/// that a schedule hands out.
pub fn stable_id(value: &str) -> (r: i64)
    ensures
        r == stable_id_of(value@),
        r < 0,
{
    let digest: Vec<u8> = sha256_digest(value.as_bytes());
    digest_id(&digest)
}

/// The hexadecimal digit for `n`.
pub open spec fn hex_digit(n: int) -> char {
    if n < 10 {
        ((0x30 + n) as u32) as char
    } else {
        ((0x57 + n) as u32) as char
    }
}

/// Bytes in hexadecimal notation, with small letters.
pub open spec fn hex(bytes: Seq<u8>) -> Seq<char>
    decreases bytes.len(),
{
    if bytes.len() == 0 {
        Seq::empty()
    } else {
        hex(bytes.drop_last()).push(hex_digit(bytes.last() as int / 16)).push(
            hex_digit(bytes.last() as int % 16),
        )
    }
}

fn hex_char(n: u8) -> (r: char)
    requires
        n < 16,
    ensures
        r == hex_digit(n as int),
{
    if n < 10 {
        (0x30u8 + n) as char
    } else {
        (0x57u8 + n) as char
    }
}

/// Bytes in hexadecimal notation, with small letters.
pub fn hex_text(bytes: &Vec<u8>) -> (r: String)
    ensures
        r@ == hex(bytes@),
{
    let mut out: String = String::new();
    let mut i: usize = 0;
    assert(hex(bytes@.take(0)) =~= Seq::empty());
    while i < bytes.len()
        invariant
            i <= bytes@.len(),
            out@ == hex(bytes@.take(i as int)),
        decreases bytes@.len() - i,
    {
        assert(bytes@.take(i + 1).drop_last() =~= bytes@.take(i as int));
        out.push(hex_char(bytes[i] / 16));
        out.push(hex_char(bytes[i] % 16));
        i = i + 1;
    }
    assert(bytes@.take(i as int) =~= bytes@);
    out
}

/// The SHA-256 digest of `data` in hexadecimal notation.
pub fn sha256_hex(data: &[u8]) -> (r: String)
    ensures
        r@ == hex(sha256(data@)),
{
    let digest: Vec<u8> = sha256_digest(data);
    hex_text(&digest)
}

/// Identities are negative numbers.
pub proof fn stable_ids_are_negative(digest: Seq<u8>)
    ensures
        -0x7fff_ffff_ffff_ffff <= id_of_digest(digest) < 0,
{
}

proof fn lemma_hex_digits(x: int, y: int)
    requires
        0 <= x < 16,
        0 <= y < 16,
    ensures
        hex_digit(x) == hex_digit(y) ==> x == y,
{
}

proof fn lemma_hex_len(bytes: Seq<u8>)
    ensures
        hex(bytes).len() == 2 * bytes.len(),
    decreases bytes.len(),
{
    if bytes.len() > 0 {
        lemma_hex_len(bytes.drop_last());
    }
}

/// Hexadecimal notation has two digits for each byte and tells bytes apart.
pub proof fn hex_is_injective(a: Seq<u8>, b: Seq<u8>)
    ensures
        hex(a).len() == 2 * a.len(),
        hex(a) == hex(b) ==> a == b,
    decreases a.len(),
{
    lemma_hex_len(a);
    lemma_hex_len(b);
    if hex(a) == hex(b) {
        if a.len() == 0 {
            assert(a =~= b);
        } else {
            let n = hex(a).len() as int;
            let x = a.last() as int;
            let y = b.last() as int;
            assert(hex(a).take(n - 2) =~= hex(a.drop_last()));
            assert(hex(b).take(n - 2) =~= hex(b.drop_last()));
            hex_is_injective(a.drop_last(), b.drop_last());
            assert(hex(a)[n - 1] == hex_digit(x % 16));
            assert(hex(b)[n - 1] == hex_digit(y % 16));
            assert(hex(a)[n - 2] == hex_digit(x / 16));
            assert(hex(b)[n - 2] == hex_digit(y / 16));
            lemma_hex_digits(x % 16, y % 16);
            lemma_hex_digits(x / 16, y / 16);
            assert(x == y);
            assert(a =~= a.drop_last().push(a.last()));
            assert(b =~= b.drop_last().push(b.last()));
        }
    }
}

/// Each byte stands as two digits, the sixteens first, in the order of the bytes. A digit is `0` to
/// `9`, or `a` to `f` for ten to fifteen.
pub proof fn bytes_stand_as_two_digits(bytes: Seq<u8>)
    ensures
        hex(bytes).len() == 2 * bytes.len(),
        forall|i: int|
            #![trigger bytes[i]]
            0 <= i < bytes.len() ==> {
                let high = hex(bytes)[2 * i] as int;
                let low = hex(bytes)[2 * i + 1] as int;
                &&& bytes[i] / 16 < 10 ==> high == 48 + bytes[i] / 16
                &&& bytes[i] / 16 >= 10 ==> high == 87 + bytes[i] / 16
                &&& bytes[i] % 16 < 10 ==> low == 48 + bytes[i] % 16
                &&& bytes[i] % 16 >= 10 ==> low == 87 + bytes[i] % 16
            },
    decreases bytes.len(),
{
    lemma_hex_len(bytes);
    if bytes.len() > 0 {
        let shorter = bytes.drop_last();
        bytes_stand_as_two_digits(shorter);
        lemma_hex_len(shorter);
        assert forall|i: int|
            #![trigger bytes[i]]
            0 <= i < bytes.len() implies {
            let high = hex(bytes)[2 * i] as int;
            let low = hex(bytes)[2 * i + 1] as int;
            &&& bytes[i] / 16 < 10 ==> high == 48 + bytes[i] / 16
            &&& bytes[i] / 16 >= 10 ==> high == 87 + bytes[i] / 16
            &&& bytes[i] % 16 < 10 ==> low == 48 + bytes[i] % 16
            &&& bytes[i] % 16 >= 10 ==> low == 87 + bytes[i] % 16
        } by {
            if i < shorter.len() {
                assert(shorter[i] == bytes[i]);
                assert(hex(bytes)[2 * i] == hex(shorter)[2 * i]);
                assert(hex(bytes)[2 * i + 1] == hex(shorter)[2 * i + 1]);
            }
        }
    }
}

/// The identity of a digest is what its first eight bytes say, the highest first and without the
/// highest bit, below zero. No digest has the identity zero.
pub proof fn identities_are_the_first_eight_bytes(digest: Seq<u8>)
    requires
        digest.len() >= 8,
    ensures
        ({
            let n = (digest[0] % 128) * 0x100_0000_0000_0000 + digest[1] * 0x1_0000_0000_0000
                + digest[2] * 0x100_0000_0000 + digest[3] * 0x1_0000_0000 + digest[4] * 0x100_0000
                + digest[5] * 0x1_0000 + digest[6] * 0x100 + digest[7];
            &&& n > 0 ==> id_of_digest(digest) == -n
            &&& n == 0 ==> id_of_digest(digest) == -1
        }),
{
}

/// A text is known by the digest of its UTF-8 bytes.
pub proof fn texts_are_known_by_their_digest(text: Seq<char>)
    ensures
        stable_id_of(text) == id_of_digest(sha256(encode_utf8(text))),
{
}
} // verus!
