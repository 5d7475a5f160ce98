//! Digests and their texts.
use sha2::Digest;
use vstd::prelude::*;
use vstd::string::*;
use vstd::utf8::encode_utf8;

use crate::text::{digit_value, is_digit};

verus! {

/// The SHA-256 digest of a byte sequence.
pub uninterp spec fn sha256(bytes: Seq<u8>) -> Seq<u8>;

/// The SHA-256 digest of a byte sequence. Stands for `Sha256::digest` of the
/// `sha2` crate; claims that the digest depends on the bytes alone and is 32
/// bytes long.
#[verifier::external_body]
pub(crate) fn sha256_of(bytes: &[u8]) -> (r: Vec<u8>)
    ensures
        r@ == sha256(bytes@),
        r@.len() == 32,
{
    sha2::Sha256::digest(bytes).to_vec()
}

/// The small hexadecimal digit of a value below sixteen.
pub open spec fn hex_digit(n: int) -> char {
    if n < 10 {
        (('0' as u8 + n) as u8) as char
    } else {
        (('a' as u8 + (n - 10)) as u8) as char
    }
}

/// The hexadecimal text of a byte sequence: two small digits for each byte, the
/// higher half first.
pub open spec fn hex_text(bytes: Seq<u8>) -> Seq<char> {
    Seq::new(
        bytes.len() * 2,
        |i: int|
            if i % 2 == 0 {
                hex_digit(bytes[i / 2] as int / 16)
            } else {
                hex_digit(bytes[i / 2] as int % 16)
            },
    )
}

/// The hexadecimal text of a byte sequence. Stands for `hex::encode`, which
/// writes two small digits for each byte.
#[verifier::external_body]
pub(crate) fn hex_encode(bytes: &[u8]) -> (r: String)
    ensures
        r@ == hex_text(bytes@),
{
    hex::encode(bytes)
}

/// The bytes that a hexadecimal text writes, if it is one: an even number of
/// digits, small or capital.
pub open spec fn hex_bytes(text: Seq<char>) -> Option<Seq<u8>> {
    if text.len() % 2 == 0 && forall|i: int| 0 <= i < text.len() ==> is_digit(#[trigger] text[i], 16) {
        Some(
            Seq::new(
                text.len() / 2,
                |i: int| (digit_value(text[2 * i]) * 16 + digit_value(text[2 * i + 1])) as u8,
            ),
        )
    } else {
        None
    }
}

/// The bytes that a hexadecimal text writes. Stands for `hex::decode`, which
/// takes digits of either case and fails on an odd number of them and on
/// anything else.
#[verifier::external_body]
pub(crate) fn hex_decode(text: &str) -> (r: Option<Vec<u8>>)
    ensures
        match r {
            Some(bytes) => hex_bytes(text@) == Some(bytes@),
            None => hex_bytes(text@) is None,
        },
{
    hex::decode(text).ok()
}

/// The SHA-256 digest of a byte sequence, as hexadecimal text.
pub open spec fn sha256_hex(bytes: Seq<u8>) -> Seq<char> {
    hex_text(sha256(bytes))
}

/// Whether a text can be that of a digest: 64 small hexadecimal digits.
pub open spec fn is_digest_text(s: Seq<char>) -> bool {
    &&& s.len() == 64
    &&& forall|i: int| 0 <= i < s.len() ==> is_small_hex(#[trigger] s[i])
}

/// Whether a character is a small hexadecimal digit.
pub open spec fn is_small_hex(c: char) -> bool {
    ('0' <= c && c <= '9') || ('a' <= c && c <= 'f')
}

/// The SHA-256 digest of a byte sequence, as hexadecimal text.
pub fn sha256_hex_of(bytes: &[u8]) -> (r: String)
    ensures
        r@ == sha256_hex(bytes@),
        is_digest_text(r@),
{
    let digest = sha256_of(bytes);
    let r = hex_encode(digest.as_slice());
    proof {
        assert forall|i: int| 0 <= i < r@.len() implies is_small_hex(#[trigger] r@[i]) by {
            lemma_hex_digit(digest@[i / 2] as int / 16);
            lemma_hex_digit(digest@[i / 2] as int % 16);
        }
    }
    r
}

/// The SHA-256 digest of a text in UTF-8, as hexadecimal text.
pub fn text_sha256_hex(text: &str) -> (r: String)
    ensures
        r@ == sha256_hex(encode_utf8(text@)),
        is_digest_text(r@),
{
    sha256_hex_of(text.as_bytes())
}

/// Writing bytes in hexadecimal loses nothing.
pub proof fn hex_round_trip(bytes: Seq<u8>)
    ensures
        hex_bytes(hex_text(bytes)) == Some(bytes),
{
    let text = hex_text(bytes);
    assert forall|i: int| 0 <= i < text.len() implies is_digit(#[trigger] text[i], 16) by {
        lemma_hex_digit(bytes[i / 2] as int / 16);
        lemma_hex_digit(bytes[i / 2] as int % 16);
    }
    assert forall|i: int| 0 <= i < bytes.len() implies (digit_value(text[2 * i]) * 16
        + digit_value(#[trigger] text[2 * i + 1])) as u8 == #[trigger] bytes[i] by {
        lemma_hex_digit(bytes[i] as int / 16);
        lemma_hex_digit(bytes[i] as int % 16);
        assert((2 * i) / 2 == i);
        assert((2 * i + 1) / 2 == i);
        assert((2 * i) % 2 == 0);
        assert((2 * i + 1) % 2 == 1);
    }
    assert(hex_bytes(text)->0 =~= bytes);
}

proof fn lemma_hex_digit(n: int)
    requires
        0 <= n < 16,
    ensures
        digit_value(hex_digit(n)) == n,
        is_small_hex(hex_digit(n)),
{
}

} // verus!
