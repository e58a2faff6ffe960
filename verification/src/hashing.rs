//! Content hashing: SHA-224, hex-encoded to 56 lowercase digits.
//!
//! The hex rendering is specified exactly; the digest itself is named by an
//! uninterpreted function, since it depends on the input bytes alone.

use vstd::prelude::*;

use sha2::Digest;

verus! {

/// The SHA-224 digest of a byte sequence: a function of the bytes alone.
pub uninterp spec fn sha224_of(bytes: Seq<u8>) -> Seq<u8>;

/// The lowercase hexadecimal digit for a nibble.
pub open spec fn hex_digit(v: u8) -> char
    recommends
        v < 16,
{
    if v < 10 {
        (('0' as u8) + v) as char
    } else {
        (('a' as u8) + (v - 10)) as char
    }
}

/// The lowercase hexadecimal rendering of a byte sequence: two digits per
/// byte, high nibble first.
pub open spec fn hex_of(bytes: Seq<u8>) -> Seq<char>
    decreases bytes.len(),
{
    if bytes.len() == 0 {
        Seq::empty()
    } else {
        seq![hex_digit(bytes[0] / 16), hex_digit(bytes[0] % 16)] + hex_of(bytes.skip(1))
    }
}

pub proof fn lemma_hex_of_len(bytes: Seq<u8>)
    ensures
        hex_of(bytes).len() == 2 * bytes.len(),
    decreases bytes.len(),
{
    if bytes.len() > 0 {
        lemma_hex_of_len(bytes.skip(1));
    }
}

/// Relies on sha2::Sha224 through the Digest trait: the digest is a function
/// of the input bytes alone, 28 bytes long.
#[verifier::external_body]
fn sha224(bytes: &[u8]) -> (r: Vec<u8>)
    ensures
        r@ == sha224_of(bytes@),
        r@.len() == 28,
{
    sha2::Sha224::digest(bytes).to_vec()
}

/// Relies on hex::encode: lowercase hexadecimal, two digits per byte, high
/// nibble first.
#[verifier::external_body]
fn hex_encode(bytes: &[u8]) -> (r: String)
    ensures
        r@ == hex_of(bytes@),
{
    hex::encode(bytes)
}

/// The content hash that addresses a file in the store.
pub open spec fn content_hash_of(bytes: Seq<u8>) -> Seq<char> {
    hex_of(sha224_of(bytes))
}

/// Computes the content hash of a file's bytes: the SHA-224 digest,
/// hex-encoded to 56 lowercase digits.
pub fn content_hash(bytes: &[u8]) -> (r: String)
    ensures
        r@ == content_hash_of(bytes@),
        r@.len() == 56,
{
    let digest = sha224(bytes);
    let r = hex_encode(digest.as_slice());
    proof {
        lemma_hex_of_len(sha224_of(bytes@));
    }
    r
}

} // verus!
