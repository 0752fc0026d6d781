//! SHA-256 sums of downloaded archives, written in lower-case hexadecimal
//! as repository indexes give them.
use vstd::prelude::*;

use crate::text::str_eq;

verus! {

/// The SHA-256 digest of `data`, as the `sha2` crate computes it.
pub uninterp spec fn sha256_digest(data: Seq<u8>) -> Seq<u8>;

/// The SHA-256 digest of `data`.
///
/// Calls `sha2::Sha256::digest` (through the `Digest` trait). The contract
/// names the result `sha256_digest(data)` and adds that it is 32 bytes
/// long, as `Sha256`'s output size of 32 bytes in the `sha2` source shows;
/// nothing else of SHA-256 is stated.
#[verifier::external_body]
fn digest_sha256(data: &[u8]) -> (d: Vec<u8>)
    ensures
        d@ == sha256_digest(data@),
        d@.len() == 32,
{
    <sha2::Sha256 as sha2::Digest>::digest(data).to_vec()
}

/// The lower-case hexadecimal digit of a value below 16.
pub open spec fn hex_digit(n: int) -> char {
    if n < 10 {
        (48 + n) as char
    } else {
        (87 + n) as char
    }
}

/// Each byte as two lower-case hexadecimal digits, high digit first.
pub open spec fn hex_lower(bytes: Seq<u8>) -> Seq<char>
    decreases bytes.len(),
{
    if bytes.len() == 0 {
        Seq::empty()
    } else {
        hex_lower(bytes.drop_last()) + seq![
            hex_digit(bytes.last() as int / 16),
            hex_digit(bytes.last() as int % 16),
        ]
    }
}

/// Lower-case hexadecimal text of `data`.
///
/// Calls `hex::encode`, which in the `hex` source maps each byte to the
/// characters of the table `0123456789abcdef` at its high and at its low
/// four bits, in that order; the contract states exactly that.
#[verifier::external_body]
fn hex_encode(data: &[u8]) -> (s: String)
    ensures
        s@ == hex_lower(data@),
{
    hex::encode(data)
}

/// The SHA-256 sum of `data` in lower-case hexadecimal.
pub open spec fn sha256_hex(data: Seq<u8>) -> Seq<char> {
    hex_lower(sha256_digest(data))
}

/// The SHA-256 sum of an archive's contents, as repository indexes write
/// it.
pub fn sha256_hex_of(contents: &[u8]) -> (s: String)
    ensures
        s@ == sha256_hex(contents@),
        s@.len() == 64,
{
    let d = digest_sha256(contents);
    proof {
        lemma_hex_len(d@);
    }
    hex_encode(d.as_slice())
}

/// `hex_lower` writes two characters per byte.
pub proof fn lemma_hex_len(bytes: Seq<u8>)
    ensures
        hex_lower(bytes).len() == 2 * bytes.len(),
    decreases bytes.len(),
{
    if bytes.len() > 0 {
        lemma_hex_len(bytes.drop_last());
    }
}

/// Whether the contents have the expected sum.
pub fn sha256_hex_matches(expected: &str, contents: &[u8]) -> (b: bool)
    ensures
        b == (sha256_hex(contents@) == expected@),
{
    let s = sha256_hex_of(contents);
    str_eq(s.as_str(), expected)
}

} // verus!
