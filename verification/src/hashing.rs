//! Solution hashing: a plaintext guess is keyed by the lowercase
//! hex encoding of its SHA-256 digest.

use vstd::prelude::*;

verus! {

/// The lowercase hexadecimal digit for a nibble value below sixteen.
pub open spec fn hex_digit(n: u8) -> char
    recommends
        n < 16,
{
    if n == 0 {
        '0'
    } else if n == 1 {
        '1'
    } else if n == 2 {
        '2'
    } else if n == 3 {
        '3'
    } else if n == 4 {
        '4'
    } else if n == 5 {
        '5'
    } else if n == 6 {
        '6'
    } else if n == 7 {
        '7'
    } else if n == 8 {
        '8'
    } else if n == 9 {
        '9'
    } else if n == 10 {
        'a'
    } else if n == 11 {
        'b'
    } else if n == 12 {
        'c'
    } else if n == 13 {
        'd'
    } else if n == 14 {
        'e'
    } else {
        'f'
    }
}

/// Lowercase hex encoding of a byte sequence: two digits per byte,
/// high nibble first.
pub open spec fn hex_of(bytes: Seq<u8>) -> Seq<char>
    decreases bytes.len(),
{
    if bytes.len() == 0 {
        Seq::empty()
    } else {
        seq![hex_digit(bytes[0] / 16), hex_digit(bytes[0] % 16)] + hex_of(bytes.drop_first())
    }
}

/// The SHA-256 digest of a plaintext, as a byte sequence. The digest is a
/// fixed function of the text alone; its value is not spelled out here.
pub uninterp spec fn sha256_of(s: Seq<char>) -> Seq<u8>;

/// The key under which a puzzle with the given plaintext solution is stored.
pub open spec fn solution_hash_seq(s: Seq<char>) -> Seq<char> {
    hex_of(sha256_of(s))
}

/// Relies on near_sdk::env::sha256: the SHA-256 digest of the UTF-8 bytes of
/// the input, a 32-byte value determined by the input alone.
#[verifier::external_body]
fn sha256_digest(s: &str) -> (r: Vec<u8>)
    ensures
        r@ == sha256_of(s@),
        r@.len() == 32,
{
    near_sdk::env::sha256(s.as_bytes())
}

/// Relies on hex::encode: two lowercase hexadecimal digits for each input
/// byte, high nibble first.
#[verifier::external_body]
fn hex_lower(bytes: &Vec<u8>) -> (r: String)
    ensures
        r@ == hex_of(bytes@),
{
    hex::encode(bytes)
}

/// The hex-encoded SHA-256 digest of a plaintext solution: the public key
/// under which the matching puzzle, if any, is registered.
pub fn solution_hash_of(solution: &str) -> (r: String)
    ensures
        r@ == solution_hash_seq(solution@),
{
    let digest = sha256_digest(solution);
    hex_lower(&digest)
}

} // verus!
