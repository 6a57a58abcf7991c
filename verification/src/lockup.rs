//! The lockup account derived from an account name: the first twenty bytes
//! of the account's SHA-256 digest, written as lowercase hex, under the
//! lockup contract's domain.  Whether that account exists on chain is a
//! separate upstream question.

use sha2::Digest;
use vstd::prelude::*;
use vstd::string::{StringExecFns, StringSliceAdditionalSpecFns, StrSliceExecFns};
use vstd::slice::slice_subrange;
use vstd::utf8::encode_utf8;

verus! {

/// The SHA-256 digest of a byte sequence; the digest is a function of the
/// bytes alone.
pub uninterp spec fn sha256_of(b: Seq<u8>) -> Seq<u8>;

/// Relies on sha2's `Sha256::digest`: the SHA-256 digest of the input,
/// which is always 32 bytes.
#[verifier::external_body]
fn sha256_digest(b: &[u8]) -> (r: Vec<u8>)
    ensures
        r@ == sha256_of(b@),
        r@.len() == 32,
{
    sha2::Sha256::digest(b).to_vec()
}

/// The lowercase hex digit of a value below sixteen.
pub open spec fn hex_digit(n: u8) -> char {
    if n == 0 {
        '0'
    } else if n == 1 {
        '1'
    } else if n == 2 {
        '2'
    } else if n == 3 {
        '3'
    } else if n == 4 {
        '4'
    } else if n == 5 {
        '5'
    } else if n == 6 {
        '6'
    } else if n == 7 {
        '7'
    } else if n == 8 {
        '8'
    } else if n == 9 {
        '9'
    } else if n == 10 {
        'a'
    } else if n == 11 {
        'b'
    } else if n == 12 {
        'c'
    } else if n == 13 {
        'd'
    } else if n == 14 {
        'e'
    } else {
        'f'
    }
}

/// Each byte written as two lowercase hex digits, high half first.
pub open spec fn hex_seq(b: Seq<u8>) -> Seq<char>
    decreases b.len(),
{
    if b.len() == 0 {
        Seq::empty()
    } else {
        seq![hex_digit(b.first() / 16), hex_digit(b.first() % 16)] + hex_seq(b.drop_first())
    }
}

/// Relies on hex's `encode`: each byte becomes two lowercase hex digits,
/// most significant half first.
#[verifier::external_body]
fn hex_lower(b: &[u8]) -> (r: String)
    ensures
        r@ == hex_seq(b@),
{
    hex::encode(b)
}

/// The lockup account that corresponds to an account: the first twenty
/// digest bytes in hex, under ".lockup.near".  The empty account has no
/// lockup account.
pub fn lockup_account_for(account_id: &str) -> (r: Option<String>)
    ensures
        r is Some <==> account_id@.len() > 0,
        r matches Some(s) ==> s@ == hex_seq(sha256_of(encode_utf8(account_id@)).take(20)) + ".lockup.near"@,
{
    if account_id.is_empty() {
        return None;
    }
    let digest = sha256_digest(account_id.as_bytes());
    let truncated = slice_subrange(digest.as_slice(), 0, 20);
    proof {
        assert(truncated@ =~= sha256_of(encode_utf8(account_id@)).take(20));
    }
    let hexed = hex_lower(truncated);
    Some(hexed.concat(".lockup.near"))
}

} // verus!
