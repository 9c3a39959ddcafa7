//! Stable site identity: a SHA-256 over the fleet log id and the candidate's
//! fields, so Ran and Clear marks survive re-parsing the same log.

use sha2::{Digest, Sha256};
use vstd::prelude::*;
use vstd::utf8::encode_utf8;
use crate::clock::{rfc3339_of, rfc3339_text, valid_ts};
use crate::text::push_char;
use crate::types::{SiteCandidate, SiteCandidateView};

verus! {

/// What SHA-256 (`sha2::Sha256`) yields for `data`.
pub uninterp spec fn sha256(data: Seq<u8>) -> Seq<u8>;

/// Hashes the UTF-8 bytes of `text` with `sha2::Sha256` (`new`, `update`,
/// `finalize`). The contract names the digest and states its documented
/// 32-byte length.
#[verifier::external_body]
fn sha256_of_text(text: &str) -> (r: Vec<u8>)
    ensures
        r@ == sha256(encode_utf8(text@)),
        r@.len() == 32,
{
    let mut hasher = Sha256::new();
    hasher.update(text.as_bytes());
    hasher.finalize().to_vec()
}

pub open spec fn hex_digit(n: int) -> char {
    if n < 10 {
        (48 + n) as char
    } else {
        (87 + n) as char
    }
}

/// Lower-case hexadecimal, two characters per byte, high nibble first.
pub open spec fn hex_lower(data: Seq<u8>) -> Seq<char>
    decreases data.len(),
{
    if data.len() == 0 {
        seq![]
    } else {
        seq![hex_digit(data[0] as int / 16), hex_digit(data[0] as int % 16)] + hex_lower(data.drop_first())
    }
}

/// Calls `hex::encode`, which writes each byte as two lower-case hex digits,
/// high nibble first (`HEX_CHARS_LOWER` in the crate's source); the contract
/// states exactly that.
#[verifier::external_body]
fn hex_encode(data: &Vec<u8>) -> (r: String)
    ensures
        r@ == hex_lower(data@),
{
    hex::encode(data)
}

/// Decimal digits of `n`, as `to_string` writes an unsigned integer.
pub open spec fn decimal(n: nat) -> Seq<char>
    decreases n,
{
    if n < 10 {
        seq![(48 + n) as char]
    } else {
        decimal(n / 10) + seq![(48 + n % 10) as char]
    }
}


/// Decimal digits of `n`.
pub fn decimal_string(n: u64) -> (r: String)
    ensures
        r@ == decimal(n as nat),
    decreases n,
{
    if n < 10 {
        let mut s = String::new();
        let d = ((n as u8) + 48) as char;
        push_char(&mut s, d);
        assert(s@ =~= decimal(n as nat));
        s
    } else {
        let mut s = decimal_string(n / 10);
        let d = (((n % 10) as u8) + 48) as char;
        push_char(&mut s, d);
        assert(s@ =~= decimal(n as nat));
        s
    }
}

/// The text that a site id hashes.
pub open spec fn site_id_input(fleet_log_id: Seq<char>, c: SiteCandidateView) -> Seq<char> {
    fleet_log_id + "|"@ + rfc3339_text(c.posted_at).unwrap() + "|"@ + c.speaker + "|"@ + c.tag
        + "|"@ + decimal(c.line_ordinal as nat)
}

/// The id of candidate `c` in log `fleet_log_id`.
pub open spec fn site_id_of(fleet_log_id: Seq<char>, c: SiteCandidateView) -> Seq<char> {
    hex_lower(sha256(encode_utf8(site_id_input(fleet_log_id, c))))
}

/// Stable site identity for Ran persistence across re-parses.
pub fn site_id(fleet_log_id: &str, candidate: &SiteCandidate) -> (r: String)
    requires
        valid_ts(candidate.posted_at as int),
    ensures
        r@ == site_id_of(fleet_log_id@, candidate@),
{
    let stamp = match rfc3339_of(candidate.posted_at) {
        Some(s) => s,
        None => String::new(),
    };
    let mut input = String::new();
    input.append(fleet_log_id);
    input.append("|");
    input.append(stamp.as_str());
    input.append("|");
    input.append(candidate.speaker.as_str());
    input.append("|");
    input.append(candidate.tag.as_str());
    input.append("|");
    let ordinal = decimal_string(candidate.line_ordinal as u64);
    input.append(ordinal.as_str());
    assert(input@ =~= site_id_input(fleet_log_id@, candidate@));
    let digest = sha256_of_text(input.as_str());
    hex_encode(&digest)
}

} // verus!
