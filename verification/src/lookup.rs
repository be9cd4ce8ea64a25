use vstd::prelude::*;
use crate::errors::LookupError;
use crate::digest::{spec_hash, spec_prefix, spec_suffix, hash_password, split_digest};
use crate::response::{spec_count_for_suffix, count_for_suffix};

verus! {

/// The outcome of a range query: a non-200 status is surfaced as a service
/// error; otherwise the body is scanned for the hash suffix.
pub open spec fn spec_evaluate(status: u16, body: Seq<u8>, suffix: Seq<u8>) -> Result<
    u32,
    LookupError,
> {
    if status != 200 {
        Err(LookupError::ServiceError { status })
    } else {
        spec_count_for_suffix(body, suffix)
    }
}

/// Judges one range-endpoint response against a hash suffix.
pub fn evaluate_response(status: u16, body: &[u8], suffix: &[u8]) -> (r: Result<u32, LookupError>)
    ensures
        r == spec_evaluate(status, body@, suffix@),
{
    if status != 200 {
        Err(LookupError::ServiceError { status })
    } else {
        count_for_suffix(body, suffix)
    }
}

/// The breach count of a password, as decided by the status and body of the
/// one range request its hash prefix names.
pub open spec fn spec_lookup_outcome(password: Seq<u8>, status: u16, body: Seq<u8>) -> Result<
    u32,
    LookupError,
> {
    spec_evaluate(status, body, spec_suffix(spec_hash(password)))
}

/// The 5-character hash prefix that a lookup for this password sends to the
/// range endpoint. This is the only value derived from the password that
/// leaves the process.
pub fn query_prefix(password: &[u8]) -> (r: Vec<u8>)
    ensures
        r@ == spec_prefix(spec_hash(password@)),
        r@.len() == 5,
{
    let h = hash_password(password);
    let (p, _s) = split_digest(h.as_slice());
    p
}

/// Decides a whole lookup from the password and the response to its range
/// request: hashes the password, splits off the 35-character suffix, and
/// judges the response. The caller performs the one HTTP GET for
/// `query_prefix(password)` and hands status and body here; a transport
/// failure is its to report as `LookupError::TransportError`.
pub fn lookup_outcome(password: &[u8], status: u16, body: &[u8]) -> (r: Result<u32, LookupError>)
    ensures
        r == spec_lookup_outcome(password@, status, body@),
{
    let h = hash_password(password);
    let (_p, s) = split_digest(h.as_slice());
    evaluate_response(status, body, s.as_slice())
}

} // verus!
