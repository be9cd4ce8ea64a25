use vstd::prelude::*;
use crate::hex::{hex_of_bytes, is_upper_hex, to_upper_hex, lemma_hex_of_bytes_shape};

verus! {

/// The SHA-1 digest of a byte string: a function of its input alone.
pub uninterp spec fn sha1_of(data: Seq<u8>) -> Seq<u8>;

/// Relies on sha1::Sha1::digest (through the digest crate's `Digest` trait):
/// the SHA-1 digest is 20 bytes long and depends on the input bytes alone.
#[verifier::external_body]
fn sha1_digest(data: &[u8]) -> (r: Vec<u8>)
    ensures
        r@ == sha1_of(data@),
        r@.len() == 20,
{
    <sha1::Sha1 as sha1::Digest>::digest(data).to_vec()
}

/// The uppercase hexadecimal SHA-1 digest of a password's bytes.
pub open spec fn spec_hash(password: Seq<u8>) -> Seq<u8> {
    hex_of_bytes(sha1_of(password))
}

/// Hashes a password's bytes with SHA-1 and renders the digest as 40
/// uppercase hexadecimal characters.
pub fn hash_password(password: &[u8]) -> (r: Vec<u8>)
    ensures
        r@ == spec_hash(password@),
        r@.len() == 40,
        forall|i: int| 0 <= i < r@.len() ==> is_upper_hex(#[trigger] r@[i]),
{
    let d = sha1_digest(password);
    proof {
        lemma_hex_of_bytes_shape(d@);
    }
    to_upper_hex(d.as_slice())
}

/// The 5-character query prefix of an uppercase hexadecimal digest.
pub open spec fn spec_prefix(hash: Seq<u8>) -> Seq<u8> {
    hash.subrange(0, 5)
}

/// The 35-character matching suffix of an uppercase hexadecimal digest.
pub open spec fn spec_suffix(hash: Seq<u8>) -> Seq<u8> {
    hash.subrange(5, 40)
}

/// Splits a 40-character digest into the 5-character prefix that is sent to
/// the range endpoint and the 35-character suffix that is matched locally.
/// Prefix and suffix together reconstruct the digest.
pub fn split_digest(hash: &[u8]) -> (r: (Vec<u8>, Vec<u8>))
    requires
        hash@.len() == 40,
    ensures
        r.0@ == spec_prefix(hash@),
        r.1@ == spec_suffix(hash@),
        r.0@ + r.1@ == hash@,
        r.0@.len() == 5,
        r.1@.len() == 35,
{
    let prefix = vstd::slice::slice_to_vec(vstd::slice::slice_subrange(hash, 0, 5));
    let suffix = vstd::slice::slice_to_vec(vstd::slice::slice_subrange(hash, 5, 40));
    proof {
        assert(spec_prefix(hash@) + spec_suffix(hash@) =~= hash@);
    }
    (prefix, suffix)
}

} // verus!
