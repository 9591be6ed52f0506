//! Tagged-SHA256 commitments: the identity scheme of every consensus
//! object.
//!
//! `commit_id(x) = SHA256( SHA256(tag) || SHA256(tag) || strict_encode(x) )`
//! where `tag` is a fixed per-type 32-byte ASCII constant. The doubled
//! tag pre-image is the LNPBP-style tagged hash.

use vstd::prelude::*;
use commit_verify::{DigestExt, Sha256};

verus! {

/// What SHA-256 returns on the given bytes: a function of the input
/// alone, left unstated here.
pub uninterp spec fn sha256_of(data: Seq<u8>) -> Seq<u8>;

/// Relies on `sha2::Sha256` through `commit_verify`'s digest surface:
/// one digest over the input bytes, 32 bytes out, a function of the
/// input alone.
#[verifier::external_body]
pub fn sha256(data: &Vec<u8>) -> (r: [u8; 32])
    ensures
        r@ == sha256_of(data@),
{
    let mut engine = Sha256::default();
    engine.input_raw(data.as_slice());
    engine.finish()
}

/// The tagged hash: SHA-256 over the doubled hashed tag followed by the
/// payload.
pub open spec fn spec_tagged_hash(tag: Seq<u8>, payload: Seq<u8>) -> Seq<u8> {
    sha256_of(sha256_of(tag) + sha256_of(tag) + payload)
}

/// Computes the tagged hash of `payload` under `tag`.
pub fn tagged_hash(tag: &[u8; 32], payload: &Vec<u8>) -> (r: [u8; 32])
    ensures
        r@ == spec_tagged_hash(tag@, payload@),
{
    let mut tv: Vec<u8> = Vec::new();
    tv.extend_from_slice(tag.as_slice());
    proof {
        assert(tv@ =~= tag@);
    }
    let th = sha256(&tv);
    let mut pre: Vec<u8> = Vec::new();
    pre.extend_from_slice(th.as_slice());
    pre.extend_from_slice(th.as_slice());
    pre.extend_from_slice(payload.as_slice());
    proof {
        assert(pre@ =~= sha256_of(tag@) + sha256_of(tag@) + payload@);
    }
    sha256(&pre)
}

// The fixed per-type commitment tags, 32 ASCII bytes each.

// urn:lnpbp:rgb:genesis:v01#202302
pub const TAG_GENESIS: [u8; 32] = [117, 114, 110, 58, 108, 110, 112, 98, 112, 58, 114, 103, 98, 58, 103, 101, 110, 101, 115, 105, 115, 58, 118, 48, 49, 35, 50, 48, 50, 51, 48, 50];

// urn:lnpbp:rgb:transition:v01#32A
pub const TAG_TRANSITION: [u8; 32] = [117, 114, 110, 58, 108, 110, 112, 98, 112, 58, 114, 103, 98, 58, 116, 114, 97, 110, 115, 105, 116, 105, 111, 110, 58, 118, 48, 49, 35, 51, 50, 65];

// urn:lnpbp:rgb:extension:v01#2023
pub const TAG_EXTENSION: [u8; 32] = [117, 114, 110, 58, 108, 110, 112, 98, 112, 58, 114, 103, 98, 58, 101, 120, 116, 101, 110, 115, 105, 111, 110, 58, 118, 48, 49, 35, 50, 48, 50, 51];

// urn:lnpbp:rgb:seal:v01#202302A01
pub const TAG_SEAL: [u8; 32] = [117, 114, 110, 58, 108, 110, 112, 98, 112, 58, 114, 103, 98, 58, 115, 101, 97, 108, 58, 118, 48, 49, 35, 50, 48, 50, 51, 48, 50, 65, 48, 49];

// urn:lnpbp:rgb:schema:v01#202302A
pub const TAG_SCHEMA: [u8; 32] = [117, 114, 110, 58, 108, 110, 112, 98, 112, 58, 114, 103, 98, 58, 115, 99, 104, 101, 109, 97, 58, 118, 48, 49, 35, 50, 48, 50, 51, 48, 50, 65];

// urn:lnpbp:rgb:assignment:v01#23A
pub const TAG_ASSIGNMENT: [u8; 32] = [117, 114, 110, 58, 108, 110, 112, 98, 112, 58, 114, 103, 98, 58, 97, 115, 115, 105, 103, 110, 109, 101, 110, 116, 58, 118, 48, 49, 35, 50, 51, 65];

} // verus!
