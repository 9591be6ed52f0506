//! Owned state: the four state strategies, the assignment of a seal to a
//! state value, and the conceal operations.
//!
//! An assignment binds one single-use seal to one state value; seal and
//! state each exist in a revealed and a concealed form, giving four
//! assignment variants. Assignments commit under the conceal-strict
//! strategy: the commitment is taken over the strict encoding of the
//! fully concealed form, so revealing or hiding a datum never changes
//! what an assignment commits to.

use vstd::prelude::*;

use crate::commit::{spec_tagged_hash, tagged_hash, TAG_ASSIGNMENT};
use crate::encoding::{enc_u16, enc_u64, write_u16, write_u64, write_bytes32};
use crate::ids::{lex_cmp, bytes32_cmp};
use crate::seal::{seq_to_arr32, lemma_seq_to_arr32};

verus! {

broadcast use vstd::array::group_array_axioms;

// ---------------------------------------------------------------- scalars and proofs

// The order of the secp256k1 curve group, big-endian: every blinding
// factor must denote a value below it.
pub const SECP_ORDER: [u8; 32] = [255, 255, 255, 255, 255, 255, 255, 255, 255, 255, 255, 255, 255, 255, 255, 254, 186, 174, 220, 230, 175, 72, 160, 59, 191, 210, 94, 140, 208, 54, 65, 65];

/// Whether 32 bytes, read big-endian, denote a value below the curve
/// order: exactly the blinding factors the Pedersen engine accepts.
pub open spec fn valid_scalar(b: Seq<u8>) -> bool {
    b.len() == 32 && lex_cmp(b, SECP_ORDER@) == core::cmp::Ordering::Less
}

/// Tests whether `b` is a valid blinding scalar.
pub fn is_valid_scalar(b: &[u8; 32]) -> (r: bool)
    ensures
        r == valid_scalar(b@),
{
    match bytes32_cmp(b, &SECP_ORDER) {
        core::cmp::Ordering::Less => true,
        _ => false,
    }
}

/// Whether every byte of `b` is zero: the zero scalar.
pub open spec fn all_zero(b: Seq<u8>) -> bool {
    forall|i: int| 0 <= i < b.len() ==> b[i] == 0
}

/// What the Pedersen commitment to `value` under `blinding` serializes
/// to: 33 bytes, a function of the two arguments alone.
pub uninterp spec fn pedersen_of(value: u64, blinding: Seq<u8>) -> Seq<u8>;

/// Relies on secp256k1-zkp's `PedersenCommitment::new` over the
/// unblinded generator of the zero tag. The engine accepts every scalar
/// below the curve order (`Tweak::from_inner`) and aborts only where the
/// committed point is the group identity; with a nonzero value or a
/// nonzero blinding factor the point cannot be the identity without
/// solving the discrete logarithm between the two generators, so the
/// call cannot fail on the admitted inputs. The commitment is a function
/// of the value and the blinding factor alone.
#[verifier::external_body]
fn pedersen_commit(value: u64, blinding: &[u8; 32]) -> (r: Vec<u8>)
    requires
        valid_scalar(blinding@),
        value != 0 || !all_zero(blinding@),
    ensures
        r@ == pedersen_of(value, blinding@),
        r@.len() == 33,
{
    let secp = secp256k1_zkp::Secp256k1::new();
    let tweak = secp256k1_zkp::Tweak::from_inner(*blinding).expect("scalar below curve order");
    let gen = secp256k1_zkp::Generator::new_unblinded(&secp, secp256k1_zkp::Tag::from([0u8; 32]));
    let comm = secp256k1_zkp::PedersenCommitment::new(&secp, value, tweak, gen);
    comm.serialize().to_vec()
}

/// Whether the given range proof verifies against the given Pedersen
/// commitment: a function of the two byte strings alone.
pub uninterp spec fn range_proof_valid(commitment: Seq<u8>, proof: Seq<u8>) -> bool;

/// Whether a range-proof header declares a range that may top out at the
/// full 64-bit maximum: a parseable header with a 64-bit mantissa or with
/// a minimum-value offset. Such a shape bounds nothing usable, and the
/// engine's successful-verification path cannot report a range ending at
/// the maximum; these proofs are rejected before the engine is called.
pub open spec fn rp_shape_unbounded(p: Seq<u8>) -> bool {
    p.len() >= 65 && (p[0] & 128) == 0 && (((p[0] & 64) != 0 && p[1] == 63) || (p[0] & 32) != 0)
}

/// Tests whether a range proof declares an unbounded (full 64-bit or
/// offset) range.
pub fn is_rp_shape_unbounded(p: &Vec<u8>) -> (r: bool)
    ensures
        r == rp_shape_unbounded(p@),
{
    p.len() >= 65 && (p[0] & 128) == 0 && ((p[0] & 64) != 0 && p[1] == 63 || (p[0] & 32) != 0)
}

/// Relies on secp256k1-zkp's `RangeProof::verify` over the unblinded
/// generator of the zero tag: parsing the two byte strings and verifying
/// is deterministic in them; `Err` carries the engine's reason. A proof
/// whose header declares a 64-bit mantissa or a minimum-value offset is
/// left out: on such a proof a successful verification would report a
/// range ending at the 64-bit maximum, which the engine's result type
/// cannot carry.
#[verifier::external_body]
pub fn verify_range_proof(commitment: &Vec<u8>, proof: &Vec<u8>) -> (r: Result<(), String>)
    requires
        !rp_shape_unbounded(proof@),
    ensures
        r is Ok <==> range_proof_valid(commitment@, proof@),
{
    let secp = secp256k1_zkp::Secp256k1::new();
    let comm = match secp256k1_zkp::PedersenCommitment::from_slice(commitment.as_slice()) {
        Ok(c) => c,
        Err(e) => return Err(format!("{e}")),
    };
    let parsed = match secp256k1_zkp::RangeProof::from_slice(proof.as_slice()) {
        Ok(p) => p,
        Err(e) => return Err(format!("{e}")),
    };
    let gen = secp256k1_zkp::Generator::new_unblinded(&secp, secp256k1_zkp::Tag::from([0u8; 32]));
    match parsed.verify(&secp, comm, &[], gen) {
        Ok(_) => Ok(()),
        Err(e) => Err(format!("{e}")),
    }
}

// ---------------------------------------------------------------- state values

/// Declarative (rights-only) state: no data in either form.
#[derive(Clone, Copy, PartialEq, Eq, Structural, Debug)]
pub struct VoidState;

/// Revealed arithmetic state: a value and the blinding factor of its
/// Pedersen commitment.
#[derive(Clone, Copy, PartialEq, Eq, Debug)]
pub struct RevealedValue {
    pub value: u64,
    pub blinding: [u8; 32],
}

impl RevealedValue {
    /// Whether this value can be concealed: the blinding factor is a
    /// valid scalar, and value and blinding are not both zero (the
    /// Pedersen engine rejects the identity commitment).
    pub fn is_well_formed(&self) -> (r: bool)
        ensures
            r == <PedersenStrategy as StateType>::rev_wf(self),
    {
        if !is_valid_scalar(&self.blinding) {
            return false;
        }
        if self.value != 0 {
            return true;
        }
        let mut i: usize = 0;
        while i < 32
            invariant
                i <= 32,
                valid_scalar(self.blinding@),
                self.value == 0,
                forall|j: int| 0 <= j < i ==> self.blinding@[j] == 0,
            decreases 32 - i,
        {
            if self.blinding[i] != 0 {
                proof {
                    assert(self.blinding@[i as int] != 0);
                    assert(!all_zero(self.blinding@));
                }
                return true;
            }
            i = i + 1;
        }
        false
    }
}

/// A range proof carried by confidential arithmetic state; concealing a
/// revealed value produces the empty proof, since the revealed form holds
/// none.
#[derive(Clone, PartialEq, Eq, Debug)]
pub enum RangeProofData {
    Empty,
    Bytes(Vec<u8>),
}

/// The bytes of a carried range proof.
pub open spec fn proof_bytes(p: &RangeProofData) -> Seq<u8> {
    match p {
        RangeProofData::Empty => Seq::empty(),
        RangeProofData::Bytes(v) => v@,
    }
}

impl RangeProofData {
    /// The proof bytes, as a fresh vector.
    pub fn to_bytes(&self) -> (r: Vec<u8>)
        ensures
            r@ == proof_bytes(self),
    {
        match self {
            RangeProofData::Empty => Vec::new(),
            RangeProofData::Bytes(v) => v.clone(),
        }
    }
}

/// The 33-byte array holding the bytes of a 33-element sequence.
pub open spec fn seq_to_arr33(s: Seq<u8>) -> [u8; 33] {
    choose|a: [u8; 33]| a@ =~= s
}

/// Every 33-byte sequence is the view of exactly one 33-byte array.
pub proof fn lemma_seq_to_arr33(a: [u8; 33])
    ensures
        seq_to_arr33(a@) == a,
{
    assert(a@ =~= a@);
    let w = choose|w: [u8; 33]| w@ =~= a@;
    assert(w@ =~= a@);
    assert(w == a);
}

/// Confidential arithmetic state: a Pedersen commitment and a range
/// proof over it.
#[derive(Clone, PartialEq, Eq, Debug)]
pub struct ConfidentialValue {
    pub commitment: [u8; 33],
    pub range_proof: RangeProofData,
}

/// Revealed structured state: a strict-typed data blob and a salt that
/// blinds its concealed form.
#[derive(Clone, PartialEq, Eq, Debug)]
pub struct RevealedData {
    pub data: Vec<u8>,
    pub salt: u64,
}

/// Confidential structured state: the tagged hash of the revealed form.
#[derive(Clone, Copy, PartialEq, Eq, Debug)]
pub struct ConfidentialData(pub [u8; 32]);

/// Revealed attachment state: the attached blob's hash, its media type,
/// and a salt that blinds the concealed form.
#[derive(Clone, PartialEq, Eq, Debug)]
pub struct RevealedAttach {
    pub id: [u8; 32],
    pub media_type: Vec<u8>,
    pub salt: u64,
}

/// Confidential attachment state: the tagged hash of the revealed form.
#[derive(Clone, Copy, PartialEq, Eq, Debug)]
pub struct ConfidentialAttach(pub [u8; 32]);

/// One of the four state strategies: its revealed and confidential value
/// types, their strict encodings, and the conceal map between them.
pub trait StateType: Sized {
    type Revealed: Sized;

    type Confidential: Sized;

    /// What a revealed value must satisfy for its concealed form to be
    /// computable (a valid blinding scalar, for arithmetic state).
    spec fn rev_wf(r: &Self::Revealed) -> bool;

    /// What a confidential value must satisfy for its strict encoding to
    /// exist (a range proof within the container bound).
    spec fn conf_wf(c: &Self::Confidential) -> bool;

    /// The concealed form of a revealed value.
    spec fn spec_conceal(r: &Self::Revealed) -> Self::Confidential;

    /// The strict encoding of a revealed value.
    spec fn enc_rev(r: &Self::Revealed) -> Seq<u8>;

    /// The strict encoding of a confidential value.
    spec fn enc_conf(c: &Self::Confidential) -> Seq<u8>;

    /// Concealing a well-formed revealed value yields a well-formed
    /// confidential value.
    proof fn lemma_conceal_wf(r: &Self::Revealed)
        requires
            Self::rev_wf(r),
        ensures
            Self::conf_wf(&Self::spec_conceal(r));

    /// Conceals a revealed value.
    fn conceal(r: &Self::Revealed) -> (c: Self::Confidential)
        requires
            Self::rev_wf(r),
        ensures
            c == Self::spec_conceal(r);

    /// Appends the strict encoding of a revealed value to `out`.
    fn write_rev(r: &Self::Revealed, out: &mut Vec<u8>)
        requires
            Self::rev_wf(r),
        ensures
            final(out)@ == old(out)@ + Self::enc_rev(r);

    /// Appends the strict encoding of a confidential value to `out`.
    fn write_conf(c: &Self::Confidential, out: &mut Vec<u8>)
        requires
            Self::conf_wf(c),
        ensures
            final(out)@ == old(out)@ + Self::enc_conf(c);
}

/// The strict encoding of a byte blob bounded to 65535 bytes: a `u16`
/// length prefix, then the bytes.
pub open spec fn enc_blob(b: Seq<u8>) -> Seq<u8>
    recommends
        b.len() <= u16::MAX,
{
    enc_u16(b.len() as u16) + b
}

/// Appends the encoding of a bounded byte blob to `out`.
pub fn write_blob(b: &Vec<u8>, out: &mut Vec<u8>)
    requires
        b@.len() <= u16::MAX,
    ensures
        final(out)@ == old(out)@ + enc_blob(b@),
{
    let n = b.len();
    write_u16(out, n as u16);
    let mut i: usize = 0;
    while i < n
        invariant
            i <= n,
            n == b@.len(),
            out@ == old(out)@ + enc_u16(n as u16) + b@.take(i as int),
        decreases n - i,
    {
        out.push(b[i]);
        proof {
            assert(old(out)@ + enc_u16(n as u16) + b@.take(i + 1) =~= (old(out)@ + enc_u16(
                n as u16,
            ) + b@.take(i as int)).push(b@[i as int]));
        }
        i = i + 1;
    }
    proof {
        assert(b@.take(n as int) =~= b@);
        assert(out@ =~= old(out)@ + enc_blob(b@));
    }
}

/// The declarative strategy: no state data at all.
pub struct DeclarativeStrategy;

impl StateType for DeclarativeStrategy {
    type Revealed = VoidState;

    type Confidential = VoidState;

    open spec fn rev_wf(r: &VoidState) -> bool {
        true
    }

    open spec fn conf_wf(c: &VoidState) -> bool {
        true
    }

    open spec fn spec_conceal(r: &VoidState) -> VoidState {
        VoidState
    }

    open spec fn enc_rev(r: &VoidState) -> Seq<u8> {
        Seq::empty()
    }

    open spec fn enc_conf(c: &VoidState) -> Seq<u8> {
        Seq::empty()
    }

    proof fn lemma_conceal_wf(r: &VoidState) {
    }

    fn conceal(r: &VoidState) -> VoidState {
        VoidState
    }

    fn write_rev(r: &VoidState, out: &mut Vec<u8>) {
        assert(out@ =~= old(out)@ + Seq::<u8>::empty());
    }

    fn write_conf(c: &VoidState, out: &mut Vec<u8>) {
        assert(out@ =~= old(out)@ + Seq::<u8>::empty());
    }
}

/// The arithmetic (homomorphic) strategy: Pedersen-committed values.
pub struct PedersenStrategy;

impl StateType for PedersenStrategy {
    type Revealed = RevealedValue;

    type Confidential = ConfidentialValue;

    open spec fn rev_wf(r: &RevealedValue) -> bool {
        valid_scalar(r.blinding@) && (r.value != 0 || !all_zero(r.blinding@))
    }

    open spec fn spec_conceal(r: &RevealedValue) -> ConfidentialValue {
        ConfidentialValue {
            commitment: seq_to_arr33(pedersen_of(r.value, r.blinding@)),
            range_proof: RangeProofData::Empty,
        }
    }

    open spec fn enc_rev(r: &RevealedValue) -> Seq<u8> {
        enc_u64(r.value) + r.blinding@
    }

    open spec fn enc_conf(c: &ConfidentialValue) -> Seq<u8> {
        c.commitment@ + enc_blob(proof_bytes(&c.range_proof))
    }

    open spec fn conf_wf(c: &ConfidentialValue) -> bool {
        proof_bytes(&c.range_proof).len() <= u16::MAX
    }

    proof fn lemma_conceal_wf(r: &RevealedValue) {
    }

    fn conceal(r: &RevealedValue) -> (c: ConfidentialValue) {
        let bytes = pedersen_commit(r.value, &r.blinding);
        let mut commitment: [u8; 33] = [0; 33];
        let mut i: usize = 0;
        while i < 33
            invariant
                i <= 33,
                bytes@.len() == 33,
                commitment@.len() == 33,
                forall|j: int| 0 <= j < i ==> commitment@[j] == bytes@[j],
            decreases 33 - i,
        {
            commitment[i] = bytes[i];
            i = i + 1;
        }
        proof {
            assert(commitment@ =~= pedersen_of(r.value, r.blinding@));
            lemma_seq_to_arr33(commitment);
        }
        ConfidentialValue { commitment, range_proof: RangeProofData::Empty }
    }

    fn write_rev(r: &RevealedValue, out: &mut Vec<u8>) {
        write_u64(out, r.value);
        write_bytes32(out, &r.blinding);
        assert(out@ =~= old(out)@ + Self::enc_rev(r));
    }

    fn write_conf(c: &ConfidentialValue, out: &mut Vec<u8>) {
        out.extend_from_slice(c.commitment.as_slice());
        let pb = c.range_proof.to_bytes();
        write_blob(&pb, out);
        assert(out@ =~= old(out)@ + Self::enc_conf(c));
    }
}

/// The structured strategy: strict-typed data blobs concealed by hash.
pub struct HashStrategy;

impl StateType for HashStrategy {
    type Revealed = RevealedData;

    type Confidential = ConfidentialData;

    open spec fn rev_wf(r: &RevealedData) -> bool {
        r.data@.len() <= u16::MAX
    }

    open spec fn conf_wf(c: &ConfidentialData) -> bool {
        true
    }

    open spec fn spec_conceal(r: &RevealedData) -> ConfidentialData {
        ConfidentialData(seq_to_arr32(spec_tagged_hash(TAG_ASSIGNMENT@, Self::enc_rev(r))))
    }

    open spec fn enc_rev(r: &RevealedData) -> Seq<u8> {
        enc_blob(r.data@) + enc_u64(r.salt)
    }

    open spec fn enc_conf(c: &ConfidentialData) -> Seq<u8> {
        c.0@
    }

    proof fn lemma_conceal_wf(r: &RevealedData) {
    }

    fn conceal(r: &RevealedData) -> (c: ConfidentialData) {
        let mut encoded: Vec<u8> = Vec::new();
        Self::write_rev(r, &mut encoded);
        let h = tagged_hash(&TAG_ASSIGNMENT, &encoded);
        proof {
            lemma_seq_to_arr32(h);
        }
        ConfidentialData(h)
    }

    fn write_rev(r: &RevealedData, out: &mut Vec<u8>) {
        write_blob(&r.data, out);
        write_u64(out, r.salt);
        assert(out@ =~= old(out)@ + Self::enc_rev(r));
    }

    fn write_conf(c: &ConfidentialData, out: &mut Vec<u8>) {
        write_bytes32(out, &c.0);
    }
}

/// The attachment strategy: attached-media references concealed by hash.
pub struct AttachmentStrategy;

impl StateType for AttachmentStrategy {
    type Revealed = RevealedAttach;

    type Confidential = ConfidentialAttach;

    open spec fn rev_wf(r: &RevealedAttach) -> bool {
        r.media_type@.len() <= u16::MAX
    }

    open spec fn conf_wf(c: &ConfidentialAttach) -> bool {
        true
    }

    open spec fn spec_conceal(r: &RevealedAttach) -> ConfidentialAttach {
        ConfidentialAttach(seq_to_arr32(spec_tagged_hash(TAG_ASSIGNMENT@, Self::enc_rev(r))))
    }

    open spec fn enc_rev(r: &RevealedAttach) -> Seq<u8> {
        r.id@ + enc_blob(r.media_type@) + enc_u64(r.salt)
    }

    open spec fn enc_conf(c: &ConfidentialAttach) -> Seq<u8> {
        c.0@
    }

    proof fn lemma_conceal_wf(r: &RevealedAttach) {
    }

    fn conceal(r: &RevealedAttach) -> (c: ConfidentialAttach) {
        let mut encoded: Vec<u8> = Vec::new();
        Self::write_rev(r, &mut encoded);
        let h = tagged_hash(&TAG_ASSIGNMENT, &encoded);
        proof {
            lemma_seq_to_arr32(h);
        }
        ConfidentialAttach(h)
    }

    fn write_rev(r: &RevealedAttach, out: &mut Vec<u8>) {
        write_bytes32(out, &r.id);
        write_blob(&r.media_type, out);
        write_u64(out, r.salt);
        assert(out@ =~= old(out)@ + Self::enc_rev(r));
    }

    fn write_conf(c: &ConfidentialAttach, out: &mut Vec<u8>) {
        write_bytes32(out, &c.0);
    }
}

} // verus!
