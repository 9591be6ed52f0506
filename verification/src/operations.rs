//! Contract operations: genesis, state transitions and state extensions,
//! with their metadata, owned rights, public rights and parent
//! references, and the commitment that gives each operation its identity.

use vstd::prelude::*;

use crate::commit::{spec_tagged_hash, tagged_hash, TAG_GENESIS, TAG_TRANSITION, TAG_EXTENSION};
use crate::encoding::{enc_u8, enc_u16, write_u8, write_u16};
use vstd::bytes::spec_u16_from_le_bytes;
use crate::ids::{NodeId, ContractId, SchemaId, SecretSeal, NodeOutpoint, lex_cmp};
use crate::assignments::{TypedAssignments, ConfidentialDataError};
use crate::seal::{GraphSeal, XSeal, ExposedSeal, Txid, Outpoint};
use crate::state::enc_blob;

verus! {

broadcast use vstd::array::group_array_axioms, vstd::seq_lib::group_seq_properties;

/// A metadata field type identifier.
pub type FieldType = u16;

/// An owned-right type identifier.
pub type OwnedRightType = u16;

/// A public-right type identifier.
pub type PublicRightType = u16;

/// A transition type identifier.
pub type TransitionType = u16;

/// An extension type identifier.
pub type ExtensionType = u16;

/// The chain a contract lives on.
#[derive(Clone, Copy, PartialEq, Eq, Structural, Debug)]
pub enum Chain {
    Bitcoin,
    Testnet3,
    Signet,
    Regtest,
    Liquid,
}

/// The discriminant byte of a chain in the strict encoding.
pub open spec fn chain_tag(c: Chain) -> u8 {
    match c {
        Chain::Bitcoin => 0,
        Chain::Testnet3 => 1,
        Chain::Signet => 2,
        Chain::Regtest => 3,
        Chain::Liquid => 4,
    }
}

/// Whether the `u16` keys of an association list ascend strictly: the
/// sorted-map invariant, and the order the strict encoding fixes.
pub open spec fn u16_keys_sorted<V>(v: Seq<(u16, V)>) -> bool {
    forall|i: int, j: int| 0 <= i < j < v.len() ==> (#[trigger] v[i]).0 < (#[trigger] v[j]).0
}

/// Whether the node-id keys of an association list ascend strictly in
/// lexicographic byte order.
pub open spec fn node_keys_sorted<V>(v: Seq<(NodeId, V)>) -> bool {
    forall|i: int, j: int| 0 <= i < j < v.len() ==> lex_cmp(
        (#[trigger] v[i]).0.0@,
        (#[trigger] v[j]).0.0@,
    ) == core::cmp::Ordering::Less
}

/// Whether a `u16` sequence ascends strictly: the sorted-set invariant.
pub open spec fn u16s_sorted(v: Seq<u16>) -> bool {
    forall|i: int, j: int| 0 <= i < j < v.len() ==> v[i] < v[j]
}

// ---------------------------------------------------------------- bounded encodings

/// The encoding of a sorted set of `u16`: a count byte, then the values.
pub open spec fn enc_u16s(v: Seq<u16>) -> Seq<u8>
    decreases v.len(),
{
    if v.len() == 0 {
        Seq::empty()
    } else {
        enc_u16s(v.drop_last()) + enc_u16(v.last())
    }
}

/// Appends a count byte and the values of `v` to `out`.
pub fn write_u16s(v: &Vec<u16>, out: &mut Vec<u8>)
    requires
        v@.len() <= 255,
    ensures
        final(out)@ == old(out)@ + enc_u8(v@.len() as u8) + enc_u16s(v@),
{
    let n = v.len();
    write_u8(out, n as u8);
    let mut i: usize = 0;
    while i < n
        invariant
            i <= n,
            n == v@.len(),
            out@ == old(out)@ + enc_u8(n as u8) + enc_u16s(v@.take(i as int)),
        decreases n - i,
    {
        write_u16(out, v[i]);
        proof {
            assert(v@.take(i + 1).drop_last() =~= v@.take(i as int));
            assert(v@.take(i + 1).last() == v@[i as int]);
        }
        i = i + 1;
    }
    proof {
        assert(v@.take(n as int) =~= v@);
    }
}

/// The encoding of a `u16` set spends two bytes per value.
pub proof fn lemma_enc_u16s_len(s: Seq<u16>)
    ensures
        enc_u16s(s).len() == 2 * s.len(),
    decreases s.len(),
{
    vstd::bytes::lemma_auto_spec_u16_to_from_le_bytes();
    if s.len() > 0 {
        lemma_enc_u16s_len(s.drop_last());
    }
}

/// The encoding of a `u16` set splits at any position.
pub proof fn lemma_enc_u16s_take(s: Seq<u16>, i: int)
    requires
        0 <= i <= s.len(),
    ensures
        enc_u16s(s) == enc_u16s(s.take(i)) + enc_u16s(s.skip(i)),
    decreases s.len() - i,
{
    if i == s.len() {
        assert(s.take(i) =~= s);
        assert(s.skip(i) =~= Seq::<u16>::empty());
        assert(enc_u16s(s) =~= enc_u16s(s.take(i)) + enc_u16s(s.skip(i)));
    } else {
        lemma_enc_u16s_take(s.drop_last(), i);
        assert(s.drop_last().take(i) =~= s.take(i));
        assert(s.drop_last().skip(i) =~= s.skip(i).drop_last());
        assert(s.skip(i).last() == s.last());
        assert(s.skip(i).len() > 0);
        assert(enc_u16s(s.skip(i)) == enc_u16s(s.skip(i).drop_last()) + enc_u16(s.last()));
        assert(enc_u16s(s) =~= enc_u16s(s.take(i)) + enc_u16s(s.skip(i)));
    }
}

/// The bytes of one element within an encoded `u16` set.
pub proof fn lemma_enc_u16s_index(s: Seq<u16>, i: int)
    requires
        0 <= i < s.len(),
    ensures
        enc_u16s(s).subrange(2 * i, 2 * i + 2) == enc_u16(s[i]),
    decreases s.len(),
{
    vstd::bytes::lemma_auto_spec_u16_to_from_le_bytes();
    lemma_enc_u16s_len(s);
    if i == s.len() - 1 {
        lemma_enc_u16s_len(s.drop_last());
        assert(enc_u16s(s).subrange(2 * i, 2 * i + 2) =~= enc_u16(s[i]));
    } else {
        lemma_enc_u16s_index(s.drop_last(), i);
        lemma_enc_u16s_len(s.drop_last());
        assert(s.drop_last()[i] == s[i]);
        assert(enc_u16s(s).subrange(2 * i, 2 * i + 2) =~= enc_u16s(s.drop_last()).subrange(
            2 * i,
            2 * i + 2,
        ));
    }
}

/// Equal encodings of equal-length `u16` sets come from equal sets.
pub proof fn lemma_enc_u16s_injective(a: Seq<u16>, b: Seq<u16>)
    requires
        a.len() == b.len(),
        enc_u16s(a) == enc_u16s(b),
    ensures
        a == b,
    decreases a.len(),
{
    if a.len() > 0 {
        vstd::bytes::lemma_auto_spec_u16_to_from_le_bytes();
        lemma_enc_u16s_len(a.drop_last());
        lemma_enc_u16s_len(b.drop_last());
        lemma_enc_u16s_len(a);
        assert(enc_u16s(a.drop_last()) =~= enc_u16s(a).subrange(0, 2 * (a.len() - 1)));
        assert(enc_u16s(b.drop_last()) =~= enc_u16s(b).subrange(0, 2 * (b.len() - 1)));
        assert(enc_u16(a.last()) =~= enc_u16s(a).subrange(2 * (a.len() - 1), 2 * a.len() as int));
        assert(enc_u16(b.last()) =~= enc_u16s(b).subrange(2 * (b.len() - 1), 2 * b.len() as int));
        assert(a.last() == spec_u16_from_le_bytes(enc_u16(a.last())));
        assert(b.last() == spec_u16_from_le_bytes(enc_u16(b.last())));
        lemma_enc_u16s_injective(a.drop_last(), b.drop_last());
        assert(a =~= a.drop_last().push(a.last()));
        assert(b =~= b.drop_last().push(b.last()));
    }
}

/// The encoding of a bounded list of byte blobs: a count byte, then the
/// length-prefixed blobs.
pub open spec fn enc_blob_list(v: Seq<Vec<u8>>) -> Seq<u8>
    decreases v.len(),
{
    if v.len() == 0 {
        Seq::empty()
    } else {
        enc_blob_list(v.drop_last()) + enc_blob(v.last()@)
    }
}

/// Whether every blob of the list is within the container bound.
pub open spec fn blob_list_wf(v: Seq<Vec<u8>>) -> bool {
    v.len() <= 255 && forall|i: int| 0 <= i < v.len() ==> (#[trigger] v[i])@.len() <= u16::MAX
}

/// Appends a count byte and the blobs of `v` to `out`.
pub fn write_blob_list(v: &Vec<Vec<u8>>, out: &mut Vec<u8>)
    requires
        blob_list_wf(v@),
    ensures
        final(out)@ == old(out)@ + enc_u8(v@.len() as u8) + enc_blob_list(v@),
{
    let n = v.len();
    write_u8(out, n as u8);
    let mut i: usize = 0;
    while i < n
        invariant
            i <= n,
            n == v@.len(),
            blob_list_wf(v@),
            out@ == old(out)@ + enc_u8(n as u8) + enc_blob_list(v@.take(i as int)),
        decreases n - i,
    {
        crate::state::write_blob(&v[i], out);
        proof {
            assert(v@.take(i + 1).drop_last() =~= v@.take(i as int));
            assert(v@.take(i + 1).last() == v@[i as int]);
        }
        i = i + 1;
    }
    proof {
        assert(v@.take(n as int) =~= v@);
    }
}

/// Decodes a tiny sorted set of `u16`: a count byte, then the values in
/// strictly ascending order. A repeated or out-of-order key fails with
/// `RepeatedKey`; a short input with `Truncated`; any unread byte with
/// `TrailingData`. Decoding is a full inverse of encoding: every valid
/// encoding decodes back to the set it encodes.
pub fn decode_public_rights(d: &Vec<u8>) -> (r: Result<PublicRights, crate::encoding::DecodeError>)
    ensures
        r matches Ok(pr) ==> pr.wf() && d@ == pr.spec_enc(),
        forall|s: Seq<u16>|
            u16s_sorted(s) && s.len() <= 255 && d@ == enc_u8(s.len() as u8) + enc_u16s(s) ==> (
            r matches Ok(pr) && pr.types@ == s),
{
    proof {
        vstd::bytes::lemma_auto_spec_u16_to_from_le_bytes();
    }
    let (count, mut pos) = match crate::encoding::read_u8(d, 0) {
        Some((c, p)) => (c, p),
        None => {
            proof {
                assert forall|s: Seq<u16>|
                    !(u16s_sorted(s) && s.len() <= 255 && d@ == enc_u8(s.len() as u8) + enc_u16s(
                        s,
                    )) by {
                    if d@ == enc_u8(s.len() as u8) + enc_u16s(s) {
                        assert(d@.len() >= 1);
                    }
                }
            }
            return Err(crate::encoding::DecodeError::Truncated);
        },
    };
    let mut types: Vec<u16> = Vec::new();
    let mut i: usize = 0;
    while i < count as usize
        invariant
            i <= count,
            types@.len() == i,
            pos == 1 + 2 * i,
            pos <= d@.len(),
            count == d@[0],
            u16s_sorted(types@),
            d@.subrange(0, pos as int) =~= enc_u8(count) + enc_u16s(types@),
        decreases count - i,
    {
        proof {
            vstd::bytes::lemma_auto_spec_u16_to_from_le_bytes();
        }
        let ghost decoded = types@;
        let (v, p) = match crate::encoding::read_u16(d, pos) {
            Some((v, p)) => (v, p),
            None => {
                proof {
                    assert forall|s: Seq<u16>|
                        !(u16s_sorted(s) && s.len() <= 255 && d@ == enc_u8(s.len() as u8)
                            + enc_u16s(s)) by {
                        if u16s_sorted(s) && s.len() <= 255 && d@ == enc_u8(s.len() as u8)
                            + enc_u16s(s) {
                            lemma_enc_u16s_len(s);
                            assert(d@[0] == s.len() as u8);
                            assert(count == s.len());
                            assert(pos + 2 <= d@.len());
                        }
                    }
                }
                return Err(crate::encoding::DecodeError::Truncated);
            },
        };
        if types.len() > 0 {
            let last = types[types.len() - 1];
            if v <= last {
                proof {
                    assert forall|s: Seq<u16>|
                        !(u16s_sorted(s) && s.len() <= 255 && d@ == enc_u8(s.len() as u8)
                            + enc_u16s(s)) by {
                        if u16s_sorted(s) && s.len() <= 255 && d@ == enc_u8(s.len() as u8)
                            + enc_u16s(s) {
                            lemma_enc_u16s_len(s);
                            assert(count == s.len());
                            lemma_decoded_is_take(d@, count, decoded, s, i as int);
                            assert(last == s[i - 1]);
                            lemma_enc_u16s_index(s, i as int);
                            assert(d@.subrange(pos as int, pos + 2 as int) =~= enc_u16s(
                                s,
                            ).subrange(2 * i, 2 * i + 2));
                            assert(v == spec_u16_from_le_bytes(enc_u16(s[i as int])));
                            assert(v == s[i as int]);
                            assert(s[i - 1] < s[i as int]);
                        }
                    }
                }
                return Err(crate::encoding::DecodeError::RepeatedKey);
            }
        }
        let ghost told = types@;
        types.push(v);
        proof {
            assert(types@.drop_last() =~= told);
            assert(d@.subrange(pos as int, pos + 2 as int) =~= enc_u16(v));
            assert(d@.subrange(0, p as int) =~= d@.subrange(0, pos as int) + d@.subrange(
                pos as int,
                p as int,
            ));
            assert(forall|a: int, b: int| 0 <= a < b < types@.len() ==> types@[a] < types@[b]);
        }
        pos = p;
        i = i + 1;
    }
    if pos != d.len() {
        proof {
            assert forall|s: Seq<u16>|
                !(u16s_sorted(s) && s.len() <= 255 && d@ == enc_u8(s.len() as u8) + enc_u16s(s))
                by {
                if u16s_sorted(s) && s.len() <= 255 && d@ == enc_u8(s.len() as u8) + enc_u16s(s) {
                    lemma_enc_u16s_len(s);
                    assert(count == s.len());
                    assert(pos == d@.len());
                }
            }
        }
        return Err(crate::encoding::DecodeError::TrailingData);
    }
    let pr = PublicRights { types };
    proof {
        assert(d@.subrange(0, d@.len() as int) =~= d@);
        assert(d@ =~= pr.spec_enc());
        assert forall|s: Seq<u16>|
            u16s_sorted(s) && s.len() <= 255 && d@ == enc_u8(s.len() as u8) + enc_u16s(s) implies
            pr.types@ == s by {
            lemma_enc_u16s_len(s);
            assert(count == s.len());
            lemma_decoded_is_take(d@, count, pr.types@, s, count as int);
            assert(s.take(count as int) =~= s);
        }
    }
    Ok(pr)
}

/// A decoded prefix of an encoded `u16` set is the set's own prefix:
/// when the first `1 + 2i` bytes of the full encoding of `s` encode the
/// `i` values `decoded`, those values are `s.take(i)`.
proof fn lemma_decoded_is_take(d: Seq<u8>, count: u8, decoded: Seq<u16>, s: Seq<u16>, i: int)
    requires
        0 <= i <= s.len(),
        decoded.len() == i,
        d == enc_u8(s.len() as u8) + enc_u16s(s),
        s.len() <= 255,
        count == s.len(),
        d.subrange(0, 1 + 2 * i) =~= enc_u8(count) + enc_u16s(decoded),
    ensures
        decoded == s.take(i),
{
    lemma_enc_u16s_len(s);
    lemma_enc_u16s_len(decoded);
    lemma_enc_u16s_len(s.take(i));
    lemma_enc_u16s_take(s, i);
    assert(d.subrange(1, 1 + 2 * i) =~= d.subrange(0, 1 + 2 * i).subrange(1, 1 + 2 * i));
    assert((enc_u8(count) + enc_u16s(decoded)).subrange(1, 1 + 2 * i) =~= enc_u16s(decoded));
    assert(enc_u16s(decoded) =~= d.subrange(1, 1 + 2 * i));
    assert(enc_u16s(s.take(i)) =~= d.subrange(1, 1 + 2 * i));
    lemma_enc_u16s_injective(decoded, s.take(i));
}

// ---------------------------------------------------------------- metadata

/// Operation metadata: a sorted map from field type to a bounded list of
/// typed values, each carried as its strict-encoded blob.
pub struct Metadata {
    pub entries: Vec<(FieldType, Vec<Vec<u8>>)>,
}

impl Metadata {
    /// The sorted-map invariant and the container bounds.
    pub open spec fn wf(self) -> bool {
        u16_keys_sorted(self.entries@) && self.entries@.len() <= 255 && forall|i: int|
            0 <= i < self.entries@.len() ==> blob_list_wf((#[trigger] self.entries@[i]).1@)
    }

    /// An empty metadata map.
    pub fn new() -> (r: Metadata)
        ensures
            r.wf(),
            r.entries@.len() == 0,
    {
        Metadata { entries: Vec::new() }
    }

    /// The field types present, in ascending order.
    pub fn keys(&self) -> (r: Vec<FieldType>)
        ensures
            r@ == self.entries@.map_values(|e: (FieldType, Vec<Vec<u8>>)| e.0),
    {
        let n = self.entries.len();
        let mut r: Vec<FieldType> = Vec::new();
        let mut i: usize = 0;
        while i < n
            invariant
                i <= n,
                n == self.entries@.len(),
                r@ == self.entries@.take(i as int).map_values(|e: (FieldType, Vec<Vec<u8>>)| e.0),
            decreases n - i,
        {
            r.push(self.entries[i].0);
            proof {
                assert(self.entries@.take(i + 1).map_values(|e: (FieldType, Vec<Vec<u8>>)| e.0)
                    =~= self.entries@.take(i as int).map_values(
                    |e: (FieldType, Vec<Vec<u8>>)| e.0,
                ).push(self.entries@[i as int].0));
            }
            i = i + 1;
        }
        proof {
            assert(self.entries@.take(n as int) =~= self.entries@);
        }
        r
    }

    /// How many values stand under field type `t` (zero where the field
    /// is absent).
    pub open spec fn spec_count(self, t: FieldType) -> nat {
        count_under_key(self.entries@, t)
    }

    /// How many values stand under field type `t`.
    pub fn count(&self, t: FieldType) -> (r: usize)
        requires
            self.wf(),
        ensures
            r == self.spec_count(t),
    {
        let n = self.entries.len();
        let mut i: usize = 0;
        while i < n
            invariant
                i <= n,
                n == self.entries@.len(),
                self.wf(),
                count_under_key(self.entries@.take(i as int), t) == 0,
            decreases n - i,
        {
            proof {
                assert(self.entries@.take(i + 1).drop_last() =~= self.entries@.take(i as int));
                assert(self.entries@.take(i + 1).last() == self.entries@[i as int]);
            }
            if self.entries[i].0 == t {
                let r = self.entries[i].1.len();
                proof {
                    lemma_count_unique_key(self.entries@, t, i as int);
                }
                return r;
            }
            i = i + 1;
        }
        proof {
            assert(self.entries@.take(n as int) =~= self.entries@);
        }
        0
    }

    /// The strict encoding: a count byte, then each entry as its key and
    /// its blob list.
    pub open spec fn spec_enc(self) -> Seq<u8> {
        enc_u8(self.entries@.len() as u8) + enc_metadata_entries(self.entries@)
    }

    /// Appends the strict encoding of this metadata map to `out`.
    pub fn write_enc(&self, out: &mut Vec<u8>)
        requires
            self.wf(),
        ensures
            final(out)@ == old(out)@ + self.spec_enc(),
    {
        let n = self.entries.len();
        write_u8(out, n as u8);
        let mut i: usize = 0;
        while i < n
            invariant
                i <= n,
                n == self.entries@.len(),
                self.wf(),
                out@ == old(out)@ + enc_u8(n as u8) + enc_metadata_entries(
                    self.entries@.take(i as int),
                ),
            decreases n - i,
        {
            write_u16(out, self.entries[i].0);
            write_blob_list(&self.entries[i].1, out);
            proof {
                assert(self.entries@.take(i + 1).drop_last() =~= self.entries@.take(i as int));
                assert(self.entries@.take(i + 1).last() == self.entries@[i as int]);
            }
            i = i + 1;
        }
        proof {
            assert(self.entries@.take(n as int) =~= self.entries@);
        }
    }
}

/// The number of values under key `t` in a metadata association list.
pub open spec fn count_under_key(v: Seq<(u16, Vec<Vec<u8>>)>, t: u16) -> nat
    decreases v.len(),
{
    if v.len() == 0 {
        0
    } else {
        count_under_key(v.drop_last(), t) + if v.last().0 == t {
            v.last().1@.len()
        } else {
            0
        }
    }
}

/// In a sorted metadata list, the count under `t` is the length of the
/// one entry keyed `t`.
proof fn lemma_count_unique_key(v: Seq<(u16, Vec<Vec<u8>>)>, t: u16, at: int)
    requires
        u16_keys_sorted(v),
        0 <= at < v.len(),
        v[at].0 == t,
    ensures
        count_under_key(v, t) == v[at].1@.len(),
    decreases v.len(),
{
    if v.len() > 0 {
        if at == v.len() - 1 {
            lemma_count_none(v.drop_last(), t);
        } else {
            assert(v.drop_last()[at] == v[at]);
            lemma_count_unique_key(v.drop_last(), t, at);
            assert(v.last().0 != t);
        }
    }
}

/// A key below every key of a sorted list, or absent from it, counts
/// nothing.
proof fn lemma_count_none(v: Seq<(u16, Vec<Vec<u8>>)>, t: u16)
    requires
        u16_keys_sorted(v),
        forall|i: int| 0 <= i < v.len() ==> (#[trigger] v[i]).0 != t,
    ensures
        count_under_key(v, t) == 0,
    decreases v.len(),
{
    if v.len() > 0 {
        assert(forall|i: int| 0 <= i < v.len() - 1 ==> (#[trigger] v.drop_last()[i]).0 != t);
        lemma_count_none(v.drop_last(), t);
    }
}

/// The encoding of the metadata entries, in order.
pub open spec fn enc_metadata_entries(v: Seq<(u16, Vec<Vec<u8>>)>) -> Seq<u8>
    decreases v.len(),
{
    if v.len() == 0 {
        Seq::empty()
    } else {
        enc_metadata_entries(v.drop_last()) + enc_u16(v.last().0) + enc_u8(v.last().1@.len() as u8)
            + enc_blob_list(v.last().1@)
    }
}

// ---------------------------------------------------------------- rights containers

/// The set of public-right types an operation declares, sorted ascending.
#[derive(PartialEq, Eq, Debug)]
pub struct PublicRights {
    pub types: Vec<PublicRightType>,
}

impl PublicRights {
    /// The sorted-set invariant and the container bound.
    pub open spec fn wf(self) -> bool {
        u16s_sorted(self.types@) && self.types@.len() <= 255
    }

    /// An empty set.
    pub fn new() -> (r: PublicRights)
        ensures
            r.wf(),
            r.types@.len() == 0,
    {
        PublicRights { types: Vec::new() }
    }

    /// Whether `t` stands in the set.
    pub fn contains(&self, t: PublicRightType) -> (r: bool)
        ensures
            r == self.types@.contains(t),
    {
        let n = self.types.len();
        let mut i: usize = 0;
        while i < n
            invariant
                i <= n,
                n == self.types@.len(),
                forall|j: int| 0 <= j < i ==> self.types@[j] != t,
            decreases n - i,
        {
            if self.types[i] == t {
                return true;
            }
            i = i + 1;
        }
        false
    }

    /// The strict encoding: a count byte, then the types ascending.
    pub open spec fn spec_enc(self) -> Seq<u8> {
        enc_u8(self.types@.len() as u8) + enc_u16s(self.types@)
    }

    /// Appends the strict encoding of this set to `out`.
    pub fn write_enc(&self, out: &mut Vec<u8>)
        requires
            self.wf(),
        ensures
            final(out)@ == old(out)@ + self.spec_enc(),
    {
        write_u16s(&self.types, out);
    }
}

/// The owned rights an operation declares: a sorted map from owned-right
/// type to its typed assignments.
pub struct OwnedRights {
    pub entries: Vec<(OwnedRightType, TypedAssignments)>,
}

impl OwnedRights {
    /// The sorted-map invariant, the container bound, and the
    /// well-formedness of every assignment collection.
    pub open spec fn wf(self) -> bool {
        u16_keys_sorted(self.entries@) && self.entries@.len() <= 255 && forall|i: int|
            0 <= i < self.entries@.len() ==> (#[trigger] self.entries@[i]).1.wf()
    }

    /// An empty map.
    pub fn new() -> (r: OwnedRights)
        ensures
            r.wf(),
            r.entries@.len() == 0,
    {
        OwnedRights { entries: Vec::new() }
    }

    /// The owned-right types present, in ascending order.
    pub fn keys(&self) -> (r: Vec<OwnedRightType>)
        ensures
            r@ == self.entries@.map_values(|e: (OwnedRightType, TypedAssignments)| e.0),
    {
        let n = self.entries.len();
        let mut r: Vec<OwnedRightType> = Vec::new();
        let mut i: usize = 0;
        while i < n
            invariant
                i <= n,
                n == self.entries@.len(),
                r@ == self.entries@.take(i as int).map_values(
                    |e: (OwnedRightType, TypedAssignments)| e.0,
                ),
            decreases n - i,
        {
            r.push(self.entries[i].0);
            proof {
                assert(self.entries@.take(i + 1).map_values(
                    |e: (OwnedRightType, TypedAssignments)| e.0,
                ) =~= self.entries@.take(i as int).map_values(
                    |e: (OwnedRightType, TypedAssignments)| e.0,
                ).push(self.entries@[i as int].0));
            }
            i = i + 1;
        }
        proof {
            assert(self.entries@.take(n as int) =~= self.entries@);
        }
        r
    }

    /// The assignments under owned-right type `t`, where any stand.
    pub fn by_type(&self, t: OwnedRightType) -> (r: Option<&TypedAssignments>)
        ensures
            match r {
                Some(ta) => exists|i: int| 0 <= i < self.entries@.len() && (
                #[trigger] self.entries@[i]).0 == t && self.entries@[i].1 == *ta,
                None => forall|i: int| 0 <= i < self.entries@.len() ==> (
                #[trigger] self.entries@[i]).0 != t,
            },
    {
        let n = self.entries.len();
        let mut i: usize = 0;
        while i < n
            invariant
                i <= n,
                n == self.entries@.len(),
                forall|j: int| 0 <= j < i ==> (#[trigger] self.entries@[j]).0 != t,
            decreases n - i,
        {
            if self.entries[i].0 == t {
                return Some(&self.entries[i].1);
            }
            i = i + 1;
        }
        None
    }

    /// The strict encoding: a count byte, then each entry as its type and
    /// its assignments in concealed form.
    pub open spec fn spec_enc(self) -> Seq<u8> {
        enc_u8(self.entries@.len() as u8) + enc_owned_entries(self.entries@)
    }

    /// Appends the strict encoding of this map to `out`.
    pub fn write_enc(&self, out: &mut Vec<u8>)
        requires
            self.wf(),
        ensures
            final(out)@ == old(out)@ + self.spec_enc(),
    {
        let n = self.entries.len();
        write_u8(out, n as u8);
        let mut i: usize = 0;
        while i < n
            invariant
                i <= n,
                n == self.entries@.len(),
                self.wf(),
                out@ == old(out)@ + enc_u8(n as u8) + enc_owned_entries(
                    self.entries@.take(i as int),
                ),
            decreases n - i,
        {
            write_u16(out, self.entries[i].0);
            self.entries[i].1.write_enc_concealed(out);
            proof {
                assert(self.entries@.take(i + 1).drop_last() =~= self.entries@.take(i as int));
                assert(self.entries@.take(i + 1).last() == self.entries@[i as int]);
            }
            i = i + 1;
        }
        proof {
            assert(self.entries@.take(n as int) =~= self.entries@);
        }
    }
}

/// The encoding of the owned-rights entries, in order, assignments in
/// concealed form.
pub open spec fn enc_owned_entries(v: Seq<(OwnedRightType, TypedAssignments)>) -> Seq<u8>
    decreases v.len(),
{
    if v.len() == 0 {
        Seq::empty()
    } else {
        enc_owned_entries(v.drop_last()) + enc_u16(v.last().0) + v.last().1.spec_enc_concealed()
    }
}

// ---------------------------------------------------------------- parent references

/// The outpoints one parent entry references, flattened in order: for
/// each owned-right type in order, one outpoint per listed index.
pub open spec fn flatten_parent_entry(
    node_id: NodeId,
    inner: Seq<(OwnedRightType, Vec<u16>)>,
) -> Seq<NodeOutpoint>
    decreases inner.len(),
{
    if inner.len() == 0 {
        Seq::empty()
    } else {
        flatten_parent_entry(node_id, inner.drop_last()) + inner.last().1@.map_values(
            |no: u16|
                NodeOutpoint { node_id, ty: inner.last().0, no },
        )
    }
}

/// The outpoints a parent-reference map references, flattened in map
/// order.
pub open spec fn flatten_parent_refs(
    v: Seq<(NodeId, Vec<(OwnedRightType, Vec<u16>)>)>,
) -> Seq<NodeOutpoint>
    decreases v.len(),
{
    if v.len() == 0 {
        Seq::empty()
    } else {
        flatten_parent_refs(v.drop_last()) + flatten_parent_entry(v.last().0, v.last().1@)
    }
}

/// The owned-right types a parent-reference map names, flattened in map
/// order.
pub open spec fn flatten_right_types(
    v: Seq<(NodeId, Vec<(OwnedRightType, Vec<u16>)>)>,
) -> Seq<OwnedRightType>
    decreases v.len(),
{
    if v.len() == 0 {
        Seq::empty()
    } else {
        flatten_right_types(v.drop_last()) + v.last().1@.map_values(
            |e: (OwnedRightType, Vec<u16>)| e.0,
        )
    }
}

/// Pointwise-equal predicates filter a sequence identically.
pub proof fn lemma_filter_congruent<T>(s: Seq<T>, f: spec_fn(T) -> bool, g: spec_fn(T) -> bool)
    requires
        forall|x: T| #[trigger] f(x) == g(x),
    ensures
        s.filter(f) == s.filter(g),
    decreases s.len(),
{
    reveal(Seq::filter);
    if s.len() > 0 {
        lemma_filter_congruent(s.drop_last(), f, g);
    }
}

/// The owned rights a transition closes: a sorted map from parent node id
/// to the output indices consumed, per owned-right type.
pub struct ParentOwnedRights {
    pub entries: Vec<(NodeId, Vec<(OwnedRightType, Vec<u16>)>)>,
}

impl ParentOwnedRights {
    /// The sorted-map invariants, the container bounds, and the
    /// uniqueness of each referenced output index.
    pub open spec fn wf(self) -> bool {
        node_keys_sorted(self.entries@) && self.entries@.len() <= 255 && forall|i: int|
            0 <= i < self.entries@.len() ==> {
                let inner = (#[trigger] self.entries@[i]).1;
                u16_keys_sorted(inner@) && inner@.len() <= 255 && forall|j: int|
                    0 <= j < inner@.len() ==> {
                        let nos = (#[trigger] inner@[j]).1;
                        nos@.len() <= 255 && forall|a: int, b: int|
                            0 <= a < b < nos@.len() ==> nos@[a] != nos@[b]
                    }
            }
    }

    /// An empty map.
    pub fn new() -> (r: ParentOwnedRights)
        ensures
            r.wf(),
            r.entries@.len() == 0,
    {
        ParentOwnedRights { entries: Vec::new() }
    }

    /// Every parent output referenced, flattened to node outpoints: for
    /// each parent in map order, each owned-right type in order, one
    /// outpoint per listed index.
    pub fn parent_outputs(&self) -> (r: Vec<NodeOutpoint>)
        ensures
            r@ == flatten_parent_refs(self.entries@),
    {
        let nn = self.entries.len();
        let mut r: Vec<NodeOutpoint> = Vec::new();
        let mut i: usize = 0;
        while i < nn
            invariant
                i <= nn,
                nn == self.entries@.len(),
                r@ == flatten_parent_refs(self.entries@.take(i as int)),
            decreases nn - i,
        {
            let node_id = self.entries[i].0;
            let inner_len = self.entries[i].1.len();
            let mut j: usize = 0;
            while j < inner_len
                invariant
                    i < nn,
                    j <= inner_len,
                    nn == self.entries@.len(),
                    inner_len == self.entries@[i as int].1@.len(),
                    node_id == self.entries@[i as int].0,
                    r@ == flatten_parent_refs(self.entries@.take(i as int))
                        + flatten_parent_entry(node_id, self.entries@[i as int].1@.take(j as int)),
                decreases inner_len - j,
            {
                let ty = self.entries[i].1[j].0;
                let nos_len = self.entries[i].1[j].1.len();
                let ghost inner = self.entries@[i as int].1@;
                let mut l: usize = 0;
                while l < nos_len
                    invariant
                        i < nn,
                        j < inner_len,
                        l <= nos_len,
                        nn == self.entries@.len(),
                        inner == self.entries@[i as int].1@,
                        inner_len == inner.len(),
                        nos_len == inner[j as int].1@.len(),
                        node_id == self.entries@[i as int].0,
                        ty == inner[j as int].0,
                        r@ == flatten_parent_refs(self.entries@.take(i as int))
                            + flatten_parent_entry(node_id, inner.take(j as int)) + inner[
                            j as int].1@.take(l as int).map_values(
                            |no: u16| NodeOutpoint { node_id, ty, no },
                        ),
                    decreases nos_len - l,
                {
                    let no = self.entries[i].1[j].1[l];
                    r.push(NodeOutpoint { node_id, ty, no });
                    proof {
                        let m = |no: u16| NodeOutpoint { node_id, ty, no };
                        assert(inner[j as int].1@.take(l + 1).map_values(m) =~= inner[
                            j as int].1@.take(l as int).map_values(m).push(m(no)));
                        assert(r@ =~= flatten_parent_refs(self.entries@.take(i as int))
                            + flatten_parent_entry(node_id, inner.take(j as int)) + inner[
                            j as int].1@.take(l + 1).map_values(m));
                    }
                    l = l + 1;
                }
                proof {
                    assert(inner.take(j + 1).drop_last() =~= inner.take(j as int));
                    assert(inner.take(j + 1).last() == inner[j as int]);
                    assert(inner[j as int].1@.take(nos_len as int) =~= inner[j as int].1@);
                    assert(flatten_parent_entry(node_id, inner.take(j + 1))
                        == flatten_parent_entry(node_id, inner.take(j as int)) + inner[
                        j as int].1@.map_values(|no: u16| NodeOutpoint { node_id, ty, no }));
                }
                j = j + 1;
            }
            proof {
                assert(self.entries@.take(i + 1).drop_last() =~= self.entries@.take(i as int));
                assert(self.entries@.take(i + 1).last() == self.entries@[i as int]);
                assert(self.entries@[i as int].1@.take(inner_len as int) =~= self.entries@[
                i as int].1@);
            }
            i = i + 1;
        }
        proof {
            assert(self.entries@.take(nn as int) =~= self.entries@);
        }
        r
    }

    /// The parent outputs referenced, restricted to the given owned-right
    /// types: the full flattening filtered on the type, order kept.
    pub fn parent_outputs_by_types(&self, types: &Vec<OwnedRightType>) -> (r: Vec<NodeOutpoint>)
        ensures
            r@ == flatten_parent_refs(self.entries@).filter(
                |op: NodeOutpoint| types@.contains(op.ty),
            ),
    {
        let all = self.parent_outputs();
        let n = all.len();
        let mut r: Vec<NodeOutpoint> = Vec::new();
        let ghost f = |op: NodeOutpoint| types@.contains(op.ty);
        proof {
            assert(all@.take(0).filter(f) =~= Seq::<NodeOutpoint>::empty());
        }
        let mut i: usize = 0;
        while i < n
            invariant
                i <= n,
                n == all@.len(),
                all@ == flatten_parent_refs(self.entries@),
                f == (|op: NodeOutpoint| types@.contains(op.ty)),
                r@ == all@.take(i as int).filter(f),
            decreases n - i,
        {
            let op = all[i];
            let mut found = false;
            let tn = types.len();
            let mut t: usize = 0;
            while t < tn
                invariant
                    t <= tn,
                    tn == types@.len(),
                    found <==> exists|x: int| 0 <= x < t && types@[x] == op.ty,
                decreases tn - t,
            {
                if types[t] == op.ty {
                    found = true;
                }
                t = t + 1;
            }
            if found {
                r.push(op);
            }
            proof {
                reveal(Seq::filter);
                assert(all@.take(i + 1).drop_last() =~= all@.take(i as int));
                assert(all@.take(i + 1).last() == all@[i as int]);
                if found {
                    assert(types@.contains(op.ty));
                    assert(all@.take(i + 1).filter(f) =~= all@.take(i as int).filter(f).push(op));
                } else {
                    assert(!types@.contains(op.ty));
                    assert(all@.take(i + 1).filter(f) =~= all@.take(i as int).filter(f));
                }
            }
            i = i + 1;
        }
        proof {
            assert(all@.take(n as int) =~= all@);
        }
        r
    }

    /// The owned-right types referenced from each parent, flattened in
    /// map order, one entry per inner key (repetitions across parents
    /// kept, as in the flattening).
    pub fn parent_owned_right_types(&self) -> (r: Vec<OwnedRightType>)
        ensures
            r@ == flatten_right_types(self.entries@),
    {
        let nn = self.entries.len();
        let mut r: Vec<OwnedRightType> = Vec::new();
        let mut i: usize = 0;
        while i < nn
            invariant
                i <= nn,
                nn == self.entries@.len(),
                r@ == flatten_right_types(self.entries@.take(i as int)),
            decreases nn - i,
        {
            let inner_len = self.entries[i].1.len();
            let ghost inner = self.entries@[i as int].1@;
            let mut j: usize = 0;
            while j < inner_len
                invariant
                    i < nn,
                    j <= inner_len,
                    nn == self.entries@.len(),
                    inner == self.entries@[i as int].1@,
                    inner_len == inner.len(),
                    r@ == flatten_right_types(self.entries@.take(i as int)) + inner.take(
                        j as int,
                    ).map_values(|e: (OwnedRightType, Vec<u16>)| e.0),
                decreases inner_len - j,
            {
                let t = self.entries[i].1[j].0;
                r.push(t);
                proof {
                    let m = |e: (OwnedRightType, Vec<u16>)| e.0;
                    assert(inner.take(j + 1).map_values(m) =~= inner.take(j as int).map_values(
                        m,
                    ).push(t));
                    assert(r@ =~= flatten_right_types(self.entries@.take(i as int)) + inner.take(
                        j + 1,
                    ).map_values(m));
                }
                j = j + 1;
            }
            proof {
                assert(self.entries@.take(i + 1).drop_last() =~= self.entries@.take(i as int));
                assert(self.entries@.take(i + 1).last() == self.entries@[i as int]);
                assert(inner.take(inner_len as int) =~= inner);
            }
            i = i + 1;
        }
        proof {
            assert(self.entries@.take(nn as int) =~= self.entries@);
        }
        r
    }

    /// The strict encoding: a count byte, then each parent entry.
    pub open spec fn spec_enc(self) -> Seq<u8> {
        enc_u8(self.entries@.len() as u8) + enc_parent_owned_entries(self.entries@)
    }

    /// Appends the strict encoding of this map to `out`.
    pub fn write_enc(&self, out: &mut Vec<u8>)
        requires
            self.wf(),
        ensures
            final(out)@ == old(out)@ + self.spec_enc(),
    {
        let nn = self.entries.len();
        write_u8(out, nn as u8);
        let mut i: usize = 0;
        while i < nn
            invariant
                i <= nn,
                nn == self.entries@.len(),
                self.wf(),
                out@ == old(out)@ + enc_u8(nn as u8) + enc_parent_owned_entries(
                    self.entries@.take(i as int),
                ),
            decreases nn - i,
        {
            crate::encoding::write_bytes32(out, &self.entries[i].0.0);
            let inner_len = self.entries[i].1.len();
            write_u8(out, inner_len as u8);
            let ghost mid = out@;
            let mut j: usize = 0;
            while j < inner_len
                invariant
                    i < nn,
                    j <= inner_len,
                    nn == self.entries@.len(),
                    self.wf(),
                    inner_len == self.entries@[i as int].1@.len(),
                    out@ == mid + enc_inner_owned_entries(self.entries@[i as int].1@.take(
                        j as int,
                    )),
                decreases inner_len - j,
            {
                write_u16(out, self.entries[i].1[j].0);
                write_u16s(&self.entries[i].1[j].1, out);
                proof {
                    assert(self.entries@[i as int].1@.take(j + 1).drop_last()
                        =~= self.entries@[i as int].1@.take(j as int));
                    assert(self.entries@[i as int].1@.take(j + 1).last() == self.entries@[
                    i as int].1@[j as int]);
                }
                j = j + 1;
            }
            proof {
                assert(self.entries@[i as int].1@.take(inner_len as int) =~= self.entries@[
                i as int].1@);
                assert(self.entries@.take(i + 1).drop_last() =~= self.entries@.take(i as int));
                assert(self.entries@.take(i + 1).last() == self.entries@[i as int]);
                assert(out@ =~= old(out)@ + enc_u8(nn as u8) + enc_parent_owned_entries(
                    self.entries@.take(i + 1),
                ));
            }
            i = i + 1;
        }
        proof {
            assert(self.entries@.take(nn as int) =~= self.entries@);
        }
    }
}

/// The encoding of one parent's inner owned-right map, in order.
pub open spec fn enc_inner_owned_entries(v: Seq<(OwnedRightType, Vec<u16>)>) -> Seq<u8>
    decreases v.len(),
{
    if v.len() == 0 {
        Seq::empty()
    } else {
        enc_inner_owned_entries(v.drop_last()) + enc_u16(v.last().0) + enc_u8(
            v.last().1@.len() as u8,
        ) + enc_u16s(v.last().1@)
    }
}

/// The encoding of the parent-owned-rights entries, in order.
pub open spec fn enc_parent_owned_entries(v: Seq<(NodeId, Vec<(OwnedRightType, Vec<u16>)>)>) -> Seq<
    u8,
>
    decreases v.len(),
{
    if v.len() == 0 {
        Seq::empty()
    } else {
        enc_parent_owned_entries(v.drop_last()) + v.last().0.0@ + enc_u8(v.last().1@.len() as u8)
            + enc_inner_owned_entries(v.last().1@)
    }
}

/// The public rights an extension ratifies: a sorted map from parent node
/// id to the public-right types referenced.
pub struct ParentPublicRights {
    pub entries: Vec<(NodeId, Vec<PublicRightType>)>,
}

impl ParentPublicRights {
    /// The sorted-map invariants and the container bounds.
    pub open spec fn wf(self) -> bool {
        node_keys_sorted(self.entries@) && self.entries@.len() <= 255 && forall|i: int|
            0 <= i < self.entries@.len() ==> u16s_sorted((#[trigger] self.entries@[i]).1@)
                && self.entries@[i].1@.len() <= 255
    }

    /// An empty map.
    pub fn new() -> (r: ParentPublicRights)
        ensures
            r.wf(),
            r.entries@.len() == 0,
    {
        ParentPublicRights { entries: Vec::new() }
    }

    /// The public-right types referenced from any parent, flattened.
    pub fn parent_public_right_types(&self) -> (r: Vec<PublicRightType>)
        ensures
            forall|t: PublicRightType| r@.contains(t) ==> exists|i: int|
                0 <= i < self.entries@.len() && (#[trigger] self.entries@[i]).1@.contains(t),
            forall|i: int, j: int|
                0 <= i < self.entries@.len() && 0 <= j < (#[trigger] self.entries@[i]).1@.len()
                    ==> r@.contains(#[trigger] self.entries@[i].1@[j]),
    {
        let nn = self.entries.len();
        let mut r: Vec<PublicRightType> = Vec::new();
        let mut i: usize = 0;
        while i < nn
            invariant
                i <= nn,
                nn == self.entries@.len(),
                forall|t: PublicRightType| r@.contains(t) ==> exists|ii: int|
                    0 <= ii < self.entries@.len() && (#[trigger] self.entries@[ii]).1@.contains(
                        t,
                    ),
                forall|ii: int, j: int|
                    0 <= ii < i && 0 <= j < (#[trigger] self.entries@[ii]).1@.len()
                        ==> r@.contains(#[trigger] self.entries@[ii].1@[j]),
            decreases nn - i,
        {
            let inner_len = self.entries[i].1.len();
            let mut j: usize = 0;
            while j < inner_len
                invariant
                    i < nn,
                    j <= inner_len,
                    nn == self.entries@.len(),
                    inner_len == self.entries@[i as int].1@.len(),
                    forall|t: PublicRightType| r@.contains(t) ==> exists|ii: int|
                        0 <= ii < self.entries@.len() && (#[trigger] self.entries@[
                        ii]).1@.contains(t),
                    forall|ii: int, jj: int|
                        0 <= ii < i && 0 <= jj < (#[trigger] self.entries@[ii]).1@.len()
                            ==> r@.contains(#[trigger] self.entries@[ii].1@[jj]),
                    forall|jj: int| 0 <= jj < j ==> r@.contains(
                        #[trigger] self.entries@[i as int].1@[jj],
                    ),
                decreases inner_len - j,
            {
                let t = self.entries[i].1[j];
                let ghost rold = r@;
                r.push(t);
                proof {
                    assert(self.entries@[i as int].1@.contains(t));
                    assert(forall|x: u16| rold.contains(x) ==> r@.contains(x));
                    assert(r@.contains(t));
                }
                j = j + 1;
            }
            i = i + 1;
        }
        r
    }

    /// The parent node ids referencing public-right type `t`: the keys of
    /// exactly the entries whose set holds `t`, in order.
    pub fn parent_by_public_right_type(&self, t: PublicRightType) -> (r: Vec<NodeId>)
        ensures
            r@ == self.entries@.filter(
                |e: (NodeId, Vec<PublicRightType>)| e.1@.contains(t),
            ).map_values(|e: (NodeId, Vec<PublicRightType>)| e.0),
    {
        let nn = self.entries.len();
        let mut r: Vec<NodeId> = Vec::new();
        let mut i: usize = 0;
        proof {
            assert(self.entries@.take(0).filter(
                |e: (NodeId, Vec<PublicRightType>)| e.1@.contains(t),
            ) =~= Seq::<(NodeId, Vec<PublicRightType>)>::empty());
        }
        while i < nn
            invariant
                i <= nn,
                nn == self.entries@.len(),
                r@ == self.entries@.take(i as int).filter(
                    |e: (NodeId, Vec<PublicRightType>)| e.1@.contains(t),
                ).map_values(|e: (NodeId, Vec<PublicRightType>)| e.0),
            decreases nn - i,
        {
            let inner_len = self.entries[i].1.len();
            let mut j: usize = 0;
            let mut found = false;
            while j < inner_len
                invariant
                    i < nn,
                    j <= inner_len,
                    nn == self.entries@.len(),
                    inner_len == self.entries@[i as int].1@.len(),
                    found <==> exists|x: int| 0 <= x < j && self.entries@[i as int].1@[x] == t,
                decreases inner_len - j,
            {
                if self.entries[i].1[j] == t {
                    found = true;
                }
                j = j + 1;
            }
            if found {
                r.push(self.entries[i].0);
            }
            proof {
                let f = |e: (NodeId, Vec<PublicRightType>)| e.1@.contains(t);
                let g = |e: (NodeId, Vec<PublicRightType>)| e.0;
                reveal(Seq::filter);
                assert(self.entries@.take(i + 1).drop_last() =~= self.entries@.take(i as int));
                assert(self.entries@.take(i + 1).last() == self.entries@[i as int]);
                if found {
                    assert(self.entries@[i as int].1@.contains(t));
                    assert(self.entries@.take(i + 1).filter(f) =~= self.entries@.take(
                        i as int,
                    ).filter(f).push(self.entries@[i as int]));
                    assert(self.entries@.take(i + 1).filter(f).map_values(g)
                        =~= self.entries@.take(i as int).filter(f).map_values(g).push(
                        g(self.entries@[i as int]),
                    ));
                } else {
                    assert(!self.entries@[i as int].1@.contains(t));
                    assert(self.entries@.take(i + 1).filter(f) =~= self.entries@.take(
                        i as int,
                    ).filter(f));
                }
            }
            i = i + 1;
        }
        proof {
            assert(self.entries@.take(nn as int) =~= self.entries@);
        }
        r
    }

    /// The strict encoding: a count byte, then each parent entry.
    pub open spec fn spec_enc(self) -> Seq<u8> {
        enc_u8(self.entries@.len() as u8) + enc_parent_public_entries(self.entries@)
    }

    /// Appends the strict encoding of this map to `out`.
    pub fn write_enc(&self, out: &mut Vec<u8>)
        requires
            self.wf(),
        ensures
            final(out)@ == old(out)@ + self.spec_enc(),
    {
        let nn = self.entries.len();
        write_u8(out, nn as u8);
        let mut i: usize = 0;
        while i < nn
            invariant
                i <= nn,
                nn == self.entries@.len(),
                self.wf(),
                out@ == old(out)@ + enc_u8(nn as u8) + enc_parent_public_entries(
                    self.entries@.take(i as int),
                ),
            decreases nn - i,
        {
            crate::encoding::write_bytes32(out, &self.entries[i].0.0);
            write_u16s(&self.entries[i].1, out);
            proof {
                assert(self.entries@.take(i + 1).drop_last() =~= self.entries@.take(i as int));
                assert(self.entries@.take(i + 1).last() == self.entries@[i as int]);
            }
            i = i + 1;
        }
        proof {
            assert(self.entries@.take(nn as int) =~= self.entries@);
        }
    }
}

/// The encoding of the parent-public-rights entries, in order.
pub open spec fn enc_parent_public_entries(v: Seq<(NodeId, Vec<u16>)>) -> Seq<u8>
    decreases v.len(),
{
    if v.len() == 0 {
        Seq::empty()
    } else {
        enc_parent_public_entries(v.drop_last()) + v.last().0.0@ + enc_u8(v.last().1@.len() as u8)
            + enc_u16s(v.last().1@)
    }
}

// ---------------------------------------------------------------- node-level conceal

/// How many assignments a `conceal_state_except` call transforms across
/// a whole owned-rights map.
pub open spec fn count_state_in_entries(
    v: Seq<(OwnedRightType, TypedAssignments)>,
    except: Seq<SecretSeal>,
) -> nat
    decreases v.len(),
{
    if v.len() == 0 {
        0
    } else {
        count_state_in_entries(v.drop_last(), except) + v.last().1.spec_count_state_concealable(
            except,
        )
    }
}

/// How many assignments a `conceal_seals` call transforms across a whole
/// owned-rights map.
pub open spec fn count_seals_in_entries(
    v: Seq<(OwnedRightType, TypedAssignments)>,
    seals: Seq<SecretSeal>,
) -> nat
    decreases v.len(),
{
    if v.len() == 0 {
        0
    } else {
        count_seals_in_entries(v.drop_last(), seals) + v.last().1.spec_count_seal_concealable(
            seals,
        )
    }
}

impl OwnedRights {
    /// Conceals the state of every assignment across all owned-right
    /// types, except those whose seal stands in the exception list;
    /// returns how many assignments changed.
    pub fn conceal_state_except(&mut self, except: &Vec<SecretSeal>) -> (count: usize)
        requires
            old(self).wf(),
        ensures
            final(self).wf(),
            final(self).entries@.len() == old(self).entries@.len(),
            forall|i: int| 0 <= i < old(self).entries@.len() ==> ((#[trigger] final(self).entries@[i]).0 == old(self).entries@[i].0
                && old(self).entries@[i].1.conceal_state_rel(final(self).entries@[i].1, except@)),
            count == count_state_in_entries(old(self).entries@, except@),
    {
        let n = self.entries.len();
        let mut count: usize = 0;
        let mut i: usize = 0;
        while i < n
            invariant
                i <= n,
                n == self.entries@.len(),
                n == old(self).entries@.len(),
                n <= 255,
                u16_keys_sorted(old(self).entries@),
                forall|j: int| 0 <= j < i ==> ((#[trigger] self.entries@[j]).0 == old(self).entries@[j].0
                    && old(self).entries@[j].1.conceal_state_rel(self.entries@[j].1, except@)
                    && self.entries@[j].1.wf()),
                forall|j: int| i <= j < n ==> (#[trigger] self.entries@[j] == old(self).entries@[j]
                    && old(self).entries@[j].1.wf()),
                count == count_state_in_entries(old(self).entries@.take(i as int), except@),
                count <= 255 * i,
            decreases n - i,
        {
            let ghost prev = self.entries@;
            let (key, mut ta) = self.entries.remove(i);
            let c = ta.conceal_state_except(except);
            self.entries.insert(i, (key, ta));
            proof {
                assert(self.entries@ =~= prev.update(i as int, (key, ta)));
                crate::assignments::lemma_counts_bounded(old(self).entries@[i as int].1, except@);
                assert(old(self).entries@.take(i + 1).drop_last() =~= old(self).entries@.take(
                    i as int,
                ));
                assert(old(self).entries@.take(i + 1).last() == old(self).entries@[i as int]);
            }
            count = count + c;
            i = i + 1;
        }
        proof {
            assert(old(self).entries@.take(n as int) =~= old(self).entries@);
            assert forall|i: int, j: int| 0 <= i < j < self.entries@.len() implies (
            #[trigger] self.entries@[i]).0 < (#[trigger] self.entries@[j]).0 by {
                assert(self.entries@[i].0 == old(self).entries@[i].0);
                assert(self.entries@[j].0 == old(self).entries@[j].0);
            }
        }
        count
    }

    /// Conceals every revealed seal whose secret form is in the list,
    /// across all owned-right types; returns how many assignments
    /// changed.
    pub fn conceal_seals(&mut self, seals: &Vec<SecretSeal>) -> (count: usize)
        requires
            old(self).wf(),
        ensures
            final(self).wf(),
            final(self).entries@.len() == old(self).entries@.len(),
            forall|i: int| 0 <= i < old(self).entries@.len() ==> ((#[trigger] final(self).entries@[i]).0 == old(self).entries@[i].0
                && old(self).entries@[i].1.conceal_seals_rel(final(self).entries@[i].1, seals@)),
            count == count_seals_in_entries(old(self).entries@, seals@),
    {
        let n = self.entries.len();
        let mut count: usize = 0;
        let mut i: usize = 0;
        while i < n
            invariant
                i <= n,
                n == self.entries@.len(),
                n == old(self).entries@.len(),
                n <= 255,
                u16_keys_sorted(old(self).entries@),
                forall|j: int| 0 <= j < i ==> ((#[trigger] self.entries@[j]).0 == old(self).entries@[j].0
                    && old(self).entries@[j].1.conceal_seals_rel(self.entries@[j].1, seals@)
                    && self.entries@[j].1.wf()),
                forall|j: int| i <= j < n ==> (#[trigger] self.entries@[j] == old(self).entries@[j]
                    && old(self).entries@[j].1.wf()),
                count == count_seals_in_entries(old(self).entries@.take(i as int), seals@),
                count <= 255 * i,
            decreases n - i,
        {
            let ghost prev = self.entries@;
            let (key, mut ta) = self.entries.remove(i);
            let c = ta.conceal_seals(seals);
            self.entries.insert(i, (key, ta));
            proof {
                assert(self.entries@ =~= prev.update(i as int, (key, ta)));
                crate::assignments::lemma_counts_bounded(old(self).entries@[i as int].1, seals@);
                assert(old(self).entries@.take(i + 1).drop_last() =~= old(self).entries@.take(
                    i as int,
                ));
                assert(old(self).entries@.take(i + 1).last() == old(self).entries@[i as int]);
            }
            count = count + c;
            i = i + 1;
        }
        proof {
            assert(old(self).entries@.take(n as int) =~= old(self).entries@);
            assert forall|i: int, j: int| 0 <= i < j < self.entries@.len() implies (
            #[trigger] self.entries@[i]).0 < (#[trigger] self.entries@[j]).0 by {
                assert(self.entries@[i].0 == old(self).entries@[i].0);
                assert(self.entries@[j].0 == old(self).entries@[j].0);
            }
        }
        count
    }

    /// The confidential seals of all assignments across all owned-right
    /// types, flattened in order.
    pub fn to_confidential_seals(&self) -> (r: Vec<SecretSeal>)
        ensures
            r@ == conf_seals_of_entries(self.entries@),
    {
        let n = self.entries.len();
        let mut r: Vec<SecretSeal> = Vec::new();
        let mut i: usize = 0;
        while i < n
            invariant
                i <= n,
                n == self.entries@.len(),
                r@ == conf_seals_of_entries(self.entries@.take(i as int)),
            decreases n - i,
        {
            let mut part = self.entries[i].1.to_confidential_seals();
            r.append(&mut part);
            proof {
                assert(self.entries@.take(i + 1).drop_last() =~= self.entries@.take(i as int));
                assert(self.entries@.take(i + 1).last() == self.entries@[i as int]);
            }
            i = i + 1;
        }
        proof {
            assert(self.entries@.take(n as int) =~= self.entries@);
        }
        r
    }

    /// The revealed seals of all assignments: fails when any seal is
    /// concealed.
    pub fn revealed_seals(&self) -> (r: Result<Vec<XSeal<GraphSeal>>, ConfidentialDataError>)
        ensures
            match r {
                Ok(seals) => all_entry_seals_revealed(self.entries@) && seals@
                    == revealed_seals_of_entries(self.entries@),
                Err(_) => !all_entry_seals_revealed(self.entries@),
            },
    {
        let n = self.entries.len();
        let mut r: Vec<XSeal<GraphSeal>> = Vec::new();
        let mut i: usize = 0;
        while i < n
            invariant
                i <= n,
                n == self.entries@.len(),
                forall|j: int| 0 <= j < i ==> (#[trigger] self.entries@[
                j]).1.spec_all_seals_revealed(),
                r@ == revealed_seals_of_entries(self.entries@.take(i as int)),
            decreases n - i,
        {
            match self.entries[i].1.revealed_seals() {
                Ok(mut part) => {
                    r.append(&mut part);
                },
                Err(e) => {
                    return Err(e);
                },
            }
            proof {
                assert(self.entries@.take(i + 1).drop_last() =~= self.entries@.take(i as int));
                assert(self.entries@.take(i + 1).last() == self.entries@[i as int]);
            }
            i = i + 1;
        }
        proof {
            assert(self.entries@.take(n as int) =~= self.entries@);
        }
        Ok(r)
    }

    /// The revealed seals of all assignments, dropping concealed ones.
    pub fn filter_revealed_seals(&self) -> (r: Vec<XSeal<GraphSeal>>)
        ensures
            r@ == filtered_seals_of_entries(self.entries@),
    {
        let n = self.entries.len();
        let mut r: Vec<XSeal<GraphSeal>> = Vec::new();
        let mut i: usize = 0;
        while i < n
            invariant
                i <= n,
                n == self.entries@.len(),
                r@ == filtered_seals_of_entries(self.entries@.take(i as int)),
            decreases n - i,
        {
            let mut part = self.entries[i].1.filter_revealed_seals();
            r.append(&mut part);
            proof {
                assert(self.entries@.take(i + 1).drop_last() =~= self.entries@.take(i as int));
                assert(self.entries@.take(i + 1).last() == self.entries@[i as int]);
            }
            i = i + 1;
        }
        proof {
            assert(self.entries@.take(n as int) =~= self.entries@);
        }
        r
    }
}

/// The confidential seals of an owned-rights map, flattened in order.
pub open spec fn conf_seals_of_entries(v: Seq<(OwnedRightType, TypedAssignments)>) -> Seq<
    SecretSeal,
>
    decreases v.len(),
{
    if v.len() == 0 {
        Seq::empty()
    } else {
        conf_seals_of_entries(v.drop_last()) + v.last().1.spec_confidential_seals()
    }
}

/// Whether every assignment across the map still holds a revealed seal.
pub open spec fn all_entry_seals_revealed(v: Seq<(OwnedRightType, TypedAssignments)>) -> bool {
    forall|i: int| 0 <= i < v.len() ==> (#[trigger] v[i]).1.spec_all_seals_revealed()
}

/// The revealed seals of an owned-rights map, flattened in order.
pub open spec fn revealed_seals_of_entries(v: Seq<(OwnedRightType, TypedAssignments)>) -> Seq<
    XSeal<GraphSeal>,
>
    decreases v.len(),
{
    if v.len() == 0 {
        Seq::empty()
    } else {
        revealed_seals_of_entries(v.drop_last()) + v.last().1.spec_revealed_seals()
    }
}

/// The revealed seals of an owned-rights map, dropping concealed ones.
pub open spec fn filtered_seals_of_entries(v: Seq<(OwnedRightType, TypedAssignments)>) -> Seq<
    XSeal<GraphSeal>,
>
    decreases v.len(),
{
    if v.len() == 0 {
        Seq::empty()
    } else {
        filtered_seals_of_entries(v.drop_last()) + v.last().1.spec_filter_revealed_seals()
    }
}

// ---------------------------------------------------------------- the three node kinds

/// The kind of a contract node.
#[derive(Clone, Copy, PartialEq, Eq, Structural, Debug)]
pub enum NodeType {
    Genesis,
    StateTransition,
    StateExtension,
}

/// The root node of a contract: declares the schema, the chain, and the
/// initial state.
pub struct Genesis {
    pub schema_id: SchemaId,
    pub chain: Chain,
    pub metadata: Metadata,
    pub owned_rights: OwnedRights,
    pub public_rights: PublicRights,
}

impl Genesis {
    /// Well-formedness of all parts.
    pub open spec fn wf(self) -> bool {
        self.metadata.wf() && self.owned_rights.wf() && self.public_rights.wf()
    }

    /// The genesis with the given parts.
    pub fn with(
        schema_id: SchemaId,
        chain: Chain,
        metadata: Metadata,
        owned_rights: OwnedRights,
        public_rights: PublicRights,
    ) -> (r: Genesis)
        ensures
            r == (Genesis { schema_id, chain, metadata, owned_rights, public_rights }),
    {
        Genesis { schema_id, chain, metadata, owned_rights, public_rights }
    }

    /// The strict encoding: schema id, chain, metadata, owned rights
    /// (assignments in concealed form), public rights.
    pub open spec fn spec_enc(self) -> Seq<u8> {
        self.schema_id.0@ + enc_u8(chain_tag(self.chain)) + self.metadata.spec_enc()
            + self.owned_rights.spec_enc() + self.public_rights.spec_enc()
    }

    /// The strict encoding, as a fresh byte vector.
    pub fn strict_encode(&self) -> (r: Vec<u8>)
        requires
            self.wf(),
        ensures
            r@ == self.spec_enc(),
    {
        let mut out: Vec<u8> = Vec::new();
        crate::encoding::write_bytes32(&mut out, &self.schema_id.0);
        let tag = match self.chain {
            Chain::Bitcoin => 0u8,
            Chain::Testnet3 => 1u8,
            Chain::Signet => 2u8,
            Chain::Regtest => 3u8,
            Chain::Liquid => 4u8,
        };
        write_u8(&mut out, tag);
        self.metadata.write_enc(&mut out);
        self.owned_rights.write_enc(&mut out);
        self.public_rights.write_enc(&mut out);
        assert(out@ =~= self.spec_enc());
        out
    }

    /// The identity of this genesis: the tagged commitment of its strict
    /// encoding.
    pub open spec fn spec_node_id(self) -> Seq<u8> {
        spec_tagged_hash(TAG_GENESIS@, self.spec_enc())
    }

    /// The node id: the tagged commitment of the strict encoding.
    pub fn node_id(&self) -> (r: NodeId)
        requires
            self.wf(),
        ensures
            r.0@ == self.spec_node_id(),
    {
        let encoded = self.strict_encode();
        NodeId(tagged_hash(&TAG_GENESIS, &encoded))
    }

    /// The contract id: byte-equal to the genesis node id.
    pub fn contract_id(&self) -> (r: ContractId)
        requires
            self.wf(),
        ensures
            r.0@ == self.spec_node_id(),
    {
        let encoded = self.strict_encode();
        ContractId(tagged_hash(&TAG_GENESIS, &encoded))
    }

    /// The schema this contract is declared against.
    pub fn schema_id(&self) -> (r: SchemaId)
        ensures
            r == self.schema_id,
    {
        self.schema_id
    }

    /// The chain this contract lives on.
    pub fn chain(&self) -> (r: Chain)
        ensures
            r == self.chain,
    {
        self.chain
    }

    /// Conceals owned state across the node, except under the listed
    /// seals; returns how many assignments changed.
    pub fn conceal_state_except(&mut self, seals: &Vec<SecretSeal>) -> (count: usize)
        requires
            old(self).wf(),
        ensures
            final(self).wf(),
            count == count_state_in_entries(old(self).owned_rights.entries@, seals@),
            final(self).schema_id == old(self).schema_id,
            final(self).chain == old(self).chain,
            final(self).metadata == old(self).metadata,
            final(self).public_rights == old(self).public_rights,
            final(self).owned_rights.entries@.len() == old(self).owned_rights.entries@.len(),
            forall|i: int| 0 <= i < old(self).owned_rights.entries@.len() ==> ((#[trigger] final(self).owned_rights.entries@[i]).0 == old(self).owned_rights.entries@[i].0
                && old(self).owned_rights.entries@[i].1.conceal_state_rel(final(self).owned_rights.entries@[i].1, seals@)),
    {
        self.owned_rights.conceal_state_except(seals)
    }

    /// Conceals the listed seals across the node; returns how many
    /// assignments changed.
    pub fn conceal_seals(&mut self, seals: &Vec<SecretSeal>) -> (count: usize)
        requires
            old(self).wf(),
        ensures
            final(self).wf(),
            count == count_seals_in_entries(old(self).owned_rights.entries@, seals@),
            final(self).schema_id == old(self).schema_id,
            final(self).chain == old(self).chain,
            final(self).metadata == old(self).metadata,
            final(self).public_rights == old(self).public_rights,
            final(self).owned_rights.entries@.len() == old(self).owned_rights.entries@.len(),
            forall|i: int| 0 <= i < old(self).owned_rights.entries@.len() ==> ((#[trigger] final(self).owned_rights.entries@[i]).0 == old(self).owned_rights.entries@[i].0
                && old(self).owned_rights.entries@[i].1.conceal_seals_rel(final(self).owned_rights.entries@[i].1, seals@)),
    {
        self.owned_rights.conceal_seals(seals)
    }
}

/// Law: a genesis node's identity is exactly the tagged commitment of
/// its strict encoding, and its contract id is byte-equal to that node
/// id.
pub proof fn lemma_genesis_identity(g: Genesis, id: NodeId, cid: ContractId)
    requires
        id.0@ == g.spec_node_id(),
        cid.0@ == g.spec_node_id(),
    ensures
        id.0@ == spec_tagged_hash(TAG_GENESIS@, g.spec_enc()),
        cid.0@ == id.0@,
{
}

/// A node that closes parent seals and emits new assignments.
pub struct Transition {
    pub transition_type: TransitionType,
    pub metadata: Metadata,
    pub parent_owned_rights: ParentOwnedRights,
    pub owned_rights: OwnedRights,
    pub public_rights: PublicRights,
}

impl Transition {
    /// Well-formedness of all parts.
    pub open spec fn wf(self) -> bool {
        self.metadata.wf() && self.parent_owned_rights.wf() && self.owned_rights.wf()
            && self.public_rights.wf()
    }

    /// The transition with the given parts.
    pub fn with(
        transition_type: TransitionType,
        metadata: Metadata,
        owned_rights: OwnedRights,
        public_rights: PublicRights,
        parent_owned_rights: ParentOwnedRights,
    ) -> (r: Transition)
        ensures
            r == (Transition {
                transition_type,
                metadata,
                parent_owned_rights,
                owned_rights,
                public_rights,
            }),
    {
        Transition { transition_type, metadata, parent_owned_rights, owned_rights, public_rights }
    }

    /// The type of this transition under its schema.
    pub fn transition_type(&self) -> (r: TransitionType)
        ensures
            r == self.transition_type,
    {
        self.transition_type
    }

    /// The strict encoding: transition type, metadata, parent owned
    /// rights, owned rights (assignments in concealed form), public
    /// rights.
    pub open spec fn spec_enc(self) -> Seq<u8> {
        enc_u16(self.transition_type) + self.metadata.spec_enc()
            + self.parent_owned_rights.spec_enc() + self.owned_rights.spec_enc()
            + self.public_rights.spec_enc()
    }

    /// The strict encoding, as a fresh byte vector.
    pub fn strict_encode(&self) -> (r: Vec<u8>)
        requires
            self.wf(),
        ensures
            r@ == self.spec_enc(),
    {
        let mut out: Vec<u8> = Vec::new();
        write_u16(&mut out, self.transition_type);
        self.metadata.write_enc(&mut out);
        self.parent_owned_rights.write_enc(&mut out);
        self.owned_rights.write_enc(&mut out);
        self.public_rights.write_enc(&mut out);
        assert(out@ =~= self.spec_enc());
        out
    }

    /// The identity of this transition: the tagged commitment of its
    /// strict encoding.
    pub open spec fn spec_node_id(self) -> Seq<u8> {
        spec_tagged_hash(TAG_TRANSITION@, self.spec_enc())
    }

    /// The node id: the tagged commitment of the strict encoding.
    pub fn node_id(&self) -> (r: NodeId)
        requires
            self.wf(),
        ensures
            r.0@ == self.spec_node_id(),
    {
        let encoded = self.strict_encode();
        NodeId(tagged_hash(&TAG_TRANSITION, &encoded))
    }

    /// Conceals owned state across the node, except under the listed
    /// seals; returns how many assignments changed.
    pub fn conceal_state_except(&mut self, seals: &Vec<SecretSeal>) -> (count: usize)
        requires
            old(self).wf(),
        ensures
            final(self).wf(),
            count == count_state_in_entries(old(self).owned_rights.entries@, seals@),
            final(self).transition_type == old(self).transition_type,
            final(self).metadata == old(self).metadata,
            final(self).parent_owned_rights == old(self).parent_owned_rights,
            final(self).public_rights == old(self).public_rights,
            final(self).owned_rights.entries@.len() == old(self).owned_rights.entries@.len(),
            forall|i: int| 0 <= i < old(self).owned_rights.entries@.len() ==> ((#[trigger] final(self).owned_rights.entries@[i]).0 == old(self).owned_rights.entries@[i].0
                && old(self).owned_rights.entries@[i].1.conceal_state_rel(final(self).owned_rights.entries@[i].1, seals@)),
    {
        self.owned_rights.conceal_state_except(seals)
    }

    /// Conceals the listed seals across the node; returns how many
    /// assignments changed.
    pub fn conceal_seals(&mut self, seals: &Vec<SecretSeal>) -> (count: usize)
        requires
            old(self).wf(),
        ensures
            final(self).wf(),
            count == count_seals_in_entries(old(self).owned_rights.entries@, seals@),
            final(self).transition_type == old(self).transition_type,
            final(self).metadata == old(self).metadata,
            final(self).parent_owned_rights == old(self).parent_owned_rights,
            final(self).public_rights == old(self).public_rights,
            final(self).owned_rights.entries@.len() == old(self).owned_rights.entries@.len(),
            forall|i: int| 0 <= i < old(self).owned_rights.entries@.len() ==> ((#[trigger] final(self).owned_rights.entries@[i]).0 == old(self).owned_rights.entries@[i].0
                && old(self).owned_rights.entries@[i].1.conceal_seals_rel(final(self).owned_rights.entries@[i].1, seals@)),
    {
        self.owned_rights.conceal_seals(seals)
    }
}

impl Transition {
    /// The named consensus comparator of transitions: by node id, in
    /// lexicographic byte order. The structural ordering of the fields
    /// plays no consensus role.
    pub fn cmp_by_node_id(&self, other: &Transition) -> (r: core::cmp::Ordering)
        requires
            self.wf(),
            other.wf(),
        ensures
            r == crate::ids::lex_cmp(self.spec_node_id(), other.spec_node_id()),
    {
        let a = self.node_id();
        let b = other.node_id();
        crate::ids::bytes32_cmp(&a.0, &b.0)
    }
}

/// Law: a transition's identity is exactly the tagged commitment of its
/// strict encoding.
pub proof fn lemma_transition_identity(t: Transition, id: NodeId)
    requires
        id.0@ == t.spec_node_id(),
    ensures
        id.0@ == spec_tagged_hash(TAG_TRANSITION@, t.spec_enc()),
{
}

/// A node that ratifies public rights of earlier nodes without closing
/// seals.
pub struct Extension {
    pub extension_type: ExtensionType,
    pub contract_id: ContractId,
    pub metadata: Metadata,
    pub owned_rights: OwnedRights,
    pub parent_public_rights: ParentPublicRights,
    pub public_rights: PublicRights,
}

impl Extension {
    /// Well-formedness of all parts.
    pub open spec fn wf(self) -> bool {
        self.metadata.wf() && self.owned_rights.wf() && self.parent_public_rights.wf()
            && self.public_rights.wf()
    }

    /// The extension with the given parts.
    pub fn with(
        extension_type: ExtensionType,
        contract_id: ContractId,
        metadata: Metadata,
        owned_rights: OwnedRights,
        parent_public_rights: ParentPublicRights,
        public_rights: PublicRights,
    ) -> (r: Extension)
        ensures
            r == (Extension {
                extension_type,
                contract_id,
                metadata,
                owned_rights,
                parent_public_rights,
                public_rights,
            }),
    {
        Extension {
            extension_type,
            contract_id,
            metadata,
            owned_rights,
            parent_public_rights,
            public_rights,
        }
    }

    /// The strict encoding: extension type, contract id, metadata, owned
    /// rights (assignments in concealed form), parent public rights,
    /// public rights.
    pub open spec fn spec_enc(self) -> Seq<u8> {
        enc_u16(self.extension_type) + self.contract_id.0@ + self.metadata.spec_enc()
            + self.owned_rights.spec_enc() + self.parent_public_rights.spec_enc()
            + self.public_rights.spec_enc()
    }

    /// The strict encoding, as a fresh byte vector.
    pub fn strict_encode(&self) -> (r: Vec<u8>)
        requires
            self.wf(),
        ensures
            r@ == self.spec_enc(),
    {
        let mut out: Vec<u8> = Vec::new();
        write_u16(&mut out, self.extension_type);
        crate::encoding::write_bytes32(&mut out, &self.contract_id.0);
        self.metadata.write_enc(&mut out);
        self.owned_rights.write_enc(&mut out);
        self.parent_public_rights.write_enc(&mut out);
        self.public_rights.write_enc(&mut out);
        assert(out@ =~= self.spec_enc());
        out
    }

    /// The identity of this extension: the tagged commitment of its
    /// strict encoding.
    pub open spec fn spec_node_id(self) -> Seq<u8> {
        spec_tagged_hash(TAG_EXTENSION@, self.spec_enc())
    }

    /// The node id: the tagged commitment of the strict encoding.
    pub fn node_id(&self) -> (r: NodeId)
        requires
            self.wf(),
        ensures
            r.0@ == self.spec_node_id(),
    {
        let encoded = self.strict_encode();
        NodeId(tagged_hash(&TAG_EXTENSION, &encoded))
    }

    /// Conceals owned state across the node, except under the listed
    /// seals; returns how many assignments changed.
    pub fn conceal_state_except(&mut self, seals: &Vec<SecretSeal>) -> (count: usize)
        requires
            old(self).wf(),
        ensures
            final(self).wf(),
            count == count_state_in_entries(old(self).owned_rights.entries@, seals@),
            final(self).extension_type == old(self).extension_type,
            final(self).contract_id == old(self).contract_id,
            final(self).metadata == old(self).metadata,
            final(self).parent_public_rights == old(self).parent_public_rights,
            final(self).public_rights == old(self).public_rights,
            final(self).owned_rights.entries@.len() == old(self).owned_rights.entries@.len(),
            forall|i: int| 0 <= i < old(self).owned_rights.entries@.len() ==> ((#[trigger] final(self).owned_rights.entries@[i]).0 == old(self).owned_rights.entries@[i].0
                && old(self).owned_rights.entries@[i].1.conceal_state_rel(final(self).owned_rights.entries@[i].1, seals@)),
    {
        self.owned_rights.conceal_state_except(seals)
    }

    /// Conceals the listed seals across the node; returns how many
    /// assignments changed.
    pub fn conceal_seals(&mut self, seals: &Vec<SecretSeal>) -> (count: usize)
        requires
            old(self).wf(),
        ensures
            final(self).wf(),
            count == count_seals_in_entries(old(self).owned_rights.entries@, seals@),
            final(self).extension_type == old(self).extension_type,
            final(self).contract_id == old(self).contract_id,
            final(self).metadata == old(self).metadata,
            final(self).parent_public_rights == old(self).parent_public_rights,
            final(self).public_rights == old(self).public_rights,
            final(self).owned_rights.entries@.len() == old(self).owned_rights.entries@.len(),
            forall|i: int| 0 <= i < old(self).owned_rights.entries@.len() ==> ((#[trigger] final(self).owned_rights.entries@[i]).0 == old(self).owned_rights.entries@[i].0
                && old(self).owned_rights.entries@[i].1.conceal_seals_rel(final(self).owned_rights.entries@[i].1, seals@)),
    {
        self.owned_rights.conceal_seals(seals)
    }
}

/// Law: an extension's identity is exactly the tagged commitment of its
/// strict encoding.
pub proof fn lemma_extension_identity(e: Extension, id: NodeId)
    requires
        id.0@ == e.spec_node_id(),
    ensures
        id.0@ == spec_tagged_hash(TAG_EXTENSION@, e.spec_enc()),
{
}

// ---------------------------------------------------------------- the node union

/// A contract node of any kind. Genesis and extensions have no parent
/// owned rights and genesis no parent public rights: the states the
/// original surface reached by panicking are unrepresentable here.
pub enum Operation {
    Genesis(Genesis),
    Transition(Transition),
    Extension(Extension),
}

impl Operation {
    /// Well-formedness of the underlying node.
    pub open spec fn wf(self) -> bool {
        match self {
            Operation::Genesis(g) => g.wf(),
            Operation::Transition(t) => t.wf(),
            Operation::Extension(e) => e.wf(),
        }
    }

    /// The kind of this node.
    pub fn node_type(&self) -> (r: NodeType)
        ensures
            r == (match self {
                Operation::Genesis(_) => NodeType::Genesis,
                Operation::Transition(_) => NodeType::StateTransition,
                Operation::Extension(_) => NodeType::StateExtension,
            }),
    {
        match self {
            Operation::Genesis(_) => NodeType::Genesis,
            Operation::Transition(_) => NodeType::StateTransition,
            Operation::Extension(_) => NodeType::StateExtension,
        }
    }

    /// The identity of this node.
    pub open spec fn spec_node_id(self) -> Seq<u8> {
        match self {
            Operation::Genesis(g) => g.spec_node_id(),
            Operation::Transition(t) => t.spec_node_id(),
            Operation::Extension(e) => e.spec_node_id(),
        }
    }

    /// The node id: the tagged commitment of the node's strict encoding.
    pub fn node_id(&self) -> (r: NodeId)
        requires
            self.wf(),
        ensures
            r.0@ == self.spec_node_id(),
    {
        match self {
            Operation::Genesis(g) => g.node_id(),
            Operation::Transition(t) => t.node_id(),
            Operation::Extension(e) => e.node_id(),
        }
    }

    /// The contract id: the genesis hash for a genesis, the declared id
    /// for an extension, and nothing for a transition (it is derived by
    /// graph traversal).
    pub fn contract_id(&self) -> (r: Option<ContractId>)
        requires
            self.wf(),
        ensures
            match self {
                Operation::Genesis(g) => r matches Some(c) && c.0@ == g.spec_node_id(),
                Operation::Transition(_) => r is None,
                Operation::Extension(e) => r == Some(e.contract_id),
            },
    {
        match self {
            Operation::Genesis(g) => Some(g.contract_id()),
            Operation::Transition(_) => None,
            Operation::Extension(e) => Some(e.contract_id),
        }
    }

    /// The transition type, for transitions.
    pub fn transition_type(&self) -> (r: Option<TransitionType>)
        ensures
            match self {
                Operation::Transition(t) => r == Some(t.transition_type),
                _ => r is None,
            },
    {
        match self {
            Operation::Transition(t) => Some(t.transition_type),
            _ => None,
        }
    }

    /// The extension type, for extensions.
    pub fn extension_type(&self) -> (r: Option<ExtensionType>)
        ensures
            match self {
                Operation::Extension(e) => r == Some(e.extension_type),
                _ => r is None,
            },
    {
        match self {
            Operation::Extension(e) => Some(e.extension_type),
            _ => None,
        }
    }

    /// The node's metadata.
    pub fn metadata(&self) -> (r: &Metadata)
        ensures
            *r == self.spec_metadata(),
    {
        match self {
            Operation::Genesis(g) => &g.metadata,
            Operation::Transition(t) => &t.metadata,
            Operation::Extension(e) => &e.metadata,
        }
    }

    /// The node's metadata.
    pub open spec fn spec_metadata(self) -> Metadata {
        match self {
            Operation::Genesis(g) => g.metadata,
            Operation::Transition(t) => t.metadata,
            Operation::Extension(e) => e.metadata,
        }
    }

    /// The node's owned rights.
    pub open spec fn spec_owned_rights(self) -> OwnedRights {
        match self {
            Operation::Genesis(g) => g.owned_rights,
            Operation::Transition(t) => t.owned_rights,
            Operation::Extension(e) => e.owned_rights,
        }
    }

    /// The node's owned rights.
    pub fn owned_rights(&self) -> (r: &OwnedRights)
        ensures
            *r == self.spec_owned_rights(),
    {
        match self {
            Operation::Genesis(g) => &g.owned_rights,
            Operation::Transition(t) => &t.owned_rights,
            Operation::Extension(e) => &e.owned_rights,
        }
    }

    /// The node's public rights.
    pub open spec fn spec_public_rights(self) -> PublicRights {
        match self {
            Operation::Genesis(g) => g.public_rights,
            Operation::Transition(t) => t.public_rights,
            Operation::Extension(e) => e.public_rights,
        }
    }

    /// The node's public rights.
    pub fn public_rights(&self) -> (r: &PublicRights)
        ensures
            *r == self.spec_public_rights(),
    {
        match self {
            Operation::Genesis(g) => &g.public_rights,
            Operation::Transition(t) => &t.public_rights,
            Operation::Extension(e) => &e.public_rights,
        }
    }

    /// The parent owned rights closed by this node: empty for genesis
    /// and extensions, which close no seals.
    pub open spec fn spec_parent_owned_rights(self) -> Seq<
        (NodeId, Vec<(OwnedRightType, Vec<u16>)>),
    > {
        match self {
            Operation::Transition(t) => t.parent_owned_rights.entries@,
            _ => Seq::empty(),
        }
    }

    /// The field types present in the metadata, in ascending order.
    pub fn field_types(&self) -> (r: Vec<FieldType>)
        ensures
            r@ == self.spec_metadata().entries@.map_values(|e: (FieldType, Vec<Vec<u8>>)| e.0),
    {
        self.metadata().keys()
    }

    /// The owned-right types declared, in ascending order.
    pub fn owned_right_types(&self) -> (r: Vec<OwnedRightType>)
        ensures
            r@ == self.spec_owned_rights().entries@.map_values(
                |e: (OwnedRightType, TypedAssignments)| e.0,
            ),
    {
        self.owned_rights().keys()
    }

    /// The assignments under owned-right type `t`, where any stand.
    pub fn owned_rights_by_type(&self, t: OwnedRightType) -> (r: Option<&TypedAssignments>)
        ensures
            match r {
                Some(ta) => exists|i: int|
                    0 <= i < self.spec_owned_rights().entries@.len() && (
                    #[trigger] self.spec_owned_rights().entries@[i]).0 == t
                        && self.spec_owned_rights().entries@[i].1 == *ta,
                None => forall|i: int| 0 <= i < self.spec_owned_rights().entries@.len() ==> (
                #[trigger] self.spec_owned_rights().entries@[i]).0 != t,
            },
    {
        self.owned_rights().by_type(t)
    }

    /// Every parent output this node closes, flattened in map order:
    /// empty for genesis and extensions.
    pub fn parent_outputs(&self) -> (r: Vec<NodeOutpoint>)
        ensures
            r@ == flatten_parent_refs(self.spec_parent_owned_rights()),
    {
        let r = match self {
            Operation::Transition(t) => t.parent_owned_rights.parent_outputs(),
            _ => Vec::new(),
        };
        proof {
            if !(self is Transition) {
                assert(flatten_parent_refs(Seq::empty()) =~= Seq::<NodeOutpoint>::empty());
            }
        }
        r
    }

    /// The parent outputs closed, restricted to the given owned-right
    /// types: the full flattening filtered on the type, order kept.
    pub fn parent_outputs_by_types(&self, types: &Vec<OwnedRightType>) -> (r: Vec<NodeOutpoint>)
        ensures
            r@ == flatten_parent_refs(self.spec_parent_owned_rights()).filter(
                |op: NodeOutpoint| types@.contains(op.ty),
            ),
    {
        let r = match self {
            Operation::Transition(t) => t.parent_owned_rights.parent_outputs_by_types(types),
            _ => Vec::new(),
        };
        proof {
            if !(self is Transition) {
                reveal(Seq::filter);
                assert(flatten_parent_refs(Seq::empty()) =~= Seq::<NodeOutpoint>::empty());
            }
        }
        r
    }

    /// The parent outputs closed of one owned-right type: the full
    /// flattening filtered on that type, order kept.
    pub fn parent_outputs_by_type(&self, t: OwnedRightType) -> (r: Vec<NodeOutpoint>)
        ensures
            r@ == flatten_parent_refs(self.spec_parent_owned_rights()).filter(
                |op: NodeOutpoint| op.ty == t,
            ),
    {
        let mut types: Vec<OwnedRightType> = Vec::new();
        types.push(t);
        let r = self.parent_outputs_by_types(&types);
        proof {
            assert(types@ =~= seq![t]);
            let f = |op: NodeOutpoint| types@.contains(op.ty);
            let g = |op: NodeOutpoint| op.ty == t;
            assert forall|op: NodeOutpoint| #[trigger] f(op) == g(op) by {
                if op.ty == t {
                    assert(types@[0] == op.ty);
                    assert(types@.contains(op.ty));
                }
            }
            lemma_filter_congruent(flatten_parent_refs(self.spec_parent_owned_rights()), f, g);
        }
        r
    }

    /// The confidential seals of all assignments of this node.
    pub fn to_confidential_seals(&self) -> (r: Vec<SecretSeal>)
        ensures
            r@ == conf_seals_of_entries(self.spec_owned_rights().entries@),
    {
        self.owned_rights().to_confidential_seals()
    }

    /// The revealed seals of all assignments: fails when any seal is
    /// concealed.
    pub fn revealed_seals(&self) -> (r: Result<Vec<XSeal<GraphSeal>>, ConfidentialDataError>)
        ensures
            match r {
                Ok(seals) => all_entry_seals_revealed(self.spec_owned_rights().entries@) && seals@
                    == revealed_seals_of_entries(self.spec_owned_rights().entries@),
                Err(_) => !all_entry_seals_revealed(self.spec_owned_rights().entries@),
            },
    {
        self.owned_rights().revealed_seals()
    }

    /// The revealed seals of the assignments under one owned-right type:
    /// fails exactly when some assignment of that type has a concealed
    /// seal; otherwise exactly that type's revealed seals in assignment
    /// order, and empty where the type is absent.
    pub fn revealed_seals_by_type(&self, t: OwnedRightType) -> (r: Result<
        Vec<XSeal<GraphSeal>>,
        ConfidentialDataError,
    >)
        requires
            self.wf(),
        ensures
            match r {
                Ok(seals) => (forall|i: int|
                    0 <= i < self.spec_owned_rights().entries@.len() && (
                    #[trigger] self.spec_owned_rights().entries@[i]).0 == t
                        ==> self.spec_owned_rights().entries@[i].1.spec_all_seals_revealed()
                        && seals@ == self.spec_owned_rights().entries@[i].1.spec_revealed_seals())
                    && ((forall|i: int| 0 <= i < self.spec_owned_rights().entries@.len() ==> (
                #[trigger] self.spec_owned_rights().entries@[i]).0 != t) ==> seals@ == Seq::<
                    XSeal<GraphSeal>,
                >::empty()),
                Err(_) => exists|i: int|
                    0 <= i < self.spec_owned_rights().entries@.len() && (
                    #[trigger] self.spec_owned_rights().entries@[i]).0 == t
                        && !self.spec_owned_rights().entries@[i].1.spec_all_seals_revealed(),
            },
    {
        match self.owned_rights_by_type(t) {
            Some(ta) => match ta.revealed_seals() {
                Ok(seals) => {
                    proof {
                        let entries = self.spec_owned_rights().entries@;
                        let j = choose|j: int|
                            0 <= j < entries.len() && (#[trigger] entries[j]).0 == t && entries[
                            j].1 == *ta;
                        assert forall|i: int|
                            0 <= i < entries.len() && (#[trigger] entries[i]).0 == t implies
                            entries[i].1.spec_all_seals_revealed() && seals@ == entries[
                            i].1.spec_revealed_seals() by {
                            if i != j {
                                if i < j {
                                    assert(entries[i].0 < entries[j].0);
                                } else {
                                    assert(entries[j].0 < entries[i].0);
                                }
                            }
                        }
                    }
                    Ok(seals)
                },
                Err(e) => {
                    proof {
                        let entries = self.spec_owned_rights().entries@;
                        let j = choose|j: int|
                            0 <= j < entries.len() && (#[trigger] entries[j]).0 == t && entries[
                            j].1 == *ta;
                        assert(!entries[j].1.spec_all_seals_revealed());
                    }
                    Err(e)
                },
            },
            None => {
                let r: Vec<XSeal<GraphSeal>> = Vec::new();
                proof {
                    assert(r@ =~= Seq::<XSeal<GraphSeal>>::empty());
                }
                Ok(r)
            },
        }
    }

    /// The revealed seals of all assignments, dropping concealed ones.
    pub fn filter_revealed_seals(&self) -> (r: Vec<XSeal<GraphSeal>>)
        ensures
            r@ == filtered_seals_of_entries(self.spec_owned_rights().entries@),
    {
        self.owned_rights().filter_revealed_seals()
    }

    /// The revealed seals under one owned-right type, dropping concealed
    /// ones: exactly that type's revealed seals in assignment order, and
    /// empty where the type is absent.
    pub fn filter_revealed_seals_by_type(&self, t: OwnedRightType) -> (r: Vec<XSeal<GraphSeal>>)
        requires
            self.wf(),
        ensures
            forall|i: int|
                0 <= i < self.spec_owned_rights().entries@.len() && (
                #[trigger] self.spec_owned_rights().entries@[i]).0 == t ==> r@
                    == self.spec_owned_rights().entries@[i].1.spec_filter_revealed_seals(),
            (forall|i: int| 0 <= i < self.spec_owned_rights().entries@.len() ==> (
            #[trigger] self.spec_owned_rights().entries@[i]).0 != t) ==> r@ == Seq::<
                XSeal<GraphSeal>,
            >::empty(),
    {
        match self.owned_rights_by_type(t) {
            Some(ta) => {
                let r = ta.filter_revealed_seals();
                proof {
                    let entries = self.spec_owned_rights().entries@;
                    let j = choose|j: int|
                        0 <= j < entries.len() && (#[trigger] entries[j]).0 == t && entries[j].1
                            == *ta;
                    assert forall|i: int|
                        0 <= i < entries.len() && (#[trigger] entries[i]).0 == t implies r@
                        == entries[i].1.spec_filter_revealed_seals() by {
                        if i != j {
                            if i < j {
                                assert(entries[i].0 < entries[j].0);
                            } else {
                                assert(entries[j].0 < entries[i].0);
                            }
                        }
                    }
                }
                r
            },
            None => {
                let r: Vec<XSeal<GraphSeal>> = Vec::new();
                proof {
                    assert(r@ =~= Seq::<XSeal<GraphSeal>>::empty());
                }
                r
            },
        }
    }

    /// Every output this node declares, mapped to the concrete
    /// transaction output its seal points to, substituting the witness
    /// txid for placeholders: one entry per revealed-seal assignment, in
    /// owned-rights order; assignments with concealed seals do not
    /// appear.
    pub fn node_outputs(&self, witness_txid: Txid) -> (r: Vec<(NodeOutpoint, Outpoint)>)
        requires
            self.wf(),
        ensures
            r@ == node_outputs_of(
                NodeId(crate::seal::seq_to_arr32(self.spec_node_id())),
                self.spec_owned_rights().entries@,
                witness_txid,
            ),
    {
        let node_id = self.node_id();
        proof {
            crate::seal::lemma_seq_to_arr32(node_id.0);
            assert(node_id == NodeId(crate::seal::seq_to_arr32(self.spec_node_id())));
        }
        let rights = self.owned_rights();
        let n = rights.entries.len();
        let mut r: Vec<(NodeOutpoint, Outpoint)> = Vec::new();
        let mut i: usize = 0;
        while i < n
            invariant
                i <= n,
                n == rights.entries@.len(),
                rights.wf(),
                rights == self.spec_owned_rights(),
                node_id == NodeId(crate::seal::seq_to_arr32(self.spec_node_id())),
                r@ == node_outputs_of(node_id, rights.entries@.take(i as int), witness_txid),
            decreases n - i,
        {
            let ty = rights.entries[i].0;
            let outputs = rights.entries[i].1.revealed_seal_outputs();
            let m = outputs.len();
            let ghost produced = rights.entries@[i as int].1.spec_revealed_seal_outputs();
            let mut j: usize = 0;
            while j < m
                invariant
                    i < n,
                    j <= m,
                    n == rights.entries@.len(),
                    m == outputs@.len(),
                    outputs@ == produced,
                    produced == rights.entries@[i as int].1.spec_revealed_seal_outputs(),
                    ty == rights.entries@[i as int].0,
                    node_id == NodeId(crate::seal::seq_to_arr32(self.spec_node_id())),
                    rights == self.spec_owned_rights(),
                    r@ == node_outputs_of(node_id, rights.entries@.take(i as int), witness_txid)
                        + produced.take(j as int).map_values(
                        |so: (XSeal<GraphSeal>, u16)|
                            (
                                NodeOutpoint { node_id, ty, no: so.1 },
                                so.0.spec_inner().spec_outpoint_or(witness_txid),
                            ),
                    ),
                decreases m - j,
            {
                let (seal, no) = outputs[j];
                let outpoint = match seal {
                    XSeal::Bitcoin(s) => s.outpoint_or(witness_txid),
                    XSeal::Liquid(s) => s.outpoint_or(witness_txid),
                };
                r.push((NodeOutpoint { node_id, ty, no }, outpoint));
                proof {
                    let conv = |so: (XSeal<GraphSeal>, u16)|
                        (
                            NodeOutpoint { node_id, ty, no: so.1 },
                            so.0.spec_inner().spec_outpoint_or(witness_txid),
                        );
                    assert(produced.take(j + 1).map_values(conv) =~= produced.take(
                        j as int,
                    ).map_values(conv).push(conv(produced[j as int])));
                    assert(r@ =~= node_outputs_of(
                        node_id,
                        rights.entries@.take(i as int),
                        witness_txid,
                    ) + produced.take(j + 1).map_values(conv));
                }
                j = j + 1;
            }
            proof {
                assert(rights.entries@.take(i + 1).drop_last() =~= rights.entries@.take(
                    i as int,
                ));
                assert(rights.entries@.take(i + 1).last() == rights.entries@[i as int]);
                assert(produced.take(m as int) =~= produced);
            }
            i = i + 1;
        }
        proof {
            assert(rights.entries@.take(n as int) =~= rights.entries@);
        }
        r
    }
}

/// The node-output map of an owned-rights list: for each entry in map
/// order, one pair per revealed-seal assignment — the outpoint
/// coordinates and the concrete output, witness placeholder substituted.
pub open spec fn node_outputs_of(
    node_id: NodeId,
    entries: Seq<(OwnedRightType, TypedAssignments)>,
    witness: Txid,
) -> Seq<(NodeOutpoint, Outpoint)>
    decreases entries.len(),
{
    if entries.len() == 0 {
        Seq::empty()
    } else {
        node_outputs_of(node_id, entries.drop_last(), witness)
            + entries.last().1.spec_revealed_seal_outputs().map_values(
            |so: (XSeal<GraphSeal>, u16)|
                (
                    NodeOutpoint { node_id, ty: entries.last().0, no: so.1 },
                    so.0.spec_inner().spec_outpoint_or(witness),
                ),
        )
    }
}

} // verus!
