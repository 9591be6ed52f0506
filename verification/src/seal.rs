//! Single-use seals over transaction outputs, and the witness-transaction
//! ordering data used by the validation engine.
//!
//! A seal is a promise that one specific transaction output will be spent
//! at most once, carrying a commitment to the operation that spends it.
//! A seal lives either on Bitcoin or on Liquid; [`XSeal`] tags the inner
//! seal with its layer-1 chain.

use vstd::prelude::*;
use vstd::std_specs::cmp::PartialOrdSpec;
use vstd::string::StrSliceExecFns;

use crate::Layer1;
use crate::commit::{spec_tagged_hash, tagged_hash, TAG_SEAL};
use crate::encoding::{enc_u8, enc_u32, enc_u64, enc_bytes32, write_u8, write_u32, write_u64,
    write_bytes32, dec_u8, dec_u32, dec_u64, dec_bytes32, read_u8, read_u32, read_u64,
    read_bytes32, lemma_u8_roundtrip, lemma_u32_roundtrip, lemma_u64_roundtrip,
    lemma_bytes32_roundtrip};
use crate::ids::{SecretSeal, HexError, IntParseError, find_char, spec_parse_hex32, parse_hex32,
    spec_parse_u32, parse_u32, str_eq};

verus! {

/// A transaction identifier: the 32-byte hash of a transaction.
#[derive(Clone, Copy, PartialEq, Eq, Debug, Hash)]
pub struct Txid(pub [u8; 32]);

/// A reference to a transaction output: a txid and an output number.
#[derive(Clone, Copy, PartialEq, Eq, Debug, Hash)]
pub struct Outpoint {
    pub txid: Txid,
    pub vout: u32,
}

/// How a witness transaction embeds the commitment when it closes a seal:
/// in the first OP_RETURN output or in the first taproot output.
#[derive(Clone, Copy, PartialEq, Eq, Structural, Debug, Hash)]
pub enum CloseMethod {
    OpretFirst,
    TapretFirst,
}

/// Either a concrete transaction id, or a placeholder standing for the
/// witness transaction of the operation that declares the seal.
#[derive(Clone, Copy, PartialEq, Eq, Debug, Hash)]
pub enum TxPtr {
    WitnessTx,
    Txid(Txid),
}

/// A seal whose transaction output is known at genesis time: the txid is
/// always concrete. Blinding makes the concealed form unlinkable.
#[derive(Clone, Copy, PartialEq, Eq, Debug, Hash)]
pub struct GenesisSeal {
    pub method: CloseMethod,
    pub txid: Txid,
    pub vout: u32,
    pub blinding: u64,
}

/// A seal defined by a later operation: the txid may still be the
/// witness-transaction placeholder, resolved when the witness is mined.
#[derive(Clone, Copy, PartialEq, Eq, Debug, Hash)]
pub struct GraphSeal {
    pub method: CloseMethod,
    pub txid: TxPtr,
    pub vout: u32,
    pub blinding: u64,
}

/// A seal over an explicit, fully known transaction output, with no
/// blinding: the form used once a witness transaction is known.
#[derive(Clone, Copy, PartialEq, Eq, Debug, Hash)]
pub struct ExplicitSeal {
    pub method: CloseMethod,
    pub txid: Txid,
    pub vout: u32,
}

/// The discriminant byte of a close method in the strict encoding.
pub open spec fn method_tag(m: CloseMethod) -> u8 {
    match m {
        CloseMethod::OpretFirst => 0,
        CloseMethod::TapretFirst => 1,
    }
}

/// The common surface of every seal form: its close method, the output it
/// points to (if concrete), the output obtained by substituting a
/// witness txid for the placeholder, and its strict encoding.
pub trait ExposedSeal: Sized + Copy {
    /// The close method of this seal.
    spec fn spec_method(self) -> CloseMethod;

    /// The concrete output this seal points to, or `None` while it still
    /// points at its own witness transaction.
    spec fn spec_outpoint(self) -> Option<Outpoint>;

    /// The output this seal points to once `txid` names the witness
    /// transaction; equals `spec_outpoint()` whenever that is concrete.
    spec fn spec_outpoint_or(self, txid: Txid) -> Outpoint;

    proof fn lemma_outpoint_or_concrete(self, txid: Txid)
        requires
            self.spec_outpoint() is Some,
        ensures
            self.spec_outpoint_or(txid) == self.spec_outpoint()->Some_0;

    fn method(&self) -> (m: CloseMethod)
        ensures
            m == self.spec_method();

    fn outpoint(&self) -> (o: Option<Outpoint>)
        ensures
            o == self.spec_outpoint();

    fn outpoint_or(&self, txid: Txid) -> (o: Outpoint)
        ensures
            o == self.spec_outpoint_or(txid);

    /// The strict encoding of this seal.
    spec fn spec_enc(self) -> Seq<u8>;

    /// Appends the strict encoding of this seal to `out`.
    fn write_enc(&self, out: &mut Vec<u8>)
        ensures
            final(out)@ == old(out)@ + self.spec_enc();
}

impl ExposedSeal for GenesisSeal {
    open spec fn spec_method(self) -> CloseMethod {
        self.method
    }

    open spec fn spec_outpoint(self) -> Option<Outpoint> {
        Some(Outpoint { txid: self.txid, vout: self.vout })
    }

    open spec fn spec_outpoint_or(self, txid: Txid) -> Outpoint {
        Outpoint { txid: self.txid, vout: self.vout }
    }

    proof fn lemma_outpoint_or_concrete(self, txid: Txid) {
    }

    fn method(&self) -> CloseMethod {
        self.method
    }

    fn outpoint(&self) -> Option<Outpoint> {
        Some(Outpoint { txid: self.txid, vout: self.vout })
    }

    fn outpoint_or(&self, txid: Txid) -> Outpoint {
        Outpoint { txid: self.txid, vout: self.vout }
    }

    open spec fn spec_enc(self) -> Seq<u8> {
        enc_u8(method_tag(self.method)) + self.txid.0@ + enc_u32(self.vout) + enc_u64(
            self.blinding,
        )
    }

    fn write_enc(&self, out: &mut Vec<u8>) {
        let m = match self.method {
            CloseMethod::OpretFirst => 0u8,
            CloseMethod::TapretFirst => 1u8,
        };
        write_u8(out, m);
        write_bytes32(out, &self.txid.0);
        write_u32(out, self.vout);
        write_u64(out, self.blinding);
        assert(out@ =~= old(out)@ + self.spec_enc());
    }
}

impl ExposedSeal for GraphSeal {
    open spec fn spec_method(self) -> CloseMethod {
        self.method
    }

    open spec fn spec_outpoint(self) -> Option<Outpoint> {
        match self.txid {
            TxPtr::Txid(txid) => Some(Outpoint { txid, vout: self.vout }),
            TxPtr::WitnessTx => None,
        }
    }

    open spec fn spec_outpoint_or(self, witness: Txid) -> Outpoint {
        match self.txid {
            TxPtr::Txid(txid) => Outpoint { txid, vout: self.vout },
            TxPtr::WitnessTx => Outpoint { txid: witness, vout: self.vout },
        }
    }

    proof fn lemma_outpoint_or_concrete(self, txid: Txid) {
    }

    fn method(&self) -> CloseMethod {
        self.method
    }

    fn outpoint(&self) -> Option<Outpoint> {
        match self.txid {
            TxPtr::Txid(txid) => Some(Outpoint { txid, vout: self.vout }),
            TxPtr::WitnessTx => None,
        }
    }

    fn outpoint_or(&self, witness: Txid) -> Outpoint {
        match self.txid {
            TxPtr::Txid(txid) => Outpoint { txid, vout: self.vout },
            TxPtr::WitnessTx => Outpoint { txid: witness, vout: self.vout },
        }
    }

    open spec fn spec_enc(self) -> Seq<u8> {
        enc_u8(method_tag(self.method)) + enc_txptr(self.txid) + enc_u32(self.vout) + enc_u64(
            self.blinding,
        )
    }

    fn write_enc(&self, out: &mut Vec<u8>) {
        let m = match self.method {
            CloseMethod::OpretFirst => 0u8,
            CloseMethod::TapretFirst => 1u8,
        };
        write_u8(out, m);
        write_txptr(out, &self.txid);
        write_u32(out, self.vout);
        write_u64(out, self.blinding);
        assert(out@ =~= old(out)@ + self.spec_enc());
    }
}

impl ExposedSeal for ExplicitSeal {
    open spec fn spec_method(self) -> CloseMethod {
        self.method
    }

    open spec fn spec_outpoint(self) -> Option<Outpoint> {
        Some(Outpoint { txid: self.txid, vout: self.vout })
    }

    open spec fn spec_outpoint_or(self, txid: Txid) -> Outpoint {
        Outpoint { txid: self.txid, vout: self.vout }
    }

    proof fn lemma_outpoint_or_concrete(self, txid: Txid) {
    }

    fn method(&self) -> CloseMethod {
        self.method
    }

    fn outpoint(&self) -> Option<Outpoint> {
        Some(Outpoint { txid: self.txid, vout: self.vout })
    }

    fn outpoint_or(&self, txid: Txid) -> Outpoint {
        Outpoint { txid: self.txid, vout: self.vout }
    }

    open spec fn spec_enc(self) -> Seq<u8> {
        enc_u8(method_tag(self.method)) + self.txid.0@ + enc_u32(self.vout)
    }

    fn write_enc(&self, out: &mut Vec<u8>) {
        let m = match self.method {
            CloseMethod::OpretFirst => 0u8,
            CloseMethod::TapretFirst => 1u8,
        };
        write_u8(out, m);
        write_bytes32(out, &self.txid.0);
        write_u32(out, self.vout);
        assert(out@ =~= old(out)@ + self.spec_enc());
    }
}

impl GenesisSeal {
    /// Forgets that the txid is concrete, producing the graph-seal form of
    /// the same seal.
    pub fn transmutate(self) -> (r: GraphSeal)
        ensures
            r == (GraphSeal {
                method: self.method,
                txid: TxPtr::Txid(self.txid),
                vout: self.vout,
                blinding: self.blinding,
            }),
    {
        GraphSeal { method: self.method, txid: TxPtr::Txid(self.txid), vout: self.vout, blinding: self.blinding }
    }
}

/// A seal tagged with the layer-1 chain it lives on.
#[derive(Clone, Copy, PartialEq, Eq, Debug, Hash)]
pub enum XSeal<U> {
    Bitcoin(U),
    Liquid(U),
}

/// A layer-1-tagged seal over an explicit transaction output.
pub type OutputSeal = XSeal<ExplicitSeal>;

impl XSeal<GenesisSeal> {
    /// Forgets that the inner txid is concrete, keeping the layer-1 tag.
    pub fn transmutate(self) -> (r: XSeal<GraphSeal>)
        ensures
            r.spec_layer1() == self.spec_layer1(),
            r matches XSeal::Bitcoin(s) ==> self matches XSeal::Bitcoin(g) && s == g.transmutated(),
            r matches XSeal::Liquid(s) ==> self matches XSeal::Liquid(g) && s == g.transmutated(),
    {
        match self {
            XSeal::Bitcoin(seal) => XSeal::Bitcoin(seal.transmutate()),
            XSeal::Liquid(seal) => XSeal::Liquid(seal.transmutate()),
        }
    }
}

impl GenesisSeal {
    /// The graph-seal form of this seal, as a value.
    pub open spec fn transmutated(self) -> GraphSeal {
        GraphSeal {
            method: self.method,
            txid: TxPtr::Txid(self.txid),
            vout: self.vout,
            blinding: self.blinding,
        }
    }
}

impl<U: ExposedSeal> XSeal<U> {
    /// The layer-1 chain this seal is tagged with.
    pub open spec fn spec_layer1(self) -> Layer1 {
        match self {
            XSeal::Bitcoin(_) => Layer1::Bitcoin,
            XSeal::Liquid(_) => Layer1::Liquid,
        }
    }

    /// The inner seal, without its layer-1 tag.
    pub open spec fn spec_inner(self) -> U {
        match self {
            XSeal::Bitcoin(seal) => seal,
            XSeal::Liquid(seal) => seal,
        }
    }

    /// Tags `seal` with the given layer-1 chain.
    pub fn with(layer1: Layer1, seal: U) -> (r: Self)
        ensures
            r.spec_layer1() == layer1,
            r.spec_inner() == seal,
    {
        match layer1 {
            Layer1::Bitcoin => XSeal::Bitcoin(seal),
            Layer1::Liquid => XSeal::Liquid(seal),
        }
    }

    /// The layer-1 chain this seal is tagged with.
    pub fn layer1(self) -> (r: Layer1)
        ensures
            r == self.spec_layer1(),
    {
        match self {
            XSeal::Bitcoin(_) => Layer1::Bitcoin,
            XSeal::Liquid(_) => Layer1::Liquid,
        }
    }

    /// The inner seal, for the chains whose seals follow the Bitcoin
    /// transaction model (today: all of them).
    pub fn reduce_to_bp(self) -> (r: Option<U>)
        ensures
            r == Some(self.spec_inner()),
    {
        Some(
            match self {
                XSeal::Bitcoin(seal) => seal,
                XSeal::Liquid(seal) => seal,
            },
        )
    }

    /// The close method of the inner seal.
    pub fn method(self) -> (m: CloseMethod)
        ensures
            m == self.spec_inner().spec_method(),
    {
        match self {
            XSeal::Bitcoin(seal) => seal.method(),
            XSeal::Liquid(seal) => seal.method(),
        }
    }

    /// The explicit-output form of this seal, or `None` while the inner
    /// seal still points at its own witness transaction.
    pub fn to_output_seal(self) -> (r: Option<OutputSeal>)
        ensures
            self.spec_inner().spec_outpoint() matches Some(op) ==> r == Some(
                XSeal::<ExplicitSeal>::explicit(self.spec_layer1(), self.spec_inner().spec_method(), op),
            ),
            self.spec_inner().spec_outpoint() is None ==> r is None,
    {
        match self {
            XSeal::Bitcoin(seal) => match seal.outpoint() {
                Some(outpoint) => Some(
                    XSeal::Bitcoin(ExplicitSeal { method: seal.method(), txid: outpoint.txid, vout: outpoint.vout }),
                ),
                None => None,
            },
            XSeal::Liquid(seal) => match seal.outpoint() {
                Some(outpoint) => Some(
                    XSeal::Liquid(ExplicitSeal { method: seal.method(), txid: outpoint.txid, vout: outpoint.vout }),
                ),
                None => None,
            },
        }
    }

    /// Resolves this seal against a witness transaction: succeeds exactly
    /// when the witness lives on the seal's own layer-1 chain, and then
    /// substitutes the witness txid for the placeholder.
    pub fn try_to_output_seal(self, witness_id: WitnessId) -> (r: Result<OutputSeal, Self>)
        ensures
            self.spec_layer1() == witness_id.spec_layer1() ==> r == Ok::<OutputSeal, Self>(
                XSeal::<ExplicitSeal>::explicit(
                    self.spec_layer1(),
                    self.spec_inner().spec_method(),
                    self.spec_inner().spec_outpoint_or(witness_id.spec_txid()),
                ),
            ),
            self.spec_layer1() != witness_id.spec_layer1() ==> r == Err::<OutputSeal, Self>(self),
    {
        match (self, witness_id) {
            (XSeal::Bitcoin(seal), WitnessId::Bitcoin(txid)) => {
                let outpoint = seal.outpoint_or(txid);
                Ok(XSeal::Bitcoin(ExplicitSeal { method: seal.method(), txid: outpoint.txid, vout: outpoint.vout }))
            }
            (XSeal::Liquid(seal), WitnessId::Liquid(txid)) => {
                let outpoint = seal.outpoint_or(txid);
                Ok(XSeal::Liquid(ExplicitSeal { method: seal.method(), txid: outpoint.txid, vout: outpoint.vout }))
            }
            (me, _) => Err(me),
        }
    }
}

impl XSeal<ExplicitSeal> {
    /// The layer-1-tagged explicit seal on `op` with close method `method`.
    pub open spec fn explicit(layer1: Layer1, method: CloseMethod, op: Outpoint) -> OutputSeal {
        let seal = ExplicitSeal { method, txid: op.txid, vout: op.vout };
        match layer1 {
            Layer1::Bitcoin => XSeal::Bitcoin(seal),
            Layer1::Liquid => XSeal::Liquid(seal),
        }
    }
}

/// The identity of a witness transaction, tagged with its layer-1 chain.
#[derive(Clone, Copy, PartialEq, Eq, Debug, Hash)]
pub enum WitnessId {
    Bitcoin(Txid),
    Liquid(Txid),
}

impl WitnessId {
    /// The layer-1 chain this witness lives on.
    pub open spec fn spec_layer1(self) -> Layer1 {
        match self {
            WitnessId::Bitcoin(_) => Layer1::Bitcoin,
            WitnessId::Liquid(_) => Layer1::Liquid,
        }
    }

    /// The witness transaction id, without its layer-1 tag.
    pub open spec fn spec_txid(self) -> Txid {
        match self {
            WitnessId::Bitcoin(txid) => txid,
            WitnessId::Liquid(txid) => txid,
        }
    }
}

/// The earliest Bitcoin block timestamp: any witness timestamp before it
/// is impossible and is rejected.
pub const MIN_BLOCK_TIMESTAMP: i64 = 1231006505;

/// The position of a witness transaction in its chain: block height and
/// block timestamp. Valid positions have height at least one and a
/// timestamp not before the Bitcoin genesis block.
#[derive(Clone, Copy, PartialEq, Eq, Debug, Hash)]
pub struct WitnessPos {
    height: u32,
    timestamp: i64,
}

impl WitnessPos {
    /// The block height of this position.
    pub closed spec fn spec_height(self) -> u32 {
        self.height
    }

    /// The block timestamp of this position.
    pub closed spec fn spec_timestamp(self) -> i64 {
        self.timestamp
    }

    /// The invariant every constructed position satisfies.
    pub open spec fn wf(self) -> bool {
        self.spec_height() >= 1 && self.spec_timestamp() >= MIN_BLOCK_TIMESTAMP
    }

    /// Accepts exactly the positions with a nonzero height and a timestamp
    /// not before the Bitcoin genesis block.
    pub fn new(height: u32, timestamp: i64) -> (r: Option<WitnessPos>)
        ensures
            (height == 0 || timestamp < MIN_BLOCK_TIMESTAMP) <==> r is None,
            r matches Some(p) ==> p.spec_height() == height && p.spec_timestamp() == timestamp
                && p.wf(),
    {
        if height == 0 || timestamp < MIN_BLOCK_TIMESTAMP {
            return None;
        }
        Some(WitnessPos { height, timestamp })
    }

    /// The height of this position; never zero.
    pub fn height(&self) -> (h: u32)
        requires
            self.wf(),
        ensures
            h == self.spec_height(),
            h >= 1,
    {
        self.height
    }

    /// The timestamp of this position.
    pub fn timestamp(&self) -> (t: i64)
        ensures
            t == self.spec_timestamp(),
    {
        self.timestamp
    }
}

/// How two witness positions order: by timestamp alone. The consensus
/// ordering of contract state follows block time, not height.
pub open spec fn pos_order(a: WitnessPos, b: WitnessPos) -> core::cmp::Ordering {
    if a.spec_timestamp() < b.spec_timestamp() {
        core::cmp::Ordering::Less
    } else if a.spec_timestamp() == b.spec_timestamp() {
        core::cmp::Ordering::Equal
    } else {
        core::cmp::Ordering::Greater
    }
}

impl vstd::std_specs::cmp::PartialOrdSpecImpl for WitnessPos {
    open spec fn obeys_partial_cmp_spec() -> bool {
        true
    }

    open spec fn partial_cmp_spec(&self, other: &Self) -> Option<core::cmp::Ordering> {
        Some(pos_order(*self, *other))
    }
}

impl PartialOrd for WitnessPos {
    fn partial_cmp(&self, other: &Self) -> (r: Option<core::cmp::Ordering>) {
        if self.timestamp < other.timestamp {
            Some(core::cmp::Ordering::Less)
        } else if self.timestamp == other.timestamp {
            Some(core::cmp::Ordering::Equal)
        } else {
            Some(core::cmp::Ordering::Greater)
        }
    }
}

/// Where a witness transaction stands: mined at a position, or not (yet)
/// on chain. Off-chain witnesses order after every mined one.
#[derive(Clone, Copy, PartialEq, Eq, Debug, Hash)]
pub enum WitnessOrd {
    OnChain(WitnessPos),
    OffChain,
}

impl WitnessOrd {
    /// `OnChain` at the given position when it is a valid one, `OffChain`
    /// otherwise (a mempool transaction reports height zero).
    pub fn with_mempool_or_height(height: u32, timestamp: i64) -> (r: WitnessOrd)
        ensures
            (height == 0 || timestamp < MIN_BLOCK_TIMESTAMP) ==> r == WitnessOrd::OffChain,
            !(height == 0 || timestamp < MIN_BLOCK_TIMESTAMP) ==> (r matches WitnessOrd::OnChain(p)
                && p.spec_height() == height && p.spec_timestamp() == timestamp),
    {
        match WitnessPos::new(height, timestamp) {
            Some(pos) => WitnessOrd::OnChain(pos),
            None => WitnessOrd::OffChain,
        }
    }
}

/// Any on-chain witness orders strictly before any off-chain one; two
/// on-chain witnesses order by their timestamps.
impl vstd::std_specs::cmp::PartialOrdSpecImpl for WitnessOrd {
    open spec fn obeys_partial_cmp_spec() -> bool {
        true
    }

    open spec fn partial_cmp_spec(&self, other: &Self) -> Option<core::cmp::Ordering> {
        match (*self, *other) {
            (WitnessOrd::OnChain(a), WitnessOrd::OnChain(b)) => Some(pos_order(a, b)),
            (WitnessOrd::OnChain(_), WitnessOrd::OffChain) => Some(core::cmp::Ordering::Less),
            (WitnessOrd::OffChain, WitnessOrd::OnChain(_)) => Some(core::cmp::Ordering::Greater),
            (WitnessOrd::OffChain, WitnessOrd::OffChain) => Some(core::cmp::Ordering::Equal),
        }
    }
}

impl PartialOrd for WitnessOrd {
    fn partial_cmp(&self, other: &Self) -> (r: Option<core::cmp::Ordering>) {
        match (self, other) {
            (WitnessOrd::OnChain(a), WitnessOrd::OnChain(b)) => a.partial_cmp(b),
            (WitnessOrd::OnChain(_), WitnessOrd::OffChain) => Some(core::cmp::Ordering::Less),
            (WitnessOrd::OffChain, WitnessOrd::OnChain(_)) => Some(core::cmp::Ordering::Greater),
            (WitnessOrd::OffChain, WitnessOrd::OffChain) => Some(core::cmp::Ordering::Equal),
        }
    }
}

/// How two witness ids order: a Bitcoin witness after a Liquid one, and
/// within one chain by the txid bytes, lexicographically.
pub open spec fn witness_id_order(a: WitnessId, b: WitnessId) -> core::cmp::Ordering {
    match (a, b) {
        (WitnessId::Bitcoin(_), WitnessId::Liquid(_)) => core::cmp::Ordering::Greater,
        (WitnessId::Liquid(_), WitnessId::Bitcoin(_)) => core::cmp::Ordering::Less,
        (WitnessId::Bitcoin(x), WitnessId::Bitcoin(y)) => crate::ids::lex_cmp(x.0@, y.0@),
        (WitnessId::Liquid(x), WitnessId::Liquid(y)) => crate::ids::lex_cmp(x.0@, y.0@),
    }
}

impl vstd::std_specs::cmp::PartialOrdSpecImpl for WitnessId {
    open spec fn obeys_partial_cmp_spec() -> bool {
        true
    }

    open spec fn partial_cmp_spec(&self, other: &Self) -> Option<core::cmp::Ordering> {
        Some(witness_id_order(*self, *other))
    }
}

impl PartialOrd for WitnessId {
    fn partial_cmp(&self, other: &Self) -> (r: Option<core::cmp::Ordering>) {
        match (self, other) {
            (WitnessId::Bitcoin(_), WitnessId::Liquid(_)) => Some(core::cmp::Ordering::Greater),
            (WitnessId::Liquid(_), WitnessId::Bitcoin(_)) => Some(core::cmp::Ordering::Less),
            (WitnessId::Bitcoin(x), WitnessId::Bitcoin(y)) => Some(
                crate::ids::bytes32_cmp(&x.0, &y.0),
            ),
            (WitnessId::Liquid(x), WitnessId::Liquid(y)) => Some(
                crate::ids::bytes32_cmp(&x.0, &y.0),
            ),
        }
    }
}

/// Every on-chain witness stands strictly before every off-chain one in
/// the consensus ordering.
pub proof fn lemma_onchain_before_offchain(a: WitnessOrd, b: WitnessOrd)
    requires
        a is OnChain,
        b is OffChain,
    ensures
        a.partial_cmp_spec(&b) == Some(core::cmp::Ordering::Less),
{
}

// ---------------------------------------------------------------- strict encoding of seals

/// The strict encoding of a txid-or-witness pointer: one tag byte, then
/// the txid bytes for the concrete form.
pub open spec fn enc_txptr(t: TxPtr) -> Seq<u8> {
    match t {
        TxPtr::WitnessTx => enc_u8(0),
        TxPtr::Txid(txid) => enc_u8(1) + txid.0@,
    }
}

/// Appends the strict encoding of `t` to `out`.
pub fn write_txptr(out: &mut Vec<u8>, t: &TxPtr)
    ensures
        final(out)@ == old(out)@ + enc_txptr(*t),
{
    match t {
        TxPtr::WitnessTx => {
            write_u8(out, 0);
        },
        TxPtr::Txid(txid) => {
            write_u8(out, 1);
            write_bytes32(out, &txid.0);
            assert(out@ =~= old(out)@ + enc_txptr(*t));
        },
    }
}

/// Reads a txid-or-witness pointer at `pos`.
pub open spec fn dec_txptr(d: Seq<u8>, pos: int) -> Option<(TxPtr, int)> {
    match dec_u8(d, pos) {
        Some((tag, p1)) => {
            if tag == 0 {
                Some((TxPtr::WitnessTx, p1))
            } else if tag == 1 {
                match dec_bytes32(d, p1) {
                    Some((b, p2)) => Some((TxPtr::Txid(Txid(seq_to_arr32(b))), p2)),
                    None => None,
                }
            } else {
                None
            }
        },
        None => None,
    }
}

/// The 32-byte array holding the bytes of a 32-element sequence.
pub open spec fn seq_to_arr32(s: Seq<u8>) -> [u8; 32] {
    choose|a: [u8; 32]| a@ =~= s
}

/// Every 32-byte sequence is the view of exactly one 32-byte array.
pub proof fn lemma_seq_to_arr32(a: [u8; 32])
    ensures
        seq_to_arr32(a@) == a,
{
    assert(a@ =~= a@);
    let w = choose|w: [u8; 32]| w@ =~= a@;
    assert(w@ =~= a@);
    assert(w == a);
}

/// Reads a txid-or-witness pointer at `pos`. A successful read consumed
/// exactly the pointer's strict encoding.
pub fn read_txptr(d: &Vec<u8>, pos: usize) -> (r: Option<(TxPtr, usize)>)
    ensures
        match r {
            Some((t, p)) => dec_txptr(d@, pos as int) == Some((t, p as int)) && pos <= p
                <= d@.len() && d@.subrange(pos as int, p as int) == enc_txptr(t),
            None => dec_txptr(d@, pos as int) is None,
        },
{
    match read_u8(d, pos) {
        Some((tag, p1)) => {
            if tag == 0 {
                proof {
                    assert(d@.subrange(pos as int, p1 as int) =~= enc_u8(0));
                }
                Some((TxPtr::WitnessTx, p1))
            } else if tag == 1 {
                match read_bytes32(d, p1) {
                    Some((b, p2)) => {
                        proof {
                            lemma_seq_to_arr32(b);
                            assert(d@.subrange(p1 as int, p2 as int) =~= b@);
                            assert(d@.subrange(pos as int, p2 as int) =~= enc_u8(1) + b@);
                        }
                        Some((TxPtr::Txid(Txid(b)), p2))
                    },
                    None => None,
                }
            } else {
                None
            }
        },
        None => None,
    }
}

pub proof fn lemma_txptr_roundtrip(t: TxPtr, prefix: Seq<u8>, rest: Seq<u8>)
    ensures
        dec_txptr(prefix + enc_txptr(t) + rest, prefix.len() as int) == Some(
            (t, (prefix.len() + enc_txptr(t).len()) as int),
        ),
{
    let d = prefix + enc_txptr(t) + rest;
    match t {
        TxPtr::WitnessTx => {
            assert(d =~= prefix + enc_u8(0) + rest);
            lemma_u8_roundtrip(0, prefix, rest);
        },
        TxPtr::Txid(txid) => {
            assert(d =~= prefix + enc_u8(1) + (txid.0@ + rest));
            lemma_u8_roundtrip(1, prefix, txid.0@ + rest);
            assert(d =~= (prefix + enc_u8(1)) + enc_bytes32(txid.0) + rest);
            lemma_bytes32_roundtrip(txid.0, prefix + enc_u8(1), rest);
            lemma_seq_to_arr32(txid.0);
        },
    }
}

/// Reads a close method at `pos`: one tag byte.
pub open spec fn dec_method(d: Seq<u8>, pos: int) -> Option<(CloseMethod, int)> {
    match dec_u8(d, pos) {
        Some((tag, p1)) => {
            if tag == 0 {
                Some((CloseMethod::OpretFirst, p1))
            } else if tag == 1 {
                Some((CloseMethod::TapretFirst, p1))
            } else {
                None
            }
        },
        None => None,
    }
}

/// Reads a close method at `pos`. A successful read consumed exactly
/// the method's tag byte.
pub fn read_method(d: &Vec<u8>, pos: usize) -> (r: Option<(CloseMethod, usize)>)
    ensures
        match r {
            Some((m, p)) => dec_method(d@, pos as int) == Some((m, p as int)) && pos <= p
                <= d@.len() && d@.subrange(pos as int, p as int) == enc_u8(method_tag(m)),
            None => dec_method(d@, pos as int) is None,
        },
{
    match read_u8(d, pos) {
        Some((tag, p1)) => {
            if tag == 0 {
                proof {
                    assert(d@.subrange(pos as int, p1 as int) =~= enc_u8(0));
                }
                Some((CloseMethod::OpretFirst, p1))
            } else if tag == 1 {
                proof {
                    assert(d@.subrange(pos as int, p1 as int) =~= enc_u8(1));
                }
                Some((CloseMethod::TapretFirst, p1))
            } else {
                None
            }
        },
        None => None,
    }
}

/// Reads a graph seal at `pos`: method, txid pointer, vout, blinding.
pub open spec fn dec_graph_seal(d: Seq<u8>, pos: int) -> Option<(GraphSeal, int)> {
    match dec_method(d, pos) {
        Some((method, p1)) => match dec_txptr(d, p1) {
            Some((txid, p2)) => match dec_u32(d, p2) {
                Some((vout, p3)) => match dec_u64(d, p3) {
                    Some((blinding, p4)) => Some((GraphSeal { method, txid, vout, blinding }, p4)),
                    None => None,
                },
                None => None,
            },
            None => None,
        },
        None => None,
    }
}

/// Reads a graph seal at `pos`. A successful read consumed exactly the
/// seal's strict encoding.
pub fn read_graph_seal(d: &Vec<u8>, pos: usize) -> (r: Option<(GraphSeal, usize)>)
    ensures
        match r {
            Some((s, p)) => dec_graph_seal(d@, pos as int) == Some((s, p as int)) && pos <= p
                <= d@.len() && d@.subrange(pos as int, p as int) == s.spec_enc(),
            None => dec_graph_seal(d@, pos as int) is None,
        },
{
    match read_method(d, pos) {
        Some((method, p1)) => match read_txptr(d, p1) {
            Some((txid, p2)) => match read_u32(d, p2) {
                Some((vout, p3)) => match read_u64(d, p3) {
                    Some((blinding, p4)) => {
                        let s = GraphSeal { method, txid, vout, blinding };
                        proof {
                            vstd::bytes::lemma_auto_spec_u32_to_from_le_bytes();
                            vstd::bytes::lemma_auto_spec_u64_to_from_le_bytes();
                            assert(d@.subrange(p2 as int, p3 as int) =~= enc_u32(vout));
                            assert(d@.subrange(p3 as int, p4 as int) =~= enc_u64(blinding));
                            assert(d@.subrange(pos as int, p4 as int) =~= d@.subrange(
                                pos as int,
                                p1 as int,
                            ) + d@.subrange(p1 as int, p2 as int) + d@.subrange(
                                p2 as int,
                                p3 as int,
                            ) + d@.subrange(p3 as int, p4 as int));
                            assert(d@.subrange(pos as int, p4 as int) =~= s.spec_enc());
                        }
                        Some((s, p4))
                    },
                    None => None,
                },
                None => None,
            },
            None => None,
        },
        None => None,
    }
}

pub proof fn lemma_graph_seal_roundtrip(s: GraphSeal, prefix: Seq<u8>, rest: Seq<u8>)
    ensures
        dec_graph_seal(prefix + s.spec_enc() + rest, prefix.len() as int) == Some(
            (s, (prefix.len() + s.spec_enc().len()) as int),
        ),
{
    vstd::bytes::lemma_auto_spec_u32_to_from_le_bytes();
    vstd::bytes::lemma_auto_spec_u64_to_from_le_bytes();
    let d = prefix + s.spec_enc() + rest;
    let m = method_tag(s.method);
    assert(d =~= prefix + enc_u8(m) + (enc_txptr(s.txid) + enc_u32(s.vout) + enc_u64(s.blinding)
        + rest));
    lemma_u8_roundtrip(m, prefix, enc_txptr(s.txid) + enc_u32(s.vout) + enc_u64(s.blinding) + rest);
    let p1 = prefix + enc_u8(m);
    assert(d =~= p1 + enc_txptr(s.txid) + (enc_u32(s.vout) + enc_u64(s.blinding) + rest));
    lemma_txptr_roundtrip(s.txid, p1, enc_u32(s.vout) + enc_u64(s.blinding) + rest);
    let p2 = p1 + enc_txptr(s.txid);
    assert(d =~= p2 + enc_u32(s.vout) + (enc_u64(s.blinding) + rest));
    lemma_u32_roundtrip(s.vout, p2, enc_u64(s.blinding) + rest);
    let p3 = p2 + enc_u32(s.vout);
    assert(d =~= p3 + enc_u64(s.blinding) + rest);
    lemma_u64_roundtrip(s.blinding, p3, rest);
}

/// Reads an explicit seal at `pos`: method, txid, vout.
pub open spec fn dec_explicit_seal(d: Seq<u8>, pos: int) -> Option<(ExplicitSeal, int)> {
    match dec_method(d, pos) {
        Some((method, p1)) => match dec_bytes32(d, p1) {
            Some((txid, p2)) => match dec_u32(d, p2) {
                Some((vout, p3)) => Some(
                    (ExplicitSeal { method, txid: Txid(seq_to_arr32(txid)), vout }, p3),
                ),
                None => None,
            },
            None => None,
        },
        None => None,
    }
}

/// Reads an explicit seal at `pos`. A successful read consumed exactly
/// the seal's strict encoding.
pub fn read_explicit_seal(d: &Vec<u8>, pos: usize) -> (r: Option<(ExplicitSeal, usize)>)
    ensures
        match r {
            Some((s, p)) => dec_explicit_seal(d@, pos as int) == Some((s, p as int)) && pos <= p
                <= d@.len() && d@.subrange(pos as int, p as int) == s.spec_enc(),
            None => dec_explicit_seal(d@, pos as int) is None,
        },
{
    match read_method(d, pos) {
        Some((method, p1)) => match read_bytes32(d, p1) {
            Some((txid, p2)) => match read_u32(d, p2) {
                Some((vout, p3)) => {
                    let s = ExplicitSeal { method, txid: Txid(txid), vout };
                    proof {
                        lemma_seq_to_arr32(txid);
                        vstd::bytes::lemma_auto_spec_u32_to_from_le_bytes();
                        assert(d@.subrange(pos as int, pos + 1 as int) =~= enc_u8(
                            method_tag(method),
                        ));
                        assert(d@.subrange(p1 as int, p2 as int) =~= txid@);
                        assert(d@.subrange(p2 as int, p3 as int) =~= enc_u32(vout));
                        assert(d@.subrange(pos as int, p3 as int) =~= d@.subrange(
                            pos as int,
                            pos + 1 as int,
                        ) + d@.subrange(p1 as int, p2 as int) + d@.subrange(
                            p2 as int,
                            p3 as int,
                        ));
                        assert(d@.subrange(pos as int, p3 as int) =~= s.spec_enc());
                    }
                    Some((s, p3))
                },
                None => None,
            },
            None => None,
        },
        None => None,
    }
}

pub proof fn lemma_explicit_seal_roundtrip(s: ExplicitSeal, prefix: Seq<u8>, rest: Seq<u8>)
    ensures
        dec_explicit_seal(prefix + s.spec_enc() + rest, prefix.len() as int) == Some(
            (s, (prefix.len() + s.spec_enc().len()) as int),
        ),
{
    vstd::bytes::lemma_auto_spec_u32_to_from_le_bytes();
    let d = prefix + s.spec_enc() + rest;
    let m = method_tag(s.method);
    assert(d =~= prefix + enc_u8(m) + (s.txid.0@ + enc_u32(s.vout) + rest));
    lemma_u8_roundtrip(m, prefix, s.txid.0@ + enc_u32(s.vout) + rest);
    let p1 = prefix + enc_u8(m);
    assert(d =~= p1 + enc_bytes32(s.txid.0) + (enc_u32(s.vout) + rest));
    lemma_bytes32_roundtrip(s.txid.0, p1, enc_u32(s.vout) + rest);
    lemma_seq_to_arr32(s.txid.0);
    let p2 = p1 + enc_bytes32(s.txid.0);
    assert(d =~= p2 + enc_u32(s.vout) + rest);
    lemma_u32_roundtrip(s.vout, p2, rest);
}

impl<U: ExposedSeal> XSeal<U> {
    /// The strict encoding of a layer-1-tagged seal: the layer tag byte,
    /// then the inner seal.
    pub open spec fn spec_enc(self) -> Seq<u8> {
        match self {
            XSeal::Bitcoin(seal) => enc_u8(0) + seal.spec_enc(),
            XSeal::Liquid(seal) => enc_u8(1) + seal.spec_enc(),
        }
    }

    /// The strict encoding of this seal as a fresh byte vector.
    pub fn strict_encode(&self) -> (r: Vec<u8>)
        ensures
            r@ == self.spec_enc(),
    {
        let mut out: Vec<u8> = Vec::new();
        match self {
            XSeal::Bitcoin(seal) => {
                write_u8(&mut out, 0);
                seal.write_enc(&mut out);
            },
            XSeal::Liquid(seal) => {
                write_u8(&mut out, 1);
                seal.write_enc(&mut out);
            },
        }
        assert(out@ =~= self.spec_enc());
        out
    }
}

/// Reads a layer-1-tagged graph seal at `pos`.
pub open spec fn dec_xseal_graph(d: Seq<u8>, pos: int) -> Option<(XSeal<GraphSeal>, int)> {
    match dec_u8(d, pos) {
        Some((tag, p1)) => {
            if tag == 0 {
                match dec_graph_seal(d, p1) {
                    Some((s, p2)) => Some((XSeal::Bitcoin(s), p2)),
                    None => None,
                }
            } else if tag == 1 {
                match dec_graph_seal(d, p1) {
                    Some((s, p2)) => Some((XSeal::Liquid(s), p2)),
                    None => None,
                }
            } else {
                None
            }
        },
        None => None,
    }
}

/// Reads a layer-1-tagged graph seal at `pos`.
pub fn read_xseal_graph(d: &Vec<u8>, pos: usize) -> (r: Option<(XSeal<GraphSeal>, usize)>)
    ensures
        match r {
            Some((s, p)) => dec_xseal_graph(d@, pos as int) == Some((s, p as int)),
            None => dec_xseal_graph(d@, pos as int) is None,
        },
{
    match read_u8(d, pos) {
        Some((tag, p1)) => {
            if tag == 0 {
                match read_graph_seal(d, p1) {
                    Some((s, p2)) => Some((XSeal::Bitcoin(s), p2)),
                    None => None,
                }
            } else if tag == 1 {
                match read_graph_seal(d, p1) {
                    Some((s, p2)) => Some((XSeal::Liquid(s), p2)),
                    None => None,
                }
            } else {
                None
            }
        },
        None => None,
    }
}

pub proof fn lemma_xseal_graph_roundtrip(s: XSeal<GraphSeal>, prefix: Seq<u8>, rest: Seq<u8>)
    ensures
        dec_xseal_graph(prefix + s.spec_enc() + rest, prefix.len() as int) == Some(
            (s, (prefix.len() + s.spec_enc().len()) as int),
        ),
{
    let d = prefix + s.spec_enc() + rest;
    match s {
        XSeal::Bitcoin(inner) => {
            assert(d =~= prefix + enc_u8(0) + (inner.spec_enc() + rest));
            lemma_u8_roundtrip(0, prefix, inner.spec_enc() + rest);
            assert(d =~= (prefix + enc_u8(0)) + inner.spec_enc() + rest);
            lemma_graph_seal_roundtrip(inner, prefix + enc_u8(0), rest);
        },
        XSeal::Liquid(inner) => {
            assert(d =~= prefix + enc_u8(1) + (inner.spec_enc() + rest));
            lemma_u8_roundtrip(1, prefix, inner.spec_enc() + rest);
            assert(d =~= (prefix + enc_u8(1)) + inner.spec_enc() + rest);
            lemma_graph_seal_roundtrip(inner, prefix + enc_u8(1), rest);
        },
    }
}

/// Reads a layer-1-tagged explicit seal at `pos`.
pub open spec fn dec_xseal_explicit(d: Seq<u8>, pos: int) -> Option<(XSeal<ExplicitSeal>, int)> {
    match dec_u8(d, pos) {
        Some((tag, p1)) => {
            if tag == 0 {
                match dec_explicit_seal(d, p1) {
                    Some((s, p2)) => Some((XSeal::Bitcoin(s), p2)),
                    None => None,
                }
            } else if tag == 1 {
                match dec_explicit_seal(d, p1) {
                    Some((s, p2)) => Some((XSeal::Liquid(s), p2)),
                    None => None,
                }
            } else {
                None
            }
        },
        None => None,
    }
}

pub proof fn lemma_xseal_explicit_roundtrip(s: XSeal<ExplicitSeal>, prefix: Seq<u8>, rest: Seq<u8>)
    ensures
        dec_xseal_explicit(prefix + s.spec_enc() + rest, prefix.len() as int) == Some(
            (s, (prefix.len() + s.spec_enc().len()) as int),
        ),
{
    let d = prefix + s.spec_enc() + rest;
    match s {
        XSeal::Bitcoin(inner) => {
            assert(d =~= prefix + enc_u8(0) + (inner.spec_enc() + rest));
            lemma_u8_roundtrip(0, prefix, inner.spec_enc() + rest);
            assert(d =~= (prefix + enc_u8(0)) + inner.spec_enc() + rest);
            lemma_explicit_seal_roundtrip(inner, prefix + enc_u8(0), rest);
        },
        XSeal::Liquid(inner) => {
            assert(d =~= prefix + enc_u8(1) + (inner.spec_enc() + rest));
            lemma_u8_roundtrip(1, prefix, inner.spec_enc() + rest);
            assert(d =~= (prefix + enc_u8(1)) + inner.spec_enc() + rest);
            lemma_explicit_seal_roundtrip(inner, prefix + enc_u8(1), rest);
        },
    }
}

impl XSeal<ExplicitSeal> {
    /// Decodes a complete strict encoding of a layer-1-tagged explicit
    /// seal, rejecting any trailing byte. Decoding is a full inverse of
    /// encoding: every encoded seal decodes back to itself.
    pub fn strict_decode(d: &Vec<u8>) -> (r: Result<
        XSeal<ExplicitSeal>,
        crate::encoding::DecodeError,
    >)
        ensures
            r matches Ok(x) ==> d@ == x.spec_enc(),
            forall|x: XSeal<ExplicitSeal>| d@ == x.spec_enc() ==> r == Ok::<
                XSeal<ExplicitSeal>,
                crate::encoding::DecodeError,
            >(x),
    {
        let parsed = match read_u8(d, 0) {
            Some((tag, p1)) => {
                if tag == 0 {
                    match read_explicit_seal(d, p1) {
                        Some((s, p2)) => {
                            let x = XSeal::Bitcoin(s);
                            proof {
                                assert(d@.subrange(0, p2 as int) =~= enc_u8(0) + d@.subrange(
                                    p1 as int,
                                    p2 as int,
                                ));
                                assert(d@.subrange(0, p2 as int) == x.spec_enc());
                            }
                            Some((x, p2))
                        },
                        None => None,
                    }
                } else if tag == 1 {
                    match read_explicit_seal(d, p1) {
                        Some((s, p2)) => {
                            let x = XSeal::Liquid(s);
                            proof {
                                assert(d@.subrange(0, p2 as int) =~= enc_u8(1) + d@.subrange(
                                    p1 as int,
                                    p2 as int,
                                ));
                                assert(d@.subrange(0, p2 as int) == x.spec_enc());
                            }
                            Some((x, p2))
                        },
                        None => None,
                    }
                } else {
                    None
                }
            },
            None => None,
        };
        proof {
            assert forall|x: XSeal<ExplicitSeal>| d@ == x.spec_enc() implies dec_xseal_explicit(
                d@,
                0,
            ) == Some((x, x.spec_enc().len() as int)) by {
                lemma_xseal_explicit_roundtrip(x, Seq::empty(), Seq::empty());
                assert(Seq::<u8>::empty() + x.spec_enc() + Seq::<u8>::empty() =~= x.spec_enc());
            }
        }
        match parsed {
            Some((x, p)) => {
                if p == d.len() {
                    proof {
                        assert(d@.subrange(0, p as int) =~= d@);
                    }
                    Ok(x)
                } else {
                    Err(crate::encoding::DecodeError::TrailingData)
                }
            },
            None => Err(crate::encoding::DecodeError::Truncated),
        }
    }
}

impl XSeal<GraphSeal> {
    /// Decodes a complete strict encoding of a layer-1-tagged graph
    /// seal, rejecting any trailing byte. Decoding is a full inverse of
    /// encoding: every encoded seal decodes back to itself.
    pub fn strict_decode(d: &Vec<u8>) -> (r: Result<
        XSeal<GraphSeal>,
        crate::encoding::DecodeError,
    >)
        ensures
            r matches Ok(x) ==> d@ == x.spec_enc(),
            forall|x: XSeal<GraphSeal>| d@ == x.spec_enc() ==> r == Ok::<
                XSeal<GraphSeal>,
                crate::encoding::DecodeError,
            >(x),
    {
        let parsed = match read_u8(d, 0) {
            Some((tag, p1)) => {
                if tag == 0 {
                    match read_graph_seal(d, p1) {
                        Some((s, p2)) => {
                            let x = XSeal::Bitcoin(s);
                            proof {
                                assert(d@.subrange(0, p2 as int) =~= enc_u8(0) + d@.subrange(
                                    p1 as int,
                                    p2 as int,
                                ));
                                assert(d@.subrange(0, p2 as int) == x.spec_enc());
                            }
                            Some((x, p2))
                        },
                        None => None,
                    }
                } else if tag == 1 {
                    match read_graph_seal(d, p1) {
                        Some((s, p2)) => {
                            let x = XSeal::Liquid(s);
                            proof {
                                assert(d@.subrange(0, p2 as int) =~= enc_u8(1) + d@.subrange(
                                    p1 as int,
                                    p2 as int,
                                ));
                                assert(d@.subrange(0, p2 as int) == x.spec_enc());
                            }
                            Some((x, p2))
                        },
                        None => None,
                    }
                } else {
                    None
                }
            },
            None => None,
        };
        proof {
            assert forall|x: XSeal<GraphSeal>| d@ == x.spec_enc() implies dec_xseal_graph(d@, 0)
                == Some((x, x.spec_enc().len() as int)) by {
                lemma_xseal_graph_roundtrip(x, Seq::empty(), Seq::empty());
                assert(Seq::<u8>::empty() + x.spec_enc() + Seq::<u8>::empty() =~= x.spec_enc());
            }
        }
        match parsed {
            Some((x, p)) => {
                if p == d.len() {
                    proof {
                        assert(d@.subrange(0, p as int) =~= d@);
                        lemma_xseal_graph_roundtrip(x, Seq::empty(), Seq::empty());
                        assert(Seq::<u8>::empty() + x.spec_enc() + Seq::<u8>::empty()
                            =~= x.spec_enc());
                        assert(dec_xseal_graph(d@, 0) == Some((x, p as int)));
                    }
                    Ok(x)
                } else {
                    Err(crate::encoding::DecodeError::TrailingData)
                }
            },
            None => Err(crate::encoding::DecodeError::Truncated),
        }
    }
}

// ---------------------------------------------------------------- conceal

/// The bytes of the secret form of a revealed seal: the tagged hash of
/// its strict encoding.
pub open spec fn secret_of<U: ExposedSeal>(s: XSeal<U>) -> Seq<u8> {
    spec_tagged_hash(TAG_SEAL@, s.spec_enc())
}

impl SecretSeal {
    /// Commits to a revealed seal: the tagged hash of its strict
    /// encoding.
    pub fn commit<U: ExposedSeal>(reveal: &XSeal<U>) -> (r: SecretSeal)
        ensures
            r.0@ == secret_of(*reveal),
    {
        let encoded = reveal.strict_encode();
        SecretSeal(tagged_hash(&TAG_SEAL, &encoded))
    }

    /// Concealing an already-concealed seal changes nothing.
    pub fn conceal(&self) -> (r: SecretSeal)
        ensures
            r == *self,
    {
        *self
    }
}

impl<U: ExposedSeal> XSeal<U> {
    /// The concealed (secret) form of this seal.
    pub fn conceal(&self) -> (r: SecretSeal)
        ensures
            r.0@ == secret_of(*self),
    {
        SecretSeal::commit(self)
    }
}

/// Law: the concealed form of a revealed seal is exactly the tagged hash
/// of its strict encoding, and concealing a secret seal a second time
/// changes nothing.
pub proof fn lemma_conceal_is_tagged_hash<U: ExposedSeal>(s: XSeal<U>, c: SecretSeal)
    requires
        c.0@ == secret_of(s),
    ensures
        c.0@ == spec_tagged_hash(TAG_SEAL@, s.spec_enc()),
{
}

// ---------------------------------------------------------------- parsing

/// Why a seal string failed to parse.
#[derive(Clone, PartialEq, Eq, Debug)]
pub enum SealParseError {
    /// The string does not split as `method:txid:vout`.
    WrongFormat,
    /// The method part names no close method.
    InvalidMethod,
    /// The txid part is not 64 hexadecimal digits.
    InvalidTxid(HexError),
    /// The vout part is not a decimal `u32`.
    InvalidVout(IntParseError),
}

/// Why a layer-1-tagged seal string failed to parse.
#[derive(Clone, PartialEq, Eq, Debug)]
pub enum XchainParseError {
    /// The chain prefix before the first `:` names no supported chain;
    /// carries that prefix.
    UnknownPrefix(String),
    /// The inner seal after the chain prefix failed to parse.
    Seal(SealParseError),
}

/// The close method named by a string: `opret1st` or `tapret1st`.
pub open spec fn spec_parse_method(s: Seq<char>) -> Option<CloseMethod> {
    if s == "opret1st"@ {
        Some(CloseMethod::OpretFirst)
    } else if s == "tapret1st"@ {
        Some(CloseMethod::TapretFirst)
    } else {
        None
    }
}

/// The explicit seal denoted by `method:txid:vout`, or `None` where any
/// part is malformed.
pub open spec fn spec_parse_explicit_seal(s: Seq<char>) -> Option<ExplicitSeal> {
    let j1 = find_char(s, ':', 0);
    let j2 = find_char(s, ':', j1 + 1);
    if j2 >= s.len() {
        None
    } else {
        match (spec_parse_method(s.take(j1)), spec_parse_hex32(s.subrange(j1 + 1, j2)),
        spec_parse_u32(s.skip(j2 + 1))) {
            (Some(method), Some(txid), Some(vout)) => Some(
                ExplicitSeal { method, txid: Txid(seq_to_arr32(txid)), vout },
            ),
            _ => None,
        }
    }
}

impl ExplicitSeal {
    /// Parses `"{method}:{txid}:{vout}"`: a close method name, 64 hex
    /// digits, and a decimal output number.
    pub fn from_str(s: &str) -> (r: Result<ExplicitSeal, SealParseError>)
        ensures
            match r {
                Ok(seal) => spec_parse_explicit_seal(s@) == Some(seal),
                Err(_) => spec_parse_explicit_seal(s@) is None,
            },
    {
        let n = s.unicode_len();
        let j1 = find_char_in(s, ':', 0, n);
        if j1 == n {
            return Err(SealParseError::WrongFormat);
        }
        let j2 = find_char_in(s, ':', j1 + 1, n);
        if j2 == n {
            return Err(SealParseError::WrongFormat);
        }
        let method_part = s.substring_char(0, j1);
        let txid_part = s.substring_char(j1 + 1, j2);
        let vout_part = s.substring_char(j2 + 1, n);
        let method: CloseMethod;
        if str_eq(method_part, "opret1st") {
            method = CloseMethod::OpretFirst;
        } else if str_eq(method_part, "tapret1st") {
            method = CloseMethod::TapretFirst;
        } else {
            return Err(SealParseError::InvalidMethod);
        }
        let txid = match parse_hex32(txid_part) {
            Ok(b) => {
                proof {
                    lemma_seq_to_arr32(b);
                }
                Txid(b)
            },
            Err(e) => {
                return Err(SealParseError::InvalidTxid(e));
            },
        };
        let vout = match parse_u32(vout_part) {
            Ok(v) => v,
            Err(e) => {
                return Err(SealParseError::InvalidVout(e));
            },
        };
        Ok(ExplicitSeal { method, txid, vout })
    }
}

/// The chain prefix of a layer-1-tagged seal string: everything before
/// the first `:`.
pub open spec fn xchain_prefix(s: Seq<char>) -> Seq<char> {
    s.take(find_char(s, ':', 0))
}

/// The inner seal part of a layer-1-tagged seal string: everything after
/// the first `:`.
pub open spec fn xchain_rest(s: Seq<char>) -> Seq<char> {
    s.skip(find_char(s, ':', 0) + 1)
}

/// Whether a layer-1-tagged seal string has a chain prefix at all.
pub open spec fn xchain_has_prefix(s: Seq<char>) -> bool {
    find_char(s, ':', 0) < s.len()
}

impl XSeal<ExplicitSeal> {
    /// Parses `"bitcoin:{inner}"` or `"liquid:{inner}"`; a bare inner
    /// seal with no chain prefix parses as a Bitcoin seal; any other
    /// prefix before the first `:` is rejected as unknown.
    pub fn from_str(s: &str) -> (r: Result<XSeal<ExplicitSeal>, XchainParseError>)
        ensures
            !xchain_has_prefix(s@) ==> match r {
                Ok(x) => x is Bitcoin && spec_parse_explicit_seal(s@) == Some(x.spec_inner()),
                Err(XchainParseError::Seal(_)) => spec_parse_explicit_seal(s@) is None,
                Err(XchainParseError::UnknownPrefix(_)) => false,
            },
            xchain_has_prefix(s@) && xchain_prefix(s@) == "bitcoin"@ ==> match r {
                Ok(x) => x is Bitcoin && spec_parse_explicit_seal(xchain_rest(s@)) == Some(
                    x.spec_inner(),
                ),
                Err(XchainParseError::Seal(_)) => spec_parse_explicit_seal(xchain_rest(s@))
                    is None,
                Err(XchainParseError::UnknownPrefix(_)) => false,
            },
            xchain_has_prefix(s@) && xchain_prefix(s@) == "liquid"@ ==> match r {
                Ok(x) => x is Liquid && spec_parse_explicit_seal(xchain_rest(s@)) == Some(
                    x.spec_inner(),
                ),
                Err(XchainParseError::Seal(_)) => spec_parse_explicit_seal(xchain_rest(s@))
                    is None,
                Err(XchainParseError::UnknownPrefix(_)) => false,
            },
            xchain_has_prefix(s@) && xchain_prefix(s@) != "bitcoin"@ && xchain_prefix(s@)
                != "liquid"@ ==> (r matches Err(XchainParseError::UnknownPrefix(p)) && p@
                == xchain_prefix(s@)),
    {
        proof {
            reveal_strlit("bitcoin");
            reveal_strlit("liquid");
        }
        let n = s.unicode_len();
        let c = find_char_in(s, ':', 0, n);
        if c == n {
            return match ExplicitSeal::from_str(s) {
                Ok(seal) => Ok(XSeal::Bitcoin(seal)),
                Err(e) => Err(XchainParseError::Seal(e)),
            };
        }
        let prefix = s.substring_char(0, c);
        let rest = s.substring_char(c + 1, n);
        proof {
            assert(rest@ =~= xchain_rest(s@));
        }
        if str_eq(prefix, "bitcoin") {
            match ExplicitSeal::from_str(rest) {
                Ok(seal) => Ok(XSeal::Bitcoin(seal)),
                Err(e) => Err(XchainParseError::Seal(e)),
            }
        } else if str_eq(prefix, "liquid") {
            match ExplicitSeal::from_str(rest) {
                Ok(seal) => Ok(XSeal::Liquid(seal)),
                Err(e) => Err(XchainParseError::Seal(e)),
            }
        } else {
            Err(XchainParseError::UnknownPrefix(prefix.to_owned()))
        }
    }
}

/// Scans for `c` in `s` from position `from`.
fn find_char_in(s: &str, c: char, from: usize, n: usize) -> (r: usize)
    requires
        n == s@.len(),
        from <= n,
    ensures
        r == find_char(s@, c, from as int),
        from <= r <= n,
        r < n ==> s@[r as int] == c,
{
    let mut i = from;
    while i < n
        invariant
            from <= i <= n,
            n == s@.len(),
            find_char(s@, c, from as int) == find_char(s@, c, i as int),
        decreases n - i,
    {
        if s.get_char(i) == c {
            return i;
        }
        i = i + 1;
    }
    i
}

} // verus!
