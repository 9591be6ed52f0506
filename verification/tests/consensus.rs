use rgb_core::commit::{sha256, tagged_hash, TAG_GENESIS};
use rgb_core::encoding::DecodeError;
use rgb_core::ids::{HexError, IntParseError, NodeId, NodeOutpoint, OutpointParseError,
    SecretSeal, parse_hex32, parse_u16, parse_u32};
use rgb_core::operations::{decode_public_rights, Chain, Genesis, Metadata, OwnedRights,
    PublicRights};
use rgb_core::ids::{ContractId, SchemaId};
use rgb_core::assignments::{Assignment, TypedAssignments};
use rgb_core::state::{VoidState, RevealedData, HashStrategy, PedersenStrategy, RevealedValue,
    StateType, is_valid_scalar};
use rgb_core::seal::{CloseMethod, GraphSeal, Txid, TxPtr, XSeal};

use commit_verify::{Digest, DigestExt, Sha256};

const HEX64: &str = "00112233445566778899aabbccddeeff00112233445566778899aabbccddeeff";

fn demo_seal(blinding: u64) -> XSeal<GraphSeal> {
    XSeal::Bitcoin(GraphSeal {
        method: CloseMethod::OpretFirst,
        txid: TxPtr::Txid(Txid([0x55; 32])),
        vout: 0,
        blinding,
    })
}

#[test]
fn sha256_matches_the_engine() {
    let data = vec![1u8, 2, 3];
    let ours = sha256(&data);
    let mut engine = Sha256::default();
    engine.update(&data);
    let theirs: [u8; 32] = engine.finalize().into();
    assert_eq!(ours, theirs);
    // A digest is never its own input.
    assert_ne!(&ours[..3], &data[..]);
}

#[test]
fn tagged_hash_matches_the_doubled_tag_construction() {
    let payload = vec![9u8, 8, 7];
    let ours = tagged_hash(&TAG_GENESIS, &payload);
    let mut tagger = Sha256::default();
    tagger.update(TAG_GENESIS);
    let th: [u8; 32] = tagger.finalize().into();
    let mut engine = Sha256::default();
    engine.update(th);
    engine.update(th);
    engine.update(&payload);
    let theirs: [u8; 32] = engine.finalize().into();
    assert_eq!(ours, theirs);
}

#[test]
fn hex_parsing() {
    let b = parse_hex32(HEX64).unwrap();
    assert_eq!(b[0], 0x00);
    assert_eq!(b[1], 0x11);
    assert_eq!(b[31], 0xff);
    assert_eq!(parse_hex32("abcd"), Err(HexError::InvalidLength));
    let bad = "zz112233445566778899aabbccddeeff00112233445566778899aabbccddeeff";
    assert_eq!(parse_hex32(bad), Err(HexError::InvalidChar));
    // Uppercase digits are accepted.
    let upper = HEX64.to_uppercase();
    assert_eq!(parse_hex32(&upper).unwrap(), b);
}

#[test]
fn decimal_parsing() {
    assert_eq!(parse_u16("0"), Ok(0));
    assert_eq!(parse_u16("+5"), Ok(5));
    assert_eq!(parse_u16("65535"), Ok(65535));
    assert_eq!(parse_u16("65536"), Err(IntParseError::Overflow));
    assert_eq!(parse_u16(""), Err(IntParseError::Empty));
    assert_eq!(parse_u16("+"), Err(IntParseError::Empty));
    assert_eq!(parse_u16("1a"), Err(IntParseError::InvalidDigit));
    assert_eq!(parse_u32("4294967295"), Ok(4294967295));
    assert_eq!(parse_u32("4294967296"), Err(IntParseError::Overflow));
}

#[test]
fn node_outpoint_needs_exactly_two_separators() {
    assert!(matches!(
        NodeOutpoint::from_str("a/b/c/d"),
        Err(OutpointParseError::WrongFormat(s)) if s == "a/b/c/d"
    ));
    assert!(matches!(
        NodeOutpoint::from_str("a/b"),
        Err(OutpointParseError::WrongFormat(_))
    ));
    let good = format!("{HEX64}/7/11");
    let op = NodeOutpoint::from_str(&good).unwrap();
    assert_eq!(op.ty, 7);
    assert_eq!(op.no, 11);
    assert_eq!(op.node_id, NodeId::from_str(HEX64).unwrap());
    assert!(matches!(
        NodeOutpoint::from_str("zz/1/2"),
        Err(OutpointParseError::InvalidNodeId(_))
    ));
    let bad_ty = format!("{HEX64}/x/2");
    assert!(matches!(
        NodeOutpoint::from_str(&bad_ty),
        Err(OutpointParseError::InvalidType(_))
    ));
    let bad_no = format!("{HEX64}/1/70000");
    assert!(matches!(
        NodeOutpoint::from_str(&bad_no),
        Err(OutpointParseError::InvalidOutputNo(IntParseError::Overflow))
    ));
}

#[test]
fn little_endian_encodings() {
    let mut out: Vec<u8> = Vec::new();
    rgb_core::encoding::write_u16(&mut out, 0x1234);
    assert_eq!(out, vec![0x34, 0x12]);
    let (v, p) = rgb_core::encoding::read_u16(&out, 0).unwrap();
    assert_eq!((v, p), (0x1234, 2));

    let mut out: Vec<u8> = Vec::new();
    rgb_core::encoding::write_u32(&mut out, 0xdeadbeef);
    assert_eq!(out, vec![0xef, 0xbe, 0xad, 0xde]);
    assert_eq!(rgb_core::encoding::read_u32(&out, 0), Some((0xdeadbeef, 4)));

    let mut out: Vec<u8> = Vec::new();
    rgb_core::encoding::write_i64(&mut out, -2);
    assert_eq!(out, vec![0xfe, 0xff, 0xff, 0xff, 0xff, 0xff, 0xff, 0xff]);
    assert_eq!(rgb_core::encoding::read_i64(&out, 0), Some((-2, 8)));
}

#[test]
fn tiny_set_decode_roundtrip() {
    let pr = PublicRights { types: vec![1, 5, 300] };
    let mut encoded: Vec<u8> = Vec::new();
    rgb_core::operations::write_u16s(&pr.types, &mut encoded);
    let decoded = decode_public_rights(&encoded).unwrap();
    assert_eq!(decoded.types, vec![1, 5, 300]);
}

#[test]
fn tiny_set_rejects_oversize_count() {
    // 256 entries under a two-byte count prefix cannot be a tiny set:
    // the decoder reads a one-byte count and chokes on the rest.
    let mut encoded: Vec<u8> = Vec::new();
    encoded.extend_from_slice(&(256u16).to_le_bytes());
    for i in 0..256u32 {
        encoded.extend_from_slice(&(i as u16).to_le_bytes());
    }
    assert!(decode_public_rights(&encoded).is_err());
}

#[test]
fn tiny_set_rejects_repeated_and_unsorted_keys() {
    assert_eq!(decode_public_rights(&vec![2, 5, 0, 5, 0]), Err(DecodeError::RepeatedKey));
    assert_eq!(decode_public_rights(&vec![2, 5, 0, 4, 0]), Err(DecodeError::RepeatedKey));
    assert_eq!(decode_public_rights(&vec![1, 5, 0, 9]), Err(DecodeError::TrailingData));
    assert_eq!(decode_public_rights(&vec![3, 5, 0]), Err(DecodeError::Truncated));
}

fn declarative_assignments(blinding: u64) -> TypedAssignments {
    TypedAssignments::Declarative(vec![Assignment::Revealed {
        seal: demo_seal(blinding),
        state: VoidState,
    }])
}

fn demo_genesis() -> Genesis {
    let owned = OwnedRights { entries: vec![(1u16, declarative_assignments(7))] };
    Genesis::with(
        SchemaId([0xab; 32]),
        Chain::Bitcoin,
        Metadata::new(),
        owned,
        PublicRights::new(),
    )
}

#[test]
fn genesis_identity_is_the_tagged_commitment() {
    let genesis = demo_genesis();
    let encoded = genesis.strict_encode();
    let id = genesis.node_id();
    assert_eq!(id.0, tagged_hash(&TAG_GENESIS, &encoded));
    // The contract id is byte-equal to the genesis node id.
    let cid = genesis.contract_id();
    assert_eq!(cid.0, id.0);
    assert_eq!(cid.to_baid58_payload(), id.0);
}

#[test]
fn node_id_is_stable_under_conceal() {
    let mut genesis = demo_genesis();
    let before = genesis.node_id();
    let changed = genesis.conceal_state_except(&Vec::new());
    assert_eq!(changed, 1);
    let after = genesis.node_id();
    assert_eq!(before, after);
}

#[test]
fn assignment_commit_is_conceal_invariant() {
    let a = Assignment::<rgb_core::state::DeclarativeStrategy>::Revealed {
        seal: demo_seal(9),
        state: VoidState,
    };
    let commit_revealed = a.commit();
    let (state_concealed, changed) = a.conceal_state_except(&Vec::new());
    assert!(changed);
    assert_eq!(state_concealed.commit(), commit_revealed);
    let b = Assignment::<rgb_core::state::DeclarativeStrategy>::Revealed {
        seal: demo_seal(9),
        state: VoidState,
    };
    let secret = b.to_confidential_seal();
    let (seal_concealed, changed) = b.conceal_seals(&vec![secret]);
    assert!(changed);
    assert_eq!(seal_concealed.commit(), commit_revealed);
}

#[test]
fn structured_state_commit_is_conceal_invariant() {
    let a = Assignment::<HashStrategy>::Revealed {
        seal: demo_seal(1),
        state: RevealedData { data: vec![1, 2, 3], salt: 55 },
    };
    let commit_revealed = a.commit();
    let (concealed, changed) = a.conceal_state_except(&Vec::new());
    assert!(changed);
    assert_eq!(concealed.commit(), commit_revealed);
    // Concealing the concealed form changes nothing further.
    let (again, changed) = concealed.conceal_state_except(&Vec::new());
    assert!(!changed);
    assert_eq!(again.commit(), commit_revealed);
}

#[test]
fn conceal_state_except_spares_the_listed_seal() {
    let a = Assignment::<HashStrategy>::Revealed {
        seal: demo_seal(1),
        state: RevealedData { data: vec![4], salt: 0 },
    };
    let secret = a.to_confidential_seal();
    let (kept, changed) = a.conceal_state_except(&vec![secret]);
    assert!(!changed);
    assert!(matches!(kept, Assignment::Revealed { .. }));
}

#[test]
fn structured_conceal_is_a_hash() {
    let state = RevealedData { data: vec![1, 2, 3], salt: 55 };
    let concealed = HashStrategy::conceal(&state);
    let again = HashStrategy::conceal(&state);
    assert_eq!(concealed, again);
    let other = HashStrategy::conceal(&RevealedData { data: vec![1, 2, 3], salt: 56 });
    assert_ne!(concealed, other);
}

#[test]
fn pedersen_conceal_is_a_real_commitment() {
    let state = RevealedValue { value: 5, blinding: [1; 32] };
    let concealed = PedersenStrategy::conceal(&state);
    // Deterministic, 33 bytes, and sensitive to both value and blinding.
    assert_eq!(concealed, PedersenStrategy::conceal(&state));
    assert!(concealed.commitment[0] == 0x08 || concealed.commitment[0] == 0x09);
    let other_value = PedersenStrategy::conceal(&RevealedValue { value: 6, blinding: [1; 32] });
    assert_ne!(concealed.commitment, other_value.commitment);
    let mut blinding = [1u8; 32];
    blinding[31] = 2;
    let other_blinding = PedersenStrategy::conceal(&RevealedValue { value: 5, blinding });
    assert_ne!(concealed.commitment, other_blinding.commitment);
}

#[test]
fn scalar_validity() {
    assert!(is_valid_scalar(&[0u8; 32]));
    assert!(is_valid_scalar(&[1u8; 32]));
    assert!(!is_valid_scalar(&[0xff; 32]));
}

#[test]
fn zero_value_under_zero_blinding_is_rejected() {
    // The Pedersen engine cannot commit to the group identity.
    assert!(!RevealedValue { value: 0, blinding: [0; 32] }.is_well_formed());
    assert!(RevealedValue { value: 1, blinding: [0; 32] }.is_well_formed());
    assert!(RevealedValue { value: 0, blinding: [1; 32] }.is_well_formed());
}

#[test]
fn secret_seal_list_membership() {
    let a = demo_seal(1).conceal();
    let b = demo_seal(2).conceal();
    assert_ne!(a, b);
    let _ = SecretSeal(a.0);
    let _: ContractId = ContractId([0u8; 32]);
}
