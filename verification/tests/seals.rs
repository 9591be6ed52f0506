use rgb_core::Layer1;
use rgb_core::seal::{CloseMethod, ExplicitSeal, ExposedSeal, GenesisSeal, GraphSeal, Outpoint,
    SealParseError, Txid, TxPtr, WitnessId, WitnessOrd, WitnessPos, XSeal, XchainParseError};
use rgb_core::ids::SecretSeal;

fn graph_seal(vout: u32) -> GraphSeal {
    GraphSeal {
        method: CloseMethod::TapretFirst,
        txid: TxPtr::Txid(Txid([0x11; 32])),
        vout,
        blinding: 777,
    }
}

#[test]
fn witness_pos_bounds() {
    assert!(WitnessPos::new(0, 1700000000).is_none());
    assert!(WitnessPos::new(1, 1231006504).is_none());
    let pos = WitnessPos::new(1, 1231006505);
    assert!(pos.is_some());
    let pos = pos.unwrap();
    assert_eq!(pos.height(), 1);
    assert_eq!(pos.timestamp(), 1231006505);
}

#[test]
fn witness_ord_onchain_before_offchain() {
    let a = WitnessOrd::OnChain(WitnessPos::new(800000, 1700000000).unwrap());
    let b = WitnessOrd::OffChain;
    assert!(a < b);
    assert!(!(b < a));
}

#[test]
fn witness_ord_by_timestamp() {
    let early = WitnessPos::new(900000, 1600000000).unwrap();
    let late = WitnessPos::new(800000, 1700000000).unwrap();
    assert!(early < late);
    assert!(WitnessOrd::OnChain(early) < WitnessOrd::OnChain(late));
}

#[test]
fn with_mempool_or_height() {
    assert_eq!(WitnessOrd::with_mempool_or_height(0, 1700000000), WitnessOrd::OffChain);
    assert_eq!(WitnessOrd::with_mempool_or_height(5, 100), WitnessOrd::OffChain);
    let ord = WitnessOrd::with_mempool_or_height(5, 1700000000);
    match ord {
        WitnessOrd::OnChain(pos) => {
            assert_eq!(pos.height(), 5);
            assert_eq!(pos.timestamp(), 1700000000);
        }
        WitnessOrd::OffChain => panic!("expected an on-chain ordering"),
    }
}

#[test]
fn xseal_from_str_unknown_prefix() {
    let r = XSeal::<ExplicitSeal>::from_str("xyz:deadbeef");
    match r {
        Err(XchainParseError::UnknownPrefix(p)) => assert_eq!(p, "xyz"),
        other => panic!("expected an unknown-prefix error, got {other:?}"),
    }
}

#[test]
fn xseal_from_str_bitcoin() {
    let hex = "1111111111111111111111111111111111111111111111111111111111111111";
    let s = format!("bitcoin:tapret1st:{hex}:5");
    let seal = XSeal::<ExplicitSeal>::from_str(&s).unwrap();
    assert_eq!(
        seal,
        XSeal::Bitcoin(ExplicitSeal {
            method: CloseMethod::TapretFirst,
            txid: Txid([0x11; 32]),
            vout: 5,
        })
    );
}

#[test]
fn xseal_from_str_liquid() {
    let hex = "2222222222222222222222222222222222222222222222222222222222222222";
    let s = format!("liquid:opret1st:{hex}:0");
    let seal = XSeal::<ExplicitSeal>::from_str(&s).unwrap();
    assert_eq!(seal.layer1(), Layer1::Liquid);
}

#[test]
fn xseal_from_str_bad_inner() {
    let r = XSeal::<ExplicitSeal>::from_str("bitcoin:tapret1st:zz:0");
    assert!(matches!(r, Err(XchainParseError::Seal(SealParseError::InvalidTxid(_)))));
    let r = XSeal::<ExplicitSeal>::from_str("deadbeef");
    assert!(matches!(r, Err(XchainParseError::Seal(SealParseError::WrongFormat))));
}

#[test]
fn xseal_accessors() {
    let inner = graph_seal(3);
    let seal = XSeal::with(Layer1::Liquid, inner);
    assert_eq!(seal.layer1(), Layer1::Liquid);
    assert_eq!(seal.reduce_to_bp(), Some(inner));
    assert_eq!(seal.method(), CloseMethod::TapretFirst);
}

#[test]
fn transmutate_keeps_the_outpoint() {
    let genesis_seal = GenesisSeal {
        method: CloseMethod::OpretFirst,
        txid: Txid([0x22; 32]),
        vout: 1,
        blinding: 42,
    };
    let x = XSeal::Bitcoin(genesis_seal).transmutate();
    match x {
        XSeal::Bitcoin(g) => {
            assert_eq!(g.txid, TxPtr::Txid(Txid([0x22; 32])));
            assert_eq!(g.vout, 1);
            assert_eq!(g.blinding, 42);
        }
        XSeal::Liquid(_) => panic!("the layer-1 tag must be kept"),
    }
}

#[test]
fn to_output_seal_requires_concrete_txid() {
    let pending = GraphSeal {
        method: CloseMethod::OpretFirst,
        txid: TxPtr::WitnessTx,
        vout: 0,
        blinding: 1,
    };
    assert_eq!(XSeal::Bitcoin(pending).to_output_seal(), None);
    let concrete = graph_seal(9);
    let out = XSeal::Bitcoin(concrete).to_output_seal().unwrap();
    assert_eq!(
        out,
        XSeal::Bitcoin(ExplicitSeal {
            method: CloseMethod::TapretFirst,
            txid: Txid([0x11; 32]),
            vout: 9,
        })
    );
}

#[test]
fn try_to_output_seal_substitutes_the_witness() {
    let pending = GraphSeal {
        method: CloseMethod::OpretFirst,
        txid: TxPtr::WitnessTx,
        vout: 2,
        blinding: 1,
    };
    let seal = XSeal::Bitcoin(pending);
    let witness = WitnessId::Bitcoin(Txid([0x33; 32]));
    let out = seal.try_to_output_seal(witness).unwrap();
    assert_eq!(
        out,
        XSeal::Bitcoin(ExplicitSeal {
            method: CloseMethod::OpretFirst,
            txid: Txid([0x33; 32]),
            vout: 2,
        })
    );
}

#[test]
fn try_to_output_seal_rejects_cross_layer_witness() {
    let seal = XSeal::Liquid(graph_seal(0));
    let witness = WitnessId::Bitcoin(Txid([0x33; 32]));
    assert_eq!(seal.try_to_output_seal(witness), Err(seal));
}

#[test]
fn conceal_is_deterministic_and_idempotent() {
    let seal = XSeal::Bitcoin(graph_seal(0));
    let secret = seal.conceal();
    assert_eq!(secret, SecretSeal::commit(&seal));
    assert_eq!(secret.conceal(), secret);
    // A different blinding yields a different secret seal.
    let other = XSeal::Bitcoin(GraphSeal { blinding: 778, ..graph_seal(0) });
    assert_ne!(other.conceal(), secret);
}

#[test]
fn explicit_seal_strict_roundtrip() {
    let x = XSeal::Bitcoin(ExplicitSeal {
        method: CloseMethod::TapretFirst,
        txid: Txid([0x42; 32]),
        vout: 17,
    });
    let encoded = x.strict_encode();
    assert_eq!(XSeal::<ExplicitSeal>::strict_decode(&encoded), Ok(x));
    let y = XSeal::Liquid(ExplicitSeal {
        method: CloseMethod::OpretFirst,
        txid: Txid([0x43; 32]),
        vout: 0,
    });
    let encoded = y.strict_encode();
    assert_eq!(XSeal::<ExplicitSeal>::strict_decode(&encoded), Ok(y));
    // A trailing byte is rejected.
    let mut padded = x.strict_encode();
    padded.push(0);
    assert!(XSeal::<ExplicitSeal>::strict_decode(&padded).is_err());
    // A short input is rejected.
    let mut short = x.strict_encode();
    short.pop();
    assert!(XSeal::<ExplicitSeal>::strict_decode(&short).is_err());
}

#[test]
fn graph_seal_strict_roundtrip() {
    let x = XSeal::Liquid(graph_seal(5));
    let encoded = x.strict_encode();
    assert_eq!(XSeal::<GraphSeal>::strict_decode(&encoded), Ok(x));
    let pending = XSeal::Bitcoin(GraphSeal {
        method: CloseMethod::OpretFirst,
        txid: TxPtr::WitnessTx,
        vout: 1,
        blinding: 2,
    });
    let encoded = pending.strict_encode();
    assert_eq!(XSeal::<GraphSeal>::strict_decode(&encoded), Ok(pending));
    let mut padded = pending.strict_encode();
    padded.push(0);
    assert!(XSeal::<GraphSeal>::strict_decode(&padded).is_err());
}

#[test]
fn outpoint_or_uses_concrete_txid() {
    let s = graph_seal(4);
    let op = s.outpoint_or(Txid([0x99; 32]));
    assert_eq!(op, Outpoint { txid: Txid([0x11; 32]), vout: 4 });
}
