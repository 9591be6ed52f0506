use rgb_core::assignments::{Assignment, TypedAssignments};
use rgb_core::ids::{NodeId, SchemaId};
use rgb_core::operations::{Chain, Genesis, Metadata, OwnedRights, ParentOwnedRights,
    PublicRights, Transition};
use rgb_core::schema::{ExtensionSchema, GenesisSchema, Occurrences, Schema, StateSchema,
    TransitionSchema};
use rgb_core::seal::{CloseMethod, GraphSeal, Txid, TxPtr, WitnessId, WitnessPos, XSeal};
use rgb_core::state::{ConfidentialValue, RangeProofData, VoidState};
use rgb_core::validation::{validate, Consignment, Failure, WitnessResolution};

fn bitcoin_seal(blinding: u64) -> XSeal<GraphSeal> {
    XSeal::Bitcoin(GraphSeal {
        method: CloseMethod::OpretFirst,
        txid: TxPtr::Txid(Txid([0x55; 32])),
        vout: 0,
        blinding,
    })
}

fn liquid_seal(blinding: u64) -> XSeal<GraphSeal> {
    XSeal::Liquid(GraphSeal {
        method: CloseMethod::OpretFirst,
        txid: TxPtr::Txid(Txid([0x56; 32])),
        vout: 0,
        blinding,
    })
}

fn declarative_schema() -> Schema {
    Schema {
        schema_id: SchemaId([0xab; 32]),
        field_types: vec![],
        owned_right_types: vec![(1, StateSchema::Declarative)],
        public_right_types: vec![],
        genesis: GenesisSchema {
            metadata: vec![],
            owned_rights: vec![(1, Occurrences { min: 1, max: 1 })],
            public_rights: vec![],
        },
        transitions: vec![(
            10,
            TransitionSchema {
                metadata: vec![],
                closes: vec![(1, Occurrences { min: 1, max: 1 })],
                owned_rights: vec![(1, Occurrences { min: 1, max: 1 })],
                public_rights: vec![],
            },
        )],
        extensions: vec![],
    }
}

fn declarative_genesis(seal: XSeal<GraphSeal>) -> Genesis {
    let owned = OwnedRights {
        entries: vec![(
            1u16,
            TypedAssignments::Declarative(vec![Assignment::Revealed { seal, state: VoidState }]),
        )],
    };
    Genesis::with(
        SchemaId([0xab; 32]),
        Chain::Bitcoin,
        Metadata::new(),
        owned,
        PublicRights::new(),
    )
}

fn transfer_transition(parent: NodeId) -> Transition {
    let owned = OwnedRights {
        entries: vec![(
            1u16,
            TypedAssignments::Declarative(vec![Assignment::Revealed {
                seal: bitcoin_seal(99),
                state: VoidState,
            }]),
        )],
    };
    let parents = ParentOwnedRights { entries: vec![(parent, vec![(1u16, vec![0u16])])] };
    Transition::with(10, Metadata::new(), owned, PublicRights::new(), parents)
}

#[test]
fn minimal_valid_contract() {
    let genesis = declarative_genesis(bitcoin_seal(7));
    let contract_id = genesis.contract_id();
    let node_id = genesis.node_id();
    let consignment = Consignment {
        contract_id,
        schema: declarative_schema(),
        genesis,
        transitions: vec![],
        extensions: vec![],
        anchors: vec![],
    };
    let status = validate(&consignment, &vec![]);
    assert!(status.is_valid(), "unexpected failures: {:?}", status.failures);
    assert_eq!(contract_id.0, node_id.0);
}

#[test]
fn single_transfer() {
    let genesis = declarative_genesis(bitcoin_seal(7));
    let contract_id = genesis.contract_id();
    let genesis_id = genesis.node_id();
    let transition = transfer_transition(genesis_id);
    let tid = transition.node_id();
    let witness = WitnessId::Bitcoin(Txid([0x77; 32]));
    let consignment = Consignment {
        contract_id,
        schema: declarative_schema(),
        genesis,
        transitions: vec![transition],
        extensions: vec![],
        anchors: vec![(tid, witness)],
    };
    let resolutions = vec![(
        witness,
        WitnessResolution::Confirmed(WitnessPos::new(800000, 1700000000).unwrap()),
    )];
    let status = validate(&consignment, &resolutions);
    assert!(status.is_valid(), "unexpected failures: {:?}", status.failures);
}

#[test]
fn schema_strategy_mismatch() {
    // The schema declares owned-right type 1 as arithmetic; the genesis
    // supplies declarative assignments there.
    let mut schema = declarative_schema();
    schema.owned_right_types = vec![(1, StateSchema::Arithmetic(0))];
    let genesis = declarative_genesis(bitcoin_seal(7));
    let contract_id = genesis.contract_id();
    let consignment = Consignment {
        contract_id,
        schema,
        genesis,
        transitions: vec![],
        extensions: vec![],
        anchors: vec![],
    };
    let status = validate(&consignment, &vec![]);
    assert!(!status.is_valid());
    assert!(status.failures.contains(&Failure::SchemaMismatchedStateType(1)));
}

#[test]
fn bad_range_proof() {
    let mut schema = declarative_schema();
    schema.owned_right_types = vec![(1, StateSchema::Arithmetic(0))];
    let owned = OwnedRights {
        entries: vec![(
            1u16,
            TypedAssignments::Arithmetic(vec![Assignment::ConfidentialState {
                seal: bitcoin_seal(7),
                state: ConfidentialValue {
                    commitment: [2; 33],
                    range_proof: RangeProofData::Bytes(vec![1, 2, 3]),
                },
            }]),
        )],
    };
    let genesis = Genesis::with(
        SchemaId([0xab; 32]),
        Chain::Bitcoin,
        Metadata::new(),
        owned,
        PublicRights::new(),
    );
    let node_id = genesis.node_id();
    let contract_id = genesis.contract_id();
    let consignment = Consignment {
        contract_id,
        schema,
        genesis,
        transitions: vec![],
        extensions: vec![],
        anchors: vec![],
    };
    let status = validate(&consignment, &vec![]);
    assert!(!status.is_valid());
    assert!(status.failures.iter().any(|f| matches!(
        f,
        Failure::InvalidBulletproofs(n, 1, _) if *n == node_id
    )));
}

#[test]
fn unbounded_range_proof_is_rejected() {
    // A proof whose header declares a full 64-bit mantissa is refused
    // without asking the engine.
    let mut proof = vec![0u8; 80];
    proof[0] = 0x40;
    proof[1] = 63;
    let mut schema = declarative_schema();
    schema.owned_right_types = vec![(1, StateSchema::Arithmetic(0))];
    let owned = OwnedRights {
        entries: vec![(
            1u16,
            TypedAssignments::Arithmetic(vec![Assignment::ConfidentialState {
                seal: bitcoin_seal(7),
                state: ConfidentialValue {
                    commitment: [2; 33],
                    range_proof: RangeProofData::Bytes(proof),
                },
            }]),
        )],
    };
    let genesis = Genesis::with(
        SchemaId([0xab; 32]),
        Chain::Bitcoin,
        Metadata::new(),
        owned,
        PublicRights::new(),
    );
    let contract_id = genesis.contract_id();
    let consignment = Consignment {
        contract_id,
        schema,
        genesis,
        transitions: vec![],
        extensions: vec![],
        anchors: vec![],
    };
    let status = validate(&consignment, &vec![]);
    assert!(!status.is_valid());
    assert!(status.failures.iter().any(|f| matches!(f, Failure::InvalidBulletproofs(..))));
}

#[test]
fn dangling_parent() {
    let genesis = declarative_genesis(bitcoin_seal(7));
    let contract_id = genesis.contract_id();
    let missing = NodeId([0xEE; 32]);
    let transition = transfer_transition(missing);
    let tid = transition.node_id();
    let witness = WitnessId::Bitcoin(Txid([0x77; 32]));
    let consignment = Consignment {
        contract_id,
        schema: declarative_schema(),
        genesis,
        transitions: vec![transition],
        extensions: vec![],
        anchors: vec![(tid, witness)],
    };
    let resolutions = vec![(
        witness,
        WitnessResolution::Confirmed(WitnessPos::new(800000, 1700000000).unwrap()),
    )];
    let status = validate(&consignment, &resolutions);
    assert!(!status.is_valid());
    assert!(status.failures.contains(&Failure::UnknownParent(missing)));
}

#[test]
fn cross_layer_witness() {
    // The genesis seals live on Liquid; the transition's witness is a
    // Bitcoin transaction.
    let genesis = declarative_genesis(liquid_seal(7));
    let contract_id = genesis.contract_id();
    let genesis_id = genesis.node_id();
    let transition = transfer_transition(genesis_id);
    let tid = transition.node_id();
    let witness = WitnessId::Bitcoin(Txid([0x77; 32]));
    let consignment = Consignment {
        contract_id,
        schema: declarative_schema(),
        genesis,
        transitions: vec![transition],
        extensions: vec![],
        anchors: vec![(tid, witness)],
    };
    let resolutions = vec![(
        witness,
        WitnessResolution::Confirmed(WitnessPos::new(800000, 1700000000).unwrap()),
    )];
    let status = validate(&consignment, &resolutions);
    assert!(!status.is_valid());
    assert!(status.failures.contains(&Failure::SealLayerMismatch(tid, 1)));
}

#[test]
fn contract_id_mismatch_is_a_failure() {
    let genesis = declarative_genesis(bitcoin_seal(7));
    let consignment = Consignment {
        contract_id: rgb_core::ids::ContractId([0x01; 32]),
        schema: declarative_schema(),
        genesis,
        transitions: vec![],
        extensions: vec![],
        anchors: vec![],
    };
    let status = validate(&consignment, &vec![]);
    assert!(status.failures.contains(&Failure::ContractIdMismatch));
}

#[test]
fn unanchored_transition_is_a_failure() {
    let genesis = declarative_genesis(bitcoin_seal(7));
    let contract_id = genesis.contract_id();
    let genesis_id = genesis.node_id();
    let transition = transfer_transition(genesis_id);
    let tid = transition.node_id();
    let consignment = Consignment {
        contract_id,
        schema: declarative_schema(),
        genesis,
        transitions: vec![transition],
        extensions: vec![],
        anchors: vec![],
    };
    let status = validate(&consignment, &vec![]);
    assert!(status.failures.contains(&Failure::MissingAnchor(tid)));
}

#[test]
fn unresolved_witness_is_a_failure() {
    let genesis = declarative_genesis(bitcoin_seal(7));
    let contract_id = genesis.contract_id();
    let genesis_id = genesis.node_id();
    let transition = transfer_transition(genesis_id);
    let tid = transition.node_id();
    let witness = WitnessId::Bitcoin(Txid([0x77; 32]));
    let consignment = Consignment {
        contract_id,
        schema: declarative_schema(),
        genesis,
        transitions: vec![transition],
        extensions: vec![],
        anchors: vec![(tid, witness)],
    };
    let status = validate(&consignment, &vec![]);
    assert!(status.failures.contains(&Failure::WitnessUnresolved(witness)));
}

#[test]
fn mempool_witness_is_a_warning() {
    let genesis = declarative_genesis(bitcoin_seal(7));
    let contract_id = genesis.contract_id();
    let genesis_id = genesis.node_id();
    let transition = transfer_transition(genesis_id);
    let tid = transition.node_id();
    let witness = WitnessId::Bitcoin(Txid([0x77; 32]));
    let consignment = Consignment {
        contract_id,
        schema: declarative_schema(),
        genesis,
        transitions: vec![transition],
        extensions: vec![],
        anchors: vec![(tid, witness)],
    };
    let resolutions = vec![(witness, WitnessResolution::Mempool)];
    let status = validate(&consignment, &resolutions);
    assert!(status.is_valid(), "unexpected failures: {:?}", status.failures);
    assert_eq!(status.warnings.len(), 1);
}

#[test]
fn unknown_transition_type_is_a_failure() {
    let genesis = declarative_genesis(bitcoin_seal(7));
    let contract_id = genesis.contract_id();
    let genesis_id = genesis.node_id();
    let mut transition = transfer_transition(genesis_id);
    transition.transition_type = 99;
    let tid = transition.node_id();
    let witness = WitnessId::Bitcoin(Txid([0x77; 32]));
    let consignment = Consignment {
        contract_id,
        schema: declarative_schema(),
        genesis,
        transitions: vec![transition],
        extensions: vec![],
        anchors: vec![(tid, witness)],
    };
    let resolutions = vec![(
        witness,
        WitnessResolution::Confirmed(WitnessPos::new(800000, 1700000000).unwrap()),
    )];
    let status = validate(&consignment, &resolutions);
    assert!(status.failures.contains(&Failure::SchemaUnknownTransitionType(tid, 99)));
}

#[test]
fn out_of_range_parent_output() {
    let genesis = declarative_genesis(bitcoin_seal(7));
    let contract_id = genesis.contract_id();
    let genesis_id = genesis.node_id();
    let owned = OwnedRights {
        entries: vec![(
            1u16,
            TypedAssignments::Declarative(vec![Assignment::Revealed {
                seal: bitcoin_seal(99),
                state: VoidState,
            }]),
        )],
    };
    let parents = ParentOwnedRights { entries: vec![(genesis_id, vec![(1u16, vec![5u16])])] };
    let transition = Transition::with(10, Metadata::new(), owned, PublicRights::new(), parents);
    let tid = transition.node_id();
    let witness = WitnessId::Bitcoin(Txid([0x77; 32]));
    let consignment = Consignment {
        contract_id,
        schema: declarative_schema(),
        genesis,
        transitions: vec![transition],
        extensions: vec![],
        anchors: vec![(tid, witness)],
    };
    let resolutions = vec![(
        witness,
        WitnessResolution::Confirmed(WitnessPos::new(800000, 1700000000).unwrap()),
    )];
    let status = validate(&consignment, &resolutions);
    assert!(!status.is_valid());
    assert!(status.failures.iter().any(|f| matches!(
        f,
        Failure::ParentOutputOutOfRange(op) if op.node_id == genesis_id && op.ty == 1 && op.no == 5
    )));
}

#[test]
fn closing_too_little_breaks_the_bound() {
    let genesis = declarative_genesis(bitcoin_seal(7));
    let contract_id = genesis.contract_id();
    let owned = OwnedRights {
        entries: vec![(
            1u16,
            TypedAssignments::Declarative(vec![Assignment::Revealed {
                seal: bitcoin_seal(99),
                state: VoidState,
            }]),
        )],
    };
    let parents = ParentOwnedRights { entries: vec![] };
    let transition = Transition::with(10, Metadata::new(), owned, PublicRights::new(), parents);
    let tid = transition.node_id();
    let witness = WitnessId::Bitcoin(Txid([0x77; 32]));
    let consignment = Consignment {
        contract_id,
        schema: declarative_schema(),
        genesis,
        transitions: vec![transition],
        extensions: vec![],
        anchors: vec![(tid, witness)],
    };
    let resolutions = vec![(
        witness,
        WitnessResolution::Confirmed(WitnessPos::new(800000, 1700000000).unwrap()),
    )];
    let status = validate(&consignment, &resolutions);
    assert!(status.failures.contains(&Failure::SchemaParentOwnedRightOccurrencesError(tid, 1)));
}

#[test]
fn extension_schema_lookup() {
    let mut schema = declarative_schema();
    schema.extensions = vec![(
        20,
        ExtensionSchema {
            metadata: vec![],
            extends: vec![],
            owned_rights: vec![],
            public_rights: vec![],
        },
    )];
    assert!(schema.extension_schema(20).is_some());
    assert!(schema.extension_schema(21).is_none());
    assert!(schema.transition_schema(10).is_some());
    assert!(schema.owned_right_schema(1).is_some());
}
