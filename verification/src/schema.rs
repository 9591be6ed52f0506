//! Schemata: the declaration of the legal types, cardinality bounds and
//! state strategies a contract's operations must respect.

use vstd::prelude::*;

use crate::ids::SchemaId;
use crate::operations::{FieldType, OwnedRightType, PublicRightType, TransitionType, ExtensionType,
    u16_keys_sorted, u16s_sorted};

verus! {

/// An inclusive cardinality bound.
#[derive(Clone, Copy, PartialEq, Eq, Structural, Debug)]
pub struct Occurrences {
    pub min: u16,
    pub max: u16,
}

impl Occurrences {
    /// Whether `count` lies within the bound.
    pub open spec fn spec_check(self, count: nat) -> bool {
        self.min <= count <= self.max
    }

    /// Whether `count` lies within the bound.
    pub fn check(&self, count: usize) -> (r: bool)
        ensures
            r == self.spec_check(count as nat),
    {
        self.min as usize <= count && count <= self.max as usize
    }

    /// The bound admitting exactly one occurrence.
    pub fn once() -> (r: Occurrences)
        ensures
            r == (Occurrences { min: 1, max: 1 }),
    {
        Occurrences { min: 1, max: 1 }
    }

    /// The bound admitting none or one occurrence.
    pub fn none_or_once() -> (r: Occurrences)
        ensures
            r == (Occurrences { min: 0, max: 1 }),
    {
        Occurrences { min: 0, max: 1 }
    }
}

/// The validation strategy of one owned-right type's state.
#[derive(Clone, Copy, PartialEq, Eq, Debug)]
pub enum StateSchema {
    /// Rights without data: type match only.
    Declarative,
    /// Pedersen-committed values in the given homomorphic format: range
    /// proofs are verified.
    Arithmetic(u8),
    /// Strict-typed data blobs of the given semantic type id: structural
    /// checks are informational until implemented.
    Structured([u8; 32]),
    /// Attached-media references: type match only.
    Attachment,
}

/// What a genesis must carry.
pub struct GenesisSchema {
    pub metadata: Vec<(FieldType, Occurrences)>,
    pub owned_rights: Vec<(OwnedRightType, Occurrences)>,
    pub public_rights: Vec<PublicRightType>,
}

/// What a transition of one type must close and may declare.
pub struct TransitionSchema {
    pub metadata: Vec<(FieldType, Occurrences)>,
    pub closes: Vec<(OwnedRightType, Occurrences)>,
    pub owned_rights: Vec<(OwnedRightType, Occurrences)>,
    pub public_rights: Vec<PublicRightType>,
}

/// What an extension of one type must reference and may declare.
pub struct ExtensionSchema {
    pub metadata: Vec<(FieldType, Occurrences)>,
    pub extends: Vec<PublicRightType>,
    pub owned_rights: Vec<(OwnedRightType, Occurrences)>,
    pub public_rights: Vec<PublicRightType>,
}

/// Whether an occurrences association list is a well-formed sorted map.
pub open spec fn occ_map_wf(v: Seq<(u16, Occurrences)>) -> bool {
    u16_keys_sorted(v) && v.len() <= 255
}

impl GenesisSchema {
    /// Sorted-map invariants of all parts.
    pub open spec fn wf(self) -> bool {
        occ_map_wf(self.metadata@) && occ_map_wf(self.owned_rights@) && u16s_sorted(
            self.public_rights@,
        ) && self.public_rights@.len() <= 255
    }
}

impl TransitionSchema {
    /// Sorted-map invariants of all parts.
    pub open spec fn wf(self) -> bool {
        occ_map_wf(self.metadata@) && occ_map_wf(self.closes@) && occ_map_wf(self.owned_rights@)
            && u16s_sorted(self.public_rights@) && self.public_rights@.len() <= 255
    }
}

impl ExtensionSchema {
    /// Sorted-map invariants of all parts.
    pub open spec fn wf(self) -> bool {
        occ_map_wf(self.metadata@) && u16s_sorted(self.extends@) && self.extends@.len() <= 255
            && occ_map_wf(self.owned_rights@) && u16s_sorted(self.public_rights@)
            && self.public_rights@.len() <= 255
    }
}

/// A schema: the legal field types, owned-right types with their state
/// strategies, public-right types, and the per-node-type requirements.
/// The schema id is the commitment identity the schema is published
/// under.
pub struct Schema {
    pub schema_id: SchemaId,
    pub field_types: Vec<FieldType>,
    pub owned_right_types: Vec<(OwnedRightType, StateSchema)>,
    pub public_right_types: Vec<PublicRightType>,
    pub genesis: GenesisSchema,
    pub transitions: Vec<(TransitionType, TransitionSchema)>,
    pub extensions: Vec<(ExtensionType, ExtensionSchema)>,
}

impl Schema {
    /// Sorted-map invariants of all parts.
    pub open spec fn wf(self) -> bool {
        u16s_sorted(self.field_types@) && self.field_types@.len() <= 255 && u16_keys_sorted(
            self.owned_right_types@,
        ) && self.owned_right_types@.len() <= 255 && u16s_sorted(self.public_right_types@)
            && self.public_right_types@.len() <= 255 && self.genesis.wf() && u16_keys_sorted(
            self.transitions@,
        ) && self.transitions@.len() <= 255 && (forall|i: int|
            0 <= i < self.transitions@.len() ==> (#[trigger] self.transitions@[i]).1.wf())
            && u16_keys_sorted(self.extensions@) && self.extensions@.len() <= 255 && (forall|
            i: int,
        |
            0 <= i < self.extensions@.len() ==> (#[trigger] self.extensions@[i]).1.wf())
    }

    /// The state strategy declared for owned-right type `t`, where one
    /// is.
    pub fn owned_right_schema(&self, t: OwnedRightType) -> (r: Option<&StateSchema>)
        ensures
            match r {
                Some(ss) => exists|i: int|
                    0 <= i < self.owned_right_types@.len() && (
                    #[trigger] self.owned_right_types@[i]).0 == t && self.owned_right_types@[i].1
                        == *ss,
                None => forall|i: int| 0 <= i < self.owned_right_types@.len() ==> (
                #[trigger] self.owned_right_types@[i]).0 != t,
            },
    {
        let n = self.owned_right_types.len();
        let mut i: usize = 0;
        while i < n
            invariant
                i <= n,
                n == self.owned_right_types@.len(),
                forall|j: int| 0 <= j < i ==> (#[trigger] self.owned_right_types@[j]).0 != t,
            decreases n - i,
        {
            if self.owned_right_types[i].0 == t {
                return Some(&self.owned_right_types[i].1);
            }
            i = i + 1;
        }
        None
    }

    /// The schema of transition type `t`, where one is declared.
    pub fn transition_schema(&self, t: TransitionType) -> (r: Option<&TransitionSchema>)
        ensures
            match r {
                Some(ts) => exists|i: int|
                    0 <= i < self.transitions@.len() && (#[trigger] self.transitions@[i]).0 == t
                        && self.transitions@[i].1 == *ts,
                None => forall|i: int| 0 <= i < self.transitions@.len() ==> (
                #[trigger] self.transitions@[i]).0 != t,
            },
    {
        let n = self.transitions.len();
        let mut i: usize = 0;
        while i < n
            invariant
                i <= n,
                n == self.transitions@.len(),
                forall|j: int| 0 <= j < i ==> (#[trigger] self.transitions@[j]).0 != t,
            decreases n - i,
        {
            if self.transitions[i].0 == t {
                return Some(&self.transitions[i].1);
            }
            i = i + 1;
        }
        None
    }

    /// The schema of extension type `t`, where one is declared.
    pub fn extension_schema(&self, t: ExtensionType) -> (r: Option<&ExtensionSchema>)
        ensures
            match r {
                Some(es) => exists|i: int|
                    0 <= i < self.extensions@.len() && (#[trigger] self.extensions@[i]).0 == t
                        && self.extensions@[i].1 == *es,
                None => forall|i: int| 0 <= i < self.extensions@.len() ==> (
                #[trigger] self.extensions@[i]).0 != t,
            },
    {
        let n = self.extensions.len();
        let mut i: usize = 0;
        while i < n
            invariant
                i <= n,
                n == self.extensions@.len(),
                forall|j: int| 0 <= j < i ==> (#[trigger] self.extensions@[j]).0 != t,
            decreases n - i,
        {
            if self.extensions[i].0 == t {
                return Some(&self.extensions[i].1);
            }
            i = i + 1;
        }
        None
    }
}

/// Whether the schema declares the given transition type.
pub open spec fn schema_has_transition(s: Schema, t: TransitionType) -> bool {
    exists|i: int| 0 <= i < s.transitions@.len() && (#[trigger] s.transitions@[i]).0 == t
}

} // verus!
