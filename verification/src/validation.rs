//! The validation engine: schema conformance of every operation, graph
//! integrity of a consignment, and seal-witness resolution, all
//! aggregated into a status of failures, warnings and informational
//! notes.

use vstd::prelude::*;

use crate::ids::{NodeId, ContractId, NodeOutpoint, bytes32_eq};
use crate::operations::{Genesis, Transition, Extension, Metadata, OwnedRights, PublicRights,
    FieldType, OwnedRightType, PublicRightType, TransitionType, ExtensionType};
use crate::schema::{Schema, Occurrences, StateSchema};
use crate::assignments::{TypedAssignments, Assignment};
use crate::state::{PedersenStrategy, HashStrategy, range_proof_valid, rp_shape_unbounded,
    is_rp_shape_unbounded, proof_bytes, verify_range_proof};
use vstd::string::StringExecFns;
use crate::seal::{WitnessId, WitnessPos};
use crate::Layer1;

verus! {

broadcast use vstd::array::group_array_axioms, vstd::seq_lib::group_seq_properties;

/// A consensus failure: the consignment, or one of its nodes, breaks a
/// rule. Any failure makes the consignment invalid.
#[derive(Clone, PartialEq, Eq, Debug)]
pub enum Failure {
    /// The declared contract id is not the genesis commitment.
    ContractIdMismatch,
    /// The genesis declares a schema other than the one supplied.
    SchemaIdMismatch,
    /// A transition type the schema does not declare.
    SchemaUnknownTransitionType(NodeId, TransitionType),
    /// An extension type the schema does not declare.
    SchemaUnknownExtensionType(NodeId, ExtensionType),
    /// A metadata field type the node's schema does not allow.
    SchemaUnknownFieldType(NodeId, FieldType),
    /// An owned-right type the node's schema does not allow.
    SchemaUnknownOwnedRightType(NodeId, OwnedRightType),
    /// A public-right type the node's schema does not allow.
    SchemaUnknownPublicRightType(NodeId, PublicRightType),
    /// A metadata field count outside its schema bound.
    SchemaMetaOccurrencesError(NodeId, FieldType),
    /// An owned-right count outside its schema bound.
    SchemaOwnedRightOccurrencesError(NodeId, OwnedRightType),
    /// An assignment collection whose strategy is not the one the schema
    /// declares for its type.
    SchemaMismatchedStateType(OwnedRightType),
    /// An arithmetic confidential state whose range proof fails; carries
    /// the engine's reason.
    InvalidBulletproofs(NodeId, OwnedRightType, String),
    /// A closed owned-right count outside the schema's `closes` bound.
    SchemaParentOwnedRightOccurrencesError(NodeId, OwnedRightType),
    /// A parent output index beyond the parent's assignment count.
    ParentOutputOutOfRange(NodeOutpoint),
    /// A parent node the consignment does not contain.
    UnknownParent(NodeId),
    /// A transition with no anchor in the consignment.
    MissingAnchor(NodeId),
    /// A witness the resolver could not confirm.
    WitnessUnresolved(WitnessId),
    /// A parent seal living on another chain than the witness that is
    /// claimed to close it.
    SealLayerMismatch(NodeId, OwnedRightType),
}

/// A non-fatal observation: the consignment stays valid.
#[derive(Clone, PartialEq, Eq, Debug)]
pub enum Warning {
    /// The witness is known to the resolver but not yet mined.
    MempoolWitness(WitnessId),
}

/// An informational note.
#[derive(Clone, PartialEq, Eq, Debug)]
pub enum Info {
    /// A structured datum is confidential and cannot be type-checked.
    UncheckableConfidentialStateData(NodeId, OwnedRightType),
}

/// The outcome of one validation run: failures make it invalid; warnings
/// and infos do not.
pub struct Status {
    pub failures: Vec<Failure>,
    pub warnings: Vec<Warning>,
    pub infos: Vec<Info>,
}

impl Status {
    /// The empty status: valid, nothing to report.
    pub fn new() -> (r: Status)
        ensures
            r.failures@.len() == 0,
            r.warnings@.len() == 0,
            r.infos@.len() == 0,
    {
        Status { failures: Vec::new(), warnings: Vec::new(), infos: Vec::new() }
    }

    /// Records one failure.
    pub fn add_failure(&mut self, f: Failure)
        ensures
            final(self).failures@ == old(self).failures@.push(f),
            final(self).warnings@ == old(self).warnings@,
            final(self).infos@ == old(self).infos@,
    {
        self.failures.push(f);
    }

    /// Records one warning.
    pub fn add_warning(&mut self, w: Warning)
        ensures
            final(self).warnings@ == old(self).warnings@.push(w),
            final(self).failures@ == old(self).failures@,
            final(self).infos@ == old(self).infos@,
    {
        self.warnings.push(w);
    }

    /// Records one informational note.
    pub fn add_info(&mut self, i: Info)
        ensures
            final(self).infos@ == old(self).infos@.push(i),
            final(self).failures@ == old(self).failures@,
            final(self).warnings@ == old(self).warnings@,
    {
        self.infos.push(i);
    }

    /// Appends every entry of `other` to this status.
    pub fn extend(&mut self, other: Status)
        ensures
            final(self).failures@ == old(self).failures@ + other.failures@,
            final(self).warnings@ == old(self).warnings@ + other.warnings@,
            final(self).infos@ == old(self).infos@ + other.infos@,
    {
        let Status { mut failures, mut warnings, mut infos } = other;
        self.failures.append(&mut failures);
        self.warnings.append(&mut warnings);
        self.infos.append(&mut infos);
    }

    /// Valid exactly when no failure was recorded.
    pub fn is_valid(&self) -> (r: bool)
        ensures
            r == (self.failures@.len() == 0),
    {
        self.failures.len() == 0
    }
}

// ---------------------------------------------------------------- state validation

/// Whether the collection's strategy is the one the schema declares.
pub open spec fn strategy_matches(ss: StateSchema, data: TypedAssignments) -> bool {
    match (ss, data) {
        (StateSchema::Declarative, TypedAssignments::Declarative(_)) => true,
        (StateSchema::Arithmetic(_), TypedAssignments::Arithmetic(_)) => true,
        (StateSchema::Structured(_), TypedAssignments::Structured(_)) => true,
        (StateSchema::Attachment, TypedAssignments::Attachment(_)) => true,
        _ => false,
    }
}

/// Whether one arithmetic assignment carries confidential state that
/// does not pass: a proof declaring an unbounded range, or one the
/// engine rejects.
pub open spec fn arith_assignment_invalid(a: Assignment<PedersenStrategy>) -> bool {
    match a {
        Assignment::Confidential { state, .. } => rp_shape_unbounded(
            proof_bytes(&state.range_proof),
        ) || !range_proof_valid(state.commitment@, proof_bytes(&state.range_proof)),
        Assignment::ConfidentialState { state, .. } => rp_shape_unbounded(
            proof_bytes(&state.range_proof),
        ) || !range_proof_valid(state.commitment@, proof_bytes(&state.range_proof)),
        _ => false,
    }
}

/// How many arithmetic assignments carry a failing range proof.
pub open spec fn count_invalid_arith(v: Seq<Assignment<PedersenStrategy>>) -> nat
    decreases v.len(),
{
    if v.len() == 0 {
        0
    } else {
        count_invalid_arith(v.drop_last()) + if arith_assignment_invalid(v.last()) {
            1nat
        } else {
            0nat
        }
    }
}

/// Whether one structured assignment carries confidential state, which
/// cannot be type-checked.
pub open spec fn structured_assignment_confidential(a: Assignment<HashStrategy>) -> bool {
    a is Confidential || a is ConfidentialState
}

/// How many structured assignments carry confidential state.
pub open spec fn count_confidential_structured(v: Seq<Assignment<HashStrategy>>) -> nat
    decreases v.len(),
{
    if v.len() == 0 {
        0
    } else {
        count_confidential_structured(v.drop_last()) + if structured_assignment_confidential(
            v.last(),
        ) {
            1nat
        } else {
            0nat
        }
    }
}

impl StateSchema {
    /// Validates one owned-right type's assignments against this state
    /// schema: the strategies must match; arithmetic confidential state
    /// must carry a verifying range proof; confidential structured state
    /// is noted as uncheckable.
    pub fn validate(&self, node_id: &NodeId, assignment_id: OwnedRightType, data: &TypedAssignments) -> (r:
        Status)
        ensures
            r.warnings@.len() == 0,
            !strategy_matches(*self, *data) ==> r.failures@ =~= seq![
                Failure::SchemaMismatchedStateType(assignment_id),
            ] && r.infos@.len() == 0,
            strategy_matches(*self, *data) ==> match data {
                TypedAssignments::Arithmetic(v) => {
                    &&& r.failures@.len() == count_invalid_arith(v@)
                    &&& (forall|k: int| 0 <= k < r.failures@.len() ==> ((#[trigger] r.failures@[k])
                        matches Failure::InvalidBulletproofs(n, a, _) && n == *node_id && a
                        == assignment_id))
                    &&& r.infos@.len() == 0
                },
                TypedAssignments::Structured(v) => {
                    &&& r.failures@.len() == 0
                    &&& r.infos@.len() == count_confidential_structured(v@)
                    &&& (forall|k: int| 0 <= k < r.infos@.len() ==> ((#[trigger] r.infos@[k])
                        matches Info::UncheckableConfidentialStateData(n, a) && n == *node_id && a
                        == assignment_id))
                },
                _ => r.failures@.len() == 0 && r.infos@.len() == 0,
            },
    {
        let mut status = Status::new();
        match (self, data) {
            (StateSchema::Declarative, TypedAssignments::Declarative(_)) => status,
            (StateSchema::Attachment, TypedAssignments::Attachment(_)) => status,
            (StateSchema::Arithmetic(_), TypedAssignments::Arithmetic(v)) => {
                let n = v.len();
                let mut i: usize = 0;
                while i < n
                    invariant
                        i <= n,
                        n == v@.len(),
                        status.failures@.len() == count_invalid_arith(v@.take(i as int)),
                        forall|k: int| 0 <= k < status.failures@.len() ==> ((
                        #[trigger] status.failures@[k]) matches Failure::InvalidBulletproofs(
                            nid,
                            a,
                            _,
                        ) && nid == *node_id && a == assignment_id),
                        status.warnings@.len() == 0,
                        status.infos@.len() == 0,
                    decreases n - i,
                {
                    proof {
                        assert(v@.take(i + 1).drop_last() =~= v@.take(i as int));
                        assert(v@.take(i + 1).last() == v@[i as int]);
                    }
                    match &v[i] {
                        Assignment::Confidential { state, .. } => {
                            let pb = state.range_proof.to_bytes();
                            let mut cb: Vec<u8> = Vec::new();
                            cb.extend_from_slice(state.commitment.as_slice());
                            proof {
                                assert(cb@ =~= state.commitment@);
                            }
                            if is_rp_shape_unbounded(&pb) {
                                status.add_failure(
                                    Failure::InvalidBulletproofs(
                                        *node_id,
                                        assignment_id,
                                        String::from_str("range proof declares an unbounded range"),
                                    ),
                                );
                            } else {
                                match verify_range_proof(&cb, &pb) {
                                    Ok(_) => {},
                                    Err(err) => {
                                        status.add_failure(
                                            Failure::InvalidBulletproofs(
                                                *node_id,
                                                assignment_id,
                                                err,
                                            ),
                                        );
                                    },
                                }
                            }
                        },
                        Assignment::ConfidentialState { state, .. } => {
                            let pb = state.range_proof.to_bytes();
                            let mut cb: Vec<u8> = Vec::new();
                            cb.extend_from_slice(state.commitment.as_slice());
                            proof {
                                assert(cb@ =~= state.commitment@);
                            }
                            if is_rp_shape_unbounded(&pb) {
                                status.add_failure(
                                    Failure::InvalidBulletproofs(
                                        *node_id,
                                        assignment_id,
                                        String::from_str("range proof declares an unbounded range"),
                                    ),
                                );
                            } else {
                                match verify_range_proof(&cb, &pb) {
                                    Ok(_) => {},
                                    Err(err) => {
                                        status.add_failure(
                                            Failure::InvalidBulletproofs(
                                                *node_id,
                                                assignment_id,
                                                err,
                                            ),
                                        );
                                    },
                                }
                            }
                        },
                        _ => {},
                    }
                    i = i + 1;
                }
                proof {
                    assert(v@.take(n as int) =~= v@);
                }
                status
            },
            (StateSchema::Structured(_), TypedAssignments::Structured(v)) => {
                let n = v.len();
                let mut i: usize = 0;
                while i < n
                    invariant
                        i <= n,
                        n == v@.len(),
                        status.infos@.len() == count_confidential_structured(v@.take(i as int)),
                        forall|k: int| 0 <= k < status.infos@.len() ==> ((
                        #[trigger] status.infos@[k])
                            matches Info::UncheckableConfidentialStateData(nid, a) && nid
                            == *node_id && a == assignment_id),
                        status.warnings@.len() == 0,
                        status.failures@.len() == 0,
                    decreases n - i,
                {
                    proof {
                        assert(v@.take(i + 1).drop_last() =~= v@.take(i as int));
                        assert(v@.take(i + 1).last() == v@[i as int]);
                    }
                    match &v[i] {
                        Assignment::Confidential { .. } => {
                            status.add_info(
                                Info::UncheckableConfidentialStateData(*node_id, assignment_id),
                            );
                        },
                        Assignment::ConfidentialState { .. } => {
                            status.add_info(
                                Info::UncheckableConfidentialStateData(*node_id, assignment_id),
                            );
                        },
                        _ => {},
                    }
                    i = i + 1;
                }
                proof {
                    assert(v@.take(n as int) =~= v@);
                }
                status
            },
            _ => {
                status.add_failure(Failure::SchemaMismatchedStateType(assignment_id));
                status
            },
        }
    }
}

// ---------------------------------------------------------------- node schema checks

/// Whether an occurrences map declares key `t`.
pub open spec fn occ_has_key(occ: Seq<(u16, Occurrences)>, t: u16) -> bool {
    exists|i: int| 0 <= i < occ.len() && (#[trigger] occ[i]).0 == t
}

/// Whether a `u16` list holds `t`.
pub open spec fn list_has(v: Seq<u16>, t: u16) -> bool {
    v.contains(t)
}

/// How many assignments stand under owned-right type `t`.
pub open spec fn count_assignments_under(v: Seq<(u16, TypedAssignments)>, t: u16) -> nat
    decreases v.len(),
{
    if v.len() == 0 {
        0
    } else {
        count_assignments_under(v.drop_last(), t) + if v.last().0 == t {
            v.last().1.spec_len()
        } else {
            0
        }
    }
}

/// Whether a metadata map conforms to an occurrences map: every declared
/// bound is respected and no unknown field type occurs.
pub open spec fn metadata_conforms(md: Metadata, occ: Seq<(u16, Occurrences)>) -> bool {
    (forall|i: int| 0 <= i < occ.len() ==> (#[trigger] occ[i]).1.spec_check(
        md.spec_count(occ[i].0),
    )) && (forall|j: int| 0 <= j < md.entries@.len() ==> occ_has_key(
        occ,
        (#[trigger] md.entries@[j]).0,
    ))
}

/// Whether an owned-rights map conforms to an occurrences map: every
/// declared bound is respected and no unknown owned-right type occurs.
pub open spec fn owned_conforms(or: OwnedRights, occ: Seq<(u16, Occurrences)>) -> bool {
    (forall|i: int| 0 <= i < occ.len() ==> (#[trigger] occ[i]).1.spec_check(
        count_assignments_under(or.entries@, occ[i].0),
    )) && (forall|j: int| 0 <= j < or.entries@.len() ==> occ_has_key(
        occ,
        (#[trigger] or.entries@[j]).0,
    ))
}

/// Whether every declared public-right type is one the node's schema
/// permits.
pub open spec fn public_conforms(pr: PublicRights, allowed: Seq<u16>) -> bool {
    forall|j: int| 0 <= j < pr.types@.len() ==> list_has(allowed, #[trigger] pr.types@[j])
}

/// Scans an occurrences map for key `t`.
fn occ_lookup(occ: &Vec<(u16, Occurrences)>, t: u16) -> (r: bool)
    ensures
        r == occ_has_key(occ@, t),
{
    let n = occ.len();
    let mut i: usize = 0;
    while i < n
        invariant
            i <= n,
            n == occ@.len(),
            forall|j: int| 0 <= j < i ==> (#[trigger] occ@[j]).0 != t,
        decreases n - i,
    {
        if occ[i].0 == t {
            return true;
        }
        i = i + 1;
    }
    false
}

/// Whether `t` stands in the list.
fn list_lookup(v: &Vec<u16>, t: u16) -> (r: bool)
    ensures
        r == list_has(v@, t),
{
    let n = v.len();
    let mut i: usize = 0;
    while i < n
        invariant
            i <= n,
            n == v@.len(),
            forall|j: int| 0 <= j < i ==> v@[j] != t,
        decreases n - i,
    {
        if v[i] == t {
            return true;
        }
        i = i + 1;
    }
    false
}

/// In a sorted owned-rights map, the count under `t` is the length of
/// the one entry keyed `t`.
proof fn lemma_count_assignments_unique(v: Seq<(u16, TypedAssignments)>, t: u16, at: int)
    requires
        crate::operations::u16_keys_sorted(v),
        0 <= at < v.len(),
        v[at].0 == t,
    ensures
        count_assignments_under(v, t) == v[at].1.spec_len(),
    decreases v.len(),
{
    if v.len() > 0 {
        if at == v.len() - 1 {
            lemma_count_assignments_none(v.drop_last(), t);
        } else {
            assert(v.drop_last()[at] == v[at]);
            lemma_count_assignments_unique(v.drop_last(), t, at);
            assert(v.last().0 != t);
        }
    }
}

/// A key absent from a map counts nothing.
proof fn lemma_count_assignments_none(v: Seq<(u16, TypedAssignments)>, t: u16)
    requires
        forall|i: int| 0 <= i < v.len() ==> (#[trigger] v[i]).0 != t,
    ensures
        count_assignments_under(v, t) == 0,
    decreases v.len(),
{
    if v.len() > 0 {
        assert(forall|i: int| 0 <= i < v.len() - 1 ==> (#[trigger] v.drop_last()[i]).0 != t);
        lemma_count_assignments_none(v.drop_last(), t);
    }
}

/// How many assignments a node declares under owned-right type `t`.
fn count_owned_under(or: &OwnedRights, t: u16) -> (r: usize)
    requires
        or.wf(),
    ensures
        r == count_assignments_under(or.entries@, t),
{
    let n = or.entries.len();
    let mut i: usize = 0;
    while i < n
        invariant
            i <= n,
            n == or.entries@.len(),
            or.wf(),
            forall|j: int| 0 <= j < i ==> (#[trigger] or.entries@[j]).0 != t,
        decreases n - i,
    {
        if or.entries[i].0 == t {
            let r = or.entries[i].1.len();
            proof {
                lemma_count_assignments_unique(or.entries@, t, i as int);
            }
            return r;
        }
        i = i + 1;
    }
    proof {
        lemma_count_assignments_none(or.entries@, t);
    }
    0
}

/// Validates a node's metadata against its schema's occurrence bounds.
fn check_metadata(node_id: &NodeId, md: &Metadata, occ: &Vec<(u16, Occurrences)>) -> (r: Status)
    requires
        md.wf(),
    ensures
        r.warnings@.len() == 0,
        r.infos@.len() == 0,
        (r.failures@.len() == 0) <==> metadata_conforms(*md, occ@),
{
    let mut status = Status::new();
    let n = occ.len();
    let mut i: usize = 0;
    while i < n
        invariant
            i <= n,
            n == occ@.len(),
            md.wf(),
            status.warnings@.len() == 0,
            status.infos@.len() == 0,
            (status.failures@.len() == 0) <==> (forall|j: int| 0 <= j < i ==> (
            #[trigger] occ@[j]).1.spec_check(md.spec_count(occ@[j].0))),
        decreases n - i,
    {
        let (t, bound) = occ[i];
        let count = md.count(t);
        if !bound.check(count) {
            status.add_failure(Failure::SchemaMetaOccurrencesError(*node_id, t));
        }
        i = i + 1;
    }
    let m = md.entries.len();
    let mut j: usize = 0;
    while j < m
        invariant
            j <= m,
            m == md.entries@.len(),
            md.wf(),
            status.warnings@.len() == 0,
            status.infos@.len() == 0,
            (status.failures@.len() == 0) <==> ((forall|k: int| 0 <= k < occ@.len() ==> (
            #[trigger] occ@[k]).1.spec_check(md.spec_count(occ@[k].0))) && (forall|k: int|
                0 <= k < j ==> occ_has_key(occ@, (#[trigger] md.entries@[k]).0))),
        decreases m - j,
    {
        let t = md.entries[j].0;
        if !occ_lookup(occ, t) {
            status.add_failure(Failure::SchemaUnknownFieldType(*node_id, t));
        }
        j = j + 1;
    }
    status
}

/// Whether one assignment collection is clean under its declared state
/// schema: the strategies match, and every arithmetic confidential state
/// carries a verifying range proof.
pub open spec fn state_ok(ss: StateSchema, ta: TypedAssignments) -> bool {
    strategy_matches(ss, ta) && match ta {
        TypedAssignments::Arithmetic(v) => count_invalid_arith(v@) == 0,
        _ => true,
    }
}

/// Whether one owned-rights entry names a type the schema declares, with
/// clean state under the declared strategy.
pub open spec fn entry_state_ok(schema: Schema, e: (OwnedRightType, TypedAssignments)) -> bool {
    exists|i: int|
        0 <= i < schema.owned_right_types@.len() && (#[trigger] schema.owned_right_types@[i]).0
            == e.0 && state_ok(schema.owned_right_types@[i].1, e.1)
}

/// Whether every owned-rights entry of the node is well-typed and clean
/// under the schema.
pub open spec fn owned_state_ok(schema: Schema, or: OwnedRights) -> bool {
    forall|j: int| 0 <= j < or.entries@.len() ==> entry_state_ok(
        schema,
        #[trigger] or.entries@[j],
    )
}

/// Validates a node's owned rights against its schema: occurrence bounds,
/// known types, and per-type state validation. Clean exactly when the
/// bounds hold, every declared type is permitted and known, and every
/// assignment collection is clean under its declared strategy.
fn check_owned_rights(
    node_id: &NodeId,
    or: &OwnedRights,
    occ: &Vec<(u16, Occurrences)>,
    schema: &Schema,
) -> (r: Status)
    requires
        or.wf(),
        schema.wf(),
    ensures
        (r.failures@.len() == 0) <==> (owned_conforms(*or, occ@) && owned_state_ok(*schema, *or)),
{
    let mut status = Status::new();
    let n = occ.len();
    let mut i: usize = 0;
    while i < n
        invariant
            i <= n,
            n == occ@.len(),
            or.wf(),
            (status.failures@.len() == 0) <==> (forall|j: int| 0 <= j < i ==> (
            #[trigger] occ@[j]).1.spec_check(count_assignments_under(or.entries@, occ@[j].0))),
        decreases n - i,
    {
        let (t, bound) = occ[i];
        let count = count_owned_under(or, t);
        if !bound.check(count) {
            status.add_failure(Failure::SchemaOwnedRightOccurrencesError(*node_id, t));
        }
        i = i + 1;
    }
    let m = or.entries.len();
    let mut j: usize = 0;
    while j < m
        invariant
            j <= m,
            m == or.entries@.len(),
            or.wf(),
            schema.wf(),
            (status.failures@.len() == 0) <==> ((forall|k: int| 0 <= k < occ@.len() ==> (
            #[trigger] occ@[k]).1.spec_check(count_assignments_under(or.entries@, occ@[k].0)))
                && (forall|k: int| 0 <= k < j ==> occ_has_key(
                occ@,
                (#[trigger] or.entries@[k]).0,
            )) && (forall|k: int| 0 <= k < j ==> entry_state_ok(
                *schema,
                #[trigger] or.entries@[k],
            ))),
        decreases m - j,
    {
        let t = or.entries[j].0;
        let known_bound = occ_lookup(occ, t);
        if !known_bound {
            status.add_failure(Failure::SchemaUnknownOwnedRightType(*node_id, t));
        }
        match schema.owned_right_schema(t) {
            Some(ss) => {
                let part = ss.validate(node_id, t, &or.entries[j].1);
                proof {
                    let types = schema.owned_right_types@;
                    let w = choose|w: int|
                        0 <= w < types.len() && (#[trigger] types[w]).0 == t && types[w].1 == *ss;
                    if part.failures@.len() == 0 {
                        assert(state_ok(*ss, or.entries@[j as int].1));
                        assert(entry_state_ok(*schema, or.entries@[j as int]));
                    } else {
                        assert(!state_ok(*ss, or.entries@[j as int].1));
                        assert forall|i2: int|
                            0 <= i2 < types.len() && (#[trigger] types[i2]).0 == t implies
                            !state_ok(types[i2].1, or.entries@[j as int].1) by {
                            if i2 != w {
                                if i2 < w {
                                    assert(types[i2].0 < types[w].0);
                                } else {
                                    assert(types[w].0 < types[i2].0);
                                }
                            }
                        }
                        assert(!entry_state_ok(*schema, or.entries@[j as int]));
                    }
                }
                status.extend(part);
            },
            None => {
                proof {
                    assert(!entry_state_ok(*schema, or.entries@[j as int]));
                }
                status.add_failure(Failure::SchemaUnknownOwnedRightType(*node_id, t));
            },
        }
        j = j + 1;
    }
    status
}

/// Validates a node's declared public rights against the permitted list.
fn check_public_rights(node_id: &NodeId, pr: &PublicRights, allowed: &Vec<u16>) -> (r: Status)
    ensures
        r.warnings@.len() == 0,
        r.infos@.len() == 0,
        (r.failures@.len() == 0) <==> public_conforms(*pr, allowed@),
{
    let mut status = Status::new();
    let n = pr.types.len();
    let mut i: usize = 0;
    while i < n
        invariant
            i <= n,
            n == pr.types@.len(),
            status.warnings@.len() == 0,
            status.infos@.len() == 0,
            (status.failures@.len() == 0) <==> (forall|j: int| 0 <= j < i ==> list_has(
                allowed@,
                #[trigger] pr.types@[j],
            )),
        decreases n - i,
    {
        let t = pr.types[i];
        if !list_lookup(allowed, t) {
            status.add_failure(Failure::SchemaUnknownPublicRightType(*node_id, t));
        }
        i = i + 1;
    }
    status
}

/// How many output indices of owned-right type `t` a parent-reference
/// map closes, across all parents.
pub open spec fn count_closed(v: Seq<(NodeId, Vec<(u16, Vec<u16>)>)>, t: u16) -> nat
    decreases v.len(),
{
    if v.len() == 0 {
        0
    } else {
        count_closed(v.drop_last(), t) + count_closed_inner(v.last().1@, t)
    }
}

/// How many output indices of type `t` one parent entry closes.
pub open spec fn count_closed_inner(v: Seq<(u16, Vec<u16>)>, t: u16) -> nat
    decreases v.len(),
{
    if v.len() == 0 {
        0
    } else {
        count_closed_inner(v.drop_last(), t) + if v.last().0 == t {
            v.last().1@.len()
        } else {
            0
        }
    }
}

/// Counts the output indices of type `t` closed by a transition.
fn count_closed_refs(parents: &crate::operations::ParentOwnedRights, t: u16) -> (r: usize)
    requires
        parents.wf(),
    ensures
        r == count_closed(parents.entries@, t),
{
    let n = parents.entries.len();
    let mut count: usize = 0;
    let mut i: usize = 0;
    while i < n
        invariant
            i <= n,
            n == parents.entries@.len(),
            n <= 255,
            parents.wf(),
            count == count_closed(parents.entries@.take(i as int), t),
            count <= 65025 * i,
        decreases n - i,
    {
        let inner = &parents.entries[i].1;
        let m = inner.len();
        let mut j: usize = 0;
        let mut here: usize = 0;
        while j < m
            invariant
                i < n,
                j <= m,
                n == parents.entries@.len(),
                m == inner@.len(),
                m <= 255,
                inner == parents.entries@[i as int].1,
                parents.wf(),
                here == count_closed_inner(inner@.take(j as int), t),
                here <= 255 * j,
            decreases m - j,
        {
            proof {
                assert(inner@.take(j + 1).drop_last() =~= inner@.take(j as int));
                assert(inner@.take(j + 1).last() == inner@[j as int]);
                assert(parents.entries@[i as int].1@[j as int].1@.len() <= 255);
            }
            if inner[j].0 == t {
                here = here + inner[j].1.len();
            }
            j = j + 1;
        }
        proof {
            assert(inner@.take(m as int) =~= inner@);
            assert(parents.entries@.take(i + 1).drop_last() =~= parents.entries@.take(i as int));
            assert(parents.entries@.take(i + 1).last() == parents.entries@[i as int]);
        }
        count = count + here;
        i = i + 1;
    }
    proof {
        assert(parents.entries@.take(n as int) =~= parents.entries@);
    }
    count
}

// ---------------------------------------------------------------- the consignment

/// What the seal resolver reports of one witness transaction.
#[derive(Clone, Copy, PartialEq, Eq, Debug)]
pub enum WitnessResolution {
    /// Mined at the given position.
    Confirmed(WitnessPos),
    /// Known but not yet mined.
    Mempool,
    /// Not known at all.
    Unknown,
}

/// A transferable bundle: the genesis, the reachable operations, the
/// schema they are declared against, and the anchors binding each
/// transition to its witness transaction.
pub struct Consignment {
    pub contract_id: ContractId,
    pub schema: Schema,
    pub genesis: Genesis,
    pub transitions: Vec<Transition>,
    pub extensions: Vec<Extension>,
    pub anchors: Vec<(NodeId, WitnessId)>,
}

impl Consignment {
    /// Well-formedness of every part.
    pub open spec fn wf(self) -> bool {
        self.schema.wf() && self.genesis.wf() && (forall|i: int|
            0 <= i < self.transitions@.len() ==> (#[trigger] self.transitions@[i]).wf()) && (
        forall|i: int| 0 <= i < self.extensions@.len() ==> (#[trigger] self.extensions@[i]).wf())
    }

    /// Whether a node with the given id stands in the consignment.
    pub open spec fn spec_has_node(self, id: NodeId) -> bool {
        id.0@ == self.genesis.spec_node_id() || (exists|i: int|
            0 <= i < self.transitions@.len() && id.0@ == (
            #[trigger] self.transitions@[i]).spec_node_id()) || (exists|i: int|
            0 <= i < self.extensions@.len() && id.0@ == (
            #[trigger] self.extensions@[i]).spec_node_id())
    }
}

/// Whether two witness ids name the same witness.
fn witness_id_eq(a: &WitnessId, b: &WitnessId) -> (r: bool)
    ensures
        r == (*a == *b),
{
    match (a, b) {
        (WitnessId::Bitcoin(x), WitnessId::Bitcoin(y)) => {
            let e = bytes32_eq(&x.0, &y.0);
            proof {
                if e {
                    assert(x.0 == y.0);
                }
                if *a == *b {
                    assert(x.0@ =~= y.0@);
                }
            }
            e
        },
        (WitnessId::Liquid(x), WitnessId::Liquid(y)) => {
            let e = bytes32_eq(&x.0, &y.0);
            proof {
                if e {
                    assert(x.0 == y.0);
                }
                if *a == *b {
                    assert(x.0@ =~= y.0@);
                }
            }
            e
        },
        _ => false,
    }
}

/// The witness id anchored to the given node, where one is.
fn find_anchor(anchors: &Vec<(NodeId, WitnessId)>, id: &NodeId) -> (r: Option<WitnessId>)
    ensures
        match r {
            Some(w) => exists|i: int| 0 <= i < anchors@.len() && (#[trigger] anchors@[i]) == (
            *id, w),
            None => forall|i: int| 0 <= i < anchors@.len() ==> (#[trigger] anchors@[i]).0 != *id,
        },
{
    let n = anchors.len();
    let mut i: usize = 0;
    while i < n
        invariant
            i <= n,
            n == anchors@.len(),
            forall|j: int| 0 <= j < i ==> (#[trigger] anchors@[j]).0 != *id,
        decreases n - i,
    {
        if bytes32_eq(&anchors[i].0.0, &id.0) {
            proof {
                assert(anchors@[i as int].0.0 == id.0);
                assert(anchors@[i as int].0 == *id);
            }
            return Some(anchors[i].1);
        }
        proof {
            if anchors@[i as int].0 == *id {
                assert(anchors@[i as int].0.0@ =~= id.0@);
            }
        }
        i = i + 1;
    }
    None
}

/// What the resolver reported of the given witness, where anything.
fn find_resolution(
    resolutions: &Vec<(WitnessId, WitnessResolution)>,
    w: &WitnessId,
) -> (r: Option<WitnessResolution>)
    ensures
        match r {
            Some(res) => exists|i: int| 0 <= i < resolutions@.len() && (
            #[trigger] resolutions@[i]) == (*w, res),
            None => forall|i: int| 0 <= i < resolutions@.len() ==> (
            #[trigger] resolutions@[i]).0 != *w,
        },
{
    let n = resolutions.len();
    let mut i: usize = 0;
    while i < n
        invariant
            i <= n,
            n == resolutions@.len(),
            forall|j: int| 0 <= j < i ==> (#[trigger] resolutions@[j]).0 != *w,
        decreases n - i,
    {
        if witness_id_eq(&resolutions[i].0, w) {
            return Some(resolutions[i].1);
        }
        i = i + 1;
    }
    None
}

/// Whether the consignment holds a node with the given id.
fn has_node(c: &Consignment, id: &NodeId) -> (r: bool)
    requires
        c.wf(),
    ensures
        r == c.spec_has_node(*id),
{
    let gid = c.genesis.node_id();
    if bytes32_eq(&gid.0, &id.0) {
        return true;
    }
    let n = c.transitions.len();
    let mut i: usize = 0;
    while i < n
        invariant
            i <= n,
            n == c.transitions@.len(),
            c.wf(),
            forall|j: int| 0 <= j < i ==> id.0@ != (#[trigger] c.transitions@[j]).spec_node_id(),
        decreases n - i,
    {
        let tid = c.transitions[i].node_id();
        if bytes32_eq(&tid.0, &id.0) {
            return true;
        }
        i = i + 1;
    }
    let m = c.extensions.len();
    let mut j: usize = 0;
    while j < m
        invariant
            j <= m,
            m == c.extensions@.len(),
            c.wf(),
            forall|k: int| 0 <= k < j ==> id.0@ != (#[trigger] c.extensions@[k]).spec_node_id(),
            forall|k: int| 0 <= k < c.transitions@.len() ==> id.0@ != (
            #[trigger] c.transitions@[k]).spec_node_id(),
            id.0@ != c.genesis.spec_node_id(),
        decreases m - j,
    {
        let eid = c.extensions[j].node_id();
        if bytes32_eq(&eid.0, &id.0) {
            return true;
        }
        j = j + 1;
    }
    false
}

/// The chain a witness id lives on.
pub open spec fn witness_layer_of(w: WitnessId) -> Layer1 {
    match w {
        WitnessId::Bitcoin(_) => Layer1::Bitcoin,
        WitnessId::Liquid(_) => Layer1::Liquid,
    }
}

/// Whether every revealed seal of the collection lives on the given
/// chain.
pub open spec fn seal_layers_ok(ta: TypedAssignments, wlayer: Layer1) -> bool {
    forall|k: int| 0 <= k < ta.spec_filter_revealed_seals().len() ==> (
    #[trigger] ta.spec_filter_revealed_seals()[k]).spec_layer1() == wlayer
}

/// Whether one parent's closed outputs are clean: every referenced index
/// exists in the parent, and every revealed seal of a referenced type
/// lives on the witness's chain.
pub open spec fn closed_ok(
    pr: OwnedRights,
    closed: Seq<(OwnedRightType, Vec<u16>)>,
    wlayer: Layer1,
) -> bool {
    forall|j: int| 0 <= j < closed.len() ==> {
        let e = #[trigger] closed[j];
        (forall|l: int| 0 <= l < e.1@.len() ==> ((#[trigger] e.1@[l]) as nat)
            < count_assignments_under(pr.entries@, e.0)) && (forall|i: int|
            0 <= i < pr.entries@.len() && (#[trigger] pr.entries@[i]).0 == e.0 ==> seal_layers_ok(
                pr.entries@[i].1,
                wlayer,
            ))
    }
}

/// Whether every consignment node carrying the referenced parent id
/// passes the closed-output checks for this parent entry.
pub open spec fn parent_closed_clean(
    c: Consignment,
    entry: (NodeId, Vec<(OwnedRightType, Vec<u16>)>),
    wlayer: Layer1,
) -> bool {
    &&& (entry.0.0@ == c.genesis.spec_node_id() ==> closed_ok(
        c.genesis.owned_rights,
        entry.1@,
        wlayer,
    ))
    &&& forall|i: int|
        0 <= i < c.transitions@.len() && entry.0.0@ == (
        #[trigger] c.transitions@[i]).spec_node_id() ==> closed_ok(
            c.transitions@[i].owned_rights,
            entry.1@,
            wlayer,
        )
    &&& forall|i: int|
        0 <= i < c.extensions@.len() && entry.0.0@ == (
        #[trigger] c.extensions@[i]).spec_node_id() ==> closed_ok(
            c.extensions@[i].owned_rights,
            entry.1@,
            wlayer,
        )
}

/// Whether a transition's anchor to witness `w` is clean: the resolver
/// answered for `w`, every answer confirms it (or holds it in the
/// mempool), and every parent it closes passes the closed-output checks
/// on the witness's chain.
pub open spec fn anchor_clean(
    c: Consignment,
    t: Transition,
    w: WitnessId,
    resolutions: Seq<(WitnessId, WitnessResolution)>,
) -> bool {
    &&& exists|i: int| 0 <= i < resolutions.len() && (#[trigger] resolutions[i]).0 == w
    &&& forall|i: int| 0 <= i < resolutions.len() && (#[trigger] resolutions[i]).0 == w ==> (
    resolutions[i].1 is Confirmed || resolutions[i].1 is Mempool)
    &&& forall|p: int| 0 <= p < t.parent_owned_rights.entries@.len() ==> parent_closed_clean(
        c,
        #[trigger] t.parent_owned_rights.entries@[p],
        witness_layer_of(w),
    )
}

/// Whether a transition conforms to one declared transition schema.
pub open spec fn transition_schema_clean(
    c: Consignment,
    t: Transition,
    ts: crate::schema::TransitionSchema,
) -> bool {
    &&& metadata_conforms(t.metadata, ts.metadata@)
    &&& owned_conforms(t.owned_rights, ts.owned_rights@)
    &&& owned_state_ok(c.schema, t.owned_rights)
    &&& public_conforms(t.public_rights, ts.public_rights@)
    &&& forall|ci: int| 0 <= ci < ts.closes@.len() ==> (#[trigger] ts.closes@[ci]).1.spec_check(
        count_closed(t.parent_owned_rights.entries@, ts.closes@[ci].0),
    )
}

/// Whether a transition is clean within the consignment: its type is
/// declared and conformed to, its parents are all present, and it is
/// anchored to a witness every resolver answer confirms.
pub open spec fn transition_clean(
    c: Consignment,
    t: Transition,
    resolutions: Seq<(WitnessId, WitnessResolution)>,
) -> bool {
    let tid = NodeId(crate::seal::seq_to_arr32(t.spec_node_id()));
    &&& exists|i: int| 0 <= i < c.schema.transitions@.len() && (
    #[trigger] c.schema.transitions@[i]).0 == t.transition_type
    &&& forall|i: int|
        0 <= i < c.schema.transitions@.len() && (#[trigger] c.schema.transitions@[i]).0
            == t.transition_type ==> transition_schema_clean(c, t, c.schema.transitions@[i].1)
    &&& forall|p: int| 0 <= p < t.parent_owned_rights.entries@.len() ==> c.spec_has_node(
        (#[trigger] t.parent_owned_rights.entries@[p]).0,
    )
    &&& exists|a: int| 0 <= a < c.anchors@.len() && (#[trigger] c.anchors@[a]).0 == tid
    &&& forall|a: int| 0 <= a < c.anchors@.len() && (#[trigger] c.anchors@[a]).0 == tid
        ==> anchor_clean(c, t, c.anchors@[a].1, resolutions)
}

/// Whether an extension is clean within the consignment: its type is
/// declared and conformed to, and every ratified parent is present.
pub open spec fn extension_clean(c: Consignment, e: Extension) -> bool {
    &&& exists|i: int| 0 <= i < c.schema.extensions@.len() && (
    #[trigger] c.schema.extensions@[i]).0 == e.extension_type
    &&& forall|i: int|
        0 <= i < c.schema.extensions@.len() && (#[trigger] c.schema.extensions@[i]).0
            == e.extension_type ==> {
            let es = c.schema.extensions@[i].1;
            metadata_conforms(e.metadata, es.metadata@) && owned_conforms(
                e.owned_rights,
                es.owned_rights@,
            ) && owned_state_ok(c.schema, e.owned_rights) && public_conforms(
                e.public_rights,
                es.public_rights@,
            )
        }
    &&& forall|p: int| 0 <= p < e.parent_public_rights.entries@.len() ==> c.spec_has_node(
        (#[trigger] e.parent_public_rights.entries@[p]).0,
    )
}

/// Whether a whole consignment is clean: the identities match, the
/// genesis conforms, and every transition and extension is clean.
pub open spec fn consignment_clean(
    c: Consignment,
    resolutions: Seq<(WitnessId, WitnessResolution)>,
) -> bool {
    &&& c.contract_id.0@ == c.genesis.spec_node_id()
    &&& c.genesis.schema_id == c.schema.schema_id
    &&& metadata_conforms(c.genesis.metadata, c.schema.genesis.metadata@)
    &&& owned_conforms(c.genesis.owned_rights, c.schema.genesis.owned_rights@)
    &&& owned_state_ok(c.schema, c.genesis.owned_rights)
    &&& public_conforms(c.genesis.public_rights, c.schema.genesis.public_rights@)
    &&& forall|k: int| 0 <= k < c.transitions@.len() ==> transition_clean(
        c,
        #[trigger] c.transitions@[k],
        resolutions,
    )
    &&& forall|e: int| 0 <= e < c.extensions@.len() ==> extension_clean(
        c,
        #[trigger] c.extensions@[e],
    )
}

// ---------------------------------------------------------------- the engine

/// Validates a consignment: the genesis commitment against the declared
/// contract id, every node against the schema, graph integrity of parent
/// references, and the witness of every transition against the supplied
/// resolver answers.
///
/// Whatever the resolver answered, a clean result guarantees: the
/// declared contract id is the genesis commitment, the genesis declares
/// the supplied schema, the genesis conforms to it, every transition's
/// type is declared, every parent reference names a node of the
/// consignment, and every transition is anchored to a witness the
/// resolver confirmed on the seal's own chain. And success is owed: a
/// clean consignment under confirming resolver answers yields no
/// failure.
pub fn validate(c: &Consignment, resolutions: &Vec<(WitnessId, WitnessResolution)>) -> (r: Status)
    requires
        c.wf(),
    ensures
        r.failures@.len() == 0 ==> c.contract_id.0@ == c.genesis.spec_node_id(),
        r.failures@.len() == 0 ==> c.genesis.schema_id == c.schema.schema_id,
        r.failures@.len() == 0 ==> metadata_conforms(
            c.genesis.metadata,
            c.schema.genesis.metadata@,
        ) && owned_conforms(c.genesis.owned_rights, c.schema.genesis.owned_rights@)
            && owned_state_ok(c.schema, c.genesis.owned_rights) && public_conforms(
            c.genesis.public_rights,
            c.schema.genesis.public_rights@,
        ),
        r.failures@.len() == 0 ==> (forall|k: int| 0 <= k < c.transitions@.len()
            ==> crate::schema::schema_has_transition(
            c.schema,
            (#[trigger] c.transitions@[k]).transition_type,
        )),
        r.failures@.len() == 0 ==> (forall|k: int, p: int|
            0 <= k < c.transitions@.len() && 0 <= p < (
            #[trigger] c.transitions@[k]).parent_owned_rights.entries@.len() ==> c.spec_has_node(
                (#[trigger] c.transitions@[k].parent_owned_rights.entries@[p]).0,
            )),
        c.contract_id.0@ != c.genesis.spec_node_id() ==> r.failures@.len() > 0,
        c.genesis.schema_id != c.schema.schema_id ==> r.failures@.len() > 0,
        consignment_clean(*c, resolutions@) ==> r.failures@.len() == 0,
{
    let ghost clean = consignment_clean(*c, resolutions@);
    let mut status = Status::new();

    // Genesis identity: the declared contract id must be the genesis
    // commitment, and the declared schema must be the supplied one.
    let gid = c.genesis.node_id();
    if bytes32_eq(&gid.0, &c.contract_id.0) {
        proof {
            assert(c.contract_id.0@ == c.genesis.spec_node_id());
        }
    } else {
        proof {
            if clean {
                assert(gid.0@ =~= c.contract_id.0@);
            }
        }
        status.add_failure(Failure::ContractIdMismatch);
    }
    if bytes32_eq(&c.genesis.schema_id.0, &c.schema.schema_id.0) {
        proof {
            assert(c.genesis.schema_id.0 == c.schema.schema_id.0);
            assert(c.genesis.schema_id == c.schema.schema_id);
        }
    } else {
        proof {
            if c.genesis.schema_id == c.schema.schema_id {
                assert(c.genesis.schema_id.0@ =~= c.schema.schema_id.0@);
            }
        }
        status.add_failure(Failure::SchemaIdMismatch);
    }

    // Genesis schema conformance.
    let part = check_metadata(&gid, &c.genesis.metadata, &c.schema.genesis.metadata);
    status.extend(part);
    let part = check_owned_rights(
        &gid,
        &c.genesis.owned_rights,
        &c.schema.genesis.owned_rights,
        &c.schema,
    );
    status.extend(part);
    let part = check_public_rights(
        &gid,
        &c.genesis.public_rights,
        &c.schema.genesis.public_rights,
    );
    status.extend(part);

    // Per-transition checks: schema conformance, graph integrity, and
    // the witness closing its parent seals.
    let n = c.transitions.len();
    let mut k: usize = 0;
    while k < n
        invariant
            k <= n,
            n == c.transitions@.len(),
            c.wf(),
            clean == consignment_clean(*c, resolutions@),
            status.failures@.len() == 0 ==> c.contract_id.0@ == c.genesis.spec_node_id(),
            status.failures@.len() == 0 ==> c.genesis.schema_id == c.schema.schema_id,
            status.failures@.len() == 0 ==> metadata_conforms(
                c.genesis.metadata,
                c.schema.genesis.metadata@,
            ) && owned_conforms(c.genesis.owned_rights, c.schema.genesis.owned_rights@)
                && owned_state_ok(c.schema, c.genesis.owned_rights) && public_conforms(
                c.genesis.public_rights,
                c.schema.genesis.public_rights@,
            ),
            c.contract_id.0@ != c.genesis.spec_node_id() ==> status.failures@.len() > 0,
            c.genesis.schema_id != c.schema.schema_id ==> status.failures@.len() > 0,
            clean ==> status.failures@.len() == 0,
            status.failures@.len() == 0 ==> (forall|j: int| 0 <= j < k
                ==> crate::schema::schema_has_transition(
                c.schema,
                (#[trigger] c.transitions@[j]).transition_type,
            )),
            status.failures@.len() == 0 ==> (forall|j: int, p: int|
                0 <= j < k && 0 <= p < (
                #[trigger] c.transitions@[j]).parent_owned_rights.entries@.len()
                    ==> c.spec_has_node(
                    (#[trigger] c.transitions@[j].parent_owned_rights.entries@[p]).0,
                )),
        decreases n - k,
    {
        let tid = c.transitions[k].node_id();
        proof {
            crate::seal::lemma_seq_to_arr32(tid.0);
            assert(tid == NodeId(
                crate::seal::seq_to_arr32(c.transitions@[k as int].spec_node_id()),
            ));
            if clean {
                assert(transition_clean(*c, c.transitions@[k as int], resolutions@));
            }
        }
        let ttype = c.transitions[k].transition_type;
        match c.schema.transition_schema(ttype) {
            Some(ts) => {
                proof {
                    if clean {
                        let w = choose|w: int|
                            0 <= w < c.schema.transitions@.len() && (
                            #[trigger] c.schema.transitions@[w]).0 == ttype
                                && c.schema.transitions@[w].1 == *ts;
                        assert(transition_schema_clean(*c, c.transitions@[k as int], *ts));
                    }
                }
                let part = check_metadata(&tid, &c.transitions[k].metadata, &ts.metadata);
                status.extend(part);
                let part = check_owned_rights(
                    &tid,
                    &c.transitions[k].owned_rights,
                    &ts.owned_rights,
                    &c.schema,
                );
                status.extend(part);
                let part = check_public_rights(
                    &tid,
                    &c.transitions[k].public_rights,
                    &ts.public_rights,
                );
                status.extend(part);
                // The closed owned rights must stay within the schema's
                // `closes` bounds.
                proof {
                    let j = choose|j: int|
                        0 <= j < c.schema.transitions@.len() && (
                        #[trigger] c.schema.transitions@[j]).0 == ttype && c.schema.transitions@[
                        j].1 == *ts;
                    assert(c.schema.transitions@[j].1.wf());
                }
                let cn = ts.closes.len();
                let ghost base0 = status.failures@.len();
                let mut ci: usize = 0;
                while ci < cn
                    invariant
                        k < n,
                        ci <= cn,
                        n == c.transitions@.len(),
                        cn == ts.closes@.len(),
                        c.wf(),
                        ts.wf(),
                        clean == consignment_clean(*c, resolutions@),
                        clean ==> transition_schema_clean(*c, c.transitions@[k as int], *ts),
                        base0 <= status.failures@.len(),
                        clean ==> status.failures@.len() == 0,
                    decreases cn - ci,
                {
                    let (t, bound) = ts.closes[ci];
                    let count = count_closed_refs(&c.transitions[k].parent_owned_rights, t);
                    if !bound.check(count) {
                        proof {
                            if clean {
                                assert(ts.closes@[ci as int].1.spec_check(
                                    count_closed(
                                        c.transitions@[k as int].parent_owned_rights.entries@,
                                        ts.closes@[ci as int].0,
                                    ),
                                ));
                            }
                        }
                        status.add_failure(
                            Failure::SchemaParentOwnedRightOccurrencesError(tid, t),
                        );
                    }
                    ci = ci + 1;
                }
            },
            None => {
                proof {
                    if clean {
                        let w = choose|w: int|
                            0 <= w < c.schema.transitions@.len() && (
                            #[trigger] c.schema.transitions@[w]).0
                                == c.transitions@[k as int].transition_type;
                        assert(false);
                    }
                }
                status.add_failure(Failure::SchemaUnknownTransitionType(tid, ttype));
            },
        }

        // Graph integrity: every parent must stand in the consignment.
        let pn = c.transitions[k].parent_owned_rights.entries.len();
        let ghost base1 = status.failures@.len();
        let mut p: usize = 0;
        while p < pn
            invariant
                k < n,
                p <= pn,
                n == c.transitions@.len(),
                pn == c.transitions@[k as int].parent_owned_rights.entries@.len(),
                c.wf(),
                clean == consignment_clean(*c, resolutions@),
                base1 <= status.failures@.len(),
                clean ==> status.failures@.len() == 0,
                status.failures@.len() == 0 ==> (forall|q: int| 0 <= q < p ==> c.spec_has_node(
                    (#[trigger] c.transitions@[k as int].parent_owned_rights.entries@[q]).0,
                )),
            decreases pn - p,
        {
            let parent_id = c.transitions[k].parent_owned_rights.entries[p].0;
            if !has_node(c, &parent_id) {
                proof {
                    if clean {
                        assert(transition_clean(*c, c.transitions@[k as int], resolutions@));
                        assert(c.spec_has_node(
                            c.transitions@[k as int].parent_owned_rights.entries@[p as int].0,
                        ));
                    }
                }
                status.add_failure(Failure::UnknownParent(parent_id));
            }
            p = p + 1;
        }

        // Witness: the transition must be anchored, the witness must be
        // confirmed, and every revealed parent seal must live on the
        // witness's own chain.
        match find_anchor(&c.anchors, &tid) {
            Some(witness_id) => {
                proof {
                    if clean {
                        assert(transition_clean(*c, c.transitions@[k as int], resolutions@));
                        let a = choose|a: int|
                            0 <= a < c.anchors@.len() && (#[trigger] c.anchors@[a]) == (
                            tid,
                            witness_id,
                        );
                        assert(c.anchors@[a].0 == tid);
                        assert(anchor_clean(
                            *c,
                            c.transitions@[k as int],
                            witness_id,
                            resolutions@,
                        ));
                    }
                }
                match find_resolution(resolutions, &witness_id) {
                    Some(WitnessResolution::Confirmed(_)) => {},
                    Some(WitnessResolution::Mempool) => {
                        status.add_warning(Warning::MempoolWitness(witness_id));
                    },
                    Some(WitnessResolution::Unknown) => {
                        proof {
                            if clean {
                                let i = choose|i: int|
                                    0 <= i < resolutions@.len() && (#[trigger] resolutions@[i])
                                        == (witness_id, WitnessResolution::Unknown);
                                assert(resolutions@[i].0 == witness_id);
                            }
                        }
                        status.add_failure(Failure::WitnessUnresolved(witness_id));
                    },
                    None => {
                        proof {
                            if clean {
                                let i = choose|i: int|
                                    0 <= i < resolutions@.len() && (
                                    #[trigger] resolutions@[i]).0 == witness_id;
                                assert(resolutions@[i].0 == witness_id);
                            }
                        }
                        status.add_failure(Failure::WitnessUnresolved(witness_id));
                    },
                }
                // Layer check on the seals of the parents' outputs that
                // this transition closes.
                let ghost base2 = status.failures@.len();
                let mut p: usize = 0;
                while p < pn
                    invariant
                        k < n,
                        p <= pn,
                        n == c.transitions@.len(),
                        pn == c.transitions@[k as int].parent_owned_rights.entries@.len(),
                        c.wf(),
                        clean == consignment_clean(*c, resolutions@),
                        clean ==> anchor_clean(
                            *c,
                            c.transitions@[k as int],
                            witness_id,
                            resolutions@,
                        ),
                        base2 <= status.failures@.len(),
                        clean ==> status.failures@.len() == 0,
                    decreases pn - p,
                {
                    let parent_id = c.transitions[k].parent_owned_rights.entries[p].0;
                    match find_owned_rights(c, &parent_id) {
                        Some(parent_rights) => {
                            proof {
                                if clean {
                                    assert(parent_closed_clean(
                                        *c,
                                        c.transitions@[k as int].parent_owned_rights.entries@[
                                        p as int],
                                        witness_layer_of(witness_id),
                                    ));
                                    assert(closed_ok(
                                        *parent_rights,
                                        c.transitions@[k as int].parent_owned_rights.entries@[
                                        p as int].1@,
                                        witness_layer_of(witness_id),
                                    ));
                                }
                            }
                            let part = check_closed_seal_layers(
                                &tid,
                                &parent_id,
                                parent_rights,
                                &c.transitions[k].parent_owned_rights.entries[p].1,
                                &witness_id,
                            );
                            status.extend(part);
                        },
                        None => {},
                    }
                    p = p + 1;
                }
            },
            None => {
                proof {
                    if clean {
                        assert(transition_clean(*c, c.transitions@[k as int], resolutions@));
                        let a = choose|a: int|
                            0 <= a < c.anchors@.len() && (#[trigger] c.anchors@[a]).0 == tid;
                        assert(c.anchors@[a].0 == tid);
                    }
                }
                status.add_failure(Failure::MissingAnchor(tid));
            },
        }
        k = k + 1;
    }

    // Per-extension checks: schema conformance and graph integrity of
    // the ratified public rights.
    let m = c.extensions.len();
    let mut e: usize = 0;
    while e < m
        invariant
            e <= m,
            m == c.extensions@.len(),
            c.wf(),
            clean == consignment_clean(*c, resolutions@),
            status.failures@.len() == 0 ==> c.contract_id.0@ == c.genesis.spec_node_id(),
            status.failures@.len() == 0 ==> c.genesis.schema_id == c.schema.schema_id,
            status.failures@.len() == 0 ==> metadata_conforms(
                c.genesis.metadata,
                c.schema.genesis.metadata@,
            ) && owned_conforms(c.genesis.owned_rights, c.schema.genesis.owned_rights@)
                && owned_state_ok(c.schema, c.genesis.owned_rights) && public_conforms(
                c.genesis.public_rights,
                c.schema.genesis.public_rights@,
            ),
            c.contract_id.0@ != c.genesis.spec_node_id() ==> status.failures@.len() > 0,
            c.genesis.schema_id != c.schema.schema_id ==> status.failures@.len() > 0,
            clean ==> status.failures@.len() == 0,
            status.failures@.len() == 0 ==> (forall|j: int| 0 <= j < c.transitions@.len()
                ==> crate::schema::schema_has_transition(
                c.schema,
                (#[trigger] c.transitions@[j]).transition_type,
            )),
            status.failures@.len() == 0 ==> (forall|j: int, p: int|
                0 <= j < c.transitions@.len() && 0 <= p < (
                #[trigger] c.transitions@[j]).parent_owned_rights.entries@.len()
                    ==> c.spec_has_node(
                    (#[trigger] c.transitions@[j].parent_owned_rights.entries@[p]).0,
                )),
        decreases m - e,
    {
        let eid = c.extensions[e].node_id();
        let etype = c.extensions[e].extension_type;
        proof {
            if clean {
                assert(extension_clean(*c, c.extensions@[e as int]));
            }
        }
        match c.schema.extension_schema(etype) {
            Some(es) => {
                proof {
                    if clean {
                        let w = choose|w: int|
                            0 <= w < c.schema.extensions@.len() && (
                            #[trigger] c.schema.extensions@[w]).0 == etype
                                && c.schema.extensions@[w].1 == *es;
                        assert(metadata_conforms(c.extensions@[e as int].metadata, es.metadata@)
                            && owned_conforms(
                            c.extensions@[e as int].owned_rights,
                            es.owned_rights@,
                        ) && owned_state_ok(c.schema, c.extensions@[e as int].owned_rights)
                            && public_conforms(
                            c.extensions@[e as int].public_rights,
                            es.public_rights@,
                        ));
                    }
                }
                let part = check_metadata(&eid, &c.extensions[e].metadata, &es.metadata);
                status.extend(part);
                let part = check_owned_rights(
                    &eid,
                    &c.extensions[e].owned_rights,
                    &es.owned_rights,
                    &c.schema,
                );
                status.extend(part);
                let part = check_public_rights(
                    &eid,
                    &c.extensions[e].public_rights,
                    &es.public_rights,
                );
                status.extend(part);
            },
            None => {
                proof {
                    if clean {
                        let w = choose|w: int|
                            0 <= w < c.schema.extensions@.len() && (
                            #[trigger] c.schema.extensions@[w]).0
                                == c.extensions@[e as int].extension_type;
                        assert(false);
                    }
                }
                status.add_failure(Failure::SchemaUnknownExtensionType(eid, etype));
            },
        }
        let pn = c.extensions[e].parent_public_rights.entries.len();
        let ghost base3 = status.failures@.len();
        let mut p: usize = 0;
        while p < pn
            invariant
                e < m,
                p <= pn,
                m == c.extensions@.len(),
                pn == c.extensions@[e as int].parent_public_rights.entries@.len(),
                c.wf(),
                clean == consignment_clean(*c, resolutions@),
                base3 <= status.failures@.len(),
                clean ==> status.failures@.len() == 0,
            decreases pn - p,
        {
            let parent_id = c.extensions[e].parent_public_rights.entries[p].0;
            if !has_node(c, &parent_id) {
                proof {
                    if clean {
                        assert(extension_clean(*c, c.extensions@[e as int]));
                        assert(c.spec_has_node(
                            c.extensions@[e as int].parent_public_rights.entries@[p as int].0,
                        ));
                    }
                }
                status.add_failure(Failure::UnknownParent(parent_id));
            }
            p = p + 1;
        }
        e = e + 1;
    }
    status
}

/// The owned rights of the node with the given id, where it stands in
/// the consignment.
fn find_owned_rights<'a>(c: &'a Consignment, id: &NodeId) -> (r: Option<&'a OwnedRights>)
    requires
        c.wf(),
    ensures
        r matches Some(or) ==> or.wf() && ((id.0@ == c.genesis.spec_node_id() && *or
            == c.genesis.owned_rights) || (exists|i: int|
            0 <= i < c.transitions@.len() && id.0@ == (
            #[trigger] c.transitions@[i]).spec_node_id() && *or == c.transitions@[i].owned_rights)
            || (exists|i: int|
            0 <= i < c.extensions@.len() && id.0@ == (
            #[trigger] c.extensions@[i]).spec_node_id() && *or == c.extensions@[i].owned_rights)),
{
    let gid = c.genesis.node_id();
    if bytes32_eq(&gid.0, &id.0) {
        proof {
            assert(id.0@ == c.genesis.spec_node_id());
        }
        return Some(&c.genesis.owned_rights);
    }
    let n = c.transitions.len();
    let mut i: usize = 0;
    while i < n
        invariant
            i <= n,
            n == c.transitions@.len(),
            c.wf(),
        decreases n - i,
    {
        let tid = c.transitions[i].node_id();
        if bytes32_eq(&tid.0, &id.0) {
            proof {
                assert(id.0@ == c.transitions@[i as int].spec_node_id());
            }
            return Some(&c.transitions[i].owned_rights);
        }
        i = i + 1;
    }
    let m = c.extensions.len();
    let mut j: usize = 0;
    while j < m
        invariant
            j <= m,
            m == c.extensions@.len(),
            c.wf(),
        decreases m - j,
    {
        let eid = c.extensions[j].node_id();
        if bytes32_eq(&eid.0, &id.0) {
            proof {
                assert(id.0@ == c.extensions@[j as int].spec_node_id());
            }
            return Some(&c.extensions[j].owned_rights);
        }
        j = j + 1;
    }
    None
}

/// Checks the outputs this node closes in one parent: every referenced
/// index must exist in the parent, and every revealed seal among them
/// must live on the witness's own chain.
fn check_closed_seal_layers(
    closing_node: &NodeId,
    parent_id: &NodeId,
    parent_rights: &OwnedRights,
    closed: &Vec<(OwnedRightType, Vec<u16>)>,
    witness_id: &WitnessId,
) -> (r: Status)
    requires
        parent_rights.wf(),
    ensures
        r.warnings@.len() == 0,
        r.infos@.len() == 0,
        closed_ok(*parent_rights, closed@, witness_layer_of(*witness_id)) ==> r.failures@.len()
            == 0,
{
    let mut status = Status::new();
    let witness_layer = match witness_id {
        WitnessId::Bitcoin(_) => Layer1::Bitcoin,
        WitnessId::Liquid(_) => Layer1::Liquid,
    };
    proof {
        assert(witness_layer == witness_layer_of(*witness_id));
    }
    let ghost wlayer = witness_layer_of(*witness_id);
    let n = closed.len();
    let mut i: usize = 0;
    while i < n
        invariant
            i <= n,
            n == closed@.len(),
            parent_rights.wf(),
            witness_layer == wlayer,
            wlayer == witness_layer_of(*witness_id),
            status.warnings@.len() == 0,
            status.infos@.len() == 0,
            closed_ok(*parent_rights, closed@, wlayer) ==> status.failures@.len() == 0,
        decreases n - i,
    {
        let ty = closed[i].0;
        let limit = count_owned_under(parent_rights, ty);
        let nos = &closed[i].1;
        let nn = nos.len();
        let mut l: usize = 0;
        while l < nn
            invariant
                i < n,
                l <= nn,
                n == closed@.len(),
                nn == nos@.len(),
                nos == closed@[i as int].1,
                ty == closed@[i as int].0,
                parent_rights.wf(),
                limit == count_assignments_under(parent_rights.entries@, ty),
                status.warnings@.len() == 0,
                status.infos@.len() == 0,
                closed_ok(*parent_rights, closed@, wlayer) ==> status.failures@.len() == 0,
            decreases nn - l,
        {
            let no = nos[l];
            if no as usize >= limit {
                proof {
                    if closed_ok(*parent_rights, closed@, wlayer) {
                        assert((closed@[i as int].1@[l as int] as nat) < count_assignments_under(
                            parent_rights.entries@,
                            closed@[i as int].0,
                        ));
                    }
                }
                status.add_failure(
                    Failure::ParentOutputOutOfRange(
                        NodeOutpoint { node_id: *parent_id, ty, no },
                    ),
                );
            }
            l = l + 1;
        }
        match parent_rights.by_type(ty) {
            Some(ta) => {
                let seals = ta.filter_revealed_seals();
                let m = seals.len();
                let mut j: usize = 0;
                while j < m
                    invariant
                        i < n,
                        j <= m,
                        n == closed@.len(),
                        m == seals@.len(),
                        ty == closed@[i as int].0,
                        witness_layer == wlayer,
                        seals@ == ta.spec_filter_revealed_seals(),
                        exists|x: int|
                            0 <= x < parent_rights.entries@.len() && (
                            #[trigger] parent_rights.entries@[x]).0 == ty
                                && parent_rights.entries@[x].1 == *ta,
                        status.warnings@.len() == 0,
                        status.infos@.len() == 0,
                        closed_ok(*parent_rights, closed@, wlayer) ==> status.failures@.len()
                            == 0,
                    decreases m - j,
                {
                    let layer = seals[j].layer1();
                    let mismatch = match (layer, witness_layer) {
                        (Layer1::Bitcoin, Layer1::Bitcoin) => false,
                        (Layer1::Liquid, Layer1::Liquid) => false,
                        _ => true,
                    };
                    if mismatch {
                        proof {
                            if closed_ok(*parent_rights, closed@, wlayer) {
                                let x = choose|x: int|
                                    0 <= x < parent_rights.entries@.len() && (
                                    #[trigger] parent_rights.entries@[x]).0 == ty
                                        && parent_rights.entries@[x].1 == *ta;
                                assert(seal_layers_ok(parent_rights.entries@[x].1, wlayer));
                                assert(ta.spec_filter_revealed_seals()[j as int].spec_layer1()
                                    == wlayer);
                            }
                        }
                        status.add_failure(Failure::SealLayerMismatch(*closing_node, ty));
                    }
                    j = j + 1;
                }
            },
            None => {},
        }
        i = i + 1;
    }
    status
}

} // verus!
