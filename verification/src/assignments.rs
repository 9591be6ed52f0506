//! Assignments: the binding of one single-use seal to one state value,
//! in the four reveal/conceal combinations, and the typed collections of
//! assignments an operation carries.

use vstd::prelude::*;

use crate::commit::{spec_tagged_hash, tagged_hash, TAG_ASSIGNMENT};
use crate::encoding::{enc_u8, write_u8};
use crate::ids::{SecretSeal, bytes32_eq};
use crate::seal::{GraphSeal, XSeal, ExposedSeal, secret_of, seq_to_arr32, lemma_seq_to_arr32};
use crate::state::{StateType, DeclarativeStrategy, PedersenStrategy, HashStrategy,
    AttachmentStrategy};

verus! {

broadcast use vstd::array::group_array_axioms;

/// A revealed seal is required but only its secret form is available.
#[derive(Clone, Copy, PartialEq, Eq, Structural, Debug)]
pub struct ConfidentialDataError;

/// One assignment: a seal and a state value, each either revealed or
/// concealed.
pub enum Assignment<S: StateType> {
    /// Both concealed.
    Confidential { seal: SecretSeal, state: S::Confidential },
    /// Seal revealed, state concealed.
    ConfidentialState { seal: XSeal<GraphSeal>, state: S::Confidential },
    /// Seal concealed, state revealed.
    ConfidentialSeal { seal: SecretSeal, state: S::Revealed },
    /// Both revealed.
    Revealed { seal: XSeal<GraphSeal>, state: S::Revealed },
}

/// The secret seal standing for a revealed seal.
pub open spec fn spec_seal_conceal(seal: XSeal<GraphSeal>) -> SecretSeal {
    SecretSeal(seq_to_arr32(secret_of(seal)))
}

impl<S: StateType> Assignment<S> {
    /// Whether the state value this assignment carries is well formed.
    pub open spec fn wf(self) -> bool {
        match self {
            Assignment::Confidential { state, .. } => S::conf_wf(&state),
            Assignment::ConfidentialState { state, .. } => S::conf_wf(&state),
            Assignment::ConfidentialSeal { state, .. } => S::rev_wf(&state),
            Assignment::Revealed { state, .. } => S::rev_wf(&state),
        }
    }

    /// The concealed form of this assignment's seal.
    pub open spec fn spec_to_confidential_seal(self) -> SecretSeal {
        match self {
            Assignment::Confidential { seal, .. } => seal,
            Assignment::ConfidentialSeal { seal, .. } => seal,
            Assignment::ConfidentialState { seal, .. } => spec_seal_conceal(seal),
            Assignment::Revealed { seal, .. } => spec_seal_conceal(seal),
        }
    }

    /// The revealed seal, where this assignment still holds one.
    pub open spec fn spec_revealed_seal(self) -> Option<XSeal<GraphSeal>> {
        match self {
            Assignment::ConfidentialState { seal, .. } => Some(seal),
            Assignment::Revealed { seal, .. } => Some(seal),
            _ => None,
        }
    }

    /// Whether `conceal_state_except(except)` transforms this assignment:
    /// it holds revealed state and its seal is not in the exception list.
    pub open spec fn state_concealable(self, except: Seq<SecretSeal>) -> bool {
        match self {
            Assignment::Revealed { .. } => !except.contains(self.spec_to_confidential_seal()),
            Assignment::ConfidentialSeal { .. } => !except.contains(
                self.spec_to_confidential_seal(),
            ),
            _ => false,
        }
    }

    /// This assignment with its state concealed, unless its seal stands
    /// in the exception list.
    pub open spec fn spec_conceal_state_except(self, except: Seq<SecretSeal>) -> Self {
        if self.state_concealable(except) {
            match self {
                Assignment::Revealed { seal, state } => Assignment::ConfidentialState {
                    seal,
                    state: S::spec_conceal(&state),
                },
                Assignment::ConfidentialSeal { seal, state } => Assignment::Confidential {
                    seal,
                    state: S::spec_conceal(&state),
                },
                _ => self,
            }
        } else {
            self
        }
    }

    /// Whether `conceal_seals(seals)` transforms this assignment: it
    /// holds a revealed seal whose secret form is in the list.
    pub open spec fn seal_concealable(self, seals: Seq<SecretSeal>) -> bool {
        match self {
            Assignment::Revealed { .. } => seals.contains(self.spec_to_confidential_seal()),
            Assignment::ConfidentialState { .. } => seals.contains(
                self.spec_to_confidential_seal(),
            ),
            _ => false,
        }
    }

    /// This assignment with its seal concealed where the seal's secret
    /// form stands in the list.
    pub open spec fn spec_conceal_seals(self, seals: Seq<SecretSeal>) -> Self {
        if self.seal_concealable(seals) {
            match self {
                Assignment::Revealed { seal, state } => Assignment::ConfidentialSeal {
                    seal: spec_seal_conceal(seal),
                    state,
                },
                Assignment::ConfidentialState { seal, state } => Assignment::Confidential {
                    seal: spec_seal_conceal(seal),
                    state,
                },
                _ => self,
            }
        } else {
            self
        }
    }

    /// The fully concealed form: both seal and state concealed.
    pub open spec fn spec_conceal(self) -> Self {
        match self {
            Assignment::Confidential { .. } => self,
            Assignment::ConfidentialState { seal, state } => Assignment::Confidential {
                seal: spec_seal_conceal(seal),
                state,
            },
            Assignment::ConfidentialSeal { seal, state } => Assignment::Confidential {
                seal,
                state: S::spec_conceal(&state),
            },
            Assignment::Revealed { seal, state } => Assignment::Confidential {
                seal: spec_seal_conceal(seal),
                state: S::spec_conceal(&state),
            },
        }
    }

    /// The strict encoding of this assignment: a variant tag, the seal,
    /// then the state.
    pub open spec fn spec_enc(self) -> Seq<u8> {
        match self {
            Assignment::Confidential { seal, state } => enc_u8(0) + seal.0@ + S::enc_conf(&state),
            Assignment::ConfidentialState { seal, state } => enc_u8(1) + seal.spec_enc()
                + S::enc_conf(&state),
            Assignment::ConfidentialSeal { seal, state } => enc_u8(2) + seal.0@ + S::enc_rev(
                &state,
            ),
            Assignment::Revealed { seal, state } => enc_u8(3) + seal.spec_enc() + S::enc_rev(
                &state,
            ),
        }
    }

    /// What this assignment commits to: the tagged hash of the strict
    /// encoding of its fully concealed form (the conceal-strict
    /// strategy).
    pub open spec fn spec_commit(self) -> Seq<u8> {
        spec_tagged_hash(TAG_ASSIGNMENT@, self.spec_conceal().spec_enc())
    }

    /// The concealed form of this assignment's seal.
    pub fn to_confidential_seal(&self) -> (r: SecretSeal)
        ensures
            r == self.spec_to_confidential_seal(),
    {
        match self {
            Assignment::Confidential { seal, .. } => *seal,
            Assignment::ConfidentialSeal { seal, .. } => *seal,
            Assignment::ConfidentialState { seal, .. } => {
                let c = seal.conceal();
                proof {
                    lemma_seq_to_arr32(c.0);
                }
                c
            },
            Assignment::Revealed { seal, .. } => {
                let c = seal.conceal();
                proof {
                    lemma_seq_to_arr32(c.0);
                }
                c
            },
        }
    }

    /// The revealed seal, where this assignment still holds one.
    pub fn revealed_seal(&self) -> (r: Option<XSeal<GraphSeal>>)
        ensures
            r == self.spec_revealed_seal(),
    {
        match self {
            Assignment::ConfidentialState { seal, .. } => Some(*seal),
            Assignment::Revealed { seal, .. } => Some(*seal),
            _ => None,
        }
    }

    /// Conceals this assignment's state unless its seal stands in the
    /// exception list; the flag reports whether anything changed.
    pub fn conceal_state_except(self, except: &Vec<SecretSeal>) -> (r: (Self, bool))
        requires
            self.wf(),
        ensures
            r.0 == self.spec_conceal_state_except(except@),
            r.1 == self.state_concealable(except@),
            r.0.wf(),
    {
        match self {
            Assignment::Revealed { seal, state } => {
                let secret = {
                    let c = seal.conceal();
                    proof {
                        lemma_seq_to_arr32(c.0);
                    }
                    c
                };
                if contains_seal(except, &secret) {
                    (Assignment::Revealed { seal, state }, false)
                } else {
                    let conf = S::conceal(&state);
                    proof {
                        S::lemma_conceal_wf(&state);
                    }
                    (Assignment::ConfidentialState { seal, state: conf }, true)
                }
            },
            Assignment::ConfidentialSeal { seal, state } => {
                if contains_seal(except, &seal) {
                    (Assignment::ConfidentialSeal { seal, state }, false)
                } else {
                    let conf = S::conceal(&state);
                    proof {
                        S::lemma_conceal_wf(&state);
                    }
                    (Assignment::Confidential { seal, state: conf }, true)
                }
            },
            other => (other, false),
        }
    }

    /// Conceals this assignment's seal where its secret form stands in
    /// the list; the flag reports whether anything changed.
    pub fn conceal_seals(self, seals: &Vec<SecretSeal>) -> (r: (Self, bool))
        requires
            self.wf(),
        ensures
            r.0 == self.spec_conceal_seals(seals@),
            r.1 == self.seal_concealable(seals@),
            r.0.wf(),
    {
        match self {
            Assignment::Revealed { seal, state } => {
                let secret = {
                    let c = seal.conceal();
                    proof {
                        lemma_seq_to_arr32(c.0);
                    }
                    c
                };
                if contains_seal(seals, &secret) {
                    (Assignment::ConfidentialSeal { seal: secret, state }, true)
                } else {
                    (Assignment::Revealed { seal, state }, false)
                }
            },
            Assignment::ConfidentialState { seal, state } => {
                let secret = {
                    let c = seal.conceal();
                    proof {
                        lemma_seq_to_arr32(c.0);
                    }
                    c
                };
                if contains_seal(seals, &secret) {
                    (Assignment::Confidential { seal: secret, state }, true)
                } else {
                    (Assignment::ConfidentialState { seal, state }, false)
                }
            },
            other => (other, false),
        }
    }

    /// Appends the strict encoding of the fully concealed form of this
    /// assignment to `out`.
    pub fn write_enc_concealed(&self, out: &mut Vec<u8>)
        requires
            self.wf(),
        ensures
            final(out)@ == old(out)@ + self.spec_conceal().spec_enc(),
    {
        write_u8(out, 0);
        match self {
            Assignment::Confidential { seal, state } => {
                out.extend_from_slice(seal.0.as_slice());
                S::write_conf(state, out);
                assert(out@ =~= old(out)@ + self.spec_conceal().spec_enc());
            },
            Assignment::ConfidentialState { seal, state } => {
                let secret = seal.conceal();
                proof {
                    lemma_seq_to_arr32(secret.0);
                }
                out.extend_from_slice(secret.0.as_slice());
                S::write_conf(state, out);
                assert(out@ =~= old(out)@ + self.spec_conceal().spec_enc());
            },
            Assignment::ConfidentialSeal { seal, state } => {
                out.extend_from_slice(seal.0.as_slice());
                let conf = S::conceal(state);
                proof {
                    S::lemma_conceal_wf(state);
                }
                S::write_conf(&conf, out);
                assert(out@ =~= old(out)@ + self.spec_conceal().spec_enc());
            },
            Assignment::Revealed { seal, state } => {
                let secret = seal.conceal();
                proof {
                    lemma_seq_to_arr32(secret.0);
                }
                out.extend_from_slice(secret.0.as_slice());
                let conf = S::conceal(state);
                proof {
                    S::lemma_conceal_wf(state);
                }
                S::write_conf(&conf, out);
                assert(out@ =~= old(out)@ + self.spec_conceal().spec_enc());
            },
        }
    }

    /// The commitment of this assignment: the tagged hash of the strict
    /// encoding of its fully concealed form.
    pub fn commit(&self) -> (r: [u8; 32])
        requires
            self.wf(),
        ensures
            r@ == self.spec_commit(),
    {
        let mut encoded: Vec<u8> = Vec::new();
        self.write_enc_concealed(&mut encoded);
        tagged_hash(&TAG_ASSIGNMENT, &encoded)
    }
}

/// Law: an assignment commits identically in every conceal state.
/// Concealing its state, its seals (under any exception or selection
/// list), or all of it never changes what it commits to.
pub proof fn lemma_commit_conceal_invariant<S: StateType>(
    a: Assignment<S>,
    except: Seq<SecretSeal>,
    seals: Seq<SecretSeal>,
)
    ensures
        a.spec_conceal_state_except(except).spec_commit() == a.spec_commit(),
        a.spec_conceal_seals(seals).spec_commit() == a.spec_commit(),
        a.spec_conceal().spec_commit() == a.spec_commit(),
{
    assert(a.spec_conceal_state_except(except).spec_conceal() == a.spec_conceal());
    assert(a.spec_conceal_seals(seals).spec_conceal() == a.spec_conceal());
    assert(a.spec_conceal().spec_conceal() == a.spec_conceal());
}

/// Law: concealing state (under any exception list) is idempotent: a
/// second identical rewrite changes nothing.
pub proof fn lemma_conceal_state_idempotent<S: StateType>(
    a: Assignment<S>,
    except: Seq<SecretSeal>,
)
    ensures
        a.spec_conceal_state_except(except).spec_conceal_state_except(except)
            == a.spec_conceal_state_except(except),
{
}

/// Law: concealing the listed seals is idempotent: a second identical
/// rewrite changes nothing.
pub proof fn lemma_conceal_seals_idempotent<S: StateType>(a: Assignment<S>, seals: Seq<SecretSeal>)
    ensures
        a.spec_conceal_seals(seals).spec_conceal_seals(seals) == a.spec_conceal_seals(seals),
{
}

/// Whether `s` stands in the list of secret seals.
pub fn contains_seal(seals: &Vec<SecretSeal>, s: &SecretSeal) -> (r: bool)
    ensures
        r == seals@.contains(*s),
{
    let n = seals.len();
    let mut i: usize = 0;
    while i < n
        invariant
            i <= n,
            n == seals@.len(),
            forall|j: int| 0 <= j < i ==> seals@[j] != *s,
        decreases n - i,
    {
        if bytes32_eq(&seals[i].0, &s.0) {
            proof {
                assert(seals@[i as int].0@ =~= s.0@);
                assert(seals@[i as int].0 == s.0);
                assert(seals@[i as int] == *s);
            }
            return true;
        }
        proof {
            if seals@[i as int] == *s {
                assert(seals@[i as int].0@ =~= s.0@);
            }
        }
        i = i + 1;
    }
    false
}

// ---------------------------------------------------------------- assignment vectors

/// The strict encoding of an assignment vector in fully concealed form:
/// the encodings of the concealed elements, in order.
pub open spec fn enc_assignments_concealed<S: StateType>(v: Seq<Assignment<S>>) -> Seq<u8>
    decreases v.len(),
{
    if v.len() == 0 {
        Seq::empty()
    } else {
        enc_assignments_concealed(v.drop_last()) + v.last().spec_conceal().spec_enc()
    }
}

/// Whether every assignment of the vector is well formed.
pub open spec fn assignments_wf<S: StateType>(v: Seq<Assignment<S>>) -> bool {
    forall|i: int| 0 <= i < v.len() ==> (#[trigger] v[i]).wf()
}

/// Appends the count byte and the concealed encodings of `v` to `out`.
fn write_assignments_concealed<S: StateType>(v: &Vec<Assignment<S>>, out: &mut Vec<u8>)
    requires
        assignments_wf(v@),
        v@.len() <= 255,
    ensures
        final(out)@ == old(out)@ + enc_u8(v@.len() as u8) + enc_assignments_concealed(v@),
{
    let n = v.len();
    write_u8(out, n as u8);
    let mut i: usize = 0;
    while i < n
        invariant
            i <= n,
            n == v@.len(),
            assignments_wf(v@),
            out@ == old(out)@ + enc_u8(n as u8) + enc_assignments_concealed(v@.take(i as int)),
        decreases n - i,
    {
        let a = &v[i];
        a.write_enc_concealed(out);
        proof {
            assert(v@.take(i + 1).drop_last() =~= v@.take(i as int));
            assert(v@.take(i + 1).last() == v@[i as int]);
        }
        i = i + 1;
    }
    proof {
        assert(v@.take(n as int) =~= v@);
    }
}

/// How many assignments of `v` a `conceal_state_except(except)` call
/// transforms.
pub open spec fn count_state_concealable<S: StateType>(
    v: Seq<Assignment<S>>,
    except: Seq<SecretSeal>,
) -> nat
    decreases v.len(),
{
    if v.len() == 0 {
        0
    } else {
        count_state_concealable(v.drop_last(), except) + if v.last().state_concealable(except) {
            1nat
        } else {
            0nat
        }
    }
}

/// How many assignments of `v` a `conceal_seals(seals)` call transforms.
pub open spec fn count_seal_concealable<S: StateType>(
    v: Seq<Assignment<S>>,
    seals: Seq<SecretSeal>,
) -> nat
    decreases v.len(),
{
    if v.len() == 0 {
        0
    } else {
        count_seal_concealable(v.drop_last(), seals) + if v.last().seal_concealable(seals) {
            1nat
        } else {
            0nat
        }
    }
}

/// The number of transformable assignments never exceeds the vector's
/// length.
pub proof fn lemma_count_state_bound<S: StateType>(v: Seq<Assignment<S>>, except: Seq<SecretSeal>)
    ensures
        count_state_concealable(v, except) <= v.len(),
    decreases v.len(),
{
    if v.len() > 0 {
        lemma_count_state_bound(v.drop_last(), except);
    }
}

pub proof fn lemma_count_seal_bound<S: StateType>(v: Seq<Assignment<S>>, seals: Seq<SecretSeal>)
    ensures
        count_seal_concealable(v, seals) <= v.len(),
    decreases v.len(),
{
    if v.len() > 0 {
        lemma_count_seal_bound(v.drop_last(), seals);
    }
}

/// Conceals the state of every assignment whose seal is not in the
/// exception list; returns how many assignments changed.
fn conceal_state_except_vec<S: StateType>(
    v: &mut Vec<Assignment<S>>,
    except: &Vec<SecretSeal>,
) -> (count: usize)
    requires
        assignments_wf(old(v)@),
    ensures
        final(v)@.len() == old(v)@.len(),
        forall|i: int| 0 <= i < old(v)@.len() ==> final(v)@[i] == (#[trigger] old(
            v,
        )@[i]).spec_conceal_state_except(except@),
        assignments_wf(final(v)@),
        count == count_state_concealable(old(v)@, except@),
{
    let n = v.len();
    let mut count: usize = 0;
    let mut i: usize = 0;
    while i < n
        invariant
            i <= n,
            n == v@.len(),
            n == old(v)@.len(),
            forall|j: int| 0 <= j < i ==> v@[j] == (#[trigger] old(
                v,
            )@[j]).spec_conceal_state_except(except@),
            forall|j: int| i <= j < n ==> v@[j] == old(v)@[j],
            assignments_wf(v@),
            count == count_state_concealable(old(v)@.take(i as int), except@),
            count <= i,
        decreases n - i,
    {
        let a = v.remove(i);
        let (b, changed) = a.conceal_state_except(except);
        v.insert(i, b);
        if changed {
            count = count + 1;
        }
        proof {
            assert(old(v)@.take(i + 1).drop_last() =~= old(v)@.take(i as int));
            assert(old(v)@.take(i + 1).last() == old(v)@[i as int]);
        }
        i = i + 1;
    }
    proof {
        assert(old(v)@.take(n as int) =~= old(v)@);
    }
    count
}

/// Conceals every revealed seal whose secret form is in the list;
/// returns how many assignments changed.
fn conceal_seals_vec<S: StateType>(v: &mut Vec<Assignment<S>>, seals: &Vec<SecretSeal>) -> (count:
    usize)
    requires
        assignments_wf(old(v)@),
    ensures
        final(v)@.len() == old(v)@.len(),
        forall|i: int| 0 <= i < old(v)@.len() ==> final(v)@[i] == (#[trigger] old(
            v,
        )@[i]).spec_conceal_seals(seals@),
        assignments_wf(final(v)@),
        count == count_seal_concealable(old(v)@, seals@),
{
    let n = v.len();
    let mut count: usize = 0;
    let mut i: usize = 0;
    while i < n
        invariant
            i <= n,
            n == v@.len(),
            n == old(v)@.len(),
            forall|j: int| 0 <= j < i ==> v@[j] == (#[trigger] old(v)@[j]).spec_conceal_seals(
                seals@,
            ),
            forall|j: int| i <= j < n ==> v@[j] == old(v)@[j],
            assignments_wf(v@),
            count == count_seal_concealable(old(v)@.take(i as int), seals@),
            count <= i,
        decreases n - i,
    {
        let a = v.remove(i);
        let (b, changed) = a.conceal_seals(seals);
        v.insert(i, b);
        if changed {
            count = count + 1;
        }
        proof {
            assert(old(v)@.take(i + 1).drop_last() =~= old(v)@.take(i as int));
            assert(old(v)@.take(i + 1).last() == old(v)@[i as int]);
        }
        i = i + 1;
    }
    proof {
        assert(old(v)@.take(n as int) =~= old(v)@);
    }
    count
}

/// The confidential seals of all assignments, in order.
fn confidential_seals_vec<S: StateType>(v: &Vec<Assignment<S>>) -> (r: Vec<SecretSeal>)
    ensures
        r@ == v@.map_values(|a: Assignment<S>| a.spec_to_confidential_seal()),
{
    let n = v.len();
    let mut r: Vec<SecretSeal> = Vec::new();
    let mut i: usize = 0;
    while i < n
        invariant
            i <= n,
            n == v@.len(),
            r@ == v@.take(i as int).map_values(|a: Assignment<S>| a.spec_to_confidential_seal()),
        decreases n - i,
    {
        r.push(v[i].to_confidential_seal());
        proof {
            assert(v@.take(i + 1).map_values(|a: Assignment<S>| a.spec_to_confidential_seal())
                =~= v@.take(i as int).map_values(
                |a: Assignment<S>| a.spec_to_confidential_seal(),
            ).push(v@[i as int].spec_to_confidential_seal()));
        }
        i = i + 1;
    }
    proof {
        assert(v@.take(n as int) =~= v@);
    }
    r
}

/// Whether every assignment of the vector still holds a revealed seal.
pub open spec fn all_seals_revealed<S: StateType>(v: Seq<Assignment<S>>) -> bool {
    forall|i: int| 0 <= i < v.len() ==> (#[trigger] v[i]).spec_revealed_seal() is Some
}

/// The revealed seals of the vector's assignments, skipping concealed
/// ones.
pub open spec fn revealed_seals_of<S: StateType>(v: Seq<Assignment<S>>) -> Seq<XSeal<GraphSeal>> {
    v.filter(|a: Assignment<S>| a.spec_revealed_seal() is Some).map_values(
        |a: Assignment<S>| a.spec_revealed_seal()->Some_0,
    )
}

/// The revealed seals of all assignments: fails with
/// [`ConfidentialDataError`] when any seal is concealed.
fn revealed_seals_vec<S: StateType>(v: &Vec<Assignment<S>>) -> (r: Result<
    Vec<XSeal<GraphSeal>>,
    ConfidentialDataError,
>)
    ensures
        match r {
            Ok(seals) => all_seals_revealed(v@) && seals@ == v@.map_values(
                |a: Assignment<S>| a.spec_revealed_seal()->Some_0,
            ),
            Err(_) => !all_seals_revealed(v@),
        },
{
    let n = v.len();
    let mut r: Vec<XSeal<GraphSeal>> = Vec::new();
    let mut i: usize = 0;
    while i < n
        invariant
            i <= n,
            n == v@.len(),
            forall|j: int| 0 <= j < i ==> (#[trigger] v@[j]).spec_revealed_seal() is Some,
            r@ == v@.take(i as int).map_values(
                |a: Assignment<S>| a.spec_revealed_seal()->Some_0,
            ),
        decreases n - i,
    {
        match v[i].revealed_seal() {
            Some(seal) => {
                r.push(seal);
            },
            None => {
                return Err(ConfidentialDataError);
            },
        }
        proof {
            assert(v@.take(i + 1).map_values(|a: Assignment<S>| a.spec_revealed_seal()->Some_0)
                =~= v@.take(i as int).map_values(
                |a: Assignment<S>| a.spec_revealed_seal()->Some_0,
            ).push(v@[i as int].spec_revealed_seal()->Some_0));
        }
        i = i + 1;
    }
    proof {
        assert(v@.take(n as int) =~= v@);
    }
    Ok(r)
}

/// The revealed seals of the vector's assignments, dropping concealed
/// ones.
fn filter_revealed_seals_vec<S: StateType>(v: &Vec<Assignment<S>>) -> (r: Vec<XSeal<GraphSeal>>)
    ensures
        r@ == revealed_seals_of(v@),
{
    let n = v.len();
    let mut r: Vec<XSeal<GraphSeal>> = Vec::new();
    let mut i: usize = 0;
    proof {
        assert(v@.take(0).filter(|a: Assignment<S>| a.spec_revealed_seal() is Some) =~= Seq::<
            Assignment<S>,
        >::empty());
    }
    while i < n
        invariant
            i <= n,
            n == v@.len(),
            r@ == revealed_seals_of(v@.take(i as int)),
        decreases n - i,
    {
        proof {
            broadcast use vstd::seq_lib::group_seq_properties;

            assert(v@.take(i + 1).drop_last() =~= v@.take(i as int));
        }
        match v[i].revealed_seal() {
            Some(seal) => {
                r.push(seal);
            },
            None => {},
        }
        proof {
            let f = |a: Assignment<S>| a.spec_revealed_seal() is Some;
            let g = |a: Assignment<S>| a.spec_revealed_seal()->Some_0;
            reveal(Seq::filter);
            assert(v@.take(i + 1).last() == v@[i as int]);
            if f(v@[i as int]) {
                assert(v@.take(i + 1).filter(f) =~= v@.take(i as int).filter(f).push(
                    v@[i as int],
                ));
                assert(v@.take(i + 1).filter(f).map_values(g) =~= v@.take(i as int).filter(
                    f,
                ).map_values(g).push(g(v@[i as int])));
            } else {
                assert(v@.take(i + 1).filter(f) =~= v@.take(i as int).filter(f));
            }
        }
        i = i + 1;
    }
    proof {
        assert(v@.take(n as int) =~= v@);
    }
    r
}

/// The revealed seals of a vector paired with their assignment indices,
/// in order, skipping concealed ones.
pub open spec fn revealed_outputs<S: StateType>(v: Seq<Assignment<S>>) -> Seq<
    (XSeal<GraphSeal>, u16),
>
    decreases v.len(),
{
    if v.len() == 0 {
        Seq::empty()
    } else {
        revealed_outputs(v.drop_last()) + match v.last().spec_revealed_seal() {
            Some(s) => seq![(s, (v.len() - 1) as u16)],
            None => Seq::empty(),
        }
    }
}

/// The revealed seals of the vector paired with their assignment
/// indices, dropping concealed ones.
fn revealed_seal_outputs_vec<S: StateType>(v: &Vec<Assignment<S>>) -> (r: Vec<
    (XSeal<GraphSeal>, u16),
>)
    requires
        v@.len() <= 255,
    ensures
        r@ == revealed_outputs(v@),
{
    let n = v.len();
    let mut r: Vec<(XSeal<GraphSeal>, u16)> = Vec::new();
    let mut i: usize = 0;
    while i < n
        invariant
            i <= n,
            n == v@.len(),
            n <= 255,
            r@ == revealed_outputs(v@.take(i as int)),
        decreases n - i,
    {
        proof {
            assert(v@.take(i + 1).drop_last() =~= v@.take(i as int));
            assert(v@.take(i + 1).last() == v@[i as int]);
        }
        match v[i].revealed_seal() {
            Some(seal) => {
                r.push((seal, i as u16));
                proof {
                    assert(r@ =~= revealed_outputs(v@.take(i as int)) + seq![
                        (seal, i as u16),
                    ]);
                }
            },
            None => {},
        }
        i = i + 1;
    }
    proof {
        assert(v@.take(n as int) =~= v@);
    }
    r
}

// ---------------------------------------------------------------- typed assignments

/// A typed collection of assignments: all entries of one instance share
/// one state strategy.
pub enum TypedAssignments {
    Declarative(Vec<Assignment<DeclarativeStrategy>>),
    Arithmetic(Vec<Assignment<PedersenStrategy>>),
    Structured(Vec<Assignment<HashStrategy>>),
    Attachment(Vec<Assignment<AttachmentStrategy>>),
}

impl TypedAssignments {
    /// How many assignments this collection holds.
    pub open spec fn spec_len(self) -> nat {
        match self {
            TypedAssignments::Declarative(v) => v@.len(),
            TypedAssignments::Arithmetic(v) => v@.len(),
            TypedAssignments::Structured(v) => v@.len(),
            TypedAssignments::Attachment(v) => v@.len(),
        }
    }

    /// Whether the collection is within the container bound and all its
    /// assignments are well formed.
    pub open spec fn wf(self) -> bool {
        self.spec_len() <= 255 && match self {
            TypedAssignments::Declarative(v) => assignments_wf(v@),
            TypedAssignments::Arithmetic(v) => assignments_wf(v@),
            TypedAssignments::Structured(v) => assignments_wf(v@),
            TypedAssignments::Attachment(v) => assignments_wf(v@),
        }
    }

    /// How many assignments this collection holds.
    pub fn len(&self) -> (n: usize)
        ensures
            n == self.spec_len(),
    {
        match self {
            TypedAssignments::Declarative(v) => v.len(),
            TypedAssignments::Arithmetic(v) => v.len(),
            TypedAssignments::Structured(v) => v.len(),
            TypedAssignments::Attachment(v) => v.len(),
        }
    }

    /// Whether the collection holds no assignment.
    pub fn is_empty(&self) -> (r: bool)
        ensures
            r == (self.spec_len() == 0),
    {
        self.len() == 0
    }

    /// The strict encoding of this collection in fully concealed form: a
    /// strategy tag, a count byte, then the concealed assignments.
    pub open spec fn spec_enc_concealed(self) -> Seq<u8> {
        match self {
            TypedAssignments::Declarative(v) => enc_u8(0) + enc_u8(v@.len() as u8)
                + enc_assignments_concealed(v@),
            TypedAssignments::Arithmetic(v) => enc_u8(1) + enc_u8(v@.len() as u8)
                + enc_assignments_concealed(v@),
            TypedAssignments::Structured(v) => enc_u8(2) + enc_u8(v@.len() as u8)
                + enc_assignments_concealed(v@),
            TypedAssignments::Attachment(v) => enc_u8(3) + enc_u8(v@.len() as u8)
                + enc_assignments_concealed(v@),
        }
    }

    /// Appends the concealed strict encoding of this collection to `out`.
    pub fn write_enc_concealed(&self, out: &mut Vec<u8>)
        requires
            self.wf(),
        ensures
            final(out)@ == old(out)@ + self.spec_enc_concealed(),
    {
        match self {
            TypedAssignments::Declarative(v) => {
                write_u8(out, 0);
                write_assignments_concealed(v, out);
                assert(out@ =~= old(out)@ + self.spec_enc_concealed());
            },
            TypedAssignments::Arithmetic(v) => {
                write_u8(out, 1);
                write_assignments_concealed(v, out);
                assert(out@ =~= old(out)@ + self.spec_enc_concealed());
            },
            TypedAssignments::Structured(v) => {
                write_u8(out, 2);
                write_assignments_concealed(v, out);
                assert(out@ =~= old(out)@ + self.spec_enc_concealed());
            },
            TypedAssignments::Attachment(v) => {
                write_u8(out, 3);
                write_assignments_concealed(v, out);
                assert(out@ =~= old(out)@ + self.spec_enc_concealed());
            },
        }
    }

    /// The confidential seals of all assignments, in order.
    pub open spec fn spec_confidential_seals(self) -> Seq<SecretSeal> {
        match self {
            TypedAssignments::Declarative(v) => v@.map_values(
                |a: Assignment<DeclarativeStrategy>| a.spec_to_confidential_seal(),
            ),
            TypedAssignments::Arithmetic(v) => v@.map_values(
                |a: Assignment<PedersenStrategy>| a.spec_to_confidential_seal(),
            ),
            TypedAssignments::Structured(v) => v@.map_values(
                |a: Assignment<HashStrategy>| a.spec_to_confidential_seal(),
            ),
            TypedAssignments::Attachment(v) => v@.map_values(
                |a: Assignment<AttachmentStrategy>| a.spec_to_confidential_seal(),
            ),
        }
    }

    /// The confidential seals of all assignments, in order.
    pub fn to_confidential_seals(&self) -> (r: Vec<SecretSeal>)
        ensures
            r@ == self.spec_confidential_seals(),
    {
        match self {
            TypedAssignments::Declarative(v) => confidential_seals_vec(v),
            TypedAssignments::Arithmetic(v) => confidential_seals_vec(v),
            TypedAssignments::Structured(v) => confidential_seals_vec(v),
            TypedAssignments::Attachment(v) => confidential_seals_vec(v),
        }
    }

    /// Whether every assignment still holds a revealed seal.
    pub open spec fn spec_all_seals_revealed(self) -> bool {
        match self {
            TypedAssignments::Declarative(v) => all_seals_revealed(v@),
            TypedAssignments::Arithmetic(v) => all_seals_revealed(v@),
            TypedAssignments::Structured(v) => all_seals_revealed(v@),
            TypedAssignments::Attachment(v) => all_seals_revealed(v@),
        }
    }

    /// The revealed seals of all assignments, in order.
    pub open spec fn spec_revealed_seals(self) -> Seq<XSeal<GraphSeal>> {
        match self {
            TypedAssignments::Declarative(v) => v@.map_values(
                |a: Assignment<DeclarativeStrategy>| a.spec_revealed_seal()->Some_0,
            ),
            TypedAssignments::Arithmetic(v) => v@.map_values(
                |a: Assignment<PedersenStrategy>| a.spec_revealed_seal()->Some_0,
            ),
            TypedAssignments::Structured(v) => v@.map_values(
                |a: Assignment<HashStrategy>| a.spec_revealed_seal()->Some_0,
            ),
            TypedAssignments::Attachment(v) => v@.map_values(
                |a: Assignment<AttachmentStrategy>| a.spec_revealed_seal()->Some_0,
            ),
        }
    }

    /// The revealed seals of the assignments, dropping concealed ones.
    pub open spec fn spec_filter_revealed_seals(self) -> Seq<XSeal<GraphSeal>> {
        match self {
            TypedAssignments::Declarative(v) => revealed_seals_of(v@),
            TypedAssignments::Arithmetic(v) => revealed_seals_of(v@),
            TypedAssignments::Structured(v) => revealed_seals_of(v@),
            TypedAssignments::Attachment(v) => revealed_seals_of(v@),
        }
    }

    /// The revealed seals of all assignments: fails when any seal is
    /// concealed.
    pub fn revealed_seals(&self) -> (r: Result<Vec<XSeal<GraphSeal>>, ConfidentialDataError>)
        ensures
            match r {
                Ok(seals) => self.spec_all_seals_revealed() && seals@
                    == self.spec_revealed_seals(),
                Err(_) => !self.spec_all_seals_revealed(),
            },
    {
        match self {
            TypedAssignments::Declarative(v) => revealed_seals_vec(v),
            TypedAssignments::Arithmetic(v) => revealed_seals_vec(v),
            TypedAssignments::Structured(v) => revealed_seals_vec(v),
            TypedAssignments::Attachment(v) => revealed_seals_vec(v),
        }
    }

    /// The revealed seals of the assignments, dropping concealed ones.
    pub fn filter_revealed_seals(&self) -> (r: Vec<XSeal<GraphSeal>>)
        ensures
            r@ == self.spec_filter_revealed_seals(),
    {
        match self {
            TypedAssignments::Declarative(v) => filter_revealed_seals_vec(v),
            TypedAssignments::Arithmetic(v) => filter_revealed_seals_vec(v),
            TypedAssignments::Structured(v) => filter_revealed_seals_vec(v),
            TypedAssignments::Attachment(v) => filter_revealed_seals_vec(v),
        }
    }

    /// The revealed seals paired with their assignment indices, in
    /// order, dropping concealed ones.
    pub open spec fn spec_revealed_seal_outputs(self) -> Seq<(XSeal<GraphSeal>, u16)> {
        match self {
            TypedAssignments::Declarative(v) => revealed_outputs(v@),
            TypedAssignments::Arithmetic(v) => revealed_outputs(v@),
            TypedAssignments::Structured(v) => revealed_outputs(v@),
            TypedAssignments::Attachment(v) => revealed_outputs(v@),
        }
    }

    /// The revealed seals paired with their assignment indices, dropping
    /// concealed ones.
    pub fn revealed_seal_outputs(&self) -> (r: Vec<(XSeal<GraphSeal>, u16)>)
        requires
            self.wf(),
        ensures
            r@ == self.spec_revealed_seal_outputs(),
    {
        match self {
            TypedAssignments::Declarative(v) => revealed_seal_outputs_vec(v),
            TypedAssignments::Arithmetic(v) => revealed_seal_outputs_vec(v),
            TypedAssignments::Structured(v) => revealed_seal_outputs_vec(v),
            TypedAssignments::Attachment(v) => revealed_seal_outputs_vec(v),
        }
    }

    /// How `conceal_state_except` rewrites a collection: same strategy,
    /// same length, each assignment's state concealed unless its seal is
    /// excepted.
    pub open spec fn conceal_state_rel(self, other: Self, except: Seq<SecretSeal>) -> bool {
        match (self, other) {
            (TypedAssignments::Declarative(a), TypedAssignments::Declarative(b)) => a@.len()
                == b@.len() && forall|i: int| 0 <= i < a@.len() ==> b@[i] == (#[trigger] a@[i]).spec_conceal_state_except(except),
            (TypedAssignments::Arithmetic(a), TypedAssignments::Arithmetic(b)) => a@.len()
                == b@.len() && forall|i: int| 0 <= i < a@.len() ==> b@[i] == (#[trigger] a@[i]).spec_conceal_state_except(except),
            (TypedAssignments::Structured(a), TypedAssignments::Structured(b)) => a@.len()
                == b@.len() && forall|i: int| 0 <= i < a@.len() ==> b@[i] == (#[trigger] a@[i]).spec_conceal_state_except(except),
            (TypedAssignments::Attachment(a), TypedAssignments::Attachment(b)) => a@.len()
                == b@.len() && forall|i: int| 0 <= i < a@.len() ==> b@[i] == (#[trigger] a@[i]).spec_conceal_state_except(except),
            _ => false,
        }
    }

    /// How `conceal_seals` rewrites a collection: same strategy, same
    /// length, each listed seal concealed.
    pub open spec fn conceal_seals_rel(self, other: Self, seals: Seq<SecretSeal>) -> bool {
        match (self, other) {
            (TypedAssignments::Declarative(a), TypedAssignments::Declarative(b)) => a@.len()
                == b@.len() && forall|i: int| 0 <= i < a@.len() ==> b@[i] == (#[trigger] a@[i]).spec_conceal_seals(seals),
            (TypedAssignments::Arithmetic(a), TypedAssignments::Arithmetic(b)) => a@.len()
                == b@.len() && forall|i: int| 0 <= i < a@.len() ==> b@[i] == (#[trigger] a@[i]).spec_conceal_seals(seals),
            (TypedAssignments::Structured(a), TypedAssignments::Structured(b)) => a@.len()
                == b@.len() && forall|i: int| 0 <= i < a@.len() ==> b@[i] == (#[trigger] a@[i]).spec_conceal_seals(seals),
            (TypedAssignments::Attachment(a), TypedAssignments::Attachment(b)) => a@.len()
                == b@.len() && forall|i: int| 0 <= i < a@.len() ==> b@[i] == (#[trigger] a@[i]).spec_conceal_seals(seals),
            _ => false,
        }
    }

    /// How many assignments `conceal_state_except(except)` transforms.
    pub open spec fn spec_count_state_concealable(self, except: Seq<SecretSeal>) -> nat {
        match self {
            TypedAssignments::Declarative(v) => count_state_concealable(v@, except),
            TypedAssignments::Arithmetic(v) => count_state_concealable(v@, except),
            TypedAssignments::Structured(v) => count_state_concealable(v@, except),
            TypedAssignments::Attachment(v) => count_state_concealable(v@, except),
        }
    }

    /// How many assignments `conceal_seals(seals)` transforms.
    pub open spec fn spec_count_seal_concealable(self, seals: Seq<SecretSeal>) -> nat {
        match self {
            TypedAssignments::Declarative(v) => count_seal_concealable(v@, seals),
            TypedAssignments::Arithmetic(v) => count_seal_concealable(v@, seals),
            TypedAssignments::Structured(v) => count_seal_concealable(v@, seals),
            TypedAssignments::Attachment(v) => count_seal_concealable(v@, seals),
        }
    }

    /// Conceals the state of every assignment whose seal is not in the
    /// exception list; returns how many assignments changed.
    pub fn conceal_state_except(&mut self, except: &Vec<SecretSeal>) -> (count: usize)
        requires
            old(self).wf(),
        ensures
            final(self).wf(),
            old(self).conceal_state_rel(*final(self), except@),
            count == old(self).spec_count_state_concealable(except@),
    {
        match self {
            TypedAssignments::Declarative(v) => conceal_state_except_vec(v, except),
            TypedAssignments::Arithmetic(v) => conceal_state_except_vec(v, except),
            TypedAssignments::Structured(v) => conceal_state_except_vec(v, except),
            TypedAssignments::Attachment(v) => conceal_state_except_vec(v, except),
        }
    }

    /// Conceals every revealed seal whose secret form is in the list;
    /// returns how many assignments changed.
    pub fn conceal_seals(&mut self, seals: &Vec<SecretSeal>) -> (count: usize)
        requires
            old(self).wf(),
        ensures
            final(self).wf(),
            old(self).conceal_seals_rel(*final(self), seals@),
            count == old(self).spec_count_seal_concealable(seals@),
    {
        match self {
            TypedAssignments::Declarative(v) => conceal_seals_vec(v, seals),
            TypedAssignments::Arithmetic(v) => conceal_seals_vec(v, seals),
            TypedAssignments::Structured(v) => conceal_seals_vec(v, seals),
            TypedAssignments::Attachment(v) => conceal_seals_vec(v, seals),
        }
    }
}

/// Whether two collections share the strategy and length and commit
/// identically, assignment by assignment.
pub open spec fn commits_equal(a: TypedAssignments, b: TypedAssignments) -> bool {
    match (a, b) {
        (TypedAssignments::Declarative(x), TypedAssignments::Declarative(y)) => x@.len()
            == y@.len() && forall|i: int| 0 <= i < x@.len() ==> (#[trigger] y@[i]).spec_commit()
            == x@[i].spec_commit(),
        (TypedAssignments::Arithmetic(x), TypedAssignments::Arithmetic(y)) => x@.len() == y@.len()
            && forall|i: int| 0 <= i < x@.len() ==> (#[trigger] y@[i]).spec_commit()
            == x@[i].spec_commit(),
        (TypedAssignments::Structured(x), TypedAssignments::Structured(y)) => x@.len() == y@.len()
            && forall|i: int| 0 <= i < x@.len() ==> (#[trigger] y@[i]).spec_commit()
            == x@[i].spec_commit(),
        (TypedAssignments::Attachment(x), TypedAssignments::Attachment(y)) => x@.len() == y@.len()
            && forall|i: int| 0 <= i < x@.len() ==> (#[trigger] y@[i]).spec_commit()
            == x@[i].spec_commit(),
        _ => false,
    }
}

/// Law: a `conceal_state_except` rewrite never changes what any
/// assignment of the collection commits to.
pub proof fn lemma_conceal_state_rel_preserves_commits(
    a: TypedAssignments,
    b: TypedAssignments,
    except: Seq<SecretSeal>,
)
    requires
        a.conceal_state_rel(b, except),
    ensures
        commits_equal(a, b),
{
    match (a, b) {
        (TypedAssignments::Declarative(x), TypedAssignments::Declarative(y)) => {
            assert forall|i: int| 0 <= i < x@.len() implies (#[trigger] y@[i]).spec_commit() == x@[i].spec_commit() by {
                lemma_commit_conceal_invariant(x@[i], except, except);
            }
        },
        (TypedAssignments::Arithmetic(x), TypedAssignments::Arithmetic(y)) => {
            assert forall|i: int| 0 <= i < x@.len() implies (#[trigger] y@[i]).spec_commit() == x@[i].spec_commit() by {
                lemma_commit_conceal_invariant(x@[i], except, except);
            }
        },
        (TypedAssignments::Structured(x), TypedAssignments::Structured(y)) => {
            assert forall|i: int| 0 <= i < x@.len() implies (#[trigger] y@[i]).spec_commit() == x@[i].spec_commit() by {
                lemma_commit_conceal_invariant(x@[i], except, except);
            }
        },
        (TypedAssignments::Attachment(x), TypedAssignments::Attachment(y)) => {
            assert forall|i: int| 0 <= i < x@.len() implies (#[trigger] y@[i]).spec_commit() == x@[i].spec_commit() by {
                lemma_commit_conceal_invariant(x@[i], except, except);
            }
        },
        _ => {},
    }
}

/// Law: a `conceal_seals` rewrite never changes what any assignment of
/// the collection commits to.
pub proof fn lemma_conceal_seals_rel_preserves_commits(
    a: TypedAssignments,
    b: TypedAssignments,
    seals: Seq<SecretSeal>,
)
    requires
        a.conceal_seals_rel(b, seals),
    ensures
        commits_equal(a, b),
{
    match (a, b) {
        (TypedAssignments::Declarative(x), TypedAssignments::Declarative(y)) => {
            assert forall|i: int| 0 <= i < x@.len() implies (#[trigger] y@[i]).spec_commit() == x@[i].spec_commit() by {
                lemma_commit_conceal_invariant(x@[i], seals, seals);
            }
        },
        (TypedAssignments::Arithmetic(x), TypedAssignments::Arithmetic(y)) => {
            assert forall|i: int| 0 <= i < x@.len() implies (#[trigger] y@[i]).spec_commit() == x@[i].spec_commit() by {
                lemma_commit_conceal_invariant(x@[i], seals, seals);
            }
        },
        (TypedAssignments::Structured(x), TypedAssignments::Structured(y)) => {
            assert forall|i: int| 0 <= i < x@.len() implies (#[trigger] y@[i]).spec_commit() == x@[i].spec_commit() by {
                lemma_commit_conceal_invariant(x@[i], seals, seals);
            }
        },
        (TypedAssignments::Attachment(x), TypedAssignments::Attachment(y)) => {
            assert forall|i: int| 0 <= i < x@.len() implies (#[trigger] y@[i]).spec_commit() == x@[i].spec_commit() by {
                lemma_commit_conceal_invariant(x@[i], seals, seals);
            }
        },
        _ => {},
    }
}

/// A collection's transformable-assignment counts never exceed its
/// length.
pub proof fn lemma_counts_bounded(ta: TypedAssignments, except: Seq<SecretSeal>)
    ensures
        ta.spec_count_state_concealable(except) <= ta.spec_len(),
        ta.spec_count_seal_concealable(except) <= ta.spec_len(),
{
    match ta {
        TypedAssignments::Declarative(v) => {
            lemma_count_state_bound(v@, except);
            lemma_count_seal_bound(v@, except);
        },
        TypedAssignments::Arithmetic(v) => {
            lemma_count_state_bound(v@, except);
            lemma_count_seal_bound(v@, except);
        },
        TypedAssignments::Structured(v) => {
            lemma_count_state_bound(v@, except);
            lemma_count_seal_bound(v@, except);
        },
        TypedAssignments::Attachment(v) => {
            lemma_count_state_bound(v@, except);
            lemma_count_seal_bound(v@, except);
        },
    }
}

} // verus!
