//! The on-chain Groth16 verifier over BLS12-381. Verification keys are
//! registered by an admin and referenced by id; the proof is taken as raw
//! bytes `A (G1, 96) || B (G2, 192) || C (G1, 96)`.
//!
//! Groth16 check: `e(A,B) == e(alpha,beta) * e(vk_x,gamma) * e(C,delta)`,
//! rearranged into one multi-pairing
//! `e(-A,B) * e(alpha,beta) * e(vk_x,gamma) * e(C,delta) == 1`
//! where `vk_x = IC[0] + sum_i public_i * IC[i+1]`.

use crate::address::Address;
use crate::curve::{
    g1_add, g1_decodes, g1_is_valid, g1_msm, g1_mul, g1_views, g2_decodes, g2_is_valid, g2_views,
    host_fr_sub, host_g1_add, host_g1_msm, host_g1_mul, host_pairing_check, pairing_is_one,
    scalar_values, G1Bytes, G2Bytes, MSM_MAX_POINTS,
};
use crate::field::{be_nat, fr_modulus, fr_zero, lemma_be_nat_zeros, zero32, Bytes32};
use vstd::prelude::*;

verus! {

/// Groth16 proof length: A (G1, 96) || B (G2, 192) || C (G1, 96).
pub const PROOF_LEN: usize = 384;

#[derive(Clone, Copy, Debug, PartialEq, Eq)]
pub enum Error {
    AlreadyInitialized,
    NotInitialized,
    VkNotFound,
    BadProofLength,
    PublicInputMismatch,
}

/// Emitted when a verification key is registered.
#[derive(Clone, Copy, Debug, PartialEq, Eq)]
pub struct VkRegistered {
    pub vk_id: u32,
}

/// Groth16 verification key; points are uncompressed BLS12-381 encodings.
#[derive(Debug)]
pub struct VerifyingKey {
    pub alpha: G1Bytes,
    pub beta: G2Bytes,
    pub gamma: G2Bytes,
    pub delta: G2Bytes,
    /// One G1 point per public input, plus the constant term first.
    pub ic: Vec<G1Bytes>,
}

/// The verifier contract and its storage.
pub struct VerifierContract {
    admin: Option<Address>,
    vks: Vec<(u32, VerifyingKey)>,
    events: Vec<VkRegistered>,
}

/// Some entry carries `id`.
pub open spec fn has_id(entries: Seq<(u32, VerifyingKey)>, id: u32) -> bool {
    exists|i: int| 0 <= i < entries.len() && #[trigger] entries[i].0 == id
}

/// No id is stored twice.
pub open spec fn unique_ids(entries: Seq<(u32, VerifyingKey)>) -> bool {
    forall|i: int, j: int|
        0 <= i < entries.len() && 0 <= j < entries.len() && #[trigger] entries[i].0 == #[trigger] entries[j].0
            ==> i == j
}

/// The key stored under `id` among `(id, key)` entries, if any.
pub open spec fn lookup(entries: Seq<(u32, VerifyingKey)>, id: u32) -> Option<VerifyingKey> {
    if has_id(entries, id) {
        Some(entries[choose|i: int| 0 <= i < entries.len() && #[trigger] entries[i].0 == id].1)
    } else {
        None
    }
}

/// With unique ids, the entry found for `id` is the one at its position.
pub proof fn lemma_lookup_at(entries: Seq<(u32, VerifyingKey)>, id: u32, i: int)
    requires
        unique_ids(entries),
        0 <= i < entries.len(),
        entries[i].0 == id,
    ensures
        lookup(entries, id) == Some(entries[i].1),
{
    assert(has_id(entries, id));
    let j = choose|j: int| 0 <= j < entries.len() && #[trigger] entries[j].0 == id;
    assert(entries[j].0 == entries[i].0);
}

/// The three proof points.
pub open spec fn proof_a(proof: Seq<u8>) -> Seq<u8> {
    proof.subrange(0, 96)
}

pub open spec fn proof_b(proof: Seq<u8>) -> Seq<u8> {
    proof.subrange(96, 288)
}

pub open spec fn proof_c(proof: Seq<u8>) -> Seq<u8> {
    proof.subrange(288, 384)
}

/// Every point the check decodes is a valid encoding.
pub open spec fn points_decode(vk: VerifyingKey, proof: Seq<u8>) -> bool {
    &&& g1_decodes(vk.alpha@)
    &&& g2_decodes(vk.beta@)
    &&& g2_decodes(vk.gamma@)
    &&& g2_decodes(vk.delta@)
    &&& forall|i: int| 0 <= i < vk.ic@.len() ==> g1_decodes(#[trigger] vk.ic@[i]@)
    &&& g1_decodes(proof_a(proof))
    &&& g2_decodes(proof_b(proof))
    &&& g1_decodes(proof_c(proof))
}

/// `vk_x = IC[0] + sum_i public_i * IC[i+1]` (just `IC[0]` without inputs),
/// the public inputs taken as integers.
pub open spec fn vk_x(vk: VerifyingKey, public_inputs: Seq<nat>) -> Seq<u8> {
    if public_inputs.len() == 0 {
        vk.ic@[0]@
    } else {
        g1_add(vk.ic@[0]@, g1_msm(g1_views(vk.ic@.drop_first()), public_inputs))
    }
}

/// The Groth16 pairing equation for a key, a proof and its public inputs.
pub open spec fn groth16_accepts(vk: VerifyingKey, proof: Seq<u8>, public_inputs: Seq<nat>) -> bool {
    pairing_is_one(
        seq![
            g1_mul(proof_a(proof), (fr_modulus() - 1) as nat),
            vk.alpha@,
            vk_x(vk, public_inputs),
            proof_c(proof),
        ],
        seq![proof_b(proof), vk.beta@, vk.gamma@, vk.delta@],
    )
}

/// What `verify` returns: the lookup, length and arity checks in that order,
/// then the pairing equation. Public inputs enter as integers: the host reads
/// each 32-byte input big-endian.
pub open spec fn verify_result(
    vk: Option<VerifyingKey>,
    proof: Seq<u8>,
    public_inputs: Seq<nat>,
) -> Result<bool, Error> {
    match vk {
        None => Err(Error::VkNotFound),
        Some(k) => if proof.len() != PROOF_LEN {
            Err(Error::BadProofLength)
        } else if k.ic@.len() != public_inputs.len() + 1 {
            Err(Error::PublicInputMismatch)
        } else {
            Ok(groth16_accepts(k, proof, public_inputs))
        },
    }
}

/// The call reaches the host's group operations only with inputs the host can
/// process: decodable points, and no more public inputs than one
/// multi-scalar multiplication takes within its budget.
pub open spec fn verify_decodes(vk: Option<VerifyingKey>, proof: Seq<u8>, public_inputs: Seq<nat>) -> bool {
    match vk {
        Some(k) => proof.len() == PROOF_LEN && k.ic@.len() == public_inputs.len() + 1 ==> points_decode(
            k,
            proof,
        ) && public_inputs.len() <= MSM_MAX_POINTS,
        None => true,
    }
}

/// The constant `1` as a 32-byte big-endian scalar.
fn fr_one() -> (r: Bytes32)
    ensures
        be_nat(r@) == 1,
{
    let mut r: Bytes32 = [0u8; 32];
    r[31] = 1;
    proof {
        lemma_be_nat_zeros(r@.drop_last());
    }
    r
}

fn bn96(b: &Vec<u8>, off: usize) -> (r: G1Bytes)
    requires
        off + 96 <= b@.len(),
    ensures
        r@ == b@.subrange(off as int, off + 96),
{
    let mut buf: G1Bytes = [0u8; 96];
    let len: usize = b.len();
    let mut i: usize = 0;
    while i < 96
        invariant
            i <= 96,
            len == b@.len(),
            off + 96 <= b@.len(),
            forall|j: int| 0 <= j < i ==> buf@[j] == b@[off + j],
        decreases 96 - i,
    {
        let k: usize = off + i;
        buf[i] = b[k];
        i = i + 1;
    }
    assert(buf@ =~= b@.subrange(off as int, off + 96));
    buf
}

fn bn192(b: &Vec<u8>, off: usize) -> (r: G2Bytes)
    requires
        off + 192 <= b@.len(),
    ensures
        r@ == b@.subrange(off as int, off + 192),
{
    let mut buf: G2Bytes = [0u8; 192];
    let len: usize = b.len();
    let mut i: usize = 0;
    while i < 192
        invariant
            i <= 192,
            len == b@.len(),
            off + 192 <= b@.len(),
            forall|j: int| 0 <= j < i ==> buf@[j] == b@[off + j],
        decreases 192 - i,
    {
        let k: usize = off + i;
        buf[i] = b[k];
        i = i + 1;
    }
    assert(buf@ =~= b@.subrange(off as int, off + 192));
    buf
}

impl VerifierContract {
    /// The storage invariant: one key per id.
    pub closed spec fn wf(self) -> bool {
        &&& unique_ids(self.vks@)
        &&& self.admin is None ==> self.vks@.len() == 0
    }

    pub closed spec fn spec_admin(self) -> Option<Address> {
        self.admin
    }

    /// The key registered under `id`, if any.
    pub closed spec fn vk(self, id: u32) -> Option<VerifyingKey> {
        lookup(self.vks@, id)
    }

    pub closed spec fn spec_events(self) -> Seq<VkRegistered> {
        self.events@
    }

    /// A freshly deployed, uninitialized contract.
    pub fn new() -> (r: VerifierContract)
        ensures
            r.wf(),
            r.spec_admin() is None,
            forall|id: u32| #[trigger] r.vk(id) is None,
            r.spec_events() == Seq::<VkRegistered>::empty(),
    {
        VerifierContract { admin: None, vks: Vec::new(), events: Vec::new() }
    }

    /// Initialize with an admin who may register verification keys.
    pub fn initialize(&mut self, admin: Address) -> (r: Result<(), Error>)
        requires
            old(self).wf(),
        ensures
            final(self).wf(),
            forall|id: u32| #[trigger] final(self).vk(id) == old(self).vk(id),
            final(self).spec_events() == old(self).spec_events(),
            old(self).spec_admin() is Some ==> r == Err::<(), Error>(Error::AlreadyInitialized)
                && final(self).spec_admin() == old(self).spec_admin(),
            old(self).spec_admin() is None ==> r == Ok::<(), Error>(()) && final(self).spec_admin()
                == Some(admin),
    {
        if self.admin.is_some() {
            return Err(Error::AlreadyInitialized);
        }
        self.admin = Some(admin);
        Ok(())
    }

    fn find(&self, id: u32) -> (r: Option<usize>)
        ensures
            r matches Some(i) ==> i < self.vks@.len() && self.vks@[i as int].0 == id,
            r is None ==> !has_id(self.vks@, id),
    {
        let mut i: usize = 0;
        while i < self.vks.len()
            invariant
                i <= self.vks@.len(),
                forall|j: int| 0 <= j < i ==> self.vks@[j].0 != id,
            decreases self.vks@.len() - i,
        {
            if self.vks[i].0 == id {
                return Some(i);
            }
            i = i + 1;
        }
        None
    }

    /// Register (or replace) a verification key under `vk_id`. Admin-gated
    /// (`caller` is the address whose authorization the invocation carries).
    pub fn register_vk(&mut self, caller: &Address, vk_id: u32, vk: VerifyingKey) -> (r: Result<(), Error>)
        requires
            old(self).wf(),
            old(self).spec_admin() matches Some(a) ==> a == *caller,
        ensures
            final(self).wf(),
            final(self).spec_admin() == old(self).spec_admin(),
            old(self).spec_admin() is None ==> r == Err::<(), Error>(Error::NotInitialized)
                && final(self).spec_events() == old(self).spec_events()
                && forall|id: u32| #[trigger] final(self).vk(id) == old(self).vk(id),
            old(self).spec_admin() is Some ==> {
                &&& r == Ok::<(), Error>(())
                &&& final(self).spec_events() == old(self).spec_events().push(VkRegistered { vk_id })
                &&& final(self).vk(vk_id) == Some(vk)
                &&& forall|id: u32| id != vk_id ==> #[trigger] final(self).vk(id) == old(self).vk(id)
            },
    {
        if self.admin.is_none() {
            return Err(Error::NotInitialized);
        }
        let ghost before = self.vks@;
        let ghost mut pos: int = 0;
        match self.find(vk_id) {
            Some(i) => {
                self.vks.set(i, (vk_id, vk));
                proof {
                    pos = i as int;
                }
            },
            None => {
                self.vks.push((vk_id, vk));
                proof {
                    pos = before.len() as int;
                }
            },
        }
        proof {
            let after = self.vks@;
            assert(after[pos] == (vk_id, vk));
            assert(unique_ids(after)) by {
                assert forall|i: int, j: int|
                    0 <= i < after.len() && 0 <= j < after.len() && #[trigger] after[i].0 == #[trigger] after[j].0
                    implies i == j by {
                    if i < before.len() && j < before.len() && after[i].0 != vk_id {
                        assert(before[i].0 == after[i].0);
                        assert(before[j].0 == after[j].0);
                    } else if i < before.len() && j < before.len() {
                        assert(after[i].0 == vk_id);
                        if i != j {
                            if before[i].0 == vk_id && before[j].0 == vk_id {
                            } else if before[i].0 != vk_id {
                                assert(after[i] == before[i]);
                            } else {
                                assert(after[j] == before[j]);
                            }
                        }
                    } else if i < before.len() {
                        assert(j == before.len());
                        assert(after[i] == before[i]);
                        assert(before[i].0 == vk_id);
                    } else if j < before.len() {
                        assert(after[j] == before[j]);
                        assert(before[j].0 == vk_id);
                    }
                }
            }
            lemma_lookup_at(after, vk_id, pos);
            assert forall|id: u32| id != vk_id implies #[trigger] lookup(after, id) == lookup(before, id) by {
                if has_id(before, id) {
                    let j = choose|j: int| 0 <= j < before.len() && #[trigger] before[j].0 == id;
                    assert(after[j] == before[j]);
                    lemma_lookup_at(before, id, j);
                    lemma_lookup_at(after, id, j);
                } else {
                    if has_id(after, id) {
                        let j = choose|j: int| 0 <= j < after.len() && #[trigger] after[j].0 == id;
                        assert(j < before.len() && after[j] == before[j]);
                    }
                }
            }
        }
        self.events.push(VkRegistered { vk_id });
        Ok(())
    }

    /// Verify a Groth16 proof against the key registered under `vk_id`:
    /// `Ok(true)` iff the pairing equation holds. On chain, an encoding the
    /// host cannot read as a curve point aborts the invocation; `requires`
    /// leaves those inputs out (`try_verify` checks them first).
    #[verifier::rlimit(40)]
    pub fn verify(&self, vk_id: u32, proof: &Vec<u8>, public_inputs: &Vec<Bytes32>) -> (r: Result<bool, Error>)
        requires
            self.wf(),
            verify_decodes(self.vk(vk_id), proof@, scalar_values(public_inputs@)),
        ensures
            r == verify_result(self.vk(vk_id), proof@, scalar_values(public_inputs@)),
    {
        let idx = match self.find(vk_id) {
            Some(i) => i,
            None => {
                return Err(Error::VkNotFound);
            },
        };
        proof {
            lemma_lookup_at(self.vks@, vk_id, idx as int);
        }
        let vk = &self.vks[idx].1;
        if proof.len() != PROOF_LEN {
            return Err(Error::BadProofLength);
        }
        // IC must have exactly one entry per public input, plus the constant.
        if vk.ic.len() == 0 || vk.ic.len() - 1 != public_inputs.len() {
            return Err(Error::PublicInputMismatch);
        }
        let a = bn96(proof, 0);
        let b = bn192(proof, 96);
        let c = bn96(proof, 288);
        // vk_x = IC[0] + sum_i public_i * IC[i+1]
        let n = public_inputs.len();
        let mut x = vk.ic[0];
        if n > 0 {
            let mut points: Vec<G1Bytes> = Vec::new();
            let mut i: usize = 0;
            while i < n
                invariant
                    i <= n,
                    n + 1 == vk.ic@.len(),
                    points@ == vk.ic@.subrange(1, i + 1),
                decreases n - i,
            {
                points.push(vk.ic[i + 1]);
                i = i + 1;
                assert(points@ =~= vk.ic@.subrange(1, i + 1));
            }
            assert(points@ =~= vk.ic@.drop_first());
            let acc = host_g1_msm(&points, public_inputs);
            x = host_g1_add(&x, &acc);
        }
        assert(x@ == vk_x(*vk, scalar_values(public_inputs@)));
        // -A via multiplication by (r - 1) = -1 in Fr.
        let zero = fr_zero();
        let one = fr_one();
        let neg_one = host_fr_sub(&zero, &one);
        proof {
            lemma_be_nat_zeros(zero@);
            vstd::arithmetic::div_mod::lemma_small_mod(0, fr_modulus());
            vstd::arithmetic::div_mod::lemma_small_mod(1, fr_modulus());
            vstd::arithmetic::div_mod::lemma_small_mod((fr_modulus() - 1) as nat, fr_modulus());
        }
        let a_neg = host_g1_mul(&a, &neg_one);
        let mut vp1: Vec<G1Bytes> = Vec::new();
        vp1.push(a_neg);
        vp1.push(vk.alpha);
        vp1.push(x);
        vp1.push(c);
        let mut vp2: Vec<G2Bytes> = Vec::new();
        vp2.push(b);
        vp2.push(vk.beta);
        vp2.push(vk.gamma);
        vp2.push(vk.delta);
        proof {
            assert(g1_views(vp1@) =~= seq![
                g1_mul(proof_a(proof@), (fr_modulus() - 1) as nat),
                vk.alpha@,
                vk_x(*vk, scalar_values(public_inputs@)),
                proof_c(proof@),
            ]);
            assert(g2_views(vp2@) =~= seq![proof_b(proof@), vk.beta@, vk.gamma@, vk.delta@]);
        }
        Ok(host_pairing_check(&vp1, &vp2))
    }

    /// `verify`, for any input: `None` where the host could not read one of
    /// the points the check decodes, or where there are more public inputs
    /// than `MSM_MAX_POINTS` (the invocation would abort), otherwise what
    /// `verify` returns.
    pub fn try_verify(&self, vk_id: u32, proof: &Vec<u8>, public_inputs: &Vec<Bytes32>) -> (r: Option<Result<bool, Error>>)
        requires
            self.wf(),
        ensures
            r is None <==> !verify_decodes(self.vk(vk_id), proof@, scalar_values(public_inputs@)),
            r is Some ==> r == Some(verify_result(self.vk(vk_id), proof@, scalar_values(public_inputs@))),
    {
        let idx = match self.find(vk_id) {
            Some(i) => i,
            None => {
                return Some(self.verify(vk_id, proof, public_inputs));
            },
        };
        proof {
            lemma_lookup_at(self.vks@, vk_id, idx as int);
        }
        let vk = &self.vks[idx].1;
        if proof.len() != PROOF_LEN || vk.ic.len() == 0 || vk.ic.len() - 1 != public_inputs.len() {
            return Some(self.verify(vk_id, proof, public_inputs));
        }
        let mut ok = g1_is_valid(&vk.alpha) && g2_is_valid(&vk.beta) && g2_is_valid(&vk.gamma)
            && g2_is_valid(&vk.delta);
        let mut i: usize = 0;
        while i < vk.ic.len()
            invariant
                i <= vk.ic@.len(),
                ok == (g1_decodes(vk.alpha@) && g2_decodes(vk.beta@) && g2_decodes(vk.gamma@)
                    && g2_decodes(vk.delta@) && forall|j: int| 0 <= j < i ==> g1_decodes(#[trigger] vk.ic@[j]@)),
            decreases vk.ic@.len() - i,
        {
            let v = g1_is_valid(&vk.ic[i]);
            ok = ok && v;
            i = i + 1;
        }
        let a = bn96(proof, 0);
        let b = bn192(proof, 96);
        let c = bn96(proof, 288);
        ok = ok && g1_is_valid(&a) && g2_is_valid(&b) && g1_is_valid(&c);
        ok = ok && public_inputs.len() <= MSM_MAX_POINTS;
        if ok {
            Some(self.verify(vk_id, proof, public_inputs))
        } else {
            None
        }
    }

    /// Whether a key is registered under `vk_id`.
    pub fn has_vk(&self, vk_id: u32) -> (r: bool)
        requires
            self.wf(),
        ensures
            r == self.vk(vk_id) is Some,
    {
        match self.find(vk_id) {
            Some(i) => {
                proof {
                    lemma_lookup_at(self.vks@, vk_id, i as int);
                }
                true
            },
            None => false,
        }
    }
}

/// The verdict in full: an unknown key, a proof that is not 384 bytes and a
/// wrong number of public inputs are refused in that order; otherwise the
/// answer is whether `e(-A, B) * e(alpha, beta) * e(vk_x, gamma) *
/// e(C, delta)` is the identity, with `A`, `B`, `C` the proof's bytes
/// `0..96`, `96..288`, `288..384`, `-A = (r - 1) * A`, and
/// `vk_x = IC[0] + sum_i input_i * IC[i + 1]`.
pub proof fn law_groth16_verdict(vk: Option<VerifyingKey>, proof: Seq<u8>, inputs: Seq<nat>)
    ensures
        vk is None ==> verify_result(vk, proof, inputs) == Err::<bool, Error>(Error::VkNotFound),
        vk is Some && proof.len() != 384 ==> verify_result(vk, proof, inputs) == Err::<bool, Error>(
            Error::BadProofLength,
        ),
        vk is Some && proof.len() == 384 && vk->0.ic@.len() != inputs.len() + 1 ==> verify_result(
            vk,
            proof,
            inputs,
        ) == Err::<bool, Error>(Error::PublicInputMismatch),
        vk is Some && proof.len() == 384 && vk->0.ic@.len() == inputs.len() + 1 ==> verify_result(
            vk,
            proof,
            inputs,
        ) == Ok::<bool, Error>(
            pairing_is_one(
                seq![
                    g1_mul(proof.subrange(0, 96), (fr_modulus() - 1) as nat),
                    vk->0.alpha@,
                    if inputs.len() == 0 {
                        vk->0.ic@[0]@
                    } else {
                        g1_add(vk->0.ic@[0]@, g1_msm(g1_views(vk->0.ic@.drop_first()), inputs))
                    },
                    proof.subrange(288, 384),
                ],
                seq![proof.subrange(96, 288), vk->0.beta@, vk->0.gamma@, vk->0.delta@],
            ),
        ),
{
}

/// The interface a pool calls its proof verifier through: on chain, a
/// contract of its own at the address the pool's configuration names, so any
/// backend that keeps these contracts can stand behind a pool.
pub trait VerifierApi: Sized {
    /// The backend's own invariant.
    spec fn verifier_wf(&self) -> bool;

    /// What `verify` returns for the key `vk_id`, a proof and its public
    /// inputs, the inputs taken as integers.
    spec fn verify_outcome(&self, vk_id: u32, proof: Seq<u8>, inputs: Seq<nat>) -> Result<bool, Error>;

    /// The call runs to an answer: the host does not abort it.
    spec fn verify_runs(&self, vk_id: u32, proof: Seq<u8>, inputs: Seq<nat>) -> bool;

    /// Verify a proof against the key registered under `vk_id`.
    fn verify_proof(&self, vk_id: u32, proof: &Vec<u8>, public_inputs: &Vec<Bytes32>) -> (r: Result<bool, Error>)
        requires
            self.verifier_wf(),
            self.verify_runs(vk_id, proof@, scalar_values(public_inputs@)),
        ensures
            r == self.verify_outcome(vk_id, proof@, scalar_values(public_inputs@)),
    ;

    /// `verify_proof` for any input: `None` where the call would abort.
    fn try_verify_proof(&self, vk_id: u32, proof: &Vec<u8>, public_inputs: &Vec<Bytes32>) -> (r: Option<
        Result<bool, Error>,
    >)
        requires
            self.verifier_wf(),
        ensures
            r is None <==> !self.verify_runs(vk_id, proof@, scalar_values(public_inputs@)),
            r is Some ==> r == Some(self.verify_outcome(vk_id, proof@, scalar_values(public_inputs@))),
    ;
}

impl VerifierApi for VerifierContract {
    open spec fn verifier_wf(&self) -> bool {
        self.wf()
    }

    open spec fn verify_outcome(&self, vk_id: u32, proof: Seq<u8>, inputs: Seq<nat>) -> Result<bool, Error> {
        verify_result(self.vk(vk_id), proof, inputs)
    }

    open spec fn verify_runs(&self, vk_id: u32, proof: Seq<u8>, inputs: Seq<nat>) -> bool {
        verify_decodes(self.vk(vk_id), proof, inputs)
    }

    fn verify_proof(&self, vk_id: u32, proof: &Vec<u8>, public_inputs: &Vec<Bytes32>) -> (r: Result<bool, Error>) {
        self.verify(vk_id, proof, public_inputs)
    }

    fn try_verify_proof(&self, vk_id: u32, proof: &Vec<u8>, public_inputs: &Vec<Bytes32>) -> (r: Option<
        Result<bool, Error>,
    >) {
        self.try_verify(vk_id, proof, public_inputs)
    }
}

} // verus!