//! Witness assembly for the transaction circuits: from a note's secrets, the
//! ordered tree leaves and the payout, build the full assignment each
//! circuit is proved over, and its public inputs in the order the contracts
//! derive them.
//!
//! - deposit: public `[cm, amount]`;
//! - unshield: public `[root, nullifier, recipient, amount, change_cm]`;
//! - transfer (1 in, 2 out): public `[root, nullifier, out_cm1, out_cm2]`;
//! - transfer with 2 or 4 inputs: public `[root, nf_1, .., nf_N, out_cm1, out_cm2]`.

use crate::field::{
    amount_fr, be_nat, bytes32_eq, fe_bytes, fr_from_be_bytes_mod_order, fr_modulus, is_fe, lemma_fe_bytes, zero32,
    Bytes32,
};
use crate::merkle::{all_fe, path, path_index, sibling_index, tree_node, tree_root};
use crate::note::{commitment, nullifier, owner_pk, spec_commitment, spec_nullifier, spec_owner_pk};
use crate::poseidon::poseidon;
use vstd::prelude::*;

verus! {

/// Why a witness could not be built.
#[derive(Clone, Copy, Debug, PartialEq, Eq)]
pub enum WitnessError {
    /// The exit takes more than the note holds.
    AmountExceedsValue,
    /// The leaf at the given index is not the commitment of the note.
    LeafMismatch,
    /// The outputs do not add up to the inputs.
    ValueMismatch,
    /// Not one key, value and index per input.
    WrongInputCount,
    /// The input values overflow 128 bits.
    InputValueOverflow,
}

/// The deposit circuit's assignment: the commitment opens to `amount`.
#[derive(Clone, Copy, Debug)]
pub struct DepositCircuit {
    pub cm: Option<Bytes32>,
    pub amount: Option<Bytes32>,
    pub owner_pk: Option<Bytes32>,
    pub k: Option<Bytes32>,
}

/// The unshield circuit's assignment: membership, spend-key nullifier, and
/// `v = amount + change`.
#[derive(Clone, Debug)]
pub struct UnshieldCircuit {
    pub root: Option<Bytes32>,
    pub nullifier: Option<Bytes32>,
    pub recipient: Option<Bytes32>,
    pub amount: Option<Bytes32>,
    pub change_cm: Option<Bytes32>,
    pub spend_sk: Option<Bytes32>,
    pub k: Option<Bytes32>,
    pub v: Option<Bytes32>,
    pub siblings: Vec<Option<Bytes32>>,
    pub path_bits: Vec<Option<bool>>,
    pub k2: Option<Bytes32>,
    pub vc: Option<Bytes32>,
}

/// The 1-in / 2-out transfer circuit's assignment: `v = v1 + v2`.
#[derive(Clone, Debug)]
pub struct TransferCircuit {
    pub root: Option<Bytes32>,
    pub nullifier: Option<Bytes32>,
    pub out_cm1: Option<Bytes32>,
    pub out_cm2: Option<Bytes32>,
    pub spend_sk: Option<Bytes32>,
    pub k: Option<Bytes32>,
    pub v: Option<Bytes32>,
    pub siblings: Vec<Option<Bytes32>>,
    pub path_bits: Vec<Option<bool>>,
    pub owner_pk1: Option<Bytes32>,
    pub k1: Option<Bytes32>,
    pub v1: Option<Bytes32>,
    pub owner_pk2: Option<Bytes32>,
    pub k2: Option<Bytes32>,
    pub v2: Option<Bytes32>,
}

/// One spent note of a multi-input transfer.
#[derive(Clone, Debug)]
pub struct TransferInput {
    pub k: Option<Bytes32>,
    pub v: Option<Bytes32>,
    pub nullifier: Option<Bytes32>,
    pub siblings: Vec<Option<Bytes32>>,
    pub path_bits: Vec<Option<bool>>,
}

/// The N-in / 2-out transfer circuit's assignment: every input under one
/// root and one spend key, `sum v_i = v1 + v2`.
#[derive(Clone, Debug)]
pub struct TransferNCircuit {
    pub root: Option<Bytes32>,
    pub out_cm1: Option<Bytes32>,
    pub out_cm2: Option<Bytes32>,
    pub spend_sk: Option<Bytes32>,
    pub inputs: Vec<TransferInput>,
    pub owner_pk1: Option<Bytes32>,
    pub k1: Option<Bytes32>,
    pub v1: Option<Bytes32>,
    pub owner_pk2: Option<Bytes32>,
    pub k2: Option<Bytes32>,
    pub v2: Option<Bytes32>,
}

/// `n` unassigned slots.
fn nones<T: Copy>(n: usize) -> (r: Vec<Option<T>>)
    ensures
        r@.len() == n,
        forall|i: int| 0 <= i < n ==> (#[trigger] r@[i]) is None,
{
    let mut v: Vec<Option<T>> = Vec::new();
    let mut i: usize = 0;
    while i < n
        invariant
            i <= n,
            v@.len() == i,
            forall|j: int| 0 <= j < i ==> (#[trigger] v@[j]) is None,
        decreases n - i,
    {
        v.push(None);
        i = i + 1;
    }
    v
}

impl DepositCircuit {
    /// The shape only, for key generation.
    pub fn empty() -> (r: DepositCircuit)
        ensures
            r.cm is None && r.amount is None && r.owner_pk is None && r.k is None,
    {
        DepositCircuit { cm: None, amount: None, owner_pk: None, k: None }
    }
}

impl UnshieldCircuit {
    /// The shape only, for key generation at tree depth `depth`.
    pub fn empty(depth: usize) -> (r: UnshieldCircuit)
        ensures
            r.siblings@.len() == depth,
            r.path_bits@.len() == depth,
            forall|i: int| 0 <= i < depth ==> (#[trigger] r.siblings@[i]) is None,
            forall|i: int| 0 <= i < depth ==> (#[trigger] r.path_bits@[i]) is None,
            r.root is None && r.nullifier is None && r.recipient is None && r.amount is None && r.change_cm is None
                && r.spend_sk is None && r.k is None && r.v is None && r.k2 is None && r.vc is None,
    {
        UnshieldCircuit {
            root: None,
            nullifier: None,
            recipient: None,
            amount: None,
            change_cm: None,
            spend_sk: None,
            k: None,
            v: None,
            siblings: nones(depth),
            path_bits: nones(depth),
            k2: None,
            vc: None,
        }
    }
}

impl TransferCircuit {
    /// The shape only, for key generation at tree depth `depth`.
    pub fn empty(depth: usize) -> (r: TransferCircuit)
        ensures
            r.siblings@.len() == depth,
            r.path_bits@.len() == depth,
            forall|i: int| 0 <= i < depth ==> (#[trigger] r.siblings@[i]) is None,
            forall|i: int| 0 <= i < depth ==> (#[trigger] r.path_bits@[i]) is None,
            r.root is None && r.nullifier is None && r.out_cm1 is None && r.out_cm2 is None && r.spend_sk is None
                && r.k is None && r.v is None && r.owner_pk1 is None && r.k1 is None && r.v1 is None
                && r.owner_pk2 is None && r.k2 is None && r.v2 is None,
    {
        TransferCircuit {
            root: None,
            nullifier: None,
            out_cm1: None,
            out_cm2: None,
            spend_sk: None,
            k: None,
            v: None,
            siblings: nones(depth),
            path_bits: nones(depth),
            owner_pk1: None,
            k1: None,
            v1: None,
            owner_pk2: None,
            k2: None,
            v2: None,
        }
    }
}

impl TransferInput {
    /// The shape only, for key generation at tree depth `depth`.
    pub fn empty(depth: usize) -> (r: TransferInput)
        ensures
            r.siblings@.len() == depth,
            r.path_bits@.len() == depth,
            forall|i: int| 0 <= i < depth ==> (#[trigger] r.siblings@[i]) is None,
            forall|i: int| 0 <= i < depth ==> (#[trigger] r.path_bits@[i]) is None,
            r.k is None && r.v is None && r.nullifier is None,
    {
        TransferInput { k: None, v: None, nullifier: None, siblings: nones(depth), path_bits: nones(depth) }
    }
}

impl TransferNCircuit {
    /// The shape only, for key generation: `n` inputs at tree depth `depth`.
    pub fn empty(n: usize, depth: usize) -> (r: TransferNCircuit)
        ensures
            r.inputs@.len() == n,
            forall|i: int| 0 <= i < n ==> (#[trigger] r.inputs@[i]).siblings@.len() == depth,
            r.root is None && r.out_cm1 is None && r.out_cm2 is None && r.spend_sk is None && r.owner_pk1 is None
                && r.k1 is None && r.v1 is None && r.owner_pk2 is None && r.k2 is None && r.v2 is None,
    {
        let mut inputs: Vec<TransferInput> = Vec::new();
        let mut i: usize = 0;
        while i < n
            invariant
                i <= n,
                inputs@.len() == i,
                forall|j: int| 0 <= j < i ==> (#[trigger] inputs@[j]).siblings@.len() == depth,
            decreases n - i,
        {
            inputs.push(TransferInput::empty(depth));
            i = i + 1;
        }
        TransferNCircuit {
            root: None,
            out_cm1: None,
            out_cm2: None,
            spend_sk: None,
            inputs,
            owner_pk1: None,
            k1: None,
            v1: None,
            owner_pk2: None,
            k2: None,
            v2: None,
        }
    }
}

/// `siblings` and `bits` assign the authentication path of the leaf at
/// `index` in the depth-`depth` tree over `leaves`.
pub open spec fn is_path_of(
    siblings: Seq<Option<Bytes32>>,
    bits: Seq<Option<bool>>,
    leaves: Seq<Bytes32>,
    index: nat,
    depth: nat,
) -> bool {
    &&& siblings.len() == depth
    &&& bits.len() == depth
    &&& forall|d: int|
        0 <= d < depth ==> ((#[trigger] siblings[d]) matches Some(s) && s@ == tree_node(
            leaves,
            d as nat,
            sibling_index(path_index(index, d as nat)),
        ))
    &&& forall|d: int| 0 <= d < depth ==> #[trigger] bits[d] == Some(path_index(index, d as nat) % 2 == 1)
}

/// The views of a sequence of field elements.
pub open spec fn views(s: Seq<Bytes32>) -> Seq<Seq<u8>> {
    s.map_values(|x: Bytes32| x@)
}

/// Every value reduced into the scalar field, as the leaves read from text
/// are.
pub fn leaves_to_fr(leaves: &Vec<Bytes32>) -> (r: Vec<Bytes32>)
    ensures
        r@.len() == leaves@.len(),
        all_fe(r@),
        forall|i: int| 0 <= i < leaves@.len() ==> be_nat((#[trigger] r@[i])@) == be_nat(leaves@[i]@) % fr_modulus(),
{
    let mut out: Vec<Bytes32> = Vec::new();
    let mut i: usize = 0;
    while i < leaves.len()
        invariant
            i <= leaves@.len(),
            out@.len() == i,
            all_fe(out@),
            forall|j: int| 0 <= j < i ==> be_nat((#[trigger] out@[j])@) == be_nat(leaves@[j]@) % fr_modulus(),
        decreases leaves@.len() - i,
    {
        out.push(fr_from_be_bytes_mod_order(leaves[i].as_slice()));
        i = i + 1;
    }
    out
}

/// The path of the leaf at `index`, every slot assigned.
fn path_slots(leaves: &Vec<Bytes32>, index: usize, depth: usize) -> (r: (Bytes32, Vec<Option<Bytes32>>, Vec<Option<bool>>))
    requires
        all_fe(leaves@),
        depth < usize::MAX,
        depth > 0 || leaves@.len() > 0,
    ensures
        r.0@ == tree_root(leaves@, depth as nat),
        is_path_of(r.1@, r.2@, leaves@, index as nat, depth as nat),
{
    let (root, siblings, bits) = path(leaves.as_slice(), index, depth);
    let mut s: Vec<Option<Bytes32>> = Vec::new();
    let mut b: Vec<Option<bool>> = Vec::new();
    let mut d: usize = 0;
    while d < depth
        invariant
            d <= depth,
            siblings@.len() == depth,
            bits@.len() == depth,
            s@.len() == d,
            b@.len() == d,
            forall|e: int| 0 <= e < d ==> (#[trigger] s@[e]) == Some(siblings@[e]),
            forall|e: int| 0 <= e < d ==> (#[trigger] b@[e]) == Some(bits@[e]),
        decreases depth - d,
    {
        s.push(Some(siblings[d]));
        b.push(Some(bits[d]));
        d = d + 1;
    }
    proof {
        assert forall|e: int| 0 <= e < depth implies ((#[trigger] s@[e]) matches Some(x) && x@ == tree_node(
            leaves@,
            e as nat,
            sibling_index(path_index(index as nat, e as nat)),
        )) by {
            assert(s@[e] == Some(siblings@[e]));
        }
    }
    (root, s, b)
}

/// Assemble a deposit witness: the note `(owner_pk, k, amount)`, its
/// commitment, and the public inputs `[cm, amount]`.
pub fn deposit_witness(owner_pk: Bytes32, k: Bytes32, amount: u128) -> (r: (DepositCircuit, Vec<Bytes32>))
    requires
        is_fe(owner_pk@),
        is_fe(k@),
    ensures
        r.0.owner_pk == Some(owner_pk),
        r.0.k == Some(k),
        r.0.amount matches Some(a) && a@ == fe_bytes(amount as nat),
        r.0.cm matches Some(cm) && cm@ == spec_commitment(owner_pk@, k@, fe_bytes(amount as nat)),
        r.0.cm matches Some(cm) && cm@ == poseidon(poseidon(owner_pk@, k@), fe_bytes(amount as nat)),
        r.0.cm->0@ == poseidon(poseidon(r.0.owner_pk->0@, r.0.k->0@), r.0.amount->0@),
        r.1@.len() == 2 && r.1@[0] == r.0.cm->0 && r.1@[1] == r.0.amount->0,
        views(r.1@) == seq![
            spec_commitment(owner_pk@, k@, fe_bytes(amount as nat)),
            fe_bytes(amount as nat),
        ],
{
    let amount_fe = amount_fr(amount);
    proof {
        lemma_fe_bytes(amount_fe@);
    }
    let cm = commitment(owner_pk, k, amount_fe);
    let mut publics: Vec<Bytes32> = Vec::new();
    publics.push(cm);
    publics.push(amount_fe);
    assert(views(publics@) =~= seq![cm@, amount_fe@]);
    (DepositCircuit { cm: Some(cm), amount: Some(amount_fe), owner_pk: Some(owner_pk), k: Some(k) }, publics)
}

/// The commitment of the note of value `v` owned by `spend_sk` with
/// blinding `k`.
pub open spec fn owned_commitment(spend_sk: Seq<u8>, k: Seq<u8>, v: nat) -> Seq<u8> {
    spec_commitment(spec_owner_pk(spend_sk), k, fe_bytes(v))
}

/// The commitment a prover looks for among the leaves for a note it owns:
/// `Poseidon(Poseidon(Poseidon(spend_sk, 0), k), v)`, the value as a 32-byte
/// field element.
pub proof fn law_owned_commitment(spend_sk: Seq<u8>, k: Seq<u8>, v: nat)
    ensures
        owned_commitment(spend_sk, k, v) == poseidon(poseidon(poseidon(spend_sk, zero32()), k), fe_bytes(v)),
{
}

/// `leaves` holds the note's commitment at `index`.
pub open spec fn leaf_matches(leaves: Seq<Bytes32>, index: nat, cm: Seq<u8>) -> bool {
    index < leaves.len() && leaves[index as int]@ == cm
}

/// `c` and `publics` are the unshield assignment for these secrets and this
/// payout.
pub open spec fn unshield_assigned(
    c: UnshieldCircuit,
    publics: Seq<Bytes32>,
    spend_sk: Bytes32,
    k: Bytes32,
    v: u128,
    index: usize,
    leaves: Seq<Bytes32>,
    recipient_field: Bytes32,
    amount: u128,
    change_k: Bytes32,
    depth: usize,
) -> bool {
    let change_v = (v - amount) as nat;
    &&& c.root is Some && c.root->0@ == tree_root(leaves, depth as nat)
    &&& c.nullifier is Some && c.nullifier->0@ == spec_nullifier(spend_sk@, k@)
    &&& c.recipient is Some && be_nat(c.recipient->0@) == be_nat(recipient_field@) % fr_modulus()
    &&& is_fe(c.recipient->0@)
    &&& c.amount is Some && c.amount->0@ == fe_bytes(amount as nat)
    &&& c.change_cm is Some && c.change_cm->0@ == owned_commitment(spend_sk@, change_k@, change_v)
    &&& c.spend_sk == Some(spend_sk)
    &&& c.k == Some(k)
    &&& c.v is Some && c.v->0@ == fe_bytes(v as nat)
    &&& c.k2 == Some(change_k)
    &&& c.vc is Some && c.vc->0@ == fe_bytes(change_v)
    &&& is_path_of(c.siblings@, c.path_bits@, leaves, index as nat, depth as nat)
    &&& publics == seq![c.root->0, c.nullifier->0, c.recipient->0, c.amount->0, c.change_cm->0]
}

/// Assemble an unshield witness: the spent note `(owner_pk(spend_sk), k, v)`
/// at `index`, the change note `(owner_pk(spend_sk), change_k, v - amount)`,
/// the recipient field element, and the public inputs
/// `[root, nullifier, recipient, amount, change_cm]`.
pub fn unshield_witness(
    spend_sk: Bytes32,
    k: Bytes32,
    v: u128,
    index: usize,
    leaves: &Vec<Bytes32>,
    recipient_field: Bytes32,
    amount: u128,
    change_k: Bytes32,
    depth: usize,
) -> (r: Result<(UnshieldCircuit, Vec<Bytes32>), WitnessError>)
    requires
        is_fe(spend_sk@),
        is_fe(k@),
        is_fe(change_k@),
        all_fe(leaves@),
        depth < usize::MAX,
    ensures
        amount > v ==> r == Err::<(UnshieldCircuit, Vec<Bytes32>), WitnessError>(WitnessError::AmountExceedsValue),
        amount <= v && !leaf_matches(leaves@, index as nat, owned_commitment(spend_sk@, k@, v as nat)) ==> r
            == Err::<(UnshieldCircuit, Vec<Bytes32>), WitnessError>(WitnessError::LeafMismatch),
        amount <= v && leaf_matches(leaves@, index as nat, owned_commitment(spend_sk@, k@, v as nat)) ==> (r matches Ok(
            w,
        ) && unshield_assigned(w.0, w.1@, spend_sk, k, v, index, leaves@, recipient_field, amount, change_k, depth)),
{
    if amount > v {
        return Err(WitnessError::AmountExceedsValue);
    }
    let opk = owner_pk(spend_sk);
    let v_fe = amount_fr(v);
    proof {
        lemma_fe_bytes(v_fe@);
    }
    let cm_in = commitment(opk, k, v_fe);
    if index >= leaves.len() || !bytes32_eq(&leaves[index], &cm_in) {
        return Err(WitnessError::LeafMismatch);
    }
    let (root, siblings, path_bits) = path_slots(leaves, index, depth);
    let nf = nullifier(spend_sk, k);
    let recipient_fe = fr_from_be_bytes_mod_order(recipient_field.as_slice());
    let amount_fe = amount_fr(amount);
    let vc = amount_fr(v - amount);
    proof {
        lemma_fe_bytes(amount_fe@);
        lemma_fe_bytes(vc@);
    }
    let change_cm = commitment(opk, change_k, vc);
    let mut publics: Vec<Bytes32> = Vec::new();
    publics.push(root);
    publics.push(nf);
    publics.push(recipient_fe);
    publics.push(amount_fe);
    publics.push(change_cm);
    let c = UnshieldCircuit {
        root: Some(root),
        nullifier: Some(nf),
        recipient: Some(recipient_fe),
        amount: Some(amount_fe),
        change_cm: Some(change_cm),
        spend_sk: Some(spend_sk),
        k: Some(k),
        v: Some(v_fe),
        siblings,
        path_bits,
        k2: Some(change_k),
        vc: Some(vc),
    };
    assert(publics@ =~= seq![root, nf, recipient_fe, amount_fe, change_cm]);
    Ok((c, publics))
}

/// `c` and `publics` are the 1-in / 2-out transfer assignment.
pub open spec fn transfer_assigned(
    c: TransferCircuit,
    publics: Seq<Bytes32>,
    spend_sk: Bytes32,
    k: Bytes32,
    v: u128,
    index: usize,
    leaves: Seq<Bytes32>,
    out1_owner_pk: Bytes32,
    out1_k: Bytes32,
    out1_v: u128,
    out2_owner_pk: Bytes32,
    out2_k: Bytes32,
    out2_v: u128,
    depth: usize,
) -> bool {
    &&& c.root is Some && c.root->0@ == tree_root(leaves, depth as nat)
    &&& c.nullifier is Some && c.nullifier->0@ == spec_nullifier(spend_sk@, k@)
    &&& c.out_cm1 is Some && c.out_cm1->0@ == spec_commitment(out1_owner_pk@, out1_k@, fe_bytes(out1_v as nat))
    &&& c.out_cm2 is Some && c.out_cm2->0@ == spec_commitment(out2_owner_pk@, out2_k@, fe_bytes(out2_v as nat))
    &&& c.spend_sk == Some(spend_sk)
    &&& c.k == Some(k)
    &&& c.v is Some && c.v->0@ == fe_bytes(v as nat)
    &&& is_path_of(c.siblings@, c.path_bits@, leaves, index as nat, depth as nat)
    &&& c.owner_pk1 == Some(out1_owner_pk)
    &&& c.k1 == Some(out1_k)
    &&& c.v1 is Some && c.v1->0@ == fe_bytes(out1_v as nat)
    &&& c.owner_pk2 == Some(out2_owner_pk)
    &&& c.k2 == Some(out2_k)
    &&& c.v2 is Some && c.v2->0@ == fe_bytes(out2_v as nat)
    &&& publics == seq![c.root->0, c.nullifier->0, c.out_cm1->0, c.out_cm2->0]
}

/// Assemble a 1-in / 2-out transfer witness: the spent note at `index` owned
/// by `spend_sk`, two output notes whose values add up to its value, and the
/// public inputs `[root, nullifier, out_cm1, out_cm2]`.
pub fn transfer_witness(
    spend_sk: Bytes32,
    k: Bytes32,
    v: u128,
    index: usize,
    leaves: &Vec<Bytes32>,
    out1_owner_pk: Bytes32,
    out1_k: Bytes32,
    out1_v: u128,
    out2_owner_pk: Bytes32,
    out2_k: Bytes32,
    out2_v: u128,
    depth: usize,
) -> (r: Result<(TransferCircuit, Vec<Bytes32>), WitnessError>)
    requires
        is_fe(spend_sk@),
        is_fe(k@),
        is_fe(out1_owner_pk@),
        is_fe(out1_k@),
        is_fe(out2_owner_pk@),
        is_fe(out2_k@),
        all_fe(leaves@),
        depth < usize::MAX,
    ensures
        out1_v + out2_v != v ==> r == Err::<(TransferCircuit, Vec<Bytes32>), WitnessError>(
            WitnessError::ValueMismatch,
        ),
        out1_v + out2_v == v && !leaf_matches(leaves@, index as nat, owned_commitment(spend_sk@, k@, v as nat))
            ==> r == Err::<(TransferCircuit, Vec<Bytes32>), WitnessError>(WitnessError::LeafMismatch),
        out1_v + out2_v == v && leaf_matches(leaves@, index as nat, owned_commitment(spend_sk@, k@, v as nat))
            ==> (r matches Ok(w) && transfer_assigned(
            w.0,
            w.1@,
            spend_sk,
            k,
            v,
            index,
            leaves@,
            out1_owner_pk,
            out1_k,
            out1_v,
            out2_owner_pk,
            out2_k,
            out2_v,
            depth,
        )),
{
    match out1_v.checked_add(out2_v) {
        Some(total) => {
            if total != v {
                return Err(WitnessError::ValueMismatch);
            }
        },
        None => {
            return Err(WitnessError::ValueMismatch);
        },
    }
    let opk = owner_pk(spend_sk);
    let v_fe = amount_fr(v);
    proof {
        lemma_fe_bytes(v_fe@);
    }
    let cm_in = commitment(opk, k, v_fe);
    if index >= leaves.len() || !bytes32_eq(&leaves[index], &cm_in) {
        return Err(WitnessError::LeafMismatch);
    }
    let (root, siblings, path_bits) = path_slots(leaves, index, depth);
    let nf = nullifier(spend_sk, k);
    let v1 = amount_fr(out1_v);
    let v2 = amount_fr(out2_v);
    proof {
        lemma_fe_bytes(v1@);
        lemma_fe_bytes(v2@);
    }
    let cm1 = commitment(out1_owner_pk, out1_k, v1);
    let cm2 = commitment(out2_owner_pk, out2_k, v2);
    let mut publics: Vec<Bytes32> = Vec::new();
    publics.push(root);
    publics.push(nf);
    publics.push(cm1);
    publics.push(cm2);
    let c = TransferCircuit {
        root: Some(root),
        nullifier: Some(nf),
        out_cm1: Some(cm1),
        out_cm2: Some(cm2),
        spend_sk: Some(spend_sk),
        k: Some(k),
        v: Some(v_fe),
        siblings,
        path_bits,
        owner_pk1: Some(out1_owner_pk),
        k1: Some(out1_k),
        v1: Some(v1),
        owner_pk2: Some(out2_owner_pk),
        k2: Some(out2_k),
        v2: Some(v2),
    };
    assert(publics@ =~= seq![root, nf, cm1, cm2]);
    Ok((c, publics))
}

/// The sum of a run of values.
pub open spec fn total(vs: Seq<u128>) -> int
    decreases vs.len(),
{
    if vs.len() == 0 {
        0
    } else {
        total(vs.drop_last()) + vs.last()
    }
}

/// A prefix sums to no more than the whole.
proof fn lemma_total_prefix(vs: Seq<u128>, i: int)
    requires
        0 <= i <= vs.len(),
    ensures
        total(vs.take(i)) <= total(vs),
    decreases vs.len(),
{
    if i < vs.len() {
        lemma_total_prefix(vs.drop_last(), i);
        assert(vs.drop_last().take(i) =~= vs.take(i));
    } else {
        assert(vs.take(i) =~= vs);
    }
}

/// `inp` assigns the spent note `(owner_pk(spend_sk), k, v)` at `index`.
pub open spec fn input_assigned(
    inp: TransferInput,
    spend_sk: Bytes32,
    k: Bytes32,
    v: u128,
    index: usize,
    leaves: Seq<Bytes32>,
    depth: usize,
) -> bool {
    &&& inp.k == Some(k)
    &&& inp.v is Some && inp.v->0@ == fe_bytes(v as nat)
    &&& inp.nullifier is Some && inp.nullifier->0@ == spec_nullifier(spend_sk@, k@)
    &&& is_path_of(inp.siblings@, inp.path_bits@, leaves, index as nat, depth as nat)
}

/// Every input's leaf is its note's commitment.
pub open spec fn all_leaves_match(spend_sk: Bytes32, ks: Seq<Bytes32>, vs: Seq<u128>, indices: Seq<usize>, leaves: Seq<Bytes32>) -> bool {
    forall|i: int|
        0 <= i < ks.len() ==> #[trigger] leaf_matches(
            leaves,
            indices[i] as nat,
            owned_commitment(spend_sk@, ks[i]@, vs[i] as nat),
        )
}

/// `c` and `publics` are the N-in / 2-out transfer assignment.
pub open spec fn transfer_n_assigned(
    c: TransferNCircuit,
    publics: Seq<Bytes32>,
    spend_sk: Bytes32,
    ks: Seq<Bytes32>,
    vs: Seq<u128>,
    indices: Seq<usize>,
    leaves: Seq<Bytes32>,
    out1_owner_pk: Bytes32,
    out1_k: Bytes32,
    out1_v: u128,
    out2_owner_pk: Bytes32,
    out2_k: Bytes32,
    out2_v: u128,
    depth: usize,
) -> bool {
    let n = ks.len();
    &&& c.root is Some && c.root->0@ == tree_root(leaves, depth as nat)
    &&& c.spend_sk == Some(spend_sk)
    &&& c.inputs@.len() == n
    &&& forall|i: int|
        0 <= i < n ==> input_assigned(#[trigger] c.inputs@[i], spend_sk, ks[i], vs[i], indices[i], leaves, depth)
    &&& c.out_cm1 is Some && c.out_cm1->0@ == spec_commitment(out1_owner_pk@, out1_k@, fe_bytes(out1_v as nat))
    &&& c.out_cm2 is Some && c.out_cm2->0@ == spec_commitment(out2_owner_pk@, out2_k@, fe_bytes(out2_v as nat))
    &&& c.owner_pk1 == Some(out1_owner_pk)
    &&& c.k1 == Some(out1_k)
    &&& c.v1 is Some && c.v1->0@ == fe_bytes(out1_v as nat)
    &&& c.owner_pk2 == Some(out2_owner_pk)
    &&& c.k2 == Some(out2_k)
    &&& c.v2 is Some && c.v2->0@ == fe_bytes(out2_v as nat)
    &&& publics.len() == n + 3
    &&& publics[0] == c.root->0
    &&& forall|i: int| 0 <= i < n ==> #[trigger] publics[i + 1] == c.inputs@[i].nullifier->0
    &&& publics[n + 1 as int] == c.out_cm1->0
    &&& publics[n + 2 as int] == c.out_cm2->0
}

/// The first check of a multi-input transfer, made before any key, leaf or
/// proving key is read: one spending key, value and index per input.
pub fn transfer_n_arity(n: usize, k_count: usize, v_count: usize, index_count: usize) -> (r: Result<(), WitnessError>)
    ensures
        r == (if k_count != n || v_count != n || index_count != n {
            Err::<(), WitnessError>(WitnessError::WrongInputCount)
        } else {
            Ok(())
        }),
{
    if k_count != n || v_count != n || index_count != n {
        return Err(WitnessError::WrongInputCount);
    }
    Ok(())
}

/// The value check of a multi-input transfer: the input values sum within
/// 128 bits, and the two outputs add up to that sum, which is returned.
pub fn transfer_n_sum(vs: &Vec<u128>, out1_v: u128, out2_v: u128) -> (r: Result<u128, WitnessError>)
    ensures
        total(vs@) > u128::MAX ==> r == Err::<u128, WitnessError>(WitnessError::InputValueOverflow),
        total(vs@) <= u128::MAX && out1_v + out2_v != total(vs@) ==> r == Err::<u128, WitnessError>(
            WitnessError::ValueMismatch,
        ),
        total(vs@) <= u128::MAX && out1_v + out2_v == total(vs@) ==> r == Ok::<u128, WitnessError>(
            total(vs@) as u128,
        ),
{
    let n = vs.len();
    let mut in_sum: u128 = 0;
    let mut i: usize = 0;
    while i < n
        invariant
            i <= n,
            vs@.len() == n,
            in_sum == total(vs@.take(i as int)),
        decreases n - i,
    {
        assert(vs@.take(i + 1).drop_last() =~= vs@.take(i as int));
        match in_sum.checked_add(vs[i]) {
            Some(s) => {
                in_sum = s;
            },
            None => {
                proof {
                    lemma_total_prefix(vs@, i + 1);
                }
                return Err(WitnessError::InputValueOverflow);
            },
        }
        i = i + 1;
    }
    assert(vs@.take(n as int) =~= vs@);
    match out1_v.checked_add(out2_v) {
        Some(t) => {
            if t != in_sum {
                return Err(WitnessError::ValueMismatch);
            }
        },
        None => {
            return Err(WitnessError::ValueMismatch);
        },
    }
    Ok(in_sum)
}

/// Assemble an N-in / 2-out transfer witness (N is 2 or 4): N notes owned by
/// `spend_sk` at the given indices, all under one root, two outputs whose
/// values add up to the inputs', and the public inputs
/// `[root, nf_1, .., nf_N, out_cm1, out_cm2]`.
#[verifier::rlimit(40)]
pub fn transfer_n_witness(
    spend_sk: Bytes32,
    ks: &Vec<Bytes32>,
    vs: &Vec<u128>,
    indices: &Vec<usize>,
    n: usize,
    leaves: &Vec<Bytes32>,
    out1_owner_pk: Bytes32,
    out1_k: Bytes32,
    out1_v: u128,
    out2_owner_pk: Bytes32,
    out2_k: Bytes32,
    out2_v: u128,
    depth: usize,
) -> (r: Result<(TransferNCircuit, Vec<Bytes32>), WitnessError>)
    requires
        n == 2 || n == 4,
        is_fe(spend_sk@),
        forall|i: int| 0 <= i < ks@.len() ==> is_fe(#[trigger] ks@[i]@),
        is_fe(out1_owner_pk@),
        is_fe(out1_k@),
        is_fe(out2_owner_pk@),
        is_fe(out2_k@),
        all_fe(leaves@),
        depth < usize::MAX,
    ensures
        ks@.len() != n || vs@.len() != n || indices@.len() != n ==> r == Err::<
            (TransferNCircuit, Vec<Bytes32>),
            WitnessError,
        >(WitnessError::WrongInputCount),
        ks@.len() == n && vs@.len() == n && indices@.len() == n && total(vs@) > u128::MAX ==> r == Err::<
            (TransferNCircuit, Vec<Bytes32>),
            WitnessError,
        >(WitnessError::InputValueOverflow),
        ks@.len() == n && vs@.len() == n && indices@.len() == n && total(vs@) <= u128::MAX && out1_v + out2_v
            != total(vs@) ==> r == Err::<(TransferNCircuit, Vec<Bytes32>), WitnessError>(
            WitnessError::ValueMismatch,
        ),
        ks@.len() == n && vs@.len() == n && indices@.len() == n && total(vs@) <= u128::MAX && out1_v + out2_v
            == total(vs@) && !all_leaves_match(spend_sk, ks@, vs@, indices@, leaves@) ==> r == Err::<
            (TransferNCircuit, Vec<Bytes32>),
            WitnessError,
        >(WitnessError::LeafMismatch),
        ks@.len() == n && vs@.len() == n && indices@.len() == n && total(vs@) <= u128::MAX && out1_v + out2_v
            == total(vs@) && all_leaves_match(spend_sk, ks@, vs@, indices@, leaves@) ==> (r matches Ok(w) && transfer_n_assigned(
            w.0,
            w.1@,
            spend_sk,
            ks@,
            vs@,
            indices@,
            leaves@,
            out1_owner_pk,
            out1_k,
            out1_v,
            out2_owner_pk,
            out2_k,
            out2_v,
            depth,
        )),
{
    transfer_n_arity(n, ks.len(), vs.len(), indices.len())?;
    let in_sum = transfer_n_sum(vs, out1_v, out2_v)?;
    let opk = owner_pk(spend_sk);
    let mut j: usize = 0;
    while j < n
        invariant
            j <= n,
            ks@.len() == n,
            vs@.len() == n,
            indices@.len() == n,
            opk@ == spec_owner_pk(spend_sk@),
            is_fe(opk@),
            total(vs@) == in_sum,
            out1_v + out2_v == in_sum,
            forall|i: int| 0 <= i < ks@.len() ==> is_fe(#[trigger] ks@[i]@),
            forall|i: int|
                0 <= i < j ==> #[trigger] leaf_matches(
                    leaves@,
                    indices@[i] as nat,
                    owned_commitment(spend_sk@, ks@[i]@, vs@[i] as nat),
                ),
        decreases n - j,
    {
        let v_fe = amount_fr(vs[j]);
        proof {
            lemma_fe_bytes(v_fe@);
        }
        let cm = commitment(opk, ks[j], v_fe);
        let idx = indices[j];
        if idx >= leaves.len() || !bytes32_eq(&leaves[idx], &cm) {
            proof {
                assert(!leaf_matches(leaves@, indices@[j as int] as nat, owned_commitment(spend_sk@, ks@[j as int]@, vs@[j as int] as nat)));
            }
            return Err(WitnessError::LeafMismatch);
        }
        j = j + 1;
    }
    let mut inputs: Vec<TransferInput> = Vec::new();
    let mut nfs: Vec<Bytes32> = Vec::new();
    let mut root: Bytes32 = [0u8; 32];
    let mut m: usize = 0;
    while m < n
        invariant
            m <= n,
            n > 0,
            ks@.len() == n,
            vs@.len() == n,
            indices@.len() == n,
            all_fe(leaves@),
            depth < usize::MAX,
            is_fe(spend_sk@),
            forall|i: int| 0 <= i < ks@.len() ==> is_fe(#[trigger] ks@[i]@),
            forall|i: int|
                0 <= i < n ==> #[trigger] leaf_matches(
                    leaves@,
                    indices@[i] as nat,
                    owned_commitment(spend_sk@, ks@[i]@, vs@[i] as nat),
                ),
            inputs@.len() == m,
            nfs@.len() == m,
            m > 0 ==> root@ == tree_root(leaves@, depth as nat),
            forall|i: int|
                0 <= i < m ==> input_assigned(#[trigger] inputs@[i], spend_sk, ks@[i], vs@[i], indices@[i], leaves@, depth),
            forall|i: int| 0 <= i < m ==> (#[trigger] nfs@[i]) == inputs@[i].nullifier->0,
        decreases n - m,
    {
        assert(leaf_matches(leaves@, indices@[m as int] as nat, owned_commitment(spend_sk@, ks@[m as int]@, vs@[m as int] as nat)));
        let (r, siblings, path_bits) = path_slots(leaves, indices[m], depth);
        let nf = nullifier(spend_sk, ks[m]);
        let v_fe = amount_fr(vs[m]);
        proof {
            lemma_fe_bytes(v_fe@);
        }
        root = r;
        nfs.push(nf);
        inputs.push(TransferInput { k: Some(ks[m]), v: Some(v_fe), nullifier: Some(nf), siblings, path_bits });
        m = m + 1;
    }
    let v1 = amount_fr(out1_v);
    let v2 = amount_fr(out2_v);
    proof {
        lemma_fe_bytes(v1@);
        lemma_fe_bytes(v2@);
    }
    let cm1 = commitment(out1_owner_pk, out1_k, v1);
    let cm2 = commitment(out2_owner_pk, out2_k, v2);
    let mut publics: Vec<Bytes32> = Vec::new();
    publics.push(root);
    let mut q: usize = 0;
    while q < n
        invariant
            q <= n,
            nfs@.len() == n,
            publics@.len() == q + 1,
            publics@[0] == root,
            forall|i: int| 0 <= i < q ==> #[trigger] publics@[i + 1] == nfs@[i],
        decreases n - q,
    {
        publics.push(nfs[q]);
        q = q + 1;
    }
    publics.push(cm1);
    publics.push(cm2);
    let c = TransferNCircuit {
        root: Some(root),
        out_cm1: Some(cm1),
        out_cm2: Some(cm2),
        spend_sk: Some(spend_sk),
        inputs,
        owner_pk1: Some(out1_owner_pk),
        k1: Some(out1_k),
        v1: Some(v1),
        owner_pk2: Some(out2_owner_pk),
        k2: Some(out2_k),
        v2: Some(v2),
    };
    proof {
        assert forall|i: int| 0 <= i < n implies #[trigger] publics@[i + 1] == c.inputs@[i].nullifier->0 by {
            assert(publics@[i + 1] == nfs@[i]);
        }
    }
    Ok((c, publics))
}

/// What an exit proof is built from. The public inputs are
/// `[root, nf, recipient, amount, change_cm]`: the root of the tree over
/// `leaves`, the nullifier `Poseidon(spend_sk, k)` of the spent note, and the
/// change note owned by the same spend key with blinding `change_k` and value
/// `v - amount`. The witness opens them as the circuit checks: its nullifier
/// hashes its spend key and blinding, and its change-note opening (owner tag
/// of its spend key, `k2`, `vc`) hashes to the public change commitment.
pub proof fn law_unshield_witness_opens(
    c: UnshieldCircuit,
    publics: Seq<Bytes32>,
    spend_sk: Bytes32,
    k: Bytes32,
    v: u128,
    index: usize,
    leaves: Seq<Bytes32>,
    recipient_field: Bytes32,
    amount: u128,
    change_k: Bytes32,
    depth: usize,
)
    requires
        unshield_assigned(c, publics, spend_sk, k, v, index, leaves, recipient_field, amount, change_k, depth),
    ensures
        publics.len() == 5,
        publics[0]@ == tree_root(leaves, depth as nat),
        publics[1]@ == poseidon(spend_sk@, k@),
        publics[3]@ == fe_bytes(amount as nat),
        publics[4]@ == poseidon(poseidon(poseidon(spend_sk@, zero32()), change_k@), fe_bytes((v - amount) as nat)),
        c.nullifier->0@ == poseidon(c.spend_sk->0@, c.k->0@),
        c.change_cm->0@ == poseidon(poseidon(poseidon(c.spend_sk->0@, zero32()), c.k2->0@), c.vc->0@),
        c.amount->0 == publics[3],
        c.change_cm->0 == publics[4],
{
}

/// What a 1-in/2-out transfer proof is built from. The public inputs are
/// `[root, nf, out_cm1, out_cm2]`: the root of the tree over `leaves`, the
/// nullifier `Poseidon(spend_sk, k)`, and each output commitment made of that
/// output's own owner tag, blinding and value. The witness's output openings
/// hash to the public commitments, as the circuit checks.
pub proof fn law_transfer_witness_opens(
    c: TransferCircuit,
    publics: Seq<Bytes32>,
    spend_sk: Bytes32,
    k: Bytes32,
    v: u128,
    index: usize,
    leaves: Seq<Bytes32>,
    out1_owner_pk: Bytes32,
    out1_k: Bytes32,
    out1_v: u128,
    out2_owner_pk: Bytes32,
    out2_k: Bytes32,
    out2_v: u128,
    depth: usize,
)
    requires
        transfer_assigned(
            c,
            publics,
            spend_sk,
            k,
            v,
            index,
            leaves,
            out1_owner_pk,
            out1_k,
            out1_v,
            out2_owner_pk,
            out2_k,
            out2_v,
            depth,
        ),
    ensures
        publics.len() == 4,
        publics[0]@ == tree_root(leaves, depth as nat),
        publics[1]@ == poseidon(spend_sk@, k@),
        publics[2]@ == poseidon(poseidon(out1_owner_pk@, out1_k@), fe_bytes(out1_v as nat)),
        publics[3]@ == poseidon(poseidon(out2_owner_pk@, out2_k@), fe_bytes(out2_v as nat)),
        c.nullifier->0@ == poseidon(c.spend_sk->0@, c.k->0@),
        c.out_cm1->0@ == poseidon(poseidon(c.owner_pk1->0@, c.k1->0@), c.v1->0@),
        c.out_cm2->0@ == poseidon(poseidon(c.owner_pk2->0@, c.k2->0@), c.v2->0@),
{
}

/// What a multi-input transfer proof is built from. The public inputs are
/// `[root, nf_1, .., nf_N, out_cm1, out_cm2]`: the root of the tree over
/// `leaves`, each input's nullifier `Poseidon(spend_sk, k_i)` in input order,
/// and each output commitment made of that output's own owner tag, blinding
/// and value. The witness opens them as the circuit checks.
pub proof fn law_transfer_n_witness_opens(
    c: TransferNCircuit,
    publics: Seq<Bytes32>,
    spend_sk: Bytes32,
    ks: Seq<Bytes32>,
    vs: Seq<u128>,
    indices: Seq<usize>,
    leaves: Seq<Bytes32>,
    out1_owner_pk: Bytes32,
    out1_k: Bytes32,
    out1_v: u128,
    out2_owner_pk: Bytes32,
    out2_k: Bytes32,
    out2_v: u128,
    depth: usize,
)
    requires
        transfer_n_assigned(
            c,
            publics,
            spend_sk,
            ks,
            vs,
            indices,
            leaves,
            out1_owner_pk,
            out1_k,
            out1_v,
            out2_owner_pk,
            out2_k,
            out2_v,
            depth,
        ),
    ensures
        publics.len() == ks.len() + 3,
        publics[0]@ == tree_root(leaves, depth as nat),
        forall|i: int| 0 <= i < ks.len() ==> (#[trigger] publics[i + 1])@ == poseidon(spend_sk@, ks[i]@),
        forall|i: int|
            0 <= i < ks.len() ==> (#[trigger] c.inputs@[i]).nullifier->0@ == poseidon(
                c.spend_sk->0@,
                c.inputs@[i].k->0@,
            ),
        publics[ks.len() + 1 as int]@ == poseidon(poseidon(out1_owner_pk@, out1_k@), fe_bytes(out1_v as nat)),
        publics[ks.len() + 2 as int]@ == poseidon(poseidon(out2_owner_pk@, out2_k@), fe_bytes(out2_v as nat)),
        c.out_cm1->0@ == poseidon(poseidon(c.owner_pk1->0@, c.k1->0@), c.v1->0@),
        c.out_cm2->0@ == poseidon(poseidon(c.owner_pk2->0@, c.k2->0@), c.v2->0@),
{
    assert forall|i: int| 0 <= i < ks.len() implies (#[trigger] publics[i + 1])@ == poseidon(spend_sk@, ks[i]@) by {
        assert(input_assigned(c.inputs@[i], spend_sk, ks[i], vs[i], indices[i], leaves, depth));
    }
    assert forall|i: int| 0 <= i < ks.len() implies (#[trigger] c.inputs@[i]).nullifier->0@ == poseidon(
        c.spend_sk->0@,
        c.inputs@[i].k->0@,
    ) by {
        assert(input_assigned(c.inputs@[i], spend_sk, ks[i], vs[i], indices[i], leaves, depth));
    }
}

} // verus!
