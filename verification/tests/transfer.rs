use ark_bls12_381::{Bls12_381, Fr as AFr, G1Affine as AG1, G2Affine as AG2};
use ark_ff::PrimeField;
use ark_groth16::{Groth16, ProvingKey};
use ark_relations::r1cs::{ConstraintSynthesizer, ConstraintSystemRef, LinearCombination, SynthesisError, Variable};
use ark_serialize::CanonicalSerialize;
use ark_snark::SNARK;
use ark_std::rand::{rngs::StdRng, SeedableRng};
use sha2::Digest;

use hypertron::address::{Address, AddressKind};
use hypertron::commitment::CommitmentContract;
use hypertron::compliance::ComplianceContract;
use hypertron::field::amount_field;
use hypertron::nullifier::NullifierContract;
use hypertron::proof_verifier::{VerifierContract, VerifyingKey};
use hypertron::token::TokenLedger;
use hypertron::transfer::{recipient_field, Config, Error, PoolEvent, PrivacyLevel, TransferContract};

/// A circuit that binds its public inputs and nothing else: a proof for one
/// list of inputs verifies for exactly that list.
#[derive(Clone)]
struct EchoCircuit {
    n: usize,
    values: Option<Vec<AFr>>,
}

impl ConstraintSynthesizer<AFr> for EchoCircuit {
    fn generate_constraints(self, cs: ConstraintSystemRef<AFr>) -> Result<(), SynthesisError> {
        for i in 0..self.n {
            let v = self.values.as_ref().map(|vs| vs[i]);
            let x = cs.new_input_variable(|| v.ok_or(SynthesisError::AssignmentMissing))?;
            cs.enforce_constraint(
                LinearCombination::zero() + x,
                LinearCombination::zero() + Variable::One,
                LinearCombination::zero() + x,
            )?;
        }
        Ok(())
    }
}

fn g1_bytes(p: &AG1) -> [u8; 96] {
    let mut v = Vec::new();
    p.serialize_uncompressed(&mut v).unwrap();
    let mut buf = [0u8; 96];
    buf.copy_from_slice(&v);
    buf
}

fn g2_bytes(p: &AG2) -> [u8; 192] {
    let mut v = Vec::new();
    p.serialize_uncompressed(&mut v).unwrap();
    let mut buf = [0u8; 192];
    buf.copy_from_slice(&v);
    buf
}

fn keys(n: usize, seed: u64) -> (ProvingKey<Bls12_381>, VerifyingKey) {
    let mut rng = StdRng::seed_from_u64(seed);
    let (pk, vk) = Groth16::<Bls12_381>::circuit_specific_setup(EchoCircuit { n, values: None }, &mut rng).unwrap();
    let vk = VerifyingKey {
        alpha: g1_bytes(&vk.alpha_g1),
        beta: g2_bytes(&vk.beta_g2),
        gamma: g2_bytes(&vk.gamma_g2),
        delta: g2_bytes(&vk.delta_g2),
        ic: vk.gamma_abc_g1.iter().map(g1_bytes).collect(),
    };
    (pk, vk)
}

fn prove(pk: &ProvingKey<Bls12_381>, inputs: &[[u8; 32]]) -> Vec<u8> {
    let values: Vec<AFr> = inputs.iter().map(|b| AFr::from_be_bytes_mod_order(b)).collect();
    let mut rng = StdRng::seed_from_u64(7);
    let proof =
        Groth16::<Bls12_381>::prove(pk, EchoCircuit { n: values.len(), values: Some(values) }, &mut rng).unwrap();
    let mut pb = Vec::new();
    proof.a.serialize_uncompressed(&mut pb).unwrap();
    proof.b.serialize_uncompressed(&mut pb).unwrap();
    proof.c.serialize_uncompressed(&mut pb).unwrap();
    pb
}

fn addr(n: u8) -> Address {
    Address::new(AddressKind::Account, [n; 32])
}

struct Harness {
    pool: TransferContract<VerifierContract, ComplianceContract>,
    pool_addr: Address,
    user: Address,
    deposit_pk: ProvingKey<Bls12_381>,
    unshield_pk: ProvingKey<Bls12_381>,
    transfer_pk: ProvingKey<Bls12_381>,
    transfer2_pk: ProvingKey<Bls12_381>,
}

/// Deploy the pool with its components; `blocked` is refused at exit when a
/// policy is configured.
fn deploy_inner(with_compliance: bool, blocked: Option<Address>) -> Harness {
    let admin = addr(1);
    let user = addr(2);
    let pool_addr = Address::new(AddressKind::Contract, [0xAA; 32]);

    let mut token = TokenLedger::new(admin);
    token.mint(&admin, &user, 1000);

    let mut commitment = CommitmentContract::new();
    commitment.initialize(pool_addr).unwrap();
    let mut nullifier = NullifierContract::new();
    nullifier.initialize(pool_addr).unwrap();

    let (deposit_pk, deposit_vk) = keys(2, 1);
    let (unshield_pk, unshield_vk) = keys(5, 2);
    let (transfer_pk, transfer_vk) = keys(4, 3);
    let (transfer2_pk, transfer2_vk) = keys(5, 4);
    let (_transfer4_pk, transfer4_vk) = keys(7, 5);
    let mut verifier = VerifierContract::new();
    verifier.initialize(admin).unwrap();
    verifier.register_vk(&admin, 1, deposit_vk).unwrap();
    verifier.register_vk(&admin, 2, unshield_vk).unwrap();
    verifier.register_vk(&admin, 3, transfer_vk).unwrap();
    verifier.register_vk(&admin, 4, transfer2_vk).unwrap();
    verifier.register_vk(&admin, 5, transfer4_vk).unwrap();

    // A denylist policy.
    let mut compliance = ComplianceContract::new();
    compliance.initialize(admin, true).unwrap();
    if let Some(b) = blocked {
        compliance.set_listed(&admin, b, true).unwrap();
    }

    let mut pool = TransferContract::new(pool_addr, commitment, nullifier, verifier, compliance, token);
    pool.initialize(Config {
        token: addr(10),
        commitment: addr(11),
        nullifier: addr(12),
        verifier: addr(13),
        deposit_vk_id: 1,
        unshield_vk_id: 2,
        transfer_vk_id: 3,
        transfer_2in_vk_id: 4,
        transfer_4in_vk_id: 5,
        compliance: if with_compliance { Some(addr(14)) } else { None },
    })
    .unwrap();
    Harness { pool, pool_addr, user, deposit_pk, unshield_pk, transfer_pk, transfer2_pk }
}

fn deploy() -> Harness {
    deploy_inner(true, None)
}

fn leaf(n: u8) -> [u8; 32] {
    let mut a = [0u8; 32];
    a[31] = n;
    a
}

fn dummy_proof() -> Vec<u8> {
    vec![0u8; 384]
}

fn ok_claim() -> PrivacyLevel {
    PrivacyLevel { sender: true, receiver: false, amount: true, timing: false, linkability: true }
}

fn deposit(h: &mut Harness, amount: i128, leaf_n: u8) -> u32 {
    let proof = prove(&h.deposit_pk, &[leaf(leaf_n), amount_field(amount)]);
    h.pool.deposit(h.user, amount, leaf(leaf_n), &proof).unwrap()
}

fn unshield_proof(h: &Harness, root: [u8; 32], nf: [u8; 32], recipient: &Address, amount: i128, change: [u8; 32]) -> Vec<u8> {
    prove(&h.unshield_pk, &[root, nf, recipient_field(recipient), amount_field(amount), change])
}

fn balance(h: &Harness, a: &Address) -> i128 {
    h.pool.token().balance(a)
}

#[test]
fn deposit_pulls_tokens_and_commits() {
    let mut h = deploy();
    let idx = deposit(&mut h, 100, 1);
    assert_eq!(idx, 0);
    assert_eq!(balance(&h, &h.pool_addr), 100);
    assert_eq!(balance(&h, &h.user), 900);
    assert_eq!(h.pool.commitment().size(), 1);
}

#[test]
fn deposit_rejects_bad_binding_proof() {
    let mut h = deploy();
    // A proof binding a different amount: the binding check fails.
    let proof = prove(&h.deposit_pk, &[leaf(1), amount_field(101)]);
    let res = h.pool.deposit(h.user, 100, leaf(1), &proof);
    assert!(res.is_err());
    assert_eq!(res, Err(Error::InvalidProof));
    // No tokens moved, nothing committed.
    assert_eq!(balance(&h, &h.pool_addr), 0);
    assert_eq!(h.pool.commitment().size(), 0);
}

#[test]
fn unshield_pays_recipient_reinserts_change_and_attests() {
    let mut h = deploy();
    deposit(&mut h, 100, 1);

    let root = h.pool.commitment().root();
    let recipient = addr(3);
    let change_cm = leaf(7);
    let proof = unshield_proof(&h, root, leaf(9), &recipient, 50, change_cm);
    let att = h.pool.unshield(&proof, root, leaf(9), recipient, 50, change_cm, ok_claim()).unwrap();

    assert_eq!(balance(&h, &recipient), 50);
    // Change note re-inserted -> tree grew from 1 to 2 leaves.
    assert_eq!(h.pool.commitment().size(), 2);
    assert!(att.level.sender);
    assert!(att.level.linkability);
    assert!(att.level.amount);
    assert!(!att.level.timing);
}

#[test]
fn private_transfer_spends_and_creates_two_notes() {
    let mut h = deploy();
    deposit(&mut h, 100, 1);

    let root = h.pool.commitment().root();
    let nf = leaf(9);
    let proof = prove(&h.transfer_pk, &[root, nf, leaf(20), leaf(21)]);
    h.pool.transfer(&proof, root, nf, leaf(20), leaf(21), Vec::new(), Vec::new()).unwrap();

    // Two output commitments inserted (plus the initial deposit) = 3 leaves.
    assert_eq!(h.pool.commitment().size(), 3);
    // The input note is spent.
    let proof2 = prove(&h.transfer_pk, &[root, nf, leaf(22), leaf(23)]);
    let res = h.pool.transfer(&proof2, root, nf, leaf(22), leaf(23), Vec::new(), Vec::new());
    assert!(res.is_err());
}

#[test]
fn transfer_n_spends_two_nullifiers() {
    let mut h = deploy();
    deposit(&mut h, 100, 1);

    let root = h.pool.commitment().root();
    let nfs = vec![leaf(9), leaf(10)];
    let proof = prove(&h.transfer2_pk, &[root, leaf(9), leaf(10), leaf(20), leaf(21)]);
    h.pool.transfer_n(&proof, root, nfs.clone(), leaf(20), leaf(21), Vec::new(), Vec::new()).unwrap();
    assert_eq!(h.pool.commitment().size(), 3);

    let proof2 = prove(&h.transfer2_pk, &[root, leaf(9), leaf(10), leaf(22), leaf(23)]);
    let res = h.pool.transfer_n(&proof2, root, nfs, leaf(22), leaf(23), Vec::new(), Vec::new());
    assert!(res.is_err());
}

#[test]
fn transfer_n_rejects_duplicates_and_bad_arity() {
    let mut h = deploy();
    deposit(&mut h, 100, 1);
    let root = h.pool.commitment().root();

    let dup = vec![leaf(9), leaf(9)];
    let res = h.pool.transfer_n(&dummy_proof(), root, dup, leaf(20), leaf(21), Vec::new(), Vec::new());
    assert!(res.is_err());
    assert_eq!(res, Err(Error::DuplicateNullifier));

    let one = vec![leaf(11)];
    let res = h.pool.transfer_n(&dummy_proof(), root, one, leaf(20), leaf(21), Vec::new(), Vec::new());
    assert!(res.is_err());
    assert_eq!(res, Err(Error::UnsupportedArity));
}

#[test]
fn double_spend_is_rejected() {
    let mut h = deploy();
    deposit(&mut h, 100, 1);

    let root = h.pool.commitment().root();
    let recipient = addr(3);
    let nf = leaf(9);
    let proof = unshield_proof(&h, root, nf, &recipient, 10, leaf(7));
    h.pool.unshield(&proof, root, nf, recipient, 10, leaf(7), ok_claim()).unwrap();

    let proof2 = unshield_proof(&h, root, nf, &recipient, 10, leaf(8));
    let res = h.pool.unshield(&proof2, root, nf, recipient, 10, leaf(8), ok_claim());
    assert!(res.is_err());
    assert_eq!(res, Err(Error::NullifierAlreadySpent));
}

#[test]
fn test_unknown_root_is_rejected() {
    let mut h = deploy();
    let recipient = addr(3);
    let bogus_root = leaf(200);
    let res = h.pool.unshield(&dummy_proof(), bogus_root, leaf(9), recipient, 10, leaf(7), ok_claim());
    assert!(res.is_err());
    assert_eq!(res, Err(Error::UnknownRoot));
}

#[test]
fn invalid_proof_is_rejected() {
    let mut h = deploy();
    deposit(&mut h, 100, 1);
    let root = h.pool.commitment().root();
    let recipient = addr(3);
    // A proof for a different payout: verification fails.
    let proof = unshield_proof(&h, root, leaf(9), &recipient, 11, leaf(7));
    let res = h.pool.unshield(&proof, root, leaf(9), recipient, 10, leaf(7), ok_claim());
    assert!(res.is_err());
    assert_eq!(res, Err(Error::InvalidProof));
}

#[test]
fn unshield_blocked_by_compliance_policy() {
    let recipient = addr(3);
    let mut h = deploy_inner(true, Some(recipient)); // exit address is denied
    deposit(&mut h, 100, 1);
    let root = h.pool.commitment().root();
    let proof = unshield_proof(&h, root, leaf(9), &recipient, 10, leaf(7));
    let res = h.pool.unshield(&proof, root, leaf(9), recipient, 10, leaf(7), ok_claim());
    assert!(res.is_err());
    assert_eq!(res, Err(Error::RecipientNotAllowed));
    // Nothing paid out; funds stay in the pool.
    assert_eq!(balance(&h, &recipient), 0);
    assert_eq!(balance(&h, &h.pool_addr), 100);
}

#[test]
fn timing_claim_is_rejected() {
    let mut h = deploy();
    let recipient = addr(3);
    let claim = PrivacyLevel { sender: true, receiver: false, amount: false, timing: true, linkability: true };
    let res = h.pool.unshield(&dummy_proof(), leaf(1), leaf(9), recipient, 10, leaf(7), claim);
    assert!(res.is_err());
    assert_eq!(res, Err(Error::UnsupportedLevelClaim));
}

#[test]
fn policy_is_ignored_when_not_configured() {
    let recipient = addr(3);
    let mut h = deploy_inner(false, Some(recipient));
    deposit(&mut h, 100, 1);
    let root = h.pool.commitment().root();
    let proof = unshield_proof(&h, root, leaf(9), &recipient, 30, leaf(7));
    assert!(h.pool.unshield(&proof, root, leaf(9), recipient, 30, leaf(7), ok_claim()).is_ok());
    assert_eq!(balance(&h, &recipient), 30);
    assert_eq!(balance(&h, &h.pool_addr), 70);
}

#[test]
fn non_positive_amounts_are_rejected() {
    let mut h = deploy();
    assert_eq!(h.pool.deposit(h.user, 0, leaf(1), &dummy_proof()), Err(Error::InvalidAmount));
    let res = h.pool.unshield(&dummy_proof(), leaf(1), leaf(9), addr(3), -5, leaf(7), ok_claim());
    assert_eq!(res, Err(Error::InvalidAmount));
}

#[test]
fn uninitialized_pool_refuses_everything() {
    let admin = addr(1);
    let pool_addr = Address::new(AddressKind::Contract, [0xAA; 32]);
    let mut commitment = CommitmentContract::new();
    commitment.initialize(pool_addr).unwrap();
    let mut nullifier = NullifierContract::new();
    nullifier.initialize(pool_addr).unwrap();
    let mut verifier = VerifierContract::new();
    verifier.initialize(admin).unwrap();
    let mut pool = TransferContract::new(
        pool_addr,
        commitment,
        nullifier,
        verifier,
        ComplianceContract::new(),
        TokenLedger::new(admin),
    );
    assert_eq!(pool.get_config(), Err(Error::NotInitialized));
    assert_eq!(pool.deposit(addr(2), 5, leaf(1), &dummy_proof()), Err(Error::NotInitialized));
    assert_eq!(
        pool.transfer(&dummy_proof(), leaf(1), leaf(2), leaf(3), leaf(4), Vec::new(), Vec::new()),
        Err(Error::NotInitialized)
    );
}

#[test]
fn initialize_twice_is_rejected() {
    let mut h = deploy();
    let cfg = h.pool.get_config().unwrap();
    assert_eq!(h.pool.initialize(cfg), Err(Error::AlreadyInitialized));
}

#[test]
fn events_record_each_flow() {
    let mut h = deploy();
    deposit(&mut h, 100, 1);
    let root = h.pool.commitment().root();
    let recipient = addr(3);
    let proof = unshield_proof(&h, root, leaf(9), &recipient, 40, leaf(7));
    h.pool.unshield(&proof, root, leaf(9), recipient, 40, leaf(7), ok_claim()).unwrap();
    let ev = h.pool.events();
    assert_eq!(ev.len(), 3);
    match &ev[0] {
        PoolEvent::Deposited(d) => {
            assert_eq!(d.index, 0);
            assert_eq!(d.amount, 100);
        }
        _ => panic!("expected a deposit event"),
    }
    match &ev[1] {
        PoolEvent::Unshielded(u) => {
            assert_eq!(u.nullifier, leaf(9));
            assert_eq!(u.amount, 40);
            assert_eq!(u.change_index, 1);
        }
        _ => panic!("expected an exit event"),
    }
    match &ev[2] {
        PoolEvent::PrivacyAttested(a) => {
            assert_eq!(a.attestation.vk_id, 2);
            assert_eq!(a.attestation.root, root);
        }
        _ => panic!("expected an attestation"),
    }
}

#[test]
fn try_flows_report_aborts() {
    let mut h = deploy();
    // The all-zero proof cannot be read: the invocation would abort.
    assert_eq!(h.pool.try_deposit(h.user, 100, leaf(1), &dummy_proof()), None);
    assert_eq!(balance(&h, &h.pool_addr), 0);
    // More than the depositor holds: the token transfer would abort.
    let proof = prove(&h.deposit_pk, &[leaf(1), amount_field(5000)]);
    assert_eq!(h.pool.try_deposit(h.user, 5000, leaf(1), &proof), None);
    // A good deposit goes through.
    let proof = prove(&h.deposit_pk, &[leaf(1), amount_field(100)]);
    assert_eq!(h.pool.try_deposit(h.user, 100, leaf(1), &proof), Some(Ok(0)));
}

#[test]
fn recipient_field_is_sha256_of_address_xdr() {
    // ScVal::Address(Account(Ed25519(key))) = tag 18, address tag 0, key tag 0, key.
    let a = Address::new(AddressKind::Account, [0u8; 32]);
    let mut xdr = vec![0u8, 0, 0, 18, 0, 0, 0, 0, 0, 0, 0, 0];
    xdr.extend_from_slice(&[0u8; 32]);
    let want: [u8; 32] = sha2::Sha256::digest(&xdr).into();
    assert_eq!(recipient_field(&a), want);
    let c = Address::new(AddressKind::Contract, [0u8; 32]);
    assert_ne!(recipient_field(&c), want);
}

/// The pool's inflow as its events record it: deposits minus exits.
fn net_inflow(h: &Harness) -> i128 {
    let mut total: i128 = 0;
    for e in h.pool.events() {
        match e {
            PoolEvent::Deposited(d) => total += d.amount,
            PoolEvent::Unshielded(u) => total -= u.amount,
            _ => {}
        }
    }
    total
}

#[test]
fn pool_balance_is_deposits_minus_exits() {
    let mut h = deploy();
    deposit(&mut h, 100, 1);
    assert_eq!(balance(&h, &h.pool_addr), net_inflow(&h));

    let root = h.pool.commitment().root();
    let recipient = addr(3);
    let proof = unshield_proof(&h, root, leaf(9), &recipient, 60, leaf(7));
    h.pool.unshield(&proof, root, leaf(9), recipient, 60, leaf(7), ok_claim()).unwrap();
    assert_eq!(balance(&h, &h.pool_addr), 40);
    assert_eq!(balance(&h, &h.pool_addr), net_inflow(&h));

    deposit(&mut h, 100, 2);
    assert_eq!(balance(&h, &h.pool_addr), net_inflow(&h));

    let root = h.pool.commitment().root();
    let proof = prove(&h.transfer_pk, &[root, leaf(30), leaf(20), leaf(21)]);
    h.pool.transfer(&proof, root, leaf(30), leaf(20), leaf(21), Vec::new(), Vec::new()).unwrap();
    // A private transfer moves no tokens.
    assert_eq!(balance(&h, &h.pool_addr), 140);
    assert_eq!(net_inflow(&h), 140);

    // A refused call changes neither side.
    let res = h.pool.unshield(&dummy_proof(), root, leaf(30), recipient, 10, leaf(8), ok_claim());
    assert!(res.is_err());
    assert_eq!(balance(&h, &h.pool_addr), 140);
    assert_eq!(net_inflow(&h), 140);
}

#[test]
fn config_is_set_once() {
    let pool_addr = Address::new(AddressKind::Contract, [0xAB; 32]);
    let mut commitment = CommitmentContract::new();
    commitment.initialize(pool_addr).unwrap();
    let mut nullifier = NullifierContract::new();
    nullifier.initialize(pool_addr).unwrap();
    let mut pool = TransferContract::new(
        pool_addr,
        commitment,
        nullifier,
        VerifierContract::new(),
        ComplianceContract::new(),
        TokenLedger::new(addr(1)),
    );
    let c = Config {
        token: addr(10),
        commitment: addr(11),
        nullifier: addr(12),
        verifier: addr(13),
        deposit_vk_id: 1,
        unshield_vk_id: 2,
        transfer_vk_id: 3,
        transfer_2in_vk_id: 4,
        transfer_4in_vk_id: 5,
        compliance: None,
    };
    assert_eq!(pool.get_config(), Err(Error::NotInitialized));
    assert_eq!(pool.initialize(c), Ok(()));
    assert_eq!(pool.get_config(), Ok(c));
    let c2 = Config { deposit_vk_id: 9, ..c };
    assert_eq!(pool.initialize(c2), Err(Error::AlreadyInitialized));
    assert_eq!(pool.get_config(), Ok(c));
}

