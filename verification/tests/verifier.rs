use ark_bls12_381::{Bls12_381, Fr as AFr, G1Affine as AG1, G2Affine as AG2};
use ark_ff::{BigInteger, PrimeField};
use ark_groth16::Groth16;
use ark_relations::r1cs::{ConstraintSynthesizer, ConstraintSystemRef, LinearCombination, SynthesisError};
use ark_serialize::CanonicalSerialize;
use ark_snark::SNARK;
use ark_std::rand::{rngs::StdRng, SeedableRng};

use hypertron::address::{Address, AddressKind};
use hypertron::proof_verifier::{Error, VerifierContract, VerifyingKey, PROOF_LEN};

/// Toy circuit: knowledge of secret factors a, b with a * b == c, where c is
/// the single public input.
#[derive(Clone)]
struct MulCircuit {
    a: Option<AFr>,
    b: Option<AFr>,
}

impl ConstraintSynthesizer<AFr> for MulCircuit {
    fn generate_constraints(self, cs: ConstraintSystemRef<AFr>) -> Result<(), SynthesisError> {
        let a_val = self.a;
        let b_val = self.b;
        let a = cs.new_witness_variable(|| a_val.ok_or(SynthesisError::AssignmentMissing))?;
        let b = cs.new_witness_variable(|| b_val.ok_or(SynthesisError::AssignmentMissing))?;
        let c = cs.new_input_variable(|| {
            let a = a_val.ok_or(SynthesisError::AssignmentMissing)?;
            let b = b_val.ok_or(SynthesisError::AssignmentMissing)?;
            Ok(a * b)
        })?;
        cs.enforce_constraint(
            LinearCombination::zero() + a,
            LinearCombination::zero() + b,
            LinearCombination::zero() + c,
        )?;
        Ok(())
    }
}

fn g1_bytes(p: &AG1) -> [u8; 96] {
    let mut v = Vec::new();
    p.serialize_uncompressed(&mut v).unwrap();
    let mut buf = [0u8; 96];
    buf.copy_from_slice(&v);
    buf
}

fn g2_bytes(p: &AG2) -> [u8; 192] {
    let mut v = Vec::new();
    p.serialize_uncompressed(&mut v).unwrap();
    let mut buf = [0u8; 192];
    buf.copy_from_slice(&v);
    buf
}

/// Scalar -> big-endian 32 bytes.
fn fr_bytes(f: &AFr) -> [u8; 32] {
    let be = f.into_bigint().to_bytes_be();
    let mut buf = [0u8; 32];
    let off = 32 - be.len();
    buf[off..].copy_from_slice(&be);
    buf
}

fn to_vk(vk: &ark_groth16::VerifyingKey<Bls12_381>) -> VerifyingKey {
    VerifyingKey {
        alpha: g1_bytes(&vk.alpha_g1),
        beta: g2_bytes(&vk.beta_g2),
        gamma: g2_bytes(&vk.gamma_g2),
        delta: g2_bytes(&vk.delta_g2),
        ic: vk.gamma_abc_g1.iter().map(g1_bytes).collect(),
    }
}

fn proof_to_bytes(proof: &ark_groth16::Proof<Bls12_381>) -> Vec<u8> {
    let mut pb = Vec::new();
    proof.a.serialize_uncompressed(&mut pb).unwrap();
    proof.b.serialize_uncompressed(&mut pb).unwrap();
    proof.c.serialize_uncompressed(&mut pb).unwrap();
    pb
}

fn admin() -> Address {
    Address::new(AddressKind::Account, [9u8; 32])
}

fn setup_client() -> VerifierContract {
    let mut c = VerifierContract::new();
    c.initialize(admin()).unwrap();
    c
}

fn dummy_vk(n_pub: usize) -> VerifyingKey {
    VerifyingKey {
        alpha: [0u8; 96],
        beta: [0u8; 192],
        gamma: [0u8; 192],
        delta: [0u8; 192],
        ic: vec![[0u8; 96]; n_pub + 1],
    }
}

fn mul_proof(a: u64, b: u64) -> (VerifyingKey, Vec<u8>, AFr) {
    let mut rng = StdRng::seed_from_u64(1234);
    let a = AFr::from(a);
    let b = AFr::from(b);
    let c = a * b;
    let (pk, vk) =
        Groth16::<Bls12_381>::circuit_specific_setup(MulCircuit { a: None, b: None }, &mut rng).unwrap();
    let proof = Groth16::<Bls12_381>::prove(&pk, MulCircuit { a: Some(a), b: Some(b) }, &mut rng).unwrap();
    assert!(Groth16::<Bls12_381>::verify(&vk, &[c], &proof).unwrap());
    (to_vk(&vk), proof_to_bytes(&proof), c)
}

#[test]
fn register_and_lookup_vk() {
    let mut client = setup_client();
    assert!(!client.has_vk(1));
    client.register_vk(&admin(), 1, dummy_vk(2)).unwrap();
    assert!(client.has_vk(1));
}

#[test]
fn verify_unknown_vk_returns_error() {
    let client = setup_client();
    let proof = vec![0u8; 96 + 192 + 96];
    assert_eq!(client.verify(99, &proof, &Vec::new()), Err(Error::VkNotFound));
}

#[test]
fn verify_bad_proof_length_returns_error() {
    let mut client = setup_client();
    client.register_vk(&admin(), 1, dummy_vk(0)).unwrap();
    let proof = vec![0u8; 10]; // wrong length
    assert_eq!(client.verify(1, &proof, &Vec::new()), Err(Error::BadProofLength));
}

#[test]
fn verify_public_input_mismatch_returns_error() {
    let mut client = setup_client();
    client.register_vk(&admin(), 1, dummy_vk(2)).unwrap(); // expects 2 public inputs
    let proof = vec![0u8; PROOF_LEN];
    // supply 0 public inputs -> mismatch
    assert_eq!(client.verify(1, &proof, &Vec::new()), Err(Error::PublicInputMismatch));
}

#[test]
fn register_before_initialize_is_rejected() {
    let mut client = VerifierContract::new();
    assert_eq!(client.register_vk(&admin(), 1, dummy_vk(0)), Err(Error::NotInitialized));
    assert!(!client.has_vk(1));
}

#[test]
fn unreadable_points_are_reported_not_verified() {
    let mut client = setup_client();
    client.register_vk(&admin(), 1, dummy_vk(0)).unwrap();
    let proof = vec![0u8; PROOF_LEN];
    // The all-zero encodings are not curve points: the host would abort.
    assert_eq!(client.try_verify(1, &proof, &Vec::new()), None);
    // Shape errors come first and are answered.
    assert_eq!(client.try_verify(2, &proof, &Vec::new()), Some(Err(Error::VkNotFound)));
}

#[test]
fn real_groth16_proof_verifies_on_chain() {
    let mut client = setup_client();
    let (vk, proof, c) = mul_proof(3, 11);
    client.register_vk(&admin(), 1, vk).unwrap();
    let pubs = vec![fr_bytes(&c)];
    assert_eq!(client.verify(1, &proof, &pubs), Ok(true));
    assert_eq!(client.try_verify(1, &proof, &pubs), Some(Ok(true)));
}

#[test]
fn wrong_public_input_is_rejected_on_chain() {
    let mut client = setup_client();
    let (vk, proof, c) = mul_proof(3, 11);
    client.register_vk(&admin(), 1, vk).unwrap();
    // Claim c = 34 instead of 33 -> must fail.
    let pubs = vec![fr_bytes(&(c + AFr::from(1u64)))];
    assert_eq!(client.verify(1, &proof, &pubs), Ok(false));
}

#[test]
fn tampered_proof_is_rejected_on_chain() {
    let mut client = setup_client();
    let (vk, mut proof, c) = mul_proof(7, 6);
    client.register_vk(&admin(), 1, vk).unwrap();
    // Flip a byte in the proof -> must fail (or be refused as a bad point).
    proof[100] ^= 0x01;
    let pubs = vec![fr_bytes(&c)];
    match client.try_verify(1, &proof, &pubs) {
        Some(Ok(valid)) => assert!(!valid),
        _ => {}
    }
}

#[test]
fn re_registering_replaces_the_key() {
    let mut client = setup_client();
    let (vk, proof, c) = mul_proof(3, 11);
    client.register_vk(&admin(), 1, dummy_vk(1)).unwrap();
    client.register_vk(&admin(), 1, vk).unwrap();
    assert_eq!(client.verify(1, &proof, &vec![fr_bytes(&c)]), Ok(true));
}

#[test]
fn too_many_public_inputs_are_refused_before_the_host() {
    let mut client = setup_client();
    let (mut vk, proof, _c) = mul_proof(3, 5);
    // Every point decodes, but the key takes more inputs than one host
    // multi-scalar multiplication can process within its budget.
    vk.ic = vec![vk.ic[0]; 34];
    client.register_vk(&admin(), 1, vk).unwrap();
    let inputs = vec![[0u8; 32]; 33];
    assert_eq!(client.try_verify(1, &proof, &inputs), None);
}
