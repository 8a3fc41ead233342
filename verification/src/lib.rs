//! Hypertron: a value-committed shielded pool — note commitments in a
//! Poseidon Merkle tree, a nullifier registry, an on-chain Groth16 verifier,
//! an optional exit policy, and the composition that moves tokens in and out.

pub mod address;
pub mod commitment;
pub mod compliance;
pub mod crypto;
pub mod curve;
pub mod digest;
pub mod field;
pub mod groth16;
pub mod merkle;
pub mod note;
pub mod nullifier;
pub mod parse;
pub mod poseidon;
pub mod proof_verifier;
pub mod token;
pub mod transfer;
pub mod witness;
