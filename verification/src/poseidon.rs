//! The 2-to-1 Poseidon compression over BLS12-381 (t = 3, circom-compatible)
//! that the on-chain commitment tree, the note algebra and the circuits share.

use crate::field::{is_fe, Bytes32};
use vstd::prelude::*;

verus! {

/// The value of circom-compatible Poseidon over BLS12-381 with state width 3
/// on two canonical field elements, as 32-byte big-endian strings.
pub uninterp spec fn poseidon(a: Seq<u8>, b: Seq<u8>) -> Seq<u8>;

/// Calls `soroban_poseidon::poseidon_hash::<3, Bls12381Fr>` on `[a, b]` in a
/// fresh host environment and re-encodes the `U256` result in 32 bytes.
/// Claimed: the result is `poseidon(a, b)` and is a canonical field element
/// (the host returns the permuted state cell in canonical form). The inputs
/// must be canonical: the function panics on values at or above `r`.
#[verifier::external_body]
fn host_poseidon_hash(a: &Bytes32, b: &Bytes32) -> (r: Bytes32)
    requires
        is_fe(a@),
        is_fe(b@),
    ensures
        r@ == poseidon(a@, b@),
        is_fe(r@),
{
    let env = soroban_sdk::Env::default();
    let mut inputs: soroban_sdk::Vec<soroban_sdk::U256> = soroban_sdk::Vec::new(&env);
    inputs.push_back(soroban_sdk::U256::from_be_bytes(&env, &soroban_sdk::Bytes::from_array(&env, a)));
    inputs.push_back(soroban_sdk::U256::from_be_bytes(&env, &soroban_sdk::Bytes::from_array(&env, b)));
    let out = soroban_poseidon::poseidon_hash::<3, soroban_sdk::crypto::bls12_381::Bls12381Fr>(&env, &inputs);
    let bytes = out.to_be_bytes();
    let mut buf = [0u8; 32];
    bytes.copy_into_slice(&mut buf[(32 - bytes.len() as usize)..]);
    buf
}

/// 2-to-1 Poseidon compression, matching `poseidon_hash::<3, BlsScalar>([a, b])`.
pub fn poseidon2to1(a: Bytes32, b: Bytes32) -> (r: Bytes32)
    requires
        is_fe(a@),
        is_fe(b@),
    ensures
        r@ == poseidon(a@, b@),
        is_fe(r@),
{
    host_poseidon_hash(&a, &b)
}

} // verus!
