//! BLS12-381 group operations used by the Groth16 check, on the uncompressed
//! encodings the verifier stores: G1 points in 96 bytes, G2 points in 192
//! bytes (zcash layout), scalars as 32-byte big-endian integers. The group
//! arithmetic runs in the Soroban host (CAP-0059 functions); arkworks decides
//! which encodings are points of the prime-order subgroups.

use crate::field::{be_nat, fr_modulus, Bytes32};
use ark_serialize::CanonicalDeserialize;
use soroban_sdk::crypto::bls12_381::{Fr, G1Affine, G2Affine};
use soroban_sdk::{BytesN, Env};
use vstd::prelude::*;

verus! {

/// An uncompressed G1 encoding.
pub type G1Bytes = [u8; 96];

/// An uncompressed G2 encoding.
pub type G2Bytes = [u8; 192];

/// arkworks' validating uncompressed decoder (`deserialize_uncompressed`)
/// accepts the bytes as a G1 point: coordinates below the base-field modulus,
/// on the curve, in the prime-order subgroup.
pub uninterp spec fn ark_g1_valid(p: Seq<u8>) -> bool;

/// The same for G2.
pub uninterp spec fn ark_g2_valid(p: Seq<u8>) -> bool;

/// The three flag bits of an uncompressed encoding are those the Soroban host
/// accepts: none set, or only the infinity flag with every other bit zero.
pub open spec fn clean_flags(p: Seq<u8>) -> bool {
    p.len() > 0 && (p[0] < 32 || (p[0] == 64 && forall|i: int| 1 <= i < p.len() ==> p[i] == 0))
}

/// The bytes are a valid G1 point as the host reads them.
pub open spec fn g1_decodes(p: Seq<u8>) -> bool {
    clean_flags(p) && ark_g1_valid(p)
}

/// The bytes are a valid G2 point as the host reads them.
pub open spec fn g2_decodes(p: Seq<u8>) -> bool {
    clean_flags(p) && ark_g2_valid(p)
}

/// The encoding of the sum of two G1 points.
pub uninterp spec fn g1_add(a: Seq<u8>, b: Seq<u8>) -> Seq<u8>;

/// The encoding of `s * p` for a G1 point `p` and an integer `s` taken
/// modulo the scalar field order.
pub uninterp spec fn g1_mul(p: Seq<u8>, s: nat) -> Seq<u8>;

/// The encoding of `sum_i scalars[i] * points[i]` (scalars taken modulo the
/// scalar field order).
pub uninterp spec fn g1_msm(points: Seq<Seq<u8>>, scalars: Seq<nat>) -> Seq<u8>;

/// `prod_i e(g1[i], g2[i])` is the identity of the target group.
pub uninterp spec fn pairing_is_one(g1: Seq<Seq<u8>>, g2: Seq<Seq<u8>>) -> bool;

/// The encodings of a sequence of G1 points.
pub open spec fn g1_views(s: Seq<G1Bytes>) -> Seq<Seq<u8>> {
    s.map_values(|p: G1Bytes| p@)
}

/// The encodings of a sequence of G2 points.
pub open spec fn g2_views(s: Seq<G2Bytes>) -> Seq<Seq<u8>> {
    s.map_values(|p: G2Bytes| p@)
}

/// The integer values of a sequence of 32-byte scalars.
pub open spec fn scalar_values(s: Seq<Bytes32>) -> Seq<nat> {
    s.map_values(|x: Bytes32| be_nat(x@))
}

/// Calls `ark_bls12_381::G1Affine::deserialize_uncompressed` (validating).
/// Claimed: the result says whether arkworks accepts the bytes.
#[verifier::external_body]
fn ark_g1_deserializes(p: &G1Bytes) -> (r: bool)
    ensures
        r == ark_g1_valid(p@),
{
    ark_bls12_381::G1Affine::deserialize_uncompressed(&p[..]).is_ok()
}

/// Calls `ark_bls12_381::G2Affine::deserialize_uncompressed` (validating).
/// Claimed: the result says whether arkworks accepts the bytes.
#[verifier::external_body]
fn ark_g2_deserializes(p: &G2Bytes) -> (r: bool)
    ensures
        r == ark_g2_valid(p@),
{
    ark_bls12_381::G2Affine::deserialize_uncompressed(&p[..]).is_ok()
}

/// Whether the flag bits of an encoding are those the host accepts.
fn flags_clean(p: &[u8]) -> (r: bool)
    requires
        p@.len() > 0,
    ensures
        r == clean_flags(p@),
{
    if p[0] < 32 {
        return true;
    }
    if p[0] != 64 {
        return false;
    }
    let mut i: usize = 1;
    while i < p.len()
        invariant
            1 <= i <= p@.len(),
            p@[0] == 64,
            forall|j: int| 1 <= j < i ==> p@[j] == 0,
        decreases p@.len() - i,
    {
        if p[i] != 0 {
            assert(p@[i as int] != 0);
            return false;
        }
        i = i + 1;
    }
    true
}

/// Whether the bytes are a G1 point the group operations accept.
pub fn g1_is_valid(p: &G1Bytes) -> (r: bool)
    ensures
        r == g1_decodes(p@),
{
    flags_clean(p.as_slice()) && ark_g1_deserializes(p)
}

/// Whether the bytes are a G2 point the group operations accept.
pub fn g2_is_valid(p: &G2Bytes) -> (r: bool)
    ensures
        r == g2_decodes(p@),
{
    flags_clean(p.as_slice()) && ark_g2_deserializes(p)
}

/// Calls the host's `bls12_381().g1_add` in a fresh environment.
/// Claimed: the result is `g1_add(a, b)` and is itself a valid encoding (the
/// host serializes the affine sum uncompressed). The host traps on encodings
/// it cannot read, which `requires` leaves out.
#[verifier::external_body]
pub(crate) fn host_g1_add(a: &G1Bytes, b: &G1Bytes) -> (r: G1Bytes)
    requires
        g1_decodes(a@),
        g1_decodes(b@),
    ensures
        r@ == g1_add(a@, b@),
        g1_decodes(r@),
{
    let env = Env::default();
    let pa = G1Affine::from_bytes(BytesN::from_array(&env, a));
    let pb = G1Affine::from_bytes(BytesN::from_array(&env, b));
    env.crypto().bls12_381().g1_add(&pa, &pb).to_array()
}

/// Calls the host's `bls12_381().g1_mul` in a fresh environment; the scalar is
/// built with `Fr::from_bytes`, which reduces it modulo the group order.
/// Claimed: the result is `g1_mul(p, s)` and is itself a valid encoding.
#[verifier::external_body]
pub(crate) fn host_g1_mul(p: &G1Bytes, s: &Bytes32) -> (r: G1Bytes)
    requires
        g1_decodes(p@),
    ensures
        r@ == g1_mul(p@, be_nat(s@)),
        g1_decodes(r@),
{
    let env = Env::default();
    let pp = G1Affine::from_bytes(BytesN::from_array(&env, p));
    let k = Fr::from_bytes(BytesN::from_array(&env, s));
    env.crypto().bls12_381().g1_mul(&pp, &k).to_array()
}

/// The most points one host multi-scalar multiplication is given. A fresh
/// environment has the host's default budget of 100,000,000 CPU instructions;
/// its cost model charges an MSM about 2.35M plus 0.74M per point, and each
/// point's subgroup check about 0.73M more, so 32 points stay near half the
/// budget, while a few dozen more would exhaust it and trap.
pub const MSM_MAX_POINTS: usize = 32;

/// The most pairs one host pairing check is given. The cost model charges
/// about 10.6M plus 4.9M per pair, and the subgroup checks of a G1 and a G2
/// point about 1.8M more per pair: 8 pairs stay near two thirds of the default
/// budget, while about 14 would exhaust it and trap.
pub const PAIRING_MAX_PAIRS: usize = 8;

/// Calls the host's `bls12_381().g1_msm` in a fresh environment, scalars built
/// with `Fr::from_bytes` (reduced modulo the group order).
/// Claimed: the result is `g1_msm(points, scalars)`, a valid encoding. The
/// host traps on empty input and when the call exhausts the environment's
/// budget, which `requires` leaves out (at most `MSM_MAX_POINTS` points).
#[verifier::external_body]
pub(crate) fn host_g1_msm(points: &Vec<G1Bytes>, scalars: &Vec<Bytes32>) -> (r: G1Bytes)
    requires
        points@.len() > 0,
        points@.len() <= MSM_MAX_POINTS,
        points@.len() == scalars@.len(),
        forall|i: int| 0 <= i < points@.len() ==> g1_decodes(#[trigger] points@[i]@),
    ensures
        r@ == g1_msm(g1_views(points@), scalar_values(scalars@)),
        g1_decodes(r@),
{
    let env = Env::default();
    let mut vp = soroban_sdk::Vec::new(&env);
    for p in points.iter() {
        vp.push_back(G1Affine::from_bytes(BytesN::from_array(&env, p)));
    }
    let mut vs = soroban_sdk::Vec::new(&env);
    for s in scalars.iter() {
        vs.push_back(Fr::from_bytes(BytesN::from_array(&env, s)));
    }
    env.crypto().bls12_381().g1_msm(vp, vs).to_array()
}

/// Calls the host's `bls12_381().pairing_check` in a fresh environment.
/// Claimed: the result says whether the product of the pairings is the
/// identity. The host traps on empty or unequal inputs and when the call
/// exhausts the environment's budget, which `requires` leaves out (at most
/// `PAIRING_MAX_PAIRS` pairs).
#[verifier::external_body]
pub(crate) fn host_pairing_check(g1: &Vec<G1Bytes>, g2: &Vec<G2Bytes>) -> (r: bool)
    requires
        g1@.len() > 0,
        g1@.len() <= PAIRING_MAX_PAIRS,
        g1@.len() == g2@.len(),
        forall|i: int| 0 <= i < g1@.len() ==> g1_decodes(#[trigger] g1@[i]@),
        forall|i: int| 0 <= i < g2@.len() ==> g2_decodes(#[trigger] g2@[i]@),
    ensures
        r == pairing_is_one(g1_views(g1@), g2_views(g2@)),
{
    let env = Env::default();
    let mut v1 = soroban_sdk::Vec::new(&env);
    for p in g1.iter() {
        v1.push_back(G1Affine::from_bytes(BytesN::from_array(&env, p)));
    }
    let mut v2 = soroban_sdk::Vec::new(&env);
    for p in g2.iter() {
        v2.push_back(G2Affine::from_bytes(BytesN::from_array(&env, p)));
    }
    env.crypto().bls12_381().pairing_check(v1, v2)
}

/// Calls the host's `bls12_381().fr_sub` in a fresh environment on two
/// scalars built with `Fr::from_bytes` (each reduced modulo the group order).
/// Claimed: the canonical difference modulo the group order.
#[verifier::external_body]
pub(crate) fn host_fr_sub(a: &Bytes32, b: &Bytes32) -> (r: Bytes32)
    ensures
        be_nat(r@) == ((be_nat(a@) % fr_modulus()) + fr_modulus() - (be_nat(b@) % fr_modulus())) % (
        fr_modulus() as int),
{
    let env = Env::default();
    let x = Fr::from_bytes(BytesN::from_array(&env, a));
    let y = Fr::from_bytes(BytesN::from_array(&env, b));
    env.crypto().bls12_381().fr_sub(&x, &y).to_bytes().to_array()
}

} // verus!
