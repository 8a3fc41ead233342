//! Value-committed notes with spend/view separation.
//!
//! ```text
//! owner_pk = Poseidon(spend_sk, 0)
//! cm       = Poseidon(Poseidon(owner_pk, k), v)
//! nf       = Poseidon(spend_sk, k)
//! ```
//!
//! A viewing key only reveals `(owner_pk, k, v)`: enough to check a commitment
//! and read the value, not enough to compute the nullifier, which needs
//! `spend_sk`.

use crate::field::{fr_zero, is_fe, zero32, Bytes32};
use crate::poseidon::{poseidon, poseidon2to1};
use vstd::prelude::*;

verus! {

/// Maximum note value width: values are range-checked to `[0, 2^64)` in every
/// circuit so balance equations cannot wrap the field.
pub const VALUE_BITS: usize = 64;

/// Domain separator for `owner_pk = Poseidon(spend_sk, OWNER_PK_DOMAIN)`.
pub const OWNER_PK_DOMAIN: u64 = 0;

/// `owner_pk = Poseidon(spend_sk, 0)`.
pub open spec fn spec_owner_pk(spend_sk: Seq<u8>) -> Seq<u8> {
    poseidon(spend_sk, zero32())
}

/// `cm = Poseidon(Poseidon(owner_pk, k), v)`.
pub open spec fn spec_commitment(owner_pk: Seq<u8>, k: Seq<u8>, v: Seq<u8>) -> Seq<u8> {
    poseidon(poseidon(owner_pk, k), v)
}

/// `nf = Poseidon(spend_sk, k)`.
pub open spec fn spec_nullifier(spend_sk: Seq<u8>, k: Seq<u8>) -> Seq<u8> {
    poseidon(spend_sk, k)
}

/// A private note: owner public tag, blinding `k`, and value `v`.
#[derive(Clone, Copy, Debug, PartialEq, Eq)]
pub struct Note {
    pub owner_pk: Bytes32,
    pub k: Bytes32,
    pub v: Bytes32,
}

impl Note {
    /// All three parts are canonical field elements.
    pub open spec fn wf(self) -> bool {
        is_fe(self.owner_pk@) && is_fe(self.k@) && is_fe(self.v@)
    }

    pub fn new(owner_pk: Bytes32, k: Bytes32, v: Bytes32) -> (r: Note)
        ensures
            r.owner_pk == owner_pk,
            r.k == k,
            r.v == v,
    {
        Note { owner_pk, k, v }
    }

    /// Build a note owned by `spend_sk`.
    pub fn from_spend_key(spend_sk: Bytes32, k: Bytes32, v: Bytes32) -> (r: Note)
        requires
            is_fe(spend_sk@),
        ensures
            r.owner_pk@ == spec_owner_pk(spend_sk@),
            r.owner_pk@ == poseidon(spend_sk@, zero32()),
            is_fe(r.owner_pk@),
            r.k == k,
            r.v == v,
    {
        Note::new(owner_pk(spend_sk), k, v)
    }

    /// The note commitment `cm = Poseidon(Poseidon(owner_pk, k), v)`.
    pub fn commitment(&self) -> (r: Bytes32)
        requires
            self.wf(),
        ensures
            r@ == spec_commitment(self.owner_pk@, self.k@, self.v@),
            r@ == poseidon(poseidon(self.owner_pk@, self.k@), self.v@),
            is_fe(r@),
    {
        commitment(self.owner_pk, self.k, self.v)
    }

    /// The nullifier `nf = Poseidon(spend_sk, k)`; the caller passes the spend
    /// key that owns the note.
    pub fn nullifier(&self, spend_sk: Bytes32) -> (r: Bytes32)
        requires
            is_fe(spend_sk@),
            is_fe(self.k@),
        ensures
            r@ == spec_nullifier(spend_sk@, self.k@),
            r@ == poseidon(spend_sk@, self.k@),
            is_fe(r@),
    {
        nullifier(spend_sk, self.k)
    }
}

/// `owner_pk = Poseidon(spend_sk, 0)`.
pub fn owner_pk(spend_sk: Bytes32) -> (r: Bytes32)
    requires
        is_fe(spend_sk@),
    ensures
        r@ == spec_owner_pk(spend_sk@),
        r@ == poseidon(spend_sk@, zero32()),
        is_fe(r@),
{
    poseidon2to1(spend_sk, fr_zero())
}

/// Note commitment `cm = Poseidon(Poseidon(owner_pk, k), v)`.
pub fn commitment(owner_pk: Bytes32, k: Bytes32, v: Bytes32) -> (r: Bytes32)
    requires
        is_fe(owner_pk@),
        is_fe(k@),
        is_fe(v@),
    ensures
        r@ == spec_commitment(owner_pk@, k@, v@),
        r@ == poseidon(poseidon(owner_pk@, k@), v@),
        is_fe(r@),
{
    let inner = poseidon2to1(owner_pk, k);
    poseidon2to1(inner, v)
}

/// Nullifier `nf = Poseidon(spend_sk, k)`.
pub fn nullifier(spend_sk: Bytes32, k: Bytes32) -> (r: Bytes32)
    requires
        is_fe(spend_sk@),
        is_fe(k@),
    ensures
        r@ == spec_nullifier(spend_sk@, k@),
        r@ == poseidon(spend_sk@, k@),
        is_fe(r@),
{
    poseidon2to1(spend_sk, k)
}

/// The note algebra, argument order included: the owner tag hashes the spend
/// key then `0`; the commitment hashes the owner tag then the blinding, and
/// that then the value; the nullifier hashes the spend key then the blinding.
/// So a note owned by `spend_sk` commits to
/// `Poseidon(Poseidon(Poseidon(spend_sk, 0), k), v)` and is spent by
/// `Poseidon(spend_sk, k)`, which the circuits recompute.
pub proof fn law_note_algebra(spend_sk: Seq<u8>, owner_pk: Seq<u8>, k: Seq<u8>, v: Seq<u8>)
    ensures
        spec_owner_pk(spend_sk) == poseidon(spend_sk, zero32()),
        spec_commitment(owner_pk, k, v) == poseidon(poseidon(owner_pk, k), v),
        spec_nullifier(spend_sk, k) == poseidon(spend_sk, k),
        spec_commitment(spec_owner_pk(spend_sk), k, v) == poseidon(poseidon(poseidon(spend_sk, zero32()), k), v),
{
}

} // verus!
