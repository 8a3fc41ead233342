//! Elements of the BLS12-381 scalar field, carried as 32-byte big-endian
//! strings — the layout the on-chain verifier and the Poseidon host function
//! read, and the layout proofs and public inputs are exchanged in.

use ark_ff::{BigInteger, PrimeField};
use vstd::arithmetic::div_mod::{
    lemma_div_denominator, lemma_fundamental_div_mod, lemma_fundamental_div_mod_converse,
};
use vstd::arithmetic::power2::{lemma2_to64, lemma_pow2_adds, lemma_pow2_pos, pow2};
use vstd::bits::lemma_u128_shr_is_div;
use vstd::prelude::*;

verus! {

/// A 32-byte big-endian string.
pub type Bytes32 = [u8; 32];

/// Big-endian value of a byte string.
pub open spec fn be_nat(s: Seq<u8>) -> nat
    decreases s.len(),
{
    if s.len() == 0 {
        0
    } else {
        (be_nat(s.drop_last()) * 256 + s.last()) as nat
    }
}

/// The order `r` of the BLS12-381 scalar field.
pub open spec fn fr_modulus() -> nat {
    0x73eda753299d7d483339d80809a1d80553bda402fffe5bfeffffffff00000001nat
}

/// A canonical field element: 32 big-endian bytes whose value is below `r`.
pub open spec fn is_fe(s: Seq<u8>) -> bool {
    s.len() == 32 && be_nat(s) < fr_modulus()
}

/// The 32-byte string of zeros, the encoding of the field element `0`.
pub open spec fn zero32() -> Seq<u8> {
    Seq::new(32, |i: int| 0u8)
}

/// Two byte strings of one length with one big-endian value are equal.
pub proof fn lemma_be_nat_injective(a: Seq<u8>, b: Seq<u8>)
    requires
        a.len() == b.len(),
        be_nat(a) == be_nat(b),
    ensures
        a == b,
    decreases a.len(),
{
    if a.len() > 0 {
        let x = be_nat(a) as int;
        lemma_fundamental_div_mod_converse(x, 256, be_nat(a.drop_last()) as int, a.last() as int);
        lemma_fundamental_div_mod_converse(x, 256, be_nat(b.drop_last()) as int, b.last() as int);
        lemma_be_nat_injective(a.drop_last(), b.drop_last());
        assert(a =~= a.drop_last().push(a.last()));
        assert(b =~= b.drop_last().push(b.last()));
    }
}

/// The value of the all-zero string is zero.
pub proof fn lemma_be_nat_zeros(s: Seq<u8>)
    requires
        forall|i: int| 0 <= i < s.len() ==> s[i] == 0,
    ensures
        be_nat(s) == 0,
    decreases s.len(),
{
    if s.len() > 0 {
        lemma_be_nat_zeros(s.drop_last());
    }
}

/// `0` is a canonical field element.
pub proof fn lemma_zero_is_fe()
    ensures
        is_fe(zero32()),
{
    lemma_be_nat_zeros(zero32());
}

/// Equality of two 32-byte strings.
pub fn bytes32_eq(a: &Bytes32, b: &Bytes32) -> (r: bool)
    ensures
        r == (a@ == b@),
{
    let mut i: usize = 0;
    while i < 32
        invariant
            0 <= i <= 32,
            forall|j: int| 0 <= j < i ==> a@[j] == b@[j],
        decreases 32 - i,
    {
        if a[i] != b[i] {
            return false;
        }
        i = i + 1;
    }
    assert(a@ =~= b@);
    true
}

/// The encoding of the field element `0`.
pub fn fr_zero() -> (r: Bytes32)
    ensures
        r@ == zero32(),
        is_fe(r@),
{
    let r: Bytes32 = [0u8; 32];
    proof {
        assert(r@ =~= zero32());
        lemma_zero_is_fe();
    }
    r
}

/// Calls `ark_bls12_381::Fr::from_be_bytes_mod_order` and writes the field
/// element's integer big-endian (`into_bigint().to_bytes_be()`, four 64-bit
/// limbs). Claimed: 32 bytes holding the input's big-endian value reduced
/// modulo `r`, as arkworks documents.
#[verifier::external_body]
fn ark_reduce_be(bytes: &[u8]) -> (r: Vec<u8>)
    ensures
        r@.len() == 32,
        be_nat(r@) == be_nat(bytes@) % fr_modulus(),
{
    ark_bls12_381::Fr::from_be_bytes_mod_order(bytes).into_bigint().to_bytes_be()
}

/// Calls `ark_bls12_381::Fr::from(u128)` and writes the element's integer
/// big-endian. Claimed: 32 bytes holding the integer itself (it is below `r`).
#[verifier::external_body]
fn ark_fr_from_u128(x: u128) -> (r: Vec<u8>)
    ensures
        r@.len() == 32,
        be_nat(r@) == x,
{
    ark_bls12_381::Fr::from(x).into_bigint().to_bytes_be()
}

/// Right-align up to 32 bytes in 32 (zero-padded on the left).
pub(crate) fn right_align(bytes: &Vec<u8>) -> (r: Bytes32)
    requires
        bytes@.len() <= 32,
    ensures
        be_nat(r@) == be_nat(bytes@),
        r@ == Seq::new((32 - bytes@.len()) as nat, |i: int| 0u8) + bytes@,
{
    let mut buf: Bytes32 = [0u8; 32];
    let off: usize = 32 - bytes.len();
    let mut i: usize = 0;
    while i < bytes.len()
        invariant
            off + bytes@.len() == 32,
            i <= bytes@.len(),
            forall|j: int| 0 <= j < off ==> buf@[j] == 0,
            forall|j: int| 0 <= j < i ==> buf@[off + j] == bytes@[j],
        decreases bytes@.len() - i,
    {
        buf[off + i] = bytes[i];
        i = i + 1;
    }
    proof {
        let z = Seq::new(off as nat, |i: int| 0u8);
        assert(buf@ =~= z + bytes@);
        lemma_be_nat_zeros(z);
        lemma_be_nat_zero_prefix(z, bytes@);
    }
    buf
}

/// Reduce a big-endian byte string modulo `r` (arkworks'
/// `from_be_bytes_mod_order`), giving a canonical field element.
pub fn fr_from_be_bytes_mod_order(bytes: &[u8]) -> (r: Bytes32)
    ensures
        be_nat(r@) == be_nat(bytes@) % fr_modulus(),
        is_fe(r@),
{
    let be = ark_reduce_be(bytes);
    right_align(&be)
}

/// Amount (as an unsigned integer) -> field element, matching the on-chain
/// encoding of amounts (big-endian, reduced modulo the scalar field).
pub fn amount_fr(amount: u128) -> (r: Bytes32)
    ensures
        be_nat(r@) == amount,
        is_fe(r@),
{
    let be = ark_fr_from_u128(amount);
    let r = right_align(&be);
    assert(amount < fr_modulus());
    r
}

/// Field element -> 32-byte big-endian string. Elements are already held in
/// that layout, so this is the identity.
pub fn fr_be32(f: &Bytes32) -> (r: Bytes32)
    ensures
        r@ == f@,
{
    *f
}

/// A canonical 32-byte string equals the reduction of itself.
pub proof fn lemma_reduce_canonical(s: Seq<u8>, r: Seq<u8>)
    requires
        is_fe(s),
        r.len() == 32,
        be_nat(r) == be_nat(s) % fr_modulus(),
    ensures
        r == s,
{
    vstd::arithmetic::div_mod::lemma_small_mod(be_nat(s), fr_modulus());
    lemma_be_nat_injective(r, s);
}

/// Leading zero bytes do not change a big-endian value.
pub proof fn lemma_be_nat_zero_prefix(z: Seq<u8>, s: Seq<u8>)
    requires
        be_nat(z) == 0,
    ensures
        be_nat(z + s) == be_nat(s),
    decreases s.len(),
{
    if s.len() > 0 {
        lemma_be_nat_zero_prefix(z, s.drop_last());
        assert((z + s).drop_last() =~= z + s.drop_last());
    } else {
        assert(z + s =~= z);
    }
}

/// A non-negative amount right-aligned in 32 big-endian bytes (the high half
/// zero), the layout the contracts bind amounts in.
pub fn amount_field(amount: i128) -> (r: Bytes32)
    requires
        amount >= 0,
    ensures
        be_nat(r@) == amount,
        is_fe(r@),
{
    let x: u128 = amount as u128;
    let mut buf: Bytes32 = [0u8; 32];
    proof {
        lemma2_to64();
        lemma_pow2_adds(64, 64);
        vstd::arithmetic::div_mod::lemma_basic_div(x as int, pow2(128) as int);
        assert(buf@.subrange(16, 16) =~= Seq::<u8>::empty());
    }
    // The bytes of `x`, most significant first, in positions 16..32.
    let mut j: u128 = 0;
    while j < 16
        invariant
            j <= 16,
            x == amount,
            forall|k: int| 0 <= k < 16 ==> buf@[k] == 0,
            be_nat(buf@.subrange(16, 16 + j as int)) == x as nat / pow2((8 * (16 - j)) as nat),
        decreases 16 - j,
    {
        let shift: u128 = 8 * (15 - j);
        let y: u128 = x >> shift;
        let ghost old_buf = buf@;
        buf[(16 + j) as usize] = (y % 256) as u8;
        proof {
            lemma_u128_shr_is_div(x, shift);
            let p = pow2(shift as nat);
            lemma_pow2_pos(shift as nat);
            lemma_pow2_adds(shift as nat, 8);
            lemma2_to64();
            assert(pow2((8 * (16 - j)) as nat) == p * 256);
            lemma_div_denominator(x as int, p as int, 256);
            lemma_fundamental_div_mod(y as int, 256);
            let prev = old_buf.subrange(16, 16 + j as int);
            let next = buf@.subrange(16, 16 + j + 1);
            assert(next =~= prev.push((y % 256) as u8));
            assert(next.drop_last() =~= prev);
            assert(be_nat(prev) == (y as nat) / 256);
            assert(be_nat(next) == be_nat(prev) * 256 + (y % 256));
            assert(be_nat(next) == y);
            assert((8 * (16 - (j + 1))) as nat == shift as nat);
        }
        j = j + 1;
    }
    proof {
        let z = buf@.subrange(0, 16);
        let low = buf@.subrange(16, 32);
        lemma2_to64();
        assert(j == 16);
        assert((8 * (16 - j)) as nat == 0);
        assert(pow2(0) == 1);
        assert(x as nat / 1 == x);
        assert(be_nat(low) == x);
        lemma_be_nat_zeros(z);
        assert(buf@ =~= z + low);
        lemma_be_nat_zero_prefix(z, low);
        lemma2_to64();
        assert(amount < fr_modulus());
    }
    buf
}

/// Whether 32 bytes are a canonical field element (their value is below `r`):
/// exactly when reducing them modulo `r` gives them back.
pub fn is_canonical(b: &Bytes32) -> (r: bool)
    ensures
        r == is_fe(b@),
{
    let red = fr_from_be_bytes_mod_order(b.as_slice());
    let same = bytes32_eq(&red, b);
    proof {
        if is_fe(b@) {
            lemma_reduce_canonical(b@, red@);
        }
    }
    same
}

/// The 32-byte big-endian encoding of `x` (for `x < 2^256`).
pub open spec fn fe_bytes(x: nat) -> Seq<u8> {
    choose|s: Seq<u8>| s.len() == 32 && be_nat(s) == x
}

/// A 32-byte string is the encoding of its value.
pub proof fn lemma_fe_bytes(s: Seq<u8>)
    requires
        s.len() == 32,
    ensures
        fe_bytes(be_nat(s)) == s,
{
    let c = choose|c: Seq<u8>| c.len() == 32 && be_nat(c) == be_nat(s);
    lemma_be_nat_injective(c, s);
}

} // verus!
