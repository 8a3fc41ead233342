//! The hex transport forms of verifying keys and proofs, in the byte layout
//! the on-chain verifier decodes: G1 points in 96 bytes, G2 points in 192,
//! scalars in 32 big-endian bytes, a proof as `A (G1) || B (G2) || C (G1)`.

use crate::field::Bytes32;
use crate::parse::{check_hex_len, hex_bytes, hex_digits, hex_ok, ParseError};
use crate::proof_verifier::VerifyingKey;
use vstd::prelude::*;

verus! {

/// A verifying key in the shape the verifier contract stores, hex-encoded for
/// transport and registration.
#[derive(Clone, Debug)]
pub struct VkJson {
    pub alpha: String,
    pub beta: String,
    pub gamma: String,
    pub delta: String,
    pub ic: Vec<String>,
    /// Set when the key came from a development setup with a fixed seed.
    pub insecure_dev_seed: Option<u64>,
}

/// A proof and the public inputs it was bound to, ready to submit; the inputs
/// are in the order of the circuit's allocation.
#[derive(Clone, Debug)]
pub struct ProofJson {
    pub proof: String,
    pub public_inputs: Vec<String>,
}

/// Which part of a verifying key is malformed.
#[derive(Clone, Copy, Debug, PartialEq, Eq)]
pub enum VkJsonError {
    Alpha(ParseError),
    Beta(ParseError),
    Gamma(ParseError),
    Delta(ParseError),
    /// No constant term.
    EmptyIc,
    /// The `ic` entry at this position.
    Ic(usize, ParseError),
}

/// The lowercase hex digit of a nibble.
pub open spec fn nibble_char(x: int) -> char {
    if x < 10 {
        (48 + x) as char
    } else {
        (87 + x) as char
    }
}

/// Lowercase hex of a byte string, high nibble first.
pub open spec fn hex_lower(b: Seq<u8>) -> Seq<char> {
    Seq::new(
        2 * b.len(),
        |i: int|
            if i % 2 == 0 {
                nibble_char(b[i / 2] as int / 16)
            } else {
                nibble_char(b[i / 2] as int % 16)
            },
    )
}

/// `0x` followed by lowercase hex.
pub open spec fn hex0x_chars(b: Seq<u8>) -> Seq<char> {
    seq!['0', 'x'] + hex_lower(b)
}

/// Calls `hex::encode`. Claimed, as the crate documents: lowercase hex, two
/// digits per byte, high nibble first.
#[verifier::external_body]
fn hex_encode(bytes: &[u8]) -> (r: String)
    ensures
        r@ == hex_lower(bytes@),
{
    hex::encode(bytes)
}

/// `s` with the `0x` prefix of the hex transport form.
fn with_0x(s: &String) -> (r: String)
    ensures
        r@ == seq!['0', 'x'] + s@,
{
    let mut r = String::from_str("0x");
    r.append(s.as_str());
    proof {
        reveal_strlit("0x");
        assert("0x"@ =~= seq!['0', 'x']);
    }
    r
}

/// Encode a verifying key for registration.
pub fn vk_json(vk: &VerifyingKey) -> (r: VkJson)
    ensures
        r.alpha@ == hex_lower(vk.alpha@),
        r.beta@ == hex_lower(vk.beta@),
        r.gamma@ == hex_lower(vk.gamma@),
        r.delta@ == hex_lower(vk.delta@),
        r.ic@.len() == vk.ic@.len(),
        forall|i: int| 0 <= i < vk.ic@.len() ==> (#[trigger] r.ic@[i])@ == hex_lower(vk.ic@[i]@),
        r.insecure_dev_seed is None,
{
    let mut ic: Vec<String> = Vec::new();
    let mut i: usize = 0;
    while i < vk.ic.len()
        invariant
            i <= vk.ic@.len(),
            ic@.len() == i,
            forall|j: int| 0 <= j < i ==> (#[trigger] ic@[j])@ == hex_lower(vk.ic@[j]@),
        decreases vk.ic@.len() - i,
    {
        ic.push(hex_encode(vk.ic[i].as_slice()));
        i = i + 1;
    }
    VkJson {
        alpha: hex_encode(vk.alpha.as_slice()),
        beta: hex_encode(vk.beta.as_slice()),
        gamma: hex_encode(vk.gamma.as_slice()),
        delta: hex_encode(vk.delta.as_slice()),
        ic,
        insecure_dev_seed: None,
    }
}

/// A proof in the 384-byte on-chain layout, hex-encoded.
pub fn proof_hex(proof: &Vec<u8>) -> (r: String)
    ensures
        r@ == hex_lower(proof@),
{
    hex_encode(proof.as_slice())
}

/// `0x`-hex of a 32-byte value.
pub fn hex0x(bytes: &Bytes32) -> (r: String)
    ensures
        r@ == hex0x_chars(bytes@),
{
    let h = hex_encode(bytes.as_slice());
    with_0x(&h)
}

/// The submission form of a proof: `0x`-hex of its bytes, and each public
/// input as `0x`-hex of its 32 bytes.
pub fn proof_json(proof: &Vec<u8>, publics: &Vec<Bytes32>) -> (r: ProofJson)
    ensures
        r.proof@ == hex0x_chars(proof@),
        r.public_inputs@.len() == publics@.len(),
        forall|i: int| 0 <= i < publics@.len() ==> (#[trigger] r.public_inputs@[i])@ == hex0x_chars(publics@[i]@),
{
    let mut inputs: Vec<String> = Vec::new();
    let mut i: usize = 0;
    while i < publics.len()
        invariant
            i <= publics@.len(),
            inputs@.len() == i,
            forall|j: int| 0 <= j < i ==> (#[trigger] inputs@[j])@ == hex0x_chars(publics@[j]@),
        decreases publics@.len() - i,
    {
        inputs.push(hex0x(&publics[i]));
        i = i + 1;
    }
    let h = proof_hex(proof);
    ProofJson { proof: with_0x(&h), public_inputs: inputs }
}

/// The hex value `s` spells exactly `n` bytes.
pub open spec fn spells(s: Seq<char>, n: nat) -> bool {
    hex_ok(hex_digits(s)) && hex_bytes(hex_digits(s)).len() == n
}

/// Check a verifying key's encodings before registration: the G1 points in
/// 96 bytes, the G2 points in 192, and at least one `ic` entry (the constant
/// term).
pub fn check_vk_json(vkj: &VkJson) -> (r: Result<(), VkJsonError>)
    ensures
        r is Ok <==> spells(vkj.alpha@, 96) && spells(vkj.beta@, 192) && spells(vkj.gamma@, 192) && spells(
            vkj.delta@,
            192,
        ) && vkj.ic@.len() > 0 && forall|i: int| 0 <= i < vkj.ic@.len() ==> spells((#[trigger] vkj.ic@[i])@, 96),
        !spells(vkj.alpha@, 96) ==> r matches Err(VkJsonError::Alpha(_)),
        spells(vkj.alpha@, 96) && !spells(vkj.beta@, 192) ==> r matches Err(VkJsonError::Beta(_)),
        spells(vkj.alpha@, 96) && spells(vkj.beta@, 192) && !spells(vkj.gamma@, 192) ==> r matches Err(
            VkJsonError::Gamma(_),
        ),
        spells(vkj.alpha@, 96) && spells(vkj.beta@, 192) && spells(vkj.gamma@, 192) && !spells(vkj.delta@, 192)
            ==> r matches Err(VkJsonError::Delta(_)),
        spells(vkj.alpha@, 96) && spells(vkj.beta@, 192) && spells(vkj.gamma@, 192) && spells(vkj.delta@, 192)
            && vkj.ic@.len() == 0 ==> r == Err::<(), VkJsonError>(VkJsonError::EmptyIc),
        r matches Err(VkJsonError::Ic(i, _)) ==> i < vkj.ic@.len() && !spells(vkj.ic@[i as int]@, 96) && forall|
            j: int,
        | 0 <= j < i ==> spells((#[trigger] vkj.ic@[j])@, 96),
{
    match check_hex_len(vkj.alpha.as_str(), 96) {
        Ok(_) => {},
        Err(e) => {
            return Err(VkJsonError::Alpha(e));
        },
    }
    match check_hex_len(vkj.beta.as_str(), 192) {
        Ok(_) => {},
        Err(e) => {
            return Err(VkJsonError::Beta(e));
        },
    }
    match check_hex_len(vkj.gamma.as_str(), 192) {
        Ok(_) => {},
        Err(e) => {
            return Err(VkJsonError::Gamma(e));
        },
    }
    match check_hex_len(vkj.delta.as_str(), 192) {
        Ok(_) => {},
        Err(e) => {
            return Err(VkJsonError::Delta(e));
        },
    }
    if vkj.ic.len() == 0 {
        return Err(VkJsonError::EmptyIc);
    }
    let mut i: usize = 0;
    while i < vkj.ic.len()
        invariant
            i <= vkj.ic@.len(),
            vkj.ic@.len() > 0,
            spells(vkj.alpha@, 96),
            spells(vkj.beta@, 192),
            spells(vkj.gamma@, 192),
            spells(vkj.delta@, 192),
            forall|j: int| 0 <= j < i ==> spells((#[trigger] vkj.ic@[j])@, 96),
        decreases vkj.ic@.len() - i,
    {
        match check_hex_len(vkj.ic[i].as_str(), 96) {
            Ok(_) => {},
            Err(e) => {
                return Err(VkJsonError::Ic(i, e));
            },
        }
        i = i + 1;
    }
    Ok(())
}

} // verus!
