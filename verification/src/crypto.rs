//! Viewing keys and encrypted note payloads (the selective-disclosure layer).
//!
//! ECIES-style, X25519 + ChaCha20-Poly1305:
//!
//! ```text
//! per note:  eph = random x25519 secret;  s = ECDH(eph, view_pub)
//!            key = SHA-256("hypertron:note:v1" || s)
//!            ct  = ChaCha20Poly1305(key, nonce = 0, owner_pk || k || v)
//!            blob = eph_pub (32) || ct
//! ```
//!
//! The holder of the viewing secret recomputes `s = ECDH(view_secret, eph_pub)`
//! and decrypts. A viewing key reads notes; it cannot spend them.

use crate::digest::{sha256, sha256_digest};
use crate::field::{be_nat, fr_from_be_bytes_mod_order, fr_modulus, is_fe, lemma_reduce_canonical, Bytes32};
use crate::note::Note;
use chacha20poly1305::aead::{Aead, KeyInit};
use chacha20poly1305::{ChaCha20Poly1305, Nonce};
use rand_core::{OsRng, RngCore};
use x25519_dalek::{PublicKey, StaticSecret};
use vstd::prelude::*;

verus! {

/// Why a blob did not decrypt.
#[derive(Clone, Copy, Debug, PartialEq, Eq)]
pub enum CryptoError {
    /// Shorter than an ephemeral key and an authentication tag.
    BlobTooShort,
    /// The tag did not verify: the note is not addressed to this viewing key.
    NotAddressed,
    /// The plaintext is not three 32-byte field elements.
    BadPlaintextLength,
}

/// The X25519 public key of a 32-byte secret (clamped base-point multiple).
pub uninterp spec fn x25519_public(secret: Seq<u8>) -> Seq<u8>;

/// The X25519 shared secret of a 32-byte secret and a public key.
pub uninterp spec fn x25519(secret: Seq<u8>, public: Seq<u8>) -> Seq<u8>;

/// ChaCha20-Poly1305 encryption under `key` with the all-zero nonce.
pub uninterp spec fn aead_seal(key: Seq<u8>, plaintext: Seq<u8>) -> Seq<u8>;

/// ChaCha20-Poly1305 decryption under `key` with the all-zero nonce; `None`
/// when the tag does not verify.
pub uninterp spec fn aead_open(key: Seq<u8>, ciphertext: Seq<u8>) -> Option<Seq<u8>>;

/// The domain separator of the key derivation, `"hypertron:note:v1"`.
pub open spec fn kdf_domain() -> Seq<u8> {
    seq![104u8, 121, 112, 101, 114, 116, 114, 111, 110, 58, 110, 111, 116, 101, 58, 118, 49]
}

/// The symmetric key of a note: `SHA-256(domain || shared)`.
pub open spec fn note_key(shared: Seq<u8>) -> Seq<u8> {
    sha256(kdf_domain() + shared)
}

/// The plaintext of a note: `owner_pk || k || v`.
pub open spec fn note_plaintext(note: Note) -> Seq<u8> {
    note.owner_pk@ + note.k@ + note.v@
}

/// The blob of `note` sealed to the viewing public key `point` with the
/// ephemeral secret `eph`.
pub open spec fn sealed_to(point: Seq<u8>, eph: Seq<u8>, note: Note) -> Seq<u8> {
    x25519_public(eph) + aead_seal(note_key(x25519(eph, point)), note_plaintext(note))
}

/// What the viewing secret `secret` opens `blob` to (the tag check included).
pub open spec fn opened(secret: Seq<u8>, blob: Seq<u8>) -> Option<Seq<u8>> {
    aead_open(note_key(x25519(secret, blob.subrange(0, 32))), blob.subrange(32, blob.len() as int))
}

/// `n` is the note read from the 96-byte plaintext `pt`: each 32-byte field
/// reduced into the scalar field.
pub open spec fn read_from(n: Note, pt: Seq<u8>) -> bool {
    &&& n.wf()
    &&& be_nat(n.owner_pk@) == be_nat(pt.subrange(0, 32)) % fr_modulus()
    &&& be_nat(n.k@) == be_nat(pt.subrange(32, 64)) % fr_modulus()
    &&& be_nat(n.v@) == be_nat(pt.subrange(64, 96)) % fr_modulus()
}

/// Fills 32 bytes from `rand_core::OsRng` (`fill_bytes`). Nothing is claimed
/// of the bytes.
#[verifier::external_body]
fn os_random_32() -> (r: [u8; 32]) {
    let mut b = [0u8; 32];
    OsRng.fill_bytes(&mut b);
    b
}

/// Calls `PublicKey::from(&StaticSecret::from(secret))` (x25519-dalek).
/// Claimed: the result is `x25519_public(secret)`.
#[verifier::external_body]
fn x25519_public_of(secret: &[u8; 32]) -> (r: [u8; 32])
    ensures
        r@ == x25519_public(secret@),
{
    PublicKey::from(&StaticSecret::from(*secret)).to_bytes()
}

/// Calls `StaticSecret::diffie_hellman` (x25519-dalek). Claimed: the result
/// is `x25519(secret, point)`, and, as the crate documents for the key
/// exchange, both parties reach the same secret: when `point` is the public
/// key of a 32-byte secret `other`, the result is what `other` computes
/// against the public key of `secret`.
#[verifier::external_body]
fn x25519_dh(secret: &[u8; 32], point: &[u8; 32]) -> (r: [u8; 32])
    ensures
        r@ == x25519(secret@, point@),
        forall|other: Seq<u8>|
            other.len() == 32 && point@ == #[trigger] x25519_public(other) ==> r@ == x25519(
                other,
                x25519_public(secret@),
            ),
{
    StaticSecret::from(*secret).diffie_hellman(&PublicKey::from(*point)).to_bytes()
}

/// Calls `ChaCha20Poly1305::encrypt` with the all-zero nonce. Claimed: the
/// result is `aead_seal(key, plaintext)`, the plaintext's length plus the
/// 16-byte tag. The call fails from the cipher's plaintext limit on
/// (`len / 64 >= u32::MAX`, that is from 274877906880 bytes), which `requires`
/// leaves out.
#[verifier::external_body]
fn chacha_seal(key: &Bytes32, plaintext: &[u8]) -> (r: Vec<u8>)
    requires
        plaintext@.len() < 274877906880,
    ensures
        r@ == aead_seal(key@, plaintext@),
        r@.len() == plaintext@.len() + 16,
{
    ChaCha20Poly1305::new(key.into()).encrypt(&Nonce::default(), plaintext).unwrap()
}

/// Calls `ChaCha20Poly1305::decrypt` with the all-zero nonce. Claimed: the
/// result is `aead_open(key, ciphertext)`, and decryption gives back what
/// encryption under the same key sealed.
#[verifier::external_body]
fn chacha_open(key: &Bytes32, ciphertext: &[u8]) -> (r: Option<Vec<u8>>)
    ensures
        (r is Some) == (aead_open(key@, ciphertext@) is Some),
        r is Some ==> aead_open(key@, ciphertext@) == Some(r->0@),
        forall|pt: Seq<u8>| ciphertext@ == #[trigger] aead_seal(key@, pt) ==> r is Some && r->0@ == pt,
{
    ChaCha20Poly1305::new(key.into()).decrypt(&Nonce::default(), ciphertext).ok()
}

/// A viewing key: read-only authority to decrypt notes sent to its public
/// half. Handing the secret to an auditor discloses history; it cannot spend.
#[derive(Clone, Copy, Debug)]
pub struct ViewingKey {
    secret: [u8; 32],
}

/// The public half of a viewing key, part of a recipient's meta-address.
#[derive(Clone, Copy, Debug)]
pub struct ViewingPubKey {
    point: [u8; 32],
}

impl ViewingKey {
    pub closed spec fn spec_secret(self) -> Seq<u8> {
        self.secret@
    }

    /// A fresh random viewing key.
    pub fn generate() -> (r: ViewingKey)
        ensures
            r.spec_secret().len() == 32,
    {
        ViewingKey { secret: os_random_32() }
    }

    /// Derive a viewing key from 32 bytes of seed material (for example an
    /// HD-derived leaf of the wallet seed): the seed is the secret.
    pub fn from_seed(seed: [u8; 32]) -> (r: ViewingKey)
        ensures
            r.spec_secret() == seed@,
    {
        ViewingKey { secret: seed }
    }

    /// The public half.
    pub fn public(&self) -> (r: ViewingPubKey)
        ensures
            r.spec_point() == x25519_public(self.spec_secret()),
    {
        ViewingPubKey { point: x25519_public_of(&self.secret) }
    }

    /// The secret, for backup or disclosure.
    pub fn secret_bytes(&self) -> (r: [u8; 32])
        ensures
            r@ == self.spec_secret(),
    {
        self.secret
    }
}

impl ViewingPubKey {
    pub closed spec fn spec_point(self) -> Seq<u8> {
        self.point@
    }

    pub fn to_bytes(&self) -> (r: [u8; 32])
        ensures
            r@ == self.spec_point(),
    {
        self.point
    }

    pub fn from_bytes(b: [u8; 32]) -> (r: ViewingPubKey)
        ensures
            r.spec_point() == b@,
    {
        ViewingPubKey { point: b }
    }
}

/// The key derivation: `SHA-256(domain || shared)`.
fn kdf(shared: &[u8; 32]) -> (r: Bytes32)
    ensures
        r@ == note_key(shared@),
{
    let mut input: Vec<u8> = Vec::new();
    input.push(104u8);
    input.push(121u8);
    input.push(112u8);
    input.push(101u8);
    input.push(114u8);
    input.push(116u8);
    input.push(114u8);
    input.push(111u8);
    input.push(110u8);
    input.push(58u8);
    input.push(110u8);
    input.push(111u8);
    input.push(116u8);
    input.push(101u8);
    input.push(58u8);
    input.push(118u8);
    input.push(49u8);
    let mut i: usize = 0;
    while i < 32
        invariant
            i <= 32,
            input@ == kdf_domain() + shared@.subrange(0, i as int),
        decreases 32 - i,
    {
        input.push(shared[i]);
        i = i + 1;
        assert(input@ =~= kdf_domain() + shared@.subrange(0, i as int));
    }
    assert(shared@.subrange(0, 32) =~= shared@);
    sha256_digest(input.as_slice())
}

fn copy32(src: &[u8], off: usize) -> (r: [u8; 32])
    requires
        off + 32 <= src@.len(),
    ensures
        r@ == src@.subrange(off as int, off + 32),
{
    let mut buf = [0u8; 32];
    let len: usize = src.len();
    let mut i: usize = 0;
    while i < 32
        invariant
            i <= 32,
            len == src@.len(),
            off + 32 <= src@.len(),
            forall|j: int| 0 <= j < i ==> buf@[j] == src@[off + j],
        decreases 32 - i,
    {
        buf[i] = src[off + i];
        i = i + 1;
    }
    assert(buf@ =~= src@.subrange(off as int, off + 32));
    buf
}

/// Encrypt a note to a viewing public key. Returns the on-chain blob
/// `eph_pub (32) || ciphertext`; a fresh ephemeral key per note makes the
/// fixed nonce safe.
pub fn encrypt_note(recipient: &ViewingPubKey, note: &Note) -> (r: Vec<u8>)
    ensures
        exists|eph: Seq<u8>|
            eph.len() == 32 && #[trigger] x25519_public(eph).len() == 32 && r@ == sealed_to(
                recipient.spec_point(),
                eph,
                *note,
            ),
        r@.len() == 32 + 96 + 16,
{
    let eph_secret = os_random_32();
    let r = seal_note(recipient, &eph_secret, note);
    assert(x25519_public(eph_secret@).len() == 32);
    r
}

/// Seal a note to a viewing public key with a given ephemeral secret: the
/// blob `x25519_public(eph) || ChaCha20-Poly1305(SHA-256(domain || shared),
/// owner_pk || k || v)`, `shared` being the X25519 secret of `eph` and the
/// recipient's key. `encrypt_note` draws `eph` at random.
pub fn seal_note(recipient: &ViewingPubKey, eph_secret: &[u8; 32], note: &Note) -> (r: Vec<u8>)
    ensures
        r@ == sealed_to(recipient.spec_point(), eph_secret@, *note),
        x25519_public(eph_secret@).len() == 32,
        r@.len() == 32 + 96 + 16,
{
    let eph_pub = x25519_public_of(eph_secret);
    let shared = x25519_dh(eph_secret, &recipient.point);
    let key = kdf(&shared);
    let mut plaintext: Vec<u8> = Vec::new();
    let mut i: usize = 0;
    while i < 96
        invariant
            i <= 96,
            plaintext@ == note_plaintext(*note).subrange(0, i as int),
        decreases 96 - i,
    {
        let b = if i < 32 {
            note.owner_pk[i]
        } else if i < 64 {
            note.k[i - 32]
        } else {
            note.v[i - 64]
        };
        plaintext.push(b);
        i = i + 1;
        assert(plaintext@ =~= note_plaintext(*note).subrange(0, i as int));
    }
    assert(note_plaintext(*note).subrange(0, 96) =~= note_plaintext(*note));
    let ct = chacha_seal(&key, plaintext.as_slice());
    let mut blob: Vec<u8> = Vec::new();
    let mut j: usize = 0;
    while j < 32
        invariant
            j <= 32,
            blob@ == eph_pub@.subrange(0, j as int),
        decreases 32 - j,
    {
        blob.push(eph_pub[j]);
        j = j + 1;
        assert(blob@ =~= eph_pub@.subrange(0, j as int));
    }
    let mut k: usize = 0;
    while k < ct.len()
        invariant
            k <= ct@.len(),
            ct@.len() == 112,
            blob@ == eph_pub@ + ct@.subrange(0, k as int),
        decreases ct@.len() - k,
    {
        blob.push(ct[k]);
        k = k + 1;
        assert(blob@ =~= eph_pub@ + ct@.subrange(0, k as int));
    }
    proof {
        assert(eph_pub@.subrange(0, 32) =~= eph_pub@);
        assert(ct@.subrange(0, ct@.len() as int) =~= ct@);
        assert(blob@ == sealed_to(recipient.point@, eph_secret@, *note));
    }
    blob
}

/// Try to decrypt a note blob with a viewing key. A failed tag means the note
/// is not addressed to this key (the ordinary outcome while scanning). Each
/// field is reduced into the scalar field, and a blob sealed to this key's
/// public half gives back the note that was sealed.
pub fn decrypt_note(vk: &ViewingKey, blob: &[u8]) -> (r: Result<Note, CryptoError>)
    ensures
        blob@.len() < 48 ==> r == Err::<Note, CryptoError>(CryptoError::BlobTooShort),
        blob@.len() >= 48 && opened(vk.spec_secret(), blob@) is None ==> r == Err::<Note, CryptoError>(
            CryptoError::NotAddressed,
        ),
        blob@.len() >= 48 && opened(vk.spec_secret(), blob@) is Some && opened(vk.spec_secret(), blob@)->0.len()
            != 96 ==> r == Err::<Note, CryptoError>(CryptoError::BadPlaintextLength),
        blob@.len() >= 48 && opened(vk.spec_secret(), blob@) is Some && opened(vk.spec_secret(), blob@)->0.len()
            == 96 ==> (r matches Ok(n) && read_from(n, opened(vk.spec_secret(), blob@)->0)),
        forall|eph: Seq<u8>, note: Note|
            eph.len() == 32 && x25519_public(eph).len() == 32 && blob@.len() >= 48 && note.wf() && blob@
                == #[trigger] sealed_to(x25519_public(vk.spec_secret()), eph, note) ==> r == Ok::<Note, CryptoError>(
                note,
            ),
{
    if blob.len() < 48 {
        return Err(CryptoError::BlobTooShort);
    }
    let eph = copy32(blob, 0);
    let shared = x25519_dh(&vk.secret, &eph);
    let key = kdf(&shared);
    let mut ct: Vec<u8> = Vec::new();
    let mut i: usize = 32;
    while i < blob.len()
        invariant
            32 <= i <= blob@.len(),
            ct@ == blob@.subrange(32, i as int),
        decreases blob@.len() - i,
    {
        ct.push(blob[i]);
        i = i + 1;
        assert(ct@ =~= blob@.subrange(32, i as int));
    }
    let opened_pt = chacha_open(&key, ct.as_slice());
    proof {
        assert forall|e: Seq<u8>, note: Note|
            e.len() == 32 && x25519_public(e).len() == 32 && note.wf() && blob@ == #[trigger] sealed_to(
                x25519_public(vk.secret@),
                e,
                note,
            ) implies opened_pt matches Some(pt) && pt@ == note_plaintext(note) by {
            assert(eph@ =~= x25519_public(e));
            assert(ct@ =~= aead_seal(note_key(x25519(e, x25519_public(vk.secret@))), note_plaintext(note)));
        }
    }
    let pt = match opened_pt {
        Some(p) => p,
        None => {
            return Err(CryptoError::NotAddressed);
        },
    };
    if pt.len() != 96 {
        return Err(CryptoError::BadPlaintextLength);
    }
    let a = copy32(pt.as_slice(), 0);
    let b = copy32(pt.as_slice(), 32);
    let c = copy32(pt.as_slice(), 64);
    let owner_pk = fr_from_be_bytes_mod_order(a.as_slice());
    let k = fr_from_be_bytes_mod_order(b.as_slice());
    let v = fr_from_be_bytes_mod_order(c.as_slice());
    proof {
        assert forall|e: Seq<u8>, note: Note|
            e.len() == 32 && x25519_public(e).len() == 32 && note.wf() && blob@ == #[trigger] sealed_to(
                x25519_public(vk.secret@),
                e,
                note,
            ) implies owner_pk == note.owner_pk && k == note.k && v == note.v by {
            assert(pt@ == note_plaintext(note));
            assert(a@ =~= note.owner_pk@);
            assert(b@ =~= note.k@);
            assert(c@ =~= note.v@);
            lemma_reduce_canonical(note.owner_pk@, owner_pk@);
            lemma_reduce_canonical(note.k@, k@);
            lemma_reduce_canonical(note.v@, v@);
            assert(owner_pk =~= note.owner_pk);
            assert(k =~= note.k);
            assert(v =~= note.v);
        }
    }
    Ok(Note { owner_pk, k, v })
}

/// The layout of a sealed note: the 32-byte ephemeral public key, then the
/// ChaCha20-Poly1305 sealing of `owner_pk || k || v` under
/// `SHA-256("hypertron:note:v1" || X25519(eph, recipient))`.
pub proof fn law_sealed_note_layout(point: Seq<u8>, eph: Seq<u8>, note: Note)
    ensures
        sealed_to(point, eph, note) == x25519_public(eph) + aead_seal(
            sha256(
                seq![104u8, 121, 112, 101, 114, 116, 114, 111, 110, 58, 110, 111, 116, 101, 58, 118, 49]
                    + x25519(eph, point),
            ),
            note.owner_pk@ + note.k@ + note.v@,
        ),
{
}

} // verus!
