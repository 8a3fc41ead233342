use hypertron::crypto::{decrypt_note, encrypt_note, seal_note, CryptoError, ViewingKey, ViewingPubKey};
use hypertron::note::Note;

fn fe(n: u64) -> [u8; 32] {
    let mut a = [0u8; 32];
    a[24..].copy_from_slice(&n.to_be_bytes());
    a
}

#[test]
fn encrypt_decrypt_roundtrip() {
    let vk = ViewingKey::generate();
    let note = Note::new(fe(11), fe(22), fe(1_000));
    let blob = encrypt_note(&vk.public(), &note);
    let got = decrypt_note(&vk, &blob).unwrap();
    assert_eq!(got, note);
}

#[test]
fn wrong_viewing_key_fails() {
    let vk = ViewingKey::generate();
    let other = ViewingKey::generate();
    let note = Note::new(fe(1), fe(2), fe(3));
    let blob = encrypt_note(&vk.public(), &note);
    assert!(decrypt_note(&other, &blob).is_err());
}

#[test]
fn seeded_keys_are_deterministic() {
    let a = ViewingKey::from_seed([5u8; 32]);
    let b = ViewingKey::from_seed([5u8; 32]);
    assert_eq!(a.secret_bytes(), [5u8; 32]);
    assert_eq!(a.public().to_bytes(), b.public().to_bytes());
    let p = ViewingPubKey::from_bytes(a.public().to_bytes());
    let note = Note::new(fe(7), fe(8), fe(9));
    let blob = encrypt_note(&p, &note);
    assert_eq!(blob.len(), 32 + 96 + 16);
    assert_eq!(decrypt_note(&b, &blob), Ok(note));
}

#[test]
fn short_and_tampered_blobs_are_refused() {
    let vk = ViewingKey::from_seed([1u8; 32]);
    assert_eq!(decrypt_note(&vk, &[0u8; 47]), Err(CryptoError::BlobTooShort));
    let note = Note::new(fe(1), fe(2), fe(3));
    let mut blob = encrypt_note(&vk.public(), &note);
    let last = blob.len() - 1;
    blob[last] ^= 1;
    assert_eq!(decrypt_note(&vk, &blob), Err(CryptoError::NotAddressed));
}

#[test]
fn fresh_ephemeral_key_per_note() {
    let vk = ViewingKey::from_seed([2u8; 32]);
    let note = Note::new(fe(1), fe(2), fe(3));
    let b1 = encrypt_note(&vk.public(), &note);
    let b2 = encrypt_note(&vk.public(), &note);
    assert_ne!(b1, b2);
}

#[test]
fn seal_note_is_fixed_by_its_ephemeral_secret() {
    let vk = ViewingKey::from_seed([5u8; 32]);
    let note = Note::new(fe(11), fe(22), fe(1_000));
    let eph = [7u8; 32];
    let a = seal_note(&vk.public(), &eph, &note);
    let b = seal_note(&vk.public(), &eph, &note);
    assert_eq!(a, b);
    assert_eq!(a.len(), 144);
    // The blob starts with the ephemeral public key.
    assert_eq!(&a[..32], &ViewingKey::from_seed(eph).public().to_bytes()[..]);
    assert_eq!(decrypt_note(&vk, &a), Ok(note));
    // Another ephemeral secret gives another blob.
    assert_ne!(seal_note(&vk.public(), &[8u8; 32], &note), a);
}
