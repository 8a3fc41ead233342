use hypertron::address::{Address, AddressKind};
use hypertron::nullifier::{Error, NullifierContract};

fn nf(n: u8) -> [u8; 32] {
    let mut a = [0u8; 32];
    a[31] = n;
    a
}

fn setup() -> (NullifierContract, Address) {
    let authority = Address::new(AddressKind::Contract, [3u8; 32]);
    let mut client = NullifierContract::new();
    client.initialize(authority).unwrap();
    (client, authority)
}

#[test]
fn unspent_by_default() {
    let (client, _a) = setup();
    assert!(!client.is_spent(nf(1)));
}

#[test]
fn mark_then_spent() {
    let (mut client, a) = setup();
    client.mark_spent(&a, nf(1)).unwrap();
    assert!(client.is_spent(nf(1)));
}

#[test]
fn double_spend_returns_error() {
    let (mut client, a) = setup();
    client.mark_spent(&a, nf(5)).unwrap();
    assert_eq!(client.mark_spent(&a, nf(5)), Err(Error::AlreadySpent));
    assert!(client.is_spent(nf(5)));
    assert!(!client.is_spent(nf(6)));
}

#[test]
fn marking_before_initialize_is_rejected() {
    let mut client = NullifierContract::new();
    let a = Address::new(AddressKind::Contract, [3u8; 32]);
    assert_eq!(client.mark_spent(&a, nf(1)), Err(Error::NotInitialized));
    assert!(!client.is_spent(nf(1)));
}
