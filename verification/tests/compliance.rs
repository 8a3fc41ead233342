use hypertron::address::{Address, AddressKind};
use hypertron::compliance::{ComplianceContract, Error};

fn addr(n: u8) -> Address {
    Address::new(AddressKind::Account, [n; 32])
}

fn setup(default_allow: bool) -> (ComplianceContract, Address) {
    let admin = addr(1);
    let mut client = ComplianceContract::new();
    client.initialize(admin, default_allow).unwrap();
    (client, admin)
}

#[test]
fn allowlist_blocks_by_default_and_permits_listed() {
    let (mut client, admin) = setup(false); // allowlist
    let user = addr(2);
    assert!(!client.is_allowed(user));
    client.set_listed(&admin, user, true).unwrap();
    assert!(client.is_allowed(user));
    client.set_listed(&admin, user, false).unwrap();
    assert!(!client.is_allowed(user));
}

#[test]
fn denylist_allows_by_default_and_blocks_listed() {
    let (mut client, admin) = setup(true); // denylist
    let user = addr(2);
    assert!(client.is_allowed(user));
    client.set_listed(&admin, user, true).unwrap();
    assert!(!client.is_allowed(user));
}

#[test]
fn double_initialize_rejected() {
    let (mut client, admin) = setup(false);
    let res = client.initialize(admin, false);
    assert!(res.is_err());
    assert_eq!(res, Err(Error::AlreadyInitialized));
}

#[test]
fn listing_before_initialize_is_rejected() {
    let mut client = ComplianceContract::new();
    assert_eq!(client.set_listed(&addr(1), addr(2), true), Err(Error::NotInitialized));
    // An unconfigured policy lets everyone through.
    assert!(client.is_allowed(addr(2)));
}

#[test]
fn relisting_is_idempotent_and_other_accounts_unaffected() {
    let (mut client, admin) = setup(false);
    client.set_listed(&admin, addr(2), true).unwrap();
    client.set_listed(&admin, addr(2), true).unwrap();
    assert!(client.is_allowed(addr(2)));
    assert!(!client.is_allowed(addr(3)));
    client.set_listed(&admin, addr(2), false).unwrap();
    assert!(!client.is_allowed(addr(2)));
}
