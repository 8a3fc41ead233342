use hypertron::address::{Address, AddressKind};
use hypertron::commitment::{CommitmentContract, Error, DEPTH};
use hypertron::merkle;

fn leaf(n: u8) -> [u8; 32] {
    let mut a = [0u8; 32];
    a[31] = n;
    a
}

fn authority() -> Address {
    Address::new(AddressKind::Contract, [7u8; 32])
}

fn setup() -> (CommitmentContract, Address) {
    let mut c = CommitmentContract::new();
    let a = authority();
    c.initialize(a).unwrap();
    (c, a)
}

#[test]
fn initialize_sets_empty_root() {
    let (client, _authority) = setup();
    // A fresh tree has a deterministic non-zero root and zero size.
    assert_eq!(client.size(), 0);
    let root = client.root();
    assert!(client.is_known_root(root));
}

#[test]
fn insert_returns_incrementing_indices() {
    let (mut client, authority) = setup();
    assert_eq!(client.insert(&authority, leaf(1)), Ok(0));
    assert_eq!(client.insert(&authority, leaf(2)), Ok(1));
    assert_eq!(client.insert(&authority, leaf(3)), Ok(2));
    assert_eq!(client.size(), 3);
}

#[test]
fn insert_changes_root_and_tracks_history() {
    let (mut client, authority) = setup();
    let r0 = client.root();
    client.insert(&authority, leaf(1)).unwrap();
    let r1 = client.root();
    assert_ne!(r0, r1);
    // both the old and new roots remain known (history window).
    assert!(client.is_known_root(r0));
    assert!(client.is_known_root(r1));
}

#[test]
fn duplicate_leaf_returns_error() {
    let (mut client, authority) = setup();
    client.insert(&authority, leaf(7)).unwrap();
    assert_eq!(client.insert(&authority, leaf(7)), Err(Error::DuplicateLeaf));
    assert_eq!(client.size(), 1);
}

#[test]
fn unknown_root_is_rejected() {
    let (client, _authority) = setup();
    let bogus = leaf(99);
    assert!(!client.is_known_root(bogus));
}

#[test]
fn uninitialized_tree_refuses_inserts() {
    let mut c = CommitmentContract::new();
    assert_eq!(c.insert(&authority(), leaf(1)), Err(Error::NotInitialized));
    assert!(!c.is_known_root(leaf(1)));
}

#[test]
fn double_initialize_is_rejected() {
    let (mut client, authority) = setup();
    assert_eq!(client.initialize(authority), Err(Error::AlreadyInitialized));
}

#[test]
fn empty_root_is_the_zero_subtree_root() {
    let (client, _a) = setup();
    let zeros = merkle::zeros(DEPTH as usize);
    assert_eq!(client.root(), zeros[DEPTH as usize]);
}

#[test]
fn contract_root_matches_offchain_root_and_paths() {
    let (mut client, authority) = setup();
    let leaves: Vec<[u8; 32]> = (1..=5u8).map(leaf).collect();
    for l in &leaves {
        client.insert(&authority, *l).unwrap();
    }
    let root = merkle::root(&leaves, DEPTH as usize);
    assert_eq!(client.root(), root);
    let (path_root, siblings, bits) = merkle::path(&leaves, 3, DEPTH as usize);
    assert_eq!(path_root, root);
    assert_eq!(siblings.len(), DEPTH as usize);
    // Position 3 is the right child at level 0 and at level 1.
    assert!(bits[0]);
    assert!(bits[1]);
    assert!(!bits[2]);
    assert_eq!(siblings[0], leaves[2]);
}

#[test]
fn roots_stay_known_for_the_history_window() {
    let (mut client, authority) = setup();
    let r0 = client.root();
    for n in 1..=31u8 {
        client.insert(&authority, leaf(n)).unwrap();
    }
    // 31 insertions later the first root is still among the last 32.
    assert!(client.is_known_root(r0));
    client.insert(&authority, leaf(32)).unwrap();
    // One more pushes it out of the window.
    assert!(!client.is_known_root(r0));
    assert!(client.is_known_root(client.root()));
}
