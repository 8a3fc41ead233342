//! Ledger addresses: a Stellar account (ed25519 public key) or a contract
//! (32-byte contract id).

use crate::field::{bytes32_eq, Bytes32};
use stellar_xdr::{AccountId, ContractId, Limits, PublicKey, ScAddress, ScVal, Uint256, WriteXdr};
use vstd::prelude::*;

verus! {

/// Which kind of ledger entity an address names.
#[derive(Clone, Copy, Debug, PartialEq, Eq)]
pub enum AddressKind {
    Account,
    Contract,
}

/// A ledger address.
#[derive(Clone, Copy, Debug, PartialEq, Eq)]
pub struct Address {
    pub kind: AddressKind,
    pub key: Bytes32,
}

impl Address {
    pub fn new(kind: AddressKind, key: Bytes32) -> (r: Address)
        ensures
            r.kind == kind,
            r.key == key,
    {
        Address { kind, key }
    }

    /// Whether two addresses name the same entity.
    pub fn same(&self, other: &Address) -> (r: bool)
        ensures
            r == (*self == *other),
    {
        let kinds = match (self.kind, other.kind) {
            (AddressKind::Account, AddressKind::Account) => true,
            (AddressKind::Contract, AddressKind::Contract) => true,
            _ => false,
        };
        let keys = bytes32_eq(&self.key, &other.key);
        proof {
            if keys {
                assert(self.key =~= other.key);
            }
        }
        kinds && keys
    }
}

/// The XDR of an address as a contract value (`ScVal::Address`): the value
/// tag 18, the address tag (0 account, 1 contract), for an account the key
/// type tag 0 (ed25519), then the 32-byte key.
pub open spec fn address_xdr(a: Address) -> Seq<u8> {
    match a.kind {
        AddressKind::Account => seq![0u8, 0, 0, 18, 0, 0, 0, 0, 0, 0, 0, 0] + a.key@,
        AddressKind::Contract => seq![0u8, 0, 0, 18, 0, 0, 0, 1] + a.key@,
    }
}

/// Calls `WriteXdr::to_xdr` on the `ScVal::Address` of `a` (the bytes the
/// host's `to_xdr` produces for an address). Claimed: the XDR layout above;
/// the write cannot fail without limits.
#[verifier::external_body]
pub(crate) fn xdr_of_address(a: &Address) -> (r: Vec<u8>)
    ensures
        r@ == address_xdr(*a),
{
    let sc = match a.kind {
        AddressKind::Account => ScAddress::Account(AccountId(PublicKey::PublicKeyTypeEd25519(Uint256(a.key)))),
        AddressKind::Contract => ScAddress::Contract(ContractId(stellar_xdr::Hash(a.key))),
    };
    ScVal::Address(sc).to_xdr(Limits::none()).unwrap()
}

} // verus!
