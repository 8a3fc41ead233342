//! The shielded pool: the composition of the commitment tree, the nullifier
//! registry, the proof verifier, the optional exit policy and the token.
//!
//! Notes are value-committed: `cm = Poseidon(Poseidon(owner_pk, k), v)`. Each
//! flow is backed by its own verifying key, so value cannot be minted:
//!
//! - `deposit` (shield): pull tokens in after a proof that the commitment
//!   opens to `amount`;
//! - `unshield` (exit): membership + nullifier + `v = amount + change`, pay a
//!   public recipient, re-insert the change note, attest;
//! - `transfer` / `transfer_n`: fully private, spend one (or two or four)
//!   notes into two new ones.
//!
//! Every validation runs before any state change, so a call that returns an
//! error leaves the pool exactly as it was.

use crate::address::{address_xdr, xdr_of_address, Address};
use crate::commitment::{is_recent_root, CommitmentContract, CAPACITY};
use crate::compliance::ComplianceApi;
use crate::curve::scalar_values;
use crate::digest::{sha256, sha256_digest};
use crate::field::{amount_field, be_nat, bytes32_eq, is_canonical, is_fe, Bytes32};
use crate::nullifier::NullifierContract;
use crate::proof_verifier::VerifierApi;
use crate::token::TokenLedger;
use vstd::prelude::*;

verus! {

#[derive(Clone, Copy, Debug, PartialEq, Eq)]
pub enum Error {
    AlreadyInitialized,
    NotInitialized,
    UnknownRoot,
    NullifierAlreadySpent,
    InvalidProof,
    InvalidAmount,
    UnsupportedLevelClaim,
    RecipientNotAllowed,
    /// A multi-input transfer names the same nullifier twice.
    DuplicateNullifier,
    /// A multi-input transfer spends a number of notes no key is registered for.
    UnsupportedArity,
}

/// The leakage dimensions the protocol reasons about. A payment may only
/// claim a dimension the mechanism actually backs.
#[derive(Clone, Copy, Debug, PartialEq, Eq)]
pub struct PrivacyLevel {
    pub sender: bool,
    pub receiver: bool,
    pub amount: bool,
    pub timing: bool,
    pub linkability: bool,
}

/// An on-chain statement of exactly which leaks a payment closed, emitted only
/// after the contract confirmed the claim is backed.
#[derive(Clone, Copy, Debug, PartialEq, Eq)]
pub struct PrivacyAttestation {
    pub level: PrivacyLevel,
    pub vk_id: u32,
    pub root: Bytes32,
}

/// Emitted on a shielded deposit.
#[derive(Clone, Copy, Debug, PartialEq, Eq)]
pub struct Deposited {
    pub index: u32,
    pub amount: i128,
}

/// Emitted on a shielded exit; `change_index` is the leaf position of the
/// change note re-inserted into the pool.
#[derive(Clone, Copy, Debug, PartialEq, Eq)]
pub struct Unshielded {
    pub nullifier: Bytes32,
    pub amount: i128,
    pub change_index: u32,
}

/// Emitted on a fully-private transfer: the two new commitment indices and
/// their encrypted payloads, so recipients can discover notes by scanning.
#[derive(Clone, Debug)]
pub struct PrivateTransfer {
    pub nullifier: Bytes32,
    pub out_index_1: u32,
    pub out_index_2: u32,
    pub note_1: Vec<u8>,
    pub note_2: Vec<u8>,
}

/// Emitted on a multi-input private transfer.
#[derive(Clone, Debug)]
pub struct PrivateTransferN {
    pub nullifiers: Vec<Bytes32>,
    pub out_index_1: u32,
    pub out_index_2: u32,
    pub note_1: Vec<u8>,
    pub note_2: Vec<u8>,
}

/// The verifiable privacy attestation, emitted after a successful exit.
#[derive(Clone, Copy, Debug, PartialEq, Eq)]
pub struct PrivacyAttested {
    pub attestation: PrivacyAttestation,
}

/// Everything the pool publishes.
#[derive(Clone, Debug)]
pub enum PoolEvent {
    Deposited(Deposited),
    Unshielded(Unshielded),
    PrivateTransfer(PrivateTransfer),
    PrivateTransferN(PrivateTransferN),
    PrivacyAttested(PrivacyAttested),
}

/// The pool's wiring and verifying-key ids, one per circuit.
#[derive(Clone, Copy, Debug, PartialEq, Eq)]
pub struct Config {
    pub token: Address,
    pub commitment: Address,
    pub nullifier: Address,
    pub verifier: Address,
    pub deposit_vk_id: u32,
    pub unshield_vk_id: u32,
    pub transfer_vk_id: u32,
    pub transfer_2in_vk_id: u32,
    pub transfer_4in_vk_id: u32,
    /// Optional exit-time policy (compliance hook).
    pub compliance: Option<Address>,
}

/// The pool and the component contracts it calls.
///
/// The proof backend `V` and the exit policy `P` are pluggable: the pool
/// reaches them only through `VerifierApi` and `ComplianceApi`, and every
/// contract and law of the pool holds for any verifier and policy that keep
/// those interfaces (`VerifierContract` and `ComplianceContract` are the
/// ones shipped). The pool holds its components directly; the addresses in
/// `Config` are recorded as given, and a `compliance` entry of `None`
/// switches the exit policy off.
pub struct TransferContract<V, P> {
    /// The pool's own address (the authority of the tree and the registry,
    /// and the holder of pooled tokens).
    address: Address,
    config: Option<Config>,
    commitment: CommitmentContract,
    nullifier: NullifierContract,
    verifier: V,
    /// Consulted at exit only when the configuration names a policy.
    compliance: P,
    token: TokenLedger,
    events: Vec<PoolEvent>,
}

/// Public inputs of the deposit circuit: `[cm, amount]`.
pub open spec fn deposit_inputs(commitment: Bytes32, amount: i128) -> Seq<nat> {
    seq![be_nat(commitment@), amount as nat]
}

/// The field element a recipient is bound as: `sha256(xdr(address))`, read
/// big-endian by the verifier.
pub open spec fn recipient_input(recipient: Address) -> nat {
    be_nat(sha256(address_xdr(recipient)))
}

/// Public inputs of the unshield circuit:
/// `[root, nullifier, recipient, amount, change_cm]`.
pub open spec fn unshield_inputs(
    root: Bytes32,
    nullifier: Bytes32,
    recipient: Address,
    amount: i128,
    change: Bytes32,
) -> Seq<nat> {
    seq![be_nat(root@), be_nat(nullifier@), recipient_input(recipient), amount as nat, be_nat(change@)]
}

/// Public inputs of the 1-in transfer circuit: `[root, nullifier, out_cm1, out_cm2]`.
pub open spec fn transfer_inputs(root: Bytes32, nullifier: Bytes32, out1: Bytes32, out2: Bytes32) -> Seq<nat> {
    seq![be_nat(root@), be_nat(nullifier@), be_nat(out1@), be_nat(out2@)]
}

/// Public inputs of the N-in transfer circuit:
/// `[root, nf_1, .., nf_N, out_cm1, out_cm2]`.
pub open spec fn transfer_n_inputs(root: Bytes32, nullifiers: Seq<Bytes32>, out1: Bytes32, out2: Bytes32) -> Seq<nat> {
    seq![be_nat(root@)] + nullifiers.map_values(|x: Bytes32| be_nat(x@)) + seq![be_nat(out1@), be_nat(out2@)]
}

/// The attestation of an exit: sender and linkability are always closed by
/// the pool, timing never is, receiver and amount are as claimed.
pub open spec fn attestation_for(claim: PrivacyLevel, vk_id: u32, root: Bytes32) -> PrivacyAttestation {
    PrivacyAttestation {
        level: PrivacyLevel {
            sender: true,
            receiver: claim.receiver,
            amount: claim.amount,
            timing: false,
            linkability: true,
        },
        vk_id,
        root,
    }
}

/// None of `items` occurs in `set`.
pub open spec fn none_in(items: Seq<Bytes32>, set: Seq<Bytes32>) -> bool {
    forall|i: int| 0 <= i < items.len() ==> !set.contains(#[trigger] items[i])
}

impl<V: VerifierApi, P: ComplianceApi> TransferContract<V, P> {
    /// The deployment invariant: components well formed, and the tree and the
    /// registry take orders from the pool only.
    pub closed spec fn wf(self) -> bool {
        &&& self.commitment.wf()
        &&& self.nullifier.wf()
        &&& self.verifier.verifier_wf()
        &&& self.compliance.policy_wf()
        &&& self.token.wf()
        &&& self.commitment.spec_authority() == Some(self.address)
        &&& self.nullifier.spec_authority() == Some(self.address)
    }

    pub closed spec fn spec_address(self) -> Address {
        self.address
    }

    pub closed spec fn spec_config(self) -> Option<Config> {
        self.config
    }

    pub closed spec fn spec_commitment(self) -> CommitmentContract {
        self.commitment
    }

    pub closed spec fn spec_nullifier(self) -> NullifierContract {
        self.nullifier
    }

    pub closed spec fn spec_verifier(self) -> V {
        self.verifier
    }

    pub closed spec fn spec_compliance(self) -> P {
        self.compliance
    }

    pub closed spec fn spec_token(self) -> TokenLedger {
        self.token
    }

    pub closed spec fn spec_events(self) -> Seq<PoolEvent> {
        self.events@
    }

    /// The note commitments in the tree, in insertion order.
    pub open spec fn leaves(self) -> Seq<Bytes32> {
        self.spec_commitment().spec_leaves()
    }

    /// The spent nullifiers, in spending order.
    pub open spec fn spent(self) -> Seq<Bytes32> {
        self.spec_nullifier().spec_spent()
    }

    /// `a`'s token balance.
    pub open spec fn balance_of(self, a: Address) -> int {
        self.spec_token().balance_of(a)
    }

    /// `root` is one of the tree's recent roots.
    pub open spec fn known_root(self, root: Bytes32) -> bool {
        is_recent_root(self.leaves(), root@)
    }

    /// The exit policy admits `a`.
    pub open spec fn exit_allowed(self, a: Address) -> bool {
        self.spec_compliance().admits(a)
    }

    /// The verifier answers the call (it reads every point and returns a
    /// verdict rather than an error).
    pub open spec fn answers(self, vk_id: u32, proof: Seq<u8>, inputs: Seq<nat>) -> bool {
        &&& self.spec_verifier().verify_runs(vk_id, proof, inputs)
        &&& self.spec_verifier().verify_outcome(vk_id, proof, inputs) is Ok
    }

    /// The verifier accepts the proof.
    pub open spec fn accepts(self, vk_id: u32, proof: Seq<u8>, inputs: Seq<nat>) -> bool {
        self.spec_verifier().verify_outcome(vk_id, proof, inputs) == Ok::<bool, crate::proof_verifier::Error>(true)
    }

    /// What an operation leaves alone besides the tree, the registry, the
    /// balances and the events.
    pub open spec fn same_wiring(self, other: TransferContract<V, P>) -> bool {
        &&& other.spec_address() == self.spec_address()
        &&& other.spec_config() == self.spec_config()
        &&& other.spec_verifier() == self.spec_verifier()
        &&& other.spec_compliance() == self.spec_compliance()
    }

    /// Every balance is the same in `other`.
    pub open spec fn same_balances(self, other: TransferContract<V, P>) -> bool {
        forall|a: Address| #[trigger] other.balance_of(a) == self.balance_of(a)
    }

    /// `other`'s balances are these, with `amount` moved from `from` to `to`.
    pub open spec fn moved(self, other: TransferContract<V, P>, from: Address, to: Address, amount: int) -> bool {
        if from == to {
            self.same_balances(other)
        } else {
            &&& other.balance_of(from) == self.balance_of(from) - amount
            &&& other.balance_of(to) == self.balance_of(to) + amount
            &&& forall|a: Address| a != from && a != to ==> #[trigger] other.balance_of(a) == self.balance_of(a)
        }
    }

    /// `leaf` can be inserted: new, canonical, and the tree has room.
    pub open spec fn can_insert(self, leaf: Bytes32) -> bool {
        &&& !self.leaves().contains(leaf)
        &&& self.leaves().len() < CAPACITY
        &&& is_fe(leaf@)
    }

    /// The pool can pay `amount` to `to`.
    pub open spec fn can_pay(self, from: Address, to: Address, amount: int) -> bool {
        &&& 0 <= amount <= self.balance_of(from)
        &&& from != to ==> self.balance_of(to) + amount <= i128::MAX
    }

    // ---- deposit ----

    /// The validations of `deposit` before the proof check.
    pub open spec fn deposit_precheck(self, amount: i128) -> Result<(), Error> {
        if amount <= 0 {
            Err(Error::InvalidAmount)
        } else if self.spec_config() is None {
            Err(Error::NotInitialized)
        } else {
            Ok(())
        }
    }

    /// Every validation of `deposit`, in order.
    pub open spec fn deposit_check(self, amount: i128, commitment: Bytes32, proof: Seq<u8>) -> Result<(), Error> {
        match self.deposit_precheck(amount) {
            Err(e) => Err(e),
            Ok(_) => if self.accepts(self.spec_config()->0.deposit_vk_id, proof, deposit_inputs(commitment, amount)) {
                Ok(())
            } else {
                Err(Error::InvalidProof)
            },
        }
    }

    /// `deposit` runs to completion: the verifier answers, and a validated
    /// deposit can pull the tokens and insert the commitment.
    pub open spec fn deposit_runs(self, from: Address, amount: i128, commitment: Bytes32, proof: Seq<u8>) -> bool {
        &&& self.deposit_precheck(amount) is Ok ==> self.answers(
            self.spec_config()->0.deposit_vk_id,
            proof,
            deposit_inputs(commitment, amount),
        )
        &&& self.deposit_check(amount, commitment, proof) is Ok ==> {
            &&& self.can_pay(from, self.spec_address(), amount as int)
            &&& self.can_insert(commitment)
        }
    }

    /// Two distinct new canonical leaves fit in the tree.
    pub open spec fn can_insert_two(self, out1: Bytes32, out2: Bytes32) -> bool {
        &&& !self.leaves().contains(out1)
        &&& !self.leaves().contains(out2)
        &&& out1 != out2
        &&& self.leaves().len() + 2 <= CAPACITY
        &&& is_fe(out1@)
        &&& is_fe(out2@)
    }

    // ---- unshield ----

    /// The validations of `unshield` before the proof check, in order.
    pub open spec fn unshield_precheck(
        self,
        root: Bytes32,
        nullifier: Bytes32,
        recipient: Address,
        amount: i128,
        claim: PrivacyLevel,
    ) -> Result<(), Error> {
        if amount <= 0 {
            Err(Error::InvalidAmount)
        } else if claim.timing {
            Err(Error::UnsupportedLevelClaim)
        } else if self.spec_config() is None {
            Err(Error::NotInitialized)
        } else if self.spec_config()->0.compliance is Some && !self.exit_allowed(recipient) {
            Err(Error::RecipientNotAllowed)
        } else if !self.known_root(root) {
            Err(Error::UnknownRoot)
        } else if self.spent().contains(nullifier) {
            Err(Error::NullifierAlreadySpent)
        } else {
            Ok(())
        }
    }

    /// Every validation of `unshield`, in order.
    pub open spec fn unshield_check(
        self,
        proof: Seq<u8>,
        root: Bytes32,
        nullifier: Bytes32,
        recipient: Address,
        amount: i128,
        change: Bytes32,
        claim: PrivacyLevel,
    ) -> Result<(), Error> {
        match self.unshield_precheck(root, nullifier, recipient, amount, claim) {
            Err(e) => Err(e),
            Ok(_) => if self.accepts(
                self.spec_config()->0.unshield_vk_id,
                proof,
                unshield_inputs(root, nullifier, recipient, amount, change),
            ) {
                Ok(())
            } else {
                Err(Error::InvalidProof)
            },
        }
    }

    /// `unshield` runs to completion: the verifier answers, and a validated
    /// exit can re-insert the change and pay the recipient.
    pub open spec fn unshield_runs(
        self,
        proof: Seq<u8>,
        root: Bytes32,
        nullifier: Bytes32,
        recipient: Address,
        amount: i128,
        change: Bytes32,
        claim: PrivacyLevel,
    ) -> bool {
        &&& self.unshield_precheck(root, nullifier, recipient, amount, claim) is Ok ==> self.answers(
            self.spec_config()->0.unshield_vk_id,
            proof,
            unshield_inputs(root, nullifier, recipient, amount, change),
        )
        &&& self.unshield_check(proof, root, nullifier, recipient, amount, change, claim) is Ok ==> {
            &&& self.can_insert(change)
            &&& self.can_pay(self.spec_address(), recipient, amount as int)
        }
    }

    // ---- transfer ----

    /// The validations of `transfer` before the proof check, in order.
    pub open spec fn transfer_precheck(self, root: Bytes32, nullifier: Bytes32) -> Result<(), Error> {
        if self.spec_config() is None {
            Err(Error::NotInitialized)
        } else if !self.known_root(root) {
            Err(Error::UnknownRoot)
        } else if self.spent().contains(nullifier) {
            Err(Error::NullifierAlreadySpent)
        } else {
            Ok(())
        }
    }

    /// Every validation of `transfer`, in order.
    pub open spec fn transfer_check(
        self,
        proof: Seq<u8>,
        root: Bytes32,
        nullifier: Bytes32,
        out1: Bytes32,
        out2: Bytes32,
    ) -> Result<(), Error> {
        match self.transfer_precheck(root, nullifier) {
            Err(e) => Err(e),
            Ok(_) => if self.accepts(
                self.spec_config()->0.transfer_vk_id,
                proof,
                transfer_inputs(root, nullifier, out1, out2),
            ) {
                Ok(())
            } else {
                Err(Error::InvalidProof)
            },
        }
    }

    /// `transfer` runs to completion.
    pub open spec fn transfer_runs(
        self,
        proof: Seq<u8>,
        root: Bytes32,
        nullifier: Bytes32,
        out1: Bytes32,
        out2: Bytes32,
    ) -> bool {
        &&& self.transfer_precheck(root, nullifier) is Ok ==> self.answers(
            self.spec_config()->0.transfer_vk_id,
            proof,
            transfer_inputs(root, nullifier, out1, out2),
        )
        &&& self.transfer_check(proof, root, nullifier, out1, out2) is Ok ==> self.can_insert_two(out1, out2)
    }

    // ---- transfer_n ----

    /// The key of the N-input circuit.
    pub open spec fn transfer_n_vk(self, n: nat) -> u32 {
        if n == 2 {
            self.spec_config()->0.transfer_2in_vk_id
        } else {
            self.spec_config()->0.transfer_4in_vk_id
        }
    }

    /// The validations of `transfer_n` before the proof check, in order.
    pub open spec fn transfer_n_precheck(self, root: Bytes32, nullifiers: Seq<Bytes32>) -> Result<(), Error> {
        if self.spec_config() is None {
            Err(Error::NotInitialized)
        } else if nullifiers.len() != 2 && nullifiers.len() != 4 {
            Err(Error::UnsupportedArity)
        } else if !nullifiers.no_duplicates() {
            Err(Error::DuplicateNullifier)
        } else if !self.known_root(root) {
            Err(Error::UnknownRoot)
        } else if !none_in(nullifiers, self.spent()) {
            Err(Error::NullifierAlreadySpent)
        } else {
            Ok(())
        }
    }

    /// Every validation of `transfer_n`, in order.
    pub open spec fn transfer_n_check(
        self,
        proof: Seq<u8>,
        root: Bytes32,
        nullifiers: Seq<Bytes32>,
        out1: Bytes32,
        out2: Bytes32,
    ) -> Result<(), Error> {
        match self.transfer_n_precheck(root, nullifiers) {
            Err(e) => Err(e),
            Ok(_) => if self.accepts(
                self.transfer_n_vk(nullifiers.len()),
                proof,
                transfer_n_inputs(root, nullifiers, out1, out2),
            ) {
                Ok(())
            } else {
                Err(Error::InvalidProof)
            },
        }
    }

    /// `transfer_n` runs to completion.
    pub open spec fn transfer_n_runs(
        self,
        proof: Seq<u8>,
        root: Bytes32,
        nullifiers: Seq<Bytes32>,
        out1: Bytes32,
        out2: Bytes32,
    ) -> bool {
        &&& self.transfer_n_precheck(root, nullifiers) is Ok ==> self.answers(
            self.transfer_n_vk(nullifiers.len()),
            proof,
            transfer_n_inputs(root, nullifiers, out1, out2),
        )
        &&& self.transfer_n_check(proof, root, nullifiers, out1, out2) is Ok ==> self.can_insert_two(out1, out2)
    }

    /// What `deposit` leaves and returns: an error changes nothing and is the
    /// first failed validation; otherwise the tokens moved from `from` to the
    /// pool, the commitment is the next leaf, and `Deposited` is published.
    pub open spec fn deposit_done(
        self,
        after: TransferContract<V, P>,
        from: Address,
        amount: i128,
        commitment: Bytes32,
        proof: Seq<u8>,
        r: Result<u32, Error>,
    ) -> bool {
        &&& r is Err ==> after == self
        &&& self.deposit_check(amount, commitment, proof) matches Err(e) ==> r == Err::<u32, Error>(e)
        &&& self.deposit_check(amount, commitment, proof) is Ok ==> {
            let index = self.leaves().len() as u32;
            &&& r == Ok::<u32, Error>(index)
            &&& after.leaves() == self.leaves().push(commitment)
            &&& after.spent() == self.spent()
            &&& self.moved(after, from, self.spec_address(), amount as int)
            &&& after.spec_events() == self.spec_events().push(PoolEvent::Deposited(Deposited { index, amount }))
            &&& self.same_wiring(after)
        }
    }

    /// What `unshield` leaves and returns: an error changes nothing and is
    /// the first failed validation; otherwise the nullifier is spent, the
    /// change is the next leaf, `amount` moved from the pool to `recipient`,
    /// and `Unshielded` then `PrivacyAttested` are published.
    pub open spec fn unshield_done(
        self,
        after: TransferContract<V, P>,
        proof: Seq<u8>,
        root: Bytes32,
        nullifier: Bytes32,
        recipient: Address,
        amount: i128,
        change: Bytes32,
        claim: PrivacyLevel,
        r: Result<PrivacyAttestation, Error>,
    ) -> bool {
        &&& r is Err ==> after == self
        &&& self.unshield_check(proof, root, nullifier, recipient, amount, change, claim) matches Err(e) ==> r
            == Err::<PrivacyAttestation, Error>(e)
        &&& self.unshield_check(proof, root, nullifier, recipient, amount, change, claim) is Ok ==> {
            let change_index = self.leaves().len() as u32;
            let att = attestation_for(claim, self.spec_config()->0.unshield_vk_id, root);
            &&& r == Ok::<PrivacyAttestation, Error>(att)
            &&& after.spent() == self.spent().push(nullifier)
            &&& after.leaves() == self.leaves().push(change)
            &&& self.moved(after, self.spec_address(), recipient, amount as int)
            &&& after.spec_events() == self.spec_events().push(
                PoolEvent::Unshielded(Unshielded { nullifier, amount, change_index }),
            ).push(PoolEvent::PrivacyAttested(PrivacyAttested { attestation: att }))
            &&& self.same_wiring(after)
        }
    }

    /// What `transfer` leaves and returns: an error changes nothing and is the
    /// first failed validation; otherwise the nullifier is spent, the two
    /// outputs are the next leaves, no balance moves, and `PrivateTransfer` is
    /// published.
    pub open spec fn transfer_done(
        self,
        after: TransferContract<V, P>,
        proof: Seq<u8>,
        root: Bytes32,
        nullifier: Bytes32,
        out1: Bytes32,
        out2: Bytes32,
        note_1: Seq<u8>,
        note_2: Seq<u8>,
        r: Result<(), Error>,
    ) -> bool {
        &&& r is Err ==> after == self
        &&& self.transfer_check(proof, root, nullifier, out1, out2) matches Err(e) ==> r == Err::<(), Error>(e)
        &&& self.transfer_check(proof, root, nullifier, out1, out2) is Ok ==> {
            let i1 = self.leaves().len() as u32;
            let i2 = (self.leaves().len() + 1) as u32;
            &&& r == Ok::<(), Error>(())
            &&& after.spent() == self.spent().push(nullifier)
            &&& after.leaves() == self.leaves().push(out1).push(out2)
            &&& self.same_balances(after)
            &&& after.spec_events().len() == self.spec_events().len() + 1
            &&& after.spec_events().drop_last() == self.spec_events()
            &&& after.spec_events().last() matches PoolEvent::PrivateTransfer(ev) && ev.nullifier == nullifier
                && ev.out_index_1 == i1 && ev.out_index_2 == i2 && ev.note_1@ == note_1 && ev.note_2@ == note_2
            &&& self.same_wiring(after)
        }
    }

    /// What `transfer_n` leaves and returns: an error changes nothing and is
    /// the first failed validation; otherwise every nullifier is spent in
    /// order, the two outputs are the next leaves, no balance moves, and
    /// `PrivateTransferN` is published.
    pub open spec fn transfer_n_done(
        self,
        after: TransferContract<V, P>,
        proof: Seq<u8>,
        root: Bytes32,
        nullifiers: Seq<Bytes32>,
        out1: Bytes32,
        out2: Bytes32,
        note_1: Seq<u8>,
        note_2: Seq<u8>,
        r: Result<(), Error>,
    ) -> bool {
        &&& r is Err ==> after == self
        &&& self.transfer_n_check(proof, root, nullifiers, out1, out2) matches Err(e) ==> r == Err::<(), Error>(e)
        &&& self.transfer_n_check(proof, root, nullifiers, out1, out2) is Ok ==> {
            let i1 = self.leaves().len() as u32;
            let i2 = (self.leaves().len() + 1) as u32;
            &&& r == Ok::<(), Error>(())
            &&& after.spent() == self.spent() + nullifiers
            &&& after.leaves() == self.leaves().push(out1).push(out2)
            &&& self.same_balances(after)
            &&& after.spec_events().len() == self.spec_events().len() + 1
            &&& after.spec_events().drop_last() == self.spec_events()
            &&& after.spec_events().last() matches PoolEvent::PrivateTransferN(ev) && ev.nullifiers@ == nullifiers
                && ev.out_index_1 == i1 && ev.out_index_2 == i2 && ev.note_1@ == note_1 && ev.note_2@ == note_2
            &&& self.same_wiring(after)
        }
    }

    /// What `get_config` returns: the stored configuration, or
    /// `NotInitialized` before `initialize`.
    pub open spec fn config_result(self) -> Result<Config, Error> {
        match self.spec_config() {
            Some(c) => Ok(c),
            None => Err(Error::NotInitialized),
        }
    }

    /// What `initialize` leaves and returns: the configuration is stored
    /// once; a second call is refused and changes nothing. Nothing else
    /// changes either way.
    pub open spec fn initialize_done(self, after: TransferContract<V, P>, config: Config, r: Result<(), Error>) -> bool {
        &&& self.spec_config() is Some ==> r == Err::<(), Error>(Error::AlreadyInitialized) && after == self
        &&& self.spec_config() is None ==> r == Ok::<(), Error>(()) && after.spec_config() == Some(config)
        &&& after.spec_address() == self.spec_address()
        &&& after.spec_commitment() == self.spec_commitment()
        &&& after.spec_nullifier() == self.spec_nullifier()
        &&& after.spec_verifier() == self.spec_verifier()
        &&& after.spec_compliance() == self.spec_compliance()
        &&& after.spec_token() == self.spec_token()
        &&& after.spec_events() == self.spec_events()
    }

    // ---- deployment ----

    /// Wire a pool to its component contracts. The tree and the registry must
    /// already take orders from the pool's address.
    pub fn new(
        address: Address,
        commitment: CommitmentContract,
        nullifier: NullifierContract,
        verifier: V,
        compliance: P,
        token: TokenLedger,
    ) -> (r: TransferContract<V, P>)
        requires
            commitment.wf(),
            nullifier.wf(),
            verifier.verifier_wf(),
            compliance.policy_wf(),
            token.wf(),
            commitment.spec_authority() == Some(address),
            nullifier.spec_authority() == Some(address),
        ensures
            r.wf(),
            r.spec_address() == address,
            r.spec_config() is None,
            r.spec_commitment() == commitment,
            r.spec_nullifier() == nullifier,
            r.spec_verifier() == verifier,
            r.spec_compliance() == compliance,
            r.spec_token() == token,
            r.spec_events() == Seq::<PoolEvent>::empty(),
    {
        TransferContract {
            address,
            config: None,
            commitment,
            nullifier,
            verifier,
            compliance,
            token,
            events: Vec::new(),
        }
    }

    /// Store the configuration (once).
    pub fn initialize(&mut self, config: Config) -> (r: Result<(), Error>)
        requires
            old(self).wf(),
        ensures
            final(self).wf(),
            old(self).initialize_done(*final(self), config, r),
    {
        if self.config.is_some() {
            return Err(Error::AlreadyInitialized);
        }
        self.config = Some(config);
        Ok(())
    }

    /// The stored configuration.
    pub fn get_config(&self) -> (r: Result<Config, Error>)
        ensures
            r == self.config_result(),
    {
        match self.config {
            Some(c) => Ok(c),
            None => Err(Error::NotInitialized),
        }
    }

    /// The pool's own address.
    pub fn address(&self) -> (r: Address)
        ensures
            r == self.spec_address(),
    {
        self.address
    }

    /// The commitment tree.
    pub fn commitment(&self) -> (r: &CommitmentContract)
        ensures
            *r == self.spec_commitment(),
    {
        &self.commitment
    }

    /// The nullifier registry.
    pub fn nullifier(&self) -> (r: &NullifierContract)
        ensures
            *r == self.spec_nullifier(),
    {
        &self.nullifier
    }

    /// The token ledger.
    pub fn token(&self) -> (r: &TokenLedger)
        ensures
            *r == self.spec_token(),
    {
        &self.token
    }

    /// The verifier.
    pub fn proof_verifier(&self) -> (r: &V)
        ensures
            *r == self.spec_verifier(),
    {
        &self.verifier
    }

    /// The published events.
    pub fn events(&self) -> (r: &Vec<PoolEvent>)
        ensures
            r@ == self.spec_events(),
    {
        &self.events
    }

    // ---- steps shared by the flows ----

    /// Ask the verifier; a call it answers yields its verdict.
    fn check_proof(&self, vk_id: u32, proof: &Vec<u8>, inputs: &Vec<Bytes32>) -> (r: bool)
        requires
            self.wf(),
            self.answers(vk_id, proof@, scalar_values(inputs@)),
        ensures
            r == self.accepts(vk_id, proof@, scalar_values(inputs@)),
    {
        match self.verifier.verify_proof(vk_id, proof, inputs) {
            Ok(b) => b,
            Err(_) => false,
        }
    }

    /// Insert a note commitment on the pool's authority.
    fn insert_leaf(&mut self, leaf: Bytes32) -> (r: u32)
        requires
            old(self).wf(),
            old(self).can_insert(leaf),
        ensures
            final(self).wf(),
            r == old(self).leaves().len(),
            final(self).leaves() == old(self).leaves().push(leaf),
            final(self).spent() == old(self).spent(),
            final(self).spec_token() == old(self).spec_token(),
            final(self).spec_events() == old(self).spec_events(),
            old(self).same_wiring(*final(self)),
    {
        let me = self.address;
        match self.commitment.insert(&me, leaf) {
            Ok(i) => i,
            Err(_) => 0,
        }
    }

    /// Mark a nullifier spent on the pool's authority.
    fn spend(&mut self, nullifier: Bytes32)
        requires
            old(self).wf(),
            !old(self).spent().contains(nullifier),
        ensures
            final(self).wf(),
            final(self).spent() == old(self).spent().push(nullifier),
            final(self).spec_commitment() == old(self).spec_commitment(),
            final(self).spec_token() == old(self).spec_token(),
            final(self).spec_events() == old(self).spec_events(),
            old(self).same_wiring(*final(self)),
    {
        let me = self.address;
        let _ = self.nullifier.mark_spent(&me, nullifier);
    }

    /// Move tokens.
    fn pay(&mut self, from: &Address, to: &Address, amount: i128)
        requires
            old(self).wf(),
            old(self).can_pay(*from, *to, amount as int),
        ensures
            final(self).wf(),
            old(self).moved(*final(self), *from, *to, amount as int),
            final(self).spec_commitment() == old(self).spec_commitment(),
            final(self).spec_nullifier() == old(self).spec_nullifier(),
            final(self).spec_events() == old(self).spec_events(),
            old(self).same_wiring(*final(self)),
    {
        self.token.transfer(from, to, amount);
    }

    // ---- flows ----

    /// Shielded deposit: after a proof that `commitment` opens to `amount`,
    /// pull `amount` of the token from `from` (whose authorization the
    /// invocation carries) and insert the commitment. Returns the leaf index.
    pub fn deposit(&mut self, from: Address, amount: i128, commitment: Bytes32, deposit_proof: &Vec<u8>) -> (r: Result<u32, Error>)
        requires
            old(self).wf(),
            old(self).deposit_runs(from, amount, commitment, deposit_proof@),
        ensures
            final(self).wf(),
            old(self).deposit_done(*final(self), from, amount, commitment, deposit_proof@, r),
    {
        if amount <= 0 {
            return Err(Error::InvalidAmount);
        }
        let cfg = match self.config {
            Some(c) => c,
            None => {
                return Err(Error::NotInitialized);
            },
        };
        // Bind commitment <-> amount. Public inputs order: [cm, amount].
        let mut public_inputs: Vec<Bytes32> = Vec::new();
        public_inputs.push(commitment);
        public_inputs.push(amount_field(amount));
        assert(scalar_values(public_inputs@) =~= deposit_inputs(commitment, amount));
        if !self.check_proof(cfg.deposit_vk_id, deposit_proof, &public_inputs) {
            return Err(Error::InvalidProof);
        }
        let me = self.address;
        let ghost s0 = *self;
        self.pay(&from, &me, amount);
        let ghost s1 = *self;
        let index = self.insert_leaf(commitment);
        self.events.push(PoolEvent::Deposited(Deposited { index, amount }));
        proof {
            assert(s0.moved(s1, from, me, amount as int));
            assert(s1.same_balances(*self));
        }
        Ok(index)
    }

    /// Shielded exit: verify the proof, spend the nullifier, re-insert the
    /// change note, pay the recipient and attest. Needs no authorization (a
    /// relayer may submit it): the payout is bound in the proof.
    #[verifier::rlimit(30)]
    pub fn unshield(
        &mut self,
        proof: &Vec<u8>,
        root: Bytes32,
        nullifier: Bytes32,
        recipient: Address,
        amount: i128,
        change_commitment: Bytes32,
        claim: PrivacyLevel,
    ) -> (r: Result<PrivacyAttestation, Error>)
        requires
            old(self).wf(),
            old(self).unshield_runs(proof@, root, nullifier, recipient, amount, change_commitment, claim),
        ensures
            final(self).wf(),
            old(self).unshield_done(
                *final(self),
                proof@,
                root,
                nullifier,
                recipient,
                amount,
                change_commitment,
                claim,
                r,
            ),
    {
        // ---- validation (no state changes) ----
        if amount <= 0 {
            return Err(Error::InvalidAmount);
        }
        // A shielded pool cannot provide timing privacy on its own.
        if claim.timing {
            return Err(Error::UnsupportedLevelClaim);
        }
        let cfg = match self.config {
            Some(c) => c,
            None => {
                return Err(Error::NotInitialized);
            },
        };
        if cfg.compliance.is_some() {
            if !self.compliance.allows(recipient) {
                return Err(Error::RecipientNotAllowed);
            }
        }
        if !self.commitment.is_known_root(root) {
            return Err(Error::UnknownRoot);
        }
        if self.nullifier.is_spent(nullifier) {
            return Err(Error::NullifierAlreadySpent);
        }
        // Public inputs are derived from the payout, binding the proof to
        // this exact (root, nullifier, recipient, amount, change).
        let mut public_inputs: Vec<Bytes32> = Vec::new();
        public_inputs.push(root);
        public_inputs.push(nullifier);
        public_inputs.push(recipient_field(&recipient));
        public_inputs.push(amount_field(amount));
        public_inputs.push(change_commitment);
        assert(scalar_values(public_inputs@) =~= unshield_inputs(root, nullifier, recipient, amount, change_commitment));
        if !self.check_proof(cfg.unshield_vk_id, proof, &public_inputs) {
            return Err(Error::InvalidProof);
        }
        // ---- effects ----
        let ghost s0 = *self;
        self.spend(nullifier);
        let ghost s1 = *self;
        let change_index = self.insert_leaf(change_commitment);
        let ghost s2 = *self;
        let me = self.address;
        self.pay(&me, &recipient, amount);
        let ghost s3 = *self;
        let level = PrivacyLevel {
            sender: true,
            receiver: claim.receiver,
            amount: claim.amount,
            timing: false,
            linkability: true,
        };
        let attestation = PrivacyAttestation { level, vk_id: cfg.unshield_vk_id, root };
        self.events.push(PoolEvent::Unshielded(Unshielded { nullifier, amount, change_index }));
        self.events.push(PoolEvent::PrivacyAttested(PrivacyAttested { attestation }));
        proof {
            assert(s2.spec_token() == s0.spec_token());
            assert(self.spec_token() == s3.spec_token());
            if me != recipient {
                assert forall|a: Address| a != me && a != recipient implies #[trigger] self.balance_of(a)
                    == s0.balance_of(a) by {
                    assert(s3.balance_of(a) == s2.balance_of(a));
                }
            } else {
                assert forall|a: Address| #[trigger] self.balance_of(a) == s0.balance_of(a) by {
                    assert(s3.balance_of(a) == s2.balance_of(a));
                }
            }
        }
        Ok(attestation)
    }

    /// Fully-private transfer: spend one note, create two. No public address
    /// or amount; only the nullifier, the two commitments and opaque
    /// encrypted payloads. Needs no authorization.
    pub fn transfer(
        &mut self,
        proof: &Vec<u8>,
        root: Bytes32,
        nullifier: Bytes32,
        out_commitment_1: Bytes32,
        out_commitment_2: Bytes32,
        note_1: Vec<u8>,
        note_2: Vec<u8>,
    ) -> (r: Result<(), Error>)
        requires
            old(self).wf(),
            old(self).transfer_runs(proof@, root, nullifier, out_commitment_1, out_commitment_2),
        ensures
            final(self).wf(),
            old(self).transfer_done(
                *final(self),
                proof@,
                root,
                nullifier,
                out_commitment_1,
                out_commitment_2,
                note_1@,
                note_2@,
                r,
            ),
    {
        let cfg = match self.config {
            Some(c) => c,
            None => {
                return Err(Error::NotInitialized);
            },
        };
        if !self.commitment.is_known_root(root) {
            return Err(Error::UnknownRoot);
        }
        if self.nullifier.is_spent(nullifier) {
            return Err(Error::NullifierAlreadySpent);
        }
        // Order must match the circuit: [root, nullifier, out_cm1, out_cm2].
        let mut public_inputs: Vec<Bytes32> = Vec::new();
        public_inputs.push(root);
        public_inputs.push(nullifier);
        public_inputs.push(out_commitment_1);
        public_inputs.push(out_commitment_2);
        assert(scalar_values(public_inputs@) =~= transfer_inputs(root, nullifier, out_commitment_1, out_commitment_2));
        if !self.check_proof(cfg.transfer_vk_id, proof, &public_inputs) {
            return Err(Error::InvalidProof);
        }
        let ghost s0 = *self;
        let ghost (n1, n2) = (note_1@, note_2@);
        self.spend(nullifier);
        let out_index_1 = self.insert_leaf(out_commitment_1);
        let out_index_2 = self.insert_leaf(out_commitment_2);
        let ghost before_event = self.spec_events();
        let ev = PrivateTransfer { nullifier, out_index_1, out_index_2, note_1, note_2 };
        assert(ev.note_1@ == n1 && ev.note_2@ == n2);
        self.events.push(PoolEvent::PrivateTransfer(ev));
        proof {
            assert(self.spec_token() == s0.spec_token());
            assert(self.spec_events().drop_last() =~= before_event);
        }
        Ok(())
    }

    /// Whether `nullifiers` holds no value twice.
    fn distinct(nullifiers: &Vec<Bytes32>) -> (r: bool)
        ensures
            r == nullifiers@.no_duplicates(),
    {
        let n = nullifiers.len();
        let mut i: usize = 0;
        while i < n
            invariant
                i <= n,
                n == nullifiers@.len(),
                forall|a: int, b: int| 0 <= a < i && 0 <= b < n && a != b ==> nullifiers@[a] != nullifiers@[b],
            decreases n - i,
        {
            let mut j: usize = 0;
            while j < n
                invariant
                    i < n,
                    j <= n,
                    n == nullifiers@.len(),
                    forall|b: int| 0 <= b < j && b != i ==> nullifiers@[i as int] != nullifiers@[b],
                decreases n - j,
            {
                if j != i && bytes32_eq(&nullifiers[i], &nullifiers[j]) {
                    proof {
                        assert(nullifiers@[i as int] =~= nullifiers@[j as int]);
                    }
                    return false;
                }
                j = j + 1;
            }
            i = i + 1;
        }
        true
    }

    /// Whether none of `nullifiers` is spent.
    fn none_spent(&self, nullifiers: &Vec<Bytes32>) -> (r: bool)
        ensures
            r == none_in(nullifiers@, self.spent()),
    {
        let mut i: usize = 0;
        while i < nullifiers.len()
            invariant
                i <= nullifiers@.len(),
                forall|k: int| 0 <= k < i ==> !self.spent().contains(#[trigger] nullifiers@[k]),
            decreases nullifiers@.len() - i,
        {
            if self.nullifier.is_spent(nullifiers[i]) {
                return false;
            }
            i = i + 1;
        }
        true
    }

    /// Multi-input private transfer: spend two or four notes of one tree
    /// root, create two. Needs no authorization.
    #[verifier::rlimit(30)]
    pub fn transfer_n(
        &mut self,
        proof: &Vec<u8>,
        root: Bytes32,
        nullifiers: Vec<Bytes32>,
        out_commitment_1: Bytes32,
        out_commitment_2: Bytes32,
        note_1: Vec<u8>,
        note_2: Vec<u8>,
    ) -> (r: Result<(), Error>)
        requires
            old(self).wf(),
            old(self).transfer_n_runs(proof@, root, nullifiers@, out_commitment_1, out_commitment_2),
        ensures
            final(self).wf(),
            old(self).transfer_n_done(
                *final(self),
                proof@,
                root,
                nullifiers@,
                out_commitment_1,
                out_commitment_2,
                note_1@,
                note_2@,
                r,
            ),
    {
        let cfg = match self.config {
            Some(c) => c,
            None => {
                return Err(Error::NotInitialized);
            },
        };
        let n = nullifiers.len();
        if n != 2 && n != 4 {
            return Err(Error::UnsupportedArity);
        }
        if !Self::distinct(&nullifiers) {
            return Err(Error::DuplicateNullifier);
        }
        if !self.commitment.is_known_root(root) {
            return Err(Error::UnknownRoot);
        }
        if !self.none_spent(&nullifiers) {
            return Err(Error::NullifierAlreadySpent);
        }
        let vk_id = if n == 2 {
            cfg.transfer_2in_vk_id
        } else {
            cfg.transfer_4in_vk_id
        };
        // Order must match the circuit: [root, nf_1, .., nf_N, out_cm1, out_cm2].
        let mut public_inputs: Vec<Bytes32> = Vec::new();
        public_inputs.push(root);
        let mut i: usize = 0;
        while i < n
            invariant
                i <= n,
                n == nullifiers@.len(),
                public_inputs@ == seq![root] + nullifiers@.subrange(0, i as int),
            decreases n - i,
        {
            public_inputs.push(nullifiers[i]);
            i = i + 1;
            assert(public_inputs@ =~= seq![root] + nullifiers@.subrange(0, i as int));
        }
        public_inputs.push(out_commitment_1);
        public_inputs.push(out_commitment_2);
        proof {
            assert(nullifiers@.subrange(0, n as int) =~= nullifiers@);
            let want = transfer_n_inputs(root, nullifiers@, out_commitment_1, out_commitment_2);
            assert(scalar_values(public_inputs@).len() == want.len());
            assert forall|k: int| 0 <= k < want.len() implies #[trigger] scalar_values(public_inputs@)[k] == want[k] by {
                if k == 0 {
                } else if k <= n {
                    assert(public_inputs@[k] == nullifiers@[k - 1]);
                } else if k == n + 1 {
                    assert(public_inputs@[k] == out_commitment_1);
                } else {
                    assert(public_inputs@[k] == out_commitment_2);
                }
            }
            assert(scalar_values(public_inputs@) =~= want);
        }
        if !self.check_proof(vk_id, proof, &public_inputs) {
            return Err(Error::InvalidProof);
        }
        let ghost s0 = *self;
        let mut i: usize = 0;
        while i < n
            invariant
                i <= n,
                n == nullifiers@.len(),
                self.wf(),
                nullifiers@.no_duplicates(),
                none_in(nullifiers@, s0.spent()),
                self.spent() == s0.spent() + nullifiers@.subrange(0, i as int),
                self.spec_commitment() == s0.spec_commitment(),
                self.spec_token() == s0.spec_token(),
                self.spec_events() == s0.spec_events(),
                s0.same_wiring(*self),
            decreases n - i,
        {
            let nf = nullifiers[i];
            proof {
                assert(!s0.spent().contains(nullifiers@[i as int]));
                if (s0.spent() + nullifiers@.subrange(0, i as int)).contains(nf) {
                    let k = choose|k: int| 0 <= k < (s0.spent() + nullifiers@.subrange(0, i as int)).len()
                        && (s0.spent() + nullifiers@.subrange(0, i as int))[k] == nf;
                    if k >= s0.spent().len() {
                        assert(nullifiers@[k - s0.spent().len()] == nf);
                    } else {
                        assert(s0.spent()[k] == nf);
                    }
                }
            }
            self.spend(nf);
            i = i + 1;
            assert(self.spent() =~= s0.spent() + nullifiers@.subrange(0, i as int));
        }
        assert(nullifiers@.subrange(0, n as int) =~= nullifiers@);
        let out_index_1 = self.insert_leaf(out_commitment_1);
        let out_index_2 = self.insert_leaf(out_commitment_2);
        let ghost before_event = self.spec_events();
        let ghost (nfs, n1, n2) = (nullifiers@, note_1@, note_2@);
        let ev = PrivateTransferN { nullifiers, out_index_1, out_index_2, note_1, note_2 };
        assert(ev.nullifiers@ == nfs && ev.note_1@ == n1 && ev.note_2@ == n2);
        self.events.push(PoolEvent::PrivateTransferN(ev));
        proof {
            assert(self.spec_token() == s0.spec_token());
            assert(self.spec_events().drop_last() =~= before_event);
        }
        Ok(())
    }

    // ---- the same flows for any input ----

    /// Whether the verifier answers the call, and whether it accepts.
    fn ask(&self, vk_id: u32, proof: &Vec<u8>, inputs: &Vec<Bytes32>) -> (r: (bool, bool))
        requires
            self.wf(),
        ensures
            r.0 == self.answers(vk_id, proof@, scalar_values(inputs@)),
            r.0 ==> r.1 == self.accepts(vk_id, proof@, scalar_values(inputs@)),
    {
        match self.verifier.try_verify_proof(vk_id, proof, inputs) {
            Some(Ok(b)) => (true, b),
            _ => (false, false),
        }
    }

    fn can_insert_exec(&self, leaf: &Bytes32) -> (r: bool)
        requires
            self.wf(),
        ensures
            r == self.can_insert(*leaf),
    {
        !self.commitment.contains_leaf(leaf) && self.commitment.size() < CAPACITY && is_canonical(leaf)
    }

    fn can_insert_two_exec(&self, out1: &Bytes32, out2: &Bytes32) -> (r: bool)
        requires
            self.wf(),
        ensures
            r == self.can_insert_two(*out1, *out2),
    {
        let fresh = !self.commitment.contains_leaf(out1) && !self.commitment.contains_leaf(out2);
        let differ = !bytes32_eq(out1, out2);
        proof {
            if !differ {
                assert(*out1 =~= *out2);
            }
        }
        fresh && differ && self.commitment.size() < CAPACITY - 1 && is_canonical(out1) && is_canonical(out2)
    }

    fn can_pay_exec(&self, from: &Address, to: &Address, amount: i128) -> (r: bool)
        requires
            self.wf(),
        ensures
            r == self.can_pay(*from, *to, amount as int),
    {
        if amount < 0 || self.token.balance(from) < amount {
            return false;
        }
        from.same(to) || self.token.balance(to) <= i128::MAX - amount
    }

    /// `deposit`, for any input: `None` where the invocation would abort (the
    /// verifier cannot answer, or the validated deposit cannot be paid for or
    /// recorded), leaving the pool unchanged.
    pub fn try_deposit(&mut self, from: Address, amount: i128, commitment: Bytes32, deposit_proof: &Vec<u8>) -> (r: Option<Result<u32, Error>>)
        requires
            old(self).wf(),
        ensures
            final(self).wf(),
            r is None <==> !old(self).deposit_runs(from, amount, commitment, deposit_proof@),
            r is None ==> *final(self) == *old(self),
            r matches Some(x) ==> old(self).deposit_done(*final(self), from, amount, commitment, deposit_proof@, x),
    {
        if amount > 0 && self.config.is_some() {
            let cfg = match self.config {
                Some(c) => c,
                None => {
                    return None;
                },
            };
            let mut public_inputs: Vec<Bytes32> = Vec::new();
            public_inputs.push(commitment);
            public_inputs.push(amount_field(amount));
            assert(scalar_values(public_inputs@) =~= deposit_inputs(commitment, amount));
            let (answers, accepts) = self.ask(cfg.deposit_vk_id, deposit_proof, &public_inputs);
            if !answers {
                return None;
            }
            let me = self.address;
            if accepts && !(self.can_pay_exec(&from, &me, amount) && self.can_insert_exec(&commitment)) {
                return None;
            }
        }
        Some(self.deposit(from, amount, commitment, deposit_proof))
    }

    /// `unshield`, for any input: `None` where the invocation would abort,
    /// leaving the pool unchanged.
    pub fn try_unshield(
        &mut self,
        proof: &Vec<u8>,
        root: Bytes32,
        nullifier: Bytes32,
        recipient: Address,
        amount: i128,
        change_commitment: Bytes32,
        claim: PrivacyLevel,
    ) -> (r: Option<Result<PrivacyAttestation, Error>>)
        requires
            old(self).wf(),
        ensures
            final(self).wf(),
            r is None <==> !old(self).unshield_runs(proof@, root, nullifier, recipient, amount, change_commitment, claim),
            r is None ==> *final(self) == *old(self),
            r matches Some(x) ==> old(self).unshield_done(
                *final(self),
                proof@,
                root,
                nullifier,
                recipient,
                amount,
                change_commitment,
                claim,
                x,
            ),
    {
        let prechecked = match self.config {
            Some(cfg) => amount > 0 && !claim.timing && (cfg.compliance.is_none() || self.compliance.allows(recipient))
                && self.commitment.is_known_root(root) && !self.nullifier.is_spent(nullifier),
            None => false,
        };
        if prechecked {
            let cfg = match self.config {
                Some(c) => c,
                None => {
                    return None;
                },
            };
            let mut public_inputs: Vec<Bytes32> = Vec::new();
            public_inputs.push(root);
            public_inputs.push(nullifier);
            public_inputs.push(recipient_field(&recipient));
            public_inputs.push(amount_field(amount));
            public_inputs.push(change_commitment);
            assert(scalar_values(public_inputs@) =~= unshield_inputs(root, nullifier, recipient, amount, change_commitment));
            let (answers, accepts) = self.ask(cfg.unshield_vk_id, proof, &public_inputs);
            if !answers {
                return None;
            }
            let me = self.address;
            if accepts && !(self.can_insert_exec(&change_commitment) && self.can_pay_exec(&me, &recipient, amount)) {
                return None;
            }
        }
        Some(self.unshield(proof, root, nullifier, recipient, amount, change_commitment, claim))
    }

    /// `transfer`, for any input: `None` where the invocation would abort,
    /// leaving the pool unchanged.
    pub fn try_transfer(
        &mut self,
        proof: &Vec<u8>,
        root: Bytes32,
        nullifier: Bytes32,
        out_commitment_1: Bytes32,
        out_commitment_2: Bytes32,
        note_1: Vec<u8>,
        note_2: Vec<u8>,
    ) -> (r: Option<Result<(), Error>>)
        requires
            old(self).wf(),
        ensures
            final(self).wf(),
            r is None <==> !old(self).transfer_runs(proof@, root, nullifier, out_commitment_1, out_commitment_2),
            r is None ==> *final(self) == *old(self),
            r matches Some(x) ==> old(self).transfer_done(
                *final(self),
                proof@,
                root,
                nullifier,
                out_commitment_1,
                out_commitment_2,
                note_1@,
                note_2@,
                x,
            ),
    {
        let prechecked = match self.config {
            Some(_) => self.commitment.is_known_root(root) && !self.nullifier.is_spent(nullifier),
            None => false,
        };
        if prechecked {
            let cfg = match self.config {
                Some(c) => c,
                None => {
                    return None;
                },
            };
            let mut public_inputs: Vec<Bytes32> = Vec::new();
            public_inputs.push(root);
            public_inputs.push(nullifier);
            public_inputs.push(out_commitment_1);
            public_inputs.push(out_commitment_2);
            assert(scalar_values(public_inputs@) =~= transfer_inputs(root, nullifier, out_commitment_1, out_commitment_2));
            let (answers, accepts) = self.ask(cfg.transfer_vk_id, proof, &public_inputs);
            if !answers {
                return None;
            }
            if accepts && !self.can_insert_two_exec(&out_commitment_1, &out_commitment_2) {
                return None;
            }
        }
        Some(self.transfer(proof, root, nullifier, out_commitment_1, out_commitment_2, note_1, note_2))
    }

    /// `transfer_n`, for any input: `None` where the invocation would abort,
    /// leaving the pool unchanged.
    pub fn try_transfer_n(
        &mut self,
        proof: &Vec<u8>,
        root: Bytes32,
        nullifiers: Vec<Bytes32>,
        out_commitment_1: Bytes32,
        out_commitment_2: Bytes32,
        note_1: Vec<u8>,
        note_2: Vec<u8>,
    ) -> (r: Option<Result<(), Error>>)
        requires
            old(self).wf(),
        ensures
            final(self).wf(),
            r is None <==> !old(self).transfer_n_runs(proof@, root, nullifiers@, out_commitment_1, out_commitment_2),
            r is None ==> *final(self) == *old(self),
            r matches Some(x) ==> old(self).transfer_n_done(
                *final(self),
                proof@,
                root,
                nullifiers@,
                out_commitment_1,
                out_commitment_2,
                note_1@,
                note_2@,
                x,
            ),
    {
        let n = nullifiers.len();
        let prechecked = match self.config {
            Some(_) => (n == 2 || n == 4) && Self::distinct(&nullifiers) && self.commitment.is_known_root(root)
                && self.none_spent(&nullifiers),
            None => false,
        };
        if prechecked {
            let cfg = match self.config {
                Some(c) => c,
                None => {
                    return None;
                },
            };
            let vk_id = if n == 2 {
                cfg.transfer_2in_vk_id
            } else {
                cfg.transfer_4in_vk_id
            };
            let mut public_inputs: Vec<Bytes32> = Vec::new();
            public_inputs.push(root);
            let mut i: usize = 0;
            while i < n
                invariant
                    i <= n,
                    n == nullifiers@.len(),
                    public_inputs@ == seq![root] + nullifiers@.subrange(0, i as int),
                decreases n - i,
            {
                public_inputs.push(nullifiers[i]);
                i = i + 1;
                assert(public_inputs@ =~= seq![root] + nullifiers@.subrange(0, i as int));
            }
            public_inputs.push(out_commitment_1);
            public_inputs.push(out_commitment_2);
            proof {
                assert(nullifiers@.subrange(0, n as int) =~= nullifiers@);
                let want = transfer_n_inputs(root, nullifiers@, out_commitment_1, out_commitment_2);
                assert forall|k: int| 0 <= k < want.len() implies #[trigger] scalar_values(public_inputs@)[k] == want[k] by {
                    if k == 0 {
                    } else if k <= n {
                        assert(public_inputs@[k] == nullifiers@[k - 1]);
                    } else if k == n + 1 {
                        assert(public_inputs@[k] == out_commitment_1);
                    } else {
                        assert(public_inputs@[k] == out_commitment_2);
                    }
                }
                assert(scalar_values(public_inputs@) =~= want);
            }
            let (answers, accepts) = self.ask(vk_id, proof, &public_inputs);
            if !answers {
                return None;
            }
            if accepts && !self.can_insert_two_exec(&out_commitment_1, &out_commitment_2) {
                return None;
            }
        }
        Some(self.transfer_n(proof, root, nullifiers, out_commitment_1, out_commitment_2, note_1, note_2))
    }
}

/// The field element a recipient address is bound as in the unshield proof:
/// `sha256(xdr(address))`.
pub fn recipient_field(recipient: &Address) -> (r: Bytes32)
    ensures
        r@ == sha256(address_xdr(*recipient)),
        be_nat(r@) == recipient_input(*recipient),
{
    let xdr = xdr_of_address(recipient);
    sha256_digest(xdr.as_slice())
}

/// A spent nullifier is never accepted again: with `nullifier` spent, an
/// exit or a transfer that spends it is rejected, whatever else it is given.
pub proof fn law_spent_nullifier_rejected<V: VerifierApi, P: ComplianceApi>(
    s: TransferContract<V, P>,
    proof: Seq<u8>,
    root: Bytes32,
    nullifier: Bytes32,
    recipient: Address,
    amount: i128,
    change: Bytes32,
    claim: PrivacyLevel,
    out1: Bytes32,
    out2: Bytes32,
    nullifiers: Seq<Bytes32>,
)
    requires
        s.spent().contains(nullifier),
    ensures
        s.unshield_check(proof, root, nullifier, recipient, amount, change, claim) is Err,
        s.transfer_check(proof, root, nullifier, out1, out2) is Err,
        nullifiers.contains(nullifier) ==> s.transfer_n_check(proof, root, nullifiers, out1, out2) is Err,
{
    if nullifiers.contains(nullifier) {
        let i = choose|i: int| 0 <= i < nullifiers.len() && nullifiers[i] == nullifier;
        assert(!none_in(nullifiers, s.spent()));
    }
}

/// Spending is recorded and permanent: after a successful exit or transfer,
/// the notes it spent are spent, and so is every note spent before.
pub proof fn law_spends_are_recorded<V: VerifierApi, P: ComplianceApi>(
    s: TransferContract<V, P>,
    a1: TransferContract<V, P>,
    a2: TransferContract<V, P>,
    a3: TransferContract<V, P>,
    proof: Seq<u8>,
    root: Bytes32,
    nullifier: Bytes32,
    recipient: Address,
    amount: i128,
    change: Bytes32,
    claim: PrivacyLevel,
    r1: Result<PrivacyAttestation, Error>,
    out1: Bytes32,
    out2: Bytes32,
    note_1: Seq<u8>,
    note_2: Seq<u8>,
    r2: Result<(), Error>,
    nullifiers: Seq<Bytes32>,
    r3: Result<(), Error>,
)
    requires
        s.unshield_done(a1, proof, root, nullifier, recipient, amount, change, claim, r1),
        s.transfer_done(a2, proof, root, nullifier, out1, out2, note_1, note_2, r2),
        s.transfer_n_done(a3, proof, root, nullifiers, out1, out2, note_1, note_2, r3),
    ensures
        r1 is Ok ==> a1.spent().contains(nullifier) && forall|x: Bytes32|
            s.spent().contains(x) ==> #[trigger] a1.spent().contains(x),
        r2 is Ok ==> a2.spent().contains(nullifier) && forall|x: Bytes32|
            s.spent().contains(x) ==> #[trigger] a2.spent().contains(x),
        r3 is Ok ==> (forall|x: Bytes32| nullifiers.contains(x) ==> #[trigger] a3.spent().contains(x)) && forall|x: Bytes32|
            s.spent().contains(x) ==> #[trigger] a3.spent().contains(x),
{
    if r1 is Ok {
        assert(a1.spent().last() == nullifier);
        assert forall|x: Bytes32| s.spent().contains(x) implies #[trigger] a1.spent().contains(x) by {
            let i = choose|i: int| 0 <= i < s.spent().len() && s.spent()[i] == x;
            assert(a1.spent()[i] == x);
        }
    }
    if r2 is Ok {
        assert(a2.spent().last() == nullifier);
        assert forall|x: Bytes32| s.spent().contains(x) implies #[trigger] a2.spent().contains(x) by {
            let i = choose|i: int| 0 <= i < s.spent().len() && s.spent()[i] == x;
            assert(a2.spent()[i] == x);
        }
    }
    if r3 is Ok {
        assert forall|x: Bytes32| nullifiers.contains(x) implies #[trigger] a3.spent().contains(x) by {
            let i = choose|i: int| 0 <= i < nullifiers.len() && nullifiers[i] == x;
            assert(a3.spent()[s.spent().len() + i] == x);
        }
        assert forall|x: Bytes32| s.spent().contains(x) implies #[trigger] a3.spent().contains(x) by {
            let i = choose|i: int| 0 <= i < s.spent().len() && s.spent()[i] == x;
            assert(a3.spent()[i] == x);
        }
    }
}

/// Deposits and exits are bound to their proofs: a deposit succeeds only if
/// the verifier accepted `[cm, amount]` for the amount actually pulled in, and
/// an exit only if it accepted the inputs derived from the actual payout
/// (root, nullifier, recipient, amount, change), so a relayer cannot redirect
/// funds or change the amount.
pub proof fn law_payout_is_bound<V: VerifierApi, P: ComplianceApi>(
    s: TransferContract<V, P>,
    a1: TransferContract<V, P>,
    from: Address,
    d_amount: i128,
    commitment: Bytes32,
    d_proof: Seq<u8>,
    r1: Result<u32, Error>,
    a2: TransferContract<V, P>,
    proof: Seq<u8>,
    root: Bytes32,
    nullifier: Bytes32,
    recipient: Address,
    amount: i128,
    change: Bytes32,
    claim: PrivacyLevel,
    r2: Result<PrivacyAttestation, Error>,
)
    requires
        s.deposit_done(a1, from, d_amount, commitment, d_proof, r1),
        s.unshield_done(a2, proof, root, nullifier, recipient, amount, change, claim, r2),
    ensures
        r1 is Ok ==> d_amount > 0 && s.accepts(
            s.spec_config()->0.deposit_vk_id,
            d_proof,
            deposit_inputs(commitment, d_amount),
        ) && s.moved(a1, from, s.spec_address(), d_amount as int),
        r2 is Ok ==> amount > 0 && s.accepts(
            s.spec_config()->0.unshield_vk_id,
            proof,
            unshield_inputs(root, nullifier, recipient, amount, change),
        ) && s.moved(a2, s.spec_address(), recipient, amount as int),
{
}

/// A successful exit attests exactly what the pool backs: sender privacy and
/// unlinkability always, timing privacy never, and never a timing claim.
pub proof fn law_attestation_is_backed<V: VerifierApi, P: ComplianceApi>(
    s: TransferContract<V, P>,
    after: TransferContract<V, P>,
    proof: Seq<u8>,
    root: Bytes32,
    nullifier: Bytes32,
    recipient: Address,
    amount: i128,
    change: Bytes32,
    claim: PrivacyLevel,
    r: Result<PrivacyAttestation, Error>,
)
    requires
        s.unshield_done(after, proof, root, nullifier, recipient, amount, change, claim, r),
    ensures
        r matches Ok(att) ==> !claim.timing && att.level.sender && att.level.linkability && !att.level.timing
            && att.level.receiver == claim.receiver && att.level.amount == claim.amount && att.root == root,
        claim.timing && amount > 0 ==> r == Err::<PrivacyAttestation, Error>(Error::UnsupportedLevelClaim),
{
}

/// The pool's net token inflow as its events record it: every deposited
/// amount minus every paid-out amount.
pub open spec fn net_inflow(events: Seq<PoolEvent>) -> int
    decreases events.len(),
{
    if events.len() == 0 {
        0
    } else {
        net_inflow(events.drop_last()) + match events.last() {
            PoolEvent::Deposited(d) => d.amount as int,
            PoolEvent::Unshielded(u) => -(u.amount as int),
            _ => 0,
        }
    }
}

impl<V: VerifierApi, P: ComplianceApi> TransferContract<V, P> {
    /// What the pool holds beyond its recorded net inflow; zero for a pool
    /// that started with no tokens and no events.
    pub open spec fn reserve(self) -> int {
        self.balance_of(self.spec_address()) - net_inflow(self.spec_events())
    }

    /// `after` is what one call of `deposit`, `unshield`, `transfer` or
    /// `transfer_n` on `self` leaves, succeeding or failing, with a depositor
    /// and a recipient other than the pool itself; or the same pool, after a
    /// call that aborted (the host rolls an aborted invocation back, so it
    /// changes nothing).
    pub open spec fn pool_step(self, after: TransferContract<V, P>) -> bool {
        ||| after == self
        ||| exists|from: Address, amount: i128, commitment: Bytes32, proof: Seq<u8>, r: Result<u32, Error>|
            from != self.spec_address() && #[trigger] self.deposit_done(after, from, amount, commitment, proof, r)
        ||| exists|
            proof: Seq<u8>,
            root: Bytes32,
            nullifier: Bytes32,
            recipient: Address,
            amount: i128,
            change: Bytes32,
            claim: PrivacyLevel,
            r: Result<PrivacyAttestation, Error>,
        |
            recipient != self.spec_address() && #[trigger] self.unshield_done(
                after,
                proof,
                root,
                nullifier,
                recipient,
                amount,
                change,
                claim,
                r,
            )
        ||| exists|
            proof: Seq<u8>,
            root: Bytes32,
            nullifier: Bytes32,
            out1: Bytes32,
            out2: Bytes32,
            note_1: Seq<u8>,
            note_2: Seq<u8>,
            r: Result<(), Error>,
        | #[trigger] self.transfer_done(after, proof, root, nullifier, out1, out2, note_1, note_2, r)
        ||| exists|
            proof: Seq<u8>,
            root: Bytes32,
            nullifiers: Seq<Bytes32>,
            out1: Bytes32,
            out2: Bytes32,
            note_1: Seq<u8>,
            note_2: Seq<u8>,
            r: Result<(), Error>,
        | #[trigger] self.transfer_n_done(after, proof, root, nullifiers, out1, out2, note_1, note_2, r)
    }
}

/// One pool operation keeps the reserve: a deposit adds exactly its amount
/// to both the pool's balance and its recorded inflow, an exit takes exactly
/// its amount from both, a private transfer touches neither, and a failed or
/// aborted call changes nothing.
pub proof fn law_pool_step_keeps_reserve<V: VerifierApi, P: ComplianceApi>(before: TransferContract<V, P>, after: TransferContract<V, P>)
    requires
        before.pool_step(after),
    ensures
        after.reserve() == before.reserve(),
        after.spec_address() == before.spec_address(),
{
    let addr = before.spec_address();
    if after == before {
    } else if exists|from: Address, amount: i128, commitment: Bytes32, proof: Seq<u8>, r: Result<u32, Error>|
        from != addr && #[trigger] before.deposit_done(after, from, amount, commitment, proof, r) {
        let (from, amount, commitment, proof, r) = choose|
            from: Address,
            amount: i128,
            commitment: Bytes32,
            proof: Seq<u8>,
            r: Result<u32, Error>,
        | from != addr && #[trigger] before.deposit_done(after, from, amount, commitment, proof, r);
        if before.deposit_check(amount, commitment, proof) is Ok {
            let ev = after.spec_events();
            assert(ev.drop_last() =~= before.spec_events());
            assert(net_inflow(ev) == net_inflow(before.spec_events()) + amount);
            assert(after.balance_of(addr) == before.balance_of(addr) + amount);
        } else {
            assert(r is Err);
        }
    } else if exists|
        proof: Seq<u8>,
        root: Bytes32,
        nullifier: Bytes32,
        recipient: Address,
        amount: i128,
        change: Bytes32,
        claim: PrivacyLevel,
        r: Result<PrivacyAttestation, Error>,
    |
        recipient != addr && #[trigger] before.unshield_done(
            after,
            proof,
            root,
            nullifier,
            recipient,
            amount,
            change,
            claim,
            r,
        ) {
        let (proof, root, nullifier, recipient, amount, change, claim, r) = choose|
            proof: Seq<u8>,
            root: Bytes32,
            nullifier: Bytes32,
            recipient: Address,
            amount: i128,
            change: Bytes32,
            claim: PrivacyLevel,
            r: Result<PrivacyAttestation, Error>,
        |
            recipient != addr && #[trigger] before.unshield_done(
                after,
                proof,
                root,
                nullifier,
                recipient,
                amount,
                change,
                claim,
                r,
            );
        if before.unshield_check(proof, root, nullifier, recipient, amount, change, claim) is Ok {
            let ev = after.spec_events();
            assert(ev.drop_last().drop_last() =~= before.spec_events());
            assert(net_inflow(ev) == net_inflow(ev.drop_last()));
            assert(net_inflow(ev.drop_last()) == net_inflow(before.spec_events()) - amount);
            assert(after.balance_of(addr) == before.balance_of(addr) - amount);
        } else {
            assert(r is Err);
        }
    } else if exists|
        proof: Seq<u8>,
        root: Bytes32,
        nullifier: Bytes32,
        out1: Bytes32,
        out2: Bytes32,
        note_1: Seq<u8>,
        note_2: Seq<u8>,
        r: Result<(), Error>,
    | #[trigger] before.transfer_done(after, proof, root, nullifier, out1, out2, note_1, note_2, r) {
        let (proof, root, nullifier, out1, out2, note_1, note_2, r) = choose|
            proof: Seq<u8>,
            root: Bytes32,
            nullifier: Bytes32,
            out1: Bytes32,
            out2: Bytes32,
            note_1: Seq<u8>,
            note_2: Seq<u8>,
            r: Result<(), Error>,
        | #[trigger] before.transfer_done(after, proof, root, nullifier, out1, out2, note_1, note_2, r);
        if before.transfer_check(proof, root, nullifier, out1, out2) is Ok {
            assert(net_inflow(after.spec_events()) == net_inflow(before.spec_events()));
            assert(after.balance_of(addr) == before.balance_of(addr));
        } else {
            assert(r is Err);
        }
    } else {
        let (proof, root, nullifiers, out1, out2, note_1, note_2, r) = choose|
            proof: Seq<u8>,
            root: Bytes32,
            nullifiers: Seq<Bytes32>,
            out1: Bytes32,
            out2: Bytes32,
            note_1: Seq<u8>,
            note_2: Seq<u8>,
            r: Result<(), Error>,
        | #[trigger] before.transfer_n_done(after, proof, root, nullifiers, out1, out2, note_1, note_2, r);
        if before.transfer_n_check(proof, root, nullifiers, out1, out2) is Ok {
            assert(net_inflow(after.spec_events()) == net_inflow(before.spec_events()));
            assert(after.balance_of(addr) == before.balance_of(addr));
        } else {
            assert(r is Err);
        }
    }
}

/// Pool solvency over a whole history: along any sequence of pool operations
/// the reserve never changes, so a pool that started with no tokens and no
/// events holds exactly the deposited amounts minus the paid-out amounts
/// after every operation.
pub proof fn law_pool_solvency<V: VerifierApi, P: ComplianceApi>(history: Seq<TransferContract<V, P>>)
    requires
        history.len() > 0,
        forall|i: int| 0 <= i < history.len() - 1 ==> #[trigger] history[i].pool_step(history[i + 1]),
    ensures
        history.last().reserve() == history[0].reserve(),
        history[0].balance_of(history[0].spec_address()) == 0 && history[0].spec_events().len() == 0
            ==> history.last().balance_of(history.last().spec_address()) == net_inflow(
            history.last().spec_events(),
        ),
    decreases history.len(),
{
    if history.len() > 1 {
        let prefix = history.drop_last();
        assert forall|i: int| 0 <= i < prefix.len() - 1 implies #[trigger] prefix[i].pool_step(prefix[i + 1]) by {
            assert(prefix[i] == history[i] && prefix[i + 1] == history[i + 1]);
            assert(history[i].pool_step(history[i + 1]));
        }
        law_pool_solvency(prefix);
        let n = history.len() - 2;
        assert(history[n].pool_step(history[n + 1]));
        law_pool_step_keeps_reserve(history[n], history[n + 1]);
        assert(prefix.last() == history[n]);
    }
    assert(net_inflow(Seq::<PoolEvent>::empty()) == 0);
    if history[0].spec_events().len() == 0 {
        assert(history[0].spec_events() =~= Seq::<PoolEvent>::empty());
    }
}

/// The configuration is set once: before `initialize` reading it fails with
/// `NotInitialized`; the first `initialize` succeeds and stores it; a second
/// `initialize` is refused with `AlreadyInitialized` and the first
/// configuration stays.
pub proof fn law_config_is_set_once<V: VerifierApi, P: ComplianceApi>(
    s0: TransferContract<V, P>,
    s1: TransferContract<V, P>,
    s2: TransferContract<V, P>,
    c1: Config,
    c2: Config,
    r1: Result<(), Error>,
    r2: Result<(), Error>,
)
    requires
        s0.spec_config() is None,
        s0.initialize_done(s1, c1, r1),
        s1.initialize_done(s2, c2, r2),
    ensures
        s0.config_result() == Err::<Config, Error>(Error::NotInitialized),
        r1 == Ok::<(), Error>(()),
        s1.config_result() == Ok::<Config, Error>(c1),
        r2 == Err::<(), Error>(Error::AlreadyInitialized),
        s2.config_result() == Ok::<Config, Error>(c1),
{
}

/// A private transfer is gated by the tree, the registry and the proof: it
/// succeeds only on a configured pool, against one of the tree's recent
/// roots, with an unspent nullifier, and when the verifier accepted the proof
/// under the transfer key for the inputs `[root, nullifier, out1, out2]` in
/// that order. Against a root that is not recent, an initialized pool refuses
/// with `UnknownRoot` and changes nothing; with a recent root and a spent
/// nullifier, with `NullifierAlreadySpent`.
pub proof fn law_transfer_is_gated<V: VerifierApi, P: ComplianceApi>(
    s: TransferContract<V, P>,
    after: TransferContract<V, P>,
    proof: Seq<u8>,
    root: Bytes32,
    nullifier: Bytes32,
    out1: Bytes32,
    out2: Bytes32,
    note_1: Seq<u8>,
    note_2: Seq<u8>,
    r: Result<(), Error>,
)
    requires
        s.transfer_done(after, proof, root, nullifier, out1, out2, note_1, note_2, r),
    ensures
        r is Ok ==> {
            &&& s.spec_config() is Some
            &&& is_recent_root(s.leaves(), root@)
            &&& !s.spent().contains(nullifier)
            &&& s.spec_verifier().verify_outcome(
                s.spec_config()->0.transfer_vk_id,
                proof,
                seq![be_nat(root@), be_nat(nullifier@), be_nat(out1@), be_nat(out2@)],
            ) == Ok::<bool, crate::proof_verifier::Error>(true)
        },
        s.spec_config() is Some && !is_recent_root(s.leaves(), root@) ==> r == Err::<(), Error>(Error::UnknownRoot)
            && after == s,
        s.spec_config() is Some && is_recent_root(s.leaves(), root@) && s.spent().contains(nullifier) ==> r
            == Err::<(), Error>(Error::NullifierAlreadySpent) && after == s,
        r is Ok ==> after.spent() == s.spent().push(nullifier) && after.leaves() == s.leaves().push(out1).push(
            out2,
        ) && forall|a: Address| #[trigger] after.balance_of(a) == s.balance_of(a),
{
    assert(transfer_inputs(root, nullifier, out1, out2) =~= seq![
        be_nat(root@),
        be_nat(nullifier@),
        be_nat(out1@),
        be_nat(out2@),
    ]);
}

/// A multi-input transfer is verified under the key of its arity: two
/// nullifiers under the configured 2-input key, four under the 4-input key,
/// for the inputs `[root, nf_1, .., nf_N, out1, out2]`; it succeeds only on a
/// configured pool, with 2 or 4 distinct unspent nullifiers and a recent root.
/// Any other number of nullifiers is refused with `UnsupportedArity`, and an
/// otherwise well-formed call against a root that is not recent with
/// `UnknownRoot`; a refusal changes nothing.
pub proof fn law_transfer_n_is_gated<V: VerifierApi, P: ComplianceApi>(
    s: TransferContract<V, P>,
    after: TransferContract<V, P>,
    proof: Seq<u8>,
    root: Bytes32,
    nullifiers: Seq<Bytes32>,
    out1: Bytes32,
    out2: Bytes32,
    note_1: Seq<u8>,
    note_2: Seq<u8>,
    r: Result<(), Error>,
)
    requires
        s.transfer_n_done(after, proof, root, nullifiers, out1, out2, note_1, note_2, r),
    ensures
        r is Ok ==> {
            &&& s.spec_config() is Some
            &&& nullifiers.len() == 2 || nullifiers.len() == 4
            &&& nullifiers.no_duplicates()
            &&& is_recent_root(s.leaves(), root@)
            &&& forall|i: int| 0 <= i < nullifiers.len() ==> !s.spent().contains(#[trigger] nullifiers[i])
        },
        r is Ok && nullifiers.len() == 2 ==> s.spec_verifier().verify_outcome(
            s.spec_config()->0.transfer_2in_vk_id,
            proof,
            seq![be_nat(root@)] + nullifiers.map_values(|x: Bytes32| be_nat(x@)) + seq![be_nat(out1@), be_nat(out2@)],
        ) == Ok::<bool, crate::proof_verifier::Error>(true),
        r is Ok && nullifiers.len() == 4 ==> s.spec_verifier().verify_outcome(
            s.spec_config()->0.transfer_4in_vk_id,
            proof,
            seq![be_nat(root@)] + nullifiers.map_values(|x: Bytes32| be_nat(x@)) + seq![be_nat(out1@), be_nat(out2@)],
        ) == Ok::<bool, crate::proof_verifier::Error>(true),
        s.spec_config() is Some && nullifiers.len() != 2 && nullifiers.len() != 4 ==> r == Err::<(), Error>(
            Error::UnsupportedArity,
        ) && after == s,
        s.spec_config() is Some && (nullifiers.len() == 2 || nullifiers.len() == 4) && nullifiers.no_duplicates()
            && !is_recent_root(s.leaves(), root@) ==> r == Err::<(), Error>(Error::UnknownRoot) && after == s,
        r is Ok ==> after.spent() == s.spent() + nullifiers && after.leaves() == s.leaves().push(out1).push(out2)
            && forall|a: Address| #[trigger] after.balance_of(a) == s.balance_of(a),
{
}

/// An exit is gated the same way: it succeeds only on a configured pool,
/// for a positive amount without a timing claim, for a recipient the policy
/// admits when one is configured, against a recent root, with an unspent
/// nullifier, and when the verifier accepted the proof under the unshield key
/// for `[root, nullifier, sha256(xdr(recipient)), amount, change]`. Against a
/// root that is not recent, an otherwise valid exit is refused with
/// `UnknownRoot` and changes nothing.
pub proof fn law_unshield_is_gated<V: VerifierApi, P: ComplianceApi>(
    s: TransferContract<V, P>,
    after: TransferContract<V, P>,
    proof: Seq<u8>,
    root: Bytes32,
    nullifier: Bytes32,
    recipient: Address,
    amount: i128,
    change: Bytes32,
    claim: PrivacyLevel,
    r: Result<PrivacyAttestation, Error>,
)
    requires
        s.unshield_done(after, proof, root, nullifier, recipient, amount, change, claim, r),
    ensures
        r is Ok ==> {
            &&& s.spec_config() is Some
            &&& amount > 0
            &&& !claim.timing
            &&& s.spec_config()->0.compliance is Some ==> s.spec_compliance().admits(recipient)
            &&& is_recent_root(s.leaves(), root@)
            &&& !s.spent().contains(nullifier)
            &&& s.spec_verifier().verify_outcome(
                s.spec_config()->0.unshield_vk_id,
                proof,
                seq![
                    be_nat(root@),
                    be_nat(nullifier@),
                    be_nat(sha256(address_xdr(recipient))),
                    amount as nat,
                    be_nat(change@),
                ],
            ) == Ok::<bool, crate::proof_verifier::Error>(true)
        },
        s.spec_config() is Some && amount > 0 && !claim.timing && (s.spec_config()->0.compliance is Some
            ==> s.spec_compliance().admits(recipient)) && !is_recent_root(s.leaves(), root@) ==> r == Err::<
            PrivacyAttestation,
            Error,
        >(Error::UnknownRoot) && after == s,
        r is Ok ==> after.spent() == s.spent().push(nullifier) && after.leaves() == s.leaves().push(change),
        r is Ok && recipient != s.spec_address() ==> {
            &&& after.balance_of(recipient) == s.balance_of(recipient) + amount
            &&& after.balance_of(s.spec_address()) == s.balance_of(s.spec_address()) - amount
            &&& forall|a: Address|
                a != recipient && a != s.spec_address() ==> #[trigger] after.balance_of(a) == s.balance_of(a)
        },
        amount <= 0 ==> r == Err::<PrivacyAttestation, Error>(Error::InvalidAmount) && after == s,
{
    assert(unshield_inputs(root, nullifier, recipient, amount, change) =~= seq![
        be_nat(root@),
        be_nat(nullifier@),
        be_nat(sha256(address_xdr(recipient))),
        amount as nat,
        be_nat(change@),
    ]);
}

/// A deposit is bound to its proof and moves exactly its amount: it succeeds
/// only on a configured pool, for a positive amount, when the verifier
/// accepted the proof under the deposit key for `[cm, amount]` in that
/// order; it then appends `cm` to the tree, spends nothing, and moves
/// `amount` from the depositor to the pool. A non-positive amount is refused
/// with `InvalidAmount` and changes nothing.
pub proof fn law_deposit_is_gated<V: VerifierApi, P: ComplianceApi>(
    s: TransferContract<V, P>,
    after: TransferContract<V, P>,
    from: Address,
    amount: i128,
    commitment: Bytes32,
    proof: Seq<u8>,
    r: Result<u32, Error>,
)
    requires
        s.deposit_done(after, from, amount, commitment, proof, r),
    ensures
        r is Ok ==> {
            &&& s.spec_config() is Some
            &&& amount > 0
            &&& s.spec_verifier().verify_outcome(
                s.spec_config()->0.deposit_vk_id,
                proof,
                seq![be_nat(commitment@), amount as nat],
            ) == Ok::<bool, crate::proof_verifier::Error>(true)
            &&& r == Ok::<u32, Error>(s.leaves().len() as u32)
            &&& after.leaves() == s.leaves().push(commitment)
            &&& after.spent() == s.spent()
        },
        r is Ok && from != s.spec_address() ==> {
            &&& after.balance_of(from) == s.balance_of(from) - amount
            &&& after.balance_of(s.spec_address()) == s.balance_of(s.spec_address()) + amount
            &&& forall|a: Address| a != from && a != s.spec_address() ==> #[trigger] after.balance_of(a) == s.balance_of(a)
        },
        amount <= 0 ==> r == Err::<u32, Error>(Error::InvalidAmount) && after == s,
        amount > 0 && s.spec_config() is None ==> r == Err::<u32, Error>(Error::NotInitialized) && after == s,
{
    assert(deposit_inputs(commitment, amount) =~= seq![be_nat(commitment@), amount as nat]);
}

} // verus!
