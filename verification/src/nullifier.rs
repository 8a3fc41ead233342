//! The double-spend registry: each nullifier can be marked spent once, and
//! stays spent.

use crate::address::Address;
use crate::field::{bytes32_eq, Bytes32};
use vstd::prelude::*;

verus! {

#[derive(Clone, Copy, Debug, PartialEq, Eq)]
pub enum Error {
    AlreadyInitialized,
    NotInitialized,
    AlreadySpent,
}

/// Emitted when a nullifier is marked spent.
#[derive(Clone, Copy, Debug, PartialEq, Eq)]
pub struct NullifierSpent {
    pub nullifier: Bytes32,
}

/// The nullifier contract and its storage.
pub struct NullifierContract {
    /// Address permitted to mark nullifiers spent.
    authority: Option<Address>,
    /// Spent nullifiers, in the order they were marked.
    spent: Vec<Bytes32>,
    /// Events published so far.
    events: Vec<NullifierSpent>,
}

impl NullifierContract {
    /// The storage invariant: no nullifier is recorded twice, and nothing is
    /// spent before initialization.
    pub closed spec fn wf(self) -> bool {
        &&& self.spent@.no_duplicates()
        &&& self.authority is None ==> self.spent@.len() == 0
    }

    pub closed spec fn spec_authority(self) -> Option<Address> {
        self.authority
    }

    /// The spent nullifiers, in marking order.
    pub closed spec fn spec_spent(self) -> Seq<Bytes32> {
        self.spent@
    }

    pub closed spec fn spec_events(self) -> Seq<NullifierSpent> {
        self.events@
    }

    /// A freshly deployed, uninitialized contract.
    pub fn new() -> (r: NullifierContract)
        ensures
            r.wf(),
            r.spec_authority() is None,
            r.spec_spent() == Seq::<Bytes32>::empty(),
            r.spec_events() == Seq::<NullifierSpent>::empty(),
    {
        NullifierContract { authority: None, spent: Vec::new(), events: Vec::new() }
    }

    /// Initialize with the address permitted to mark nullifiers spent.
    pub fn initialize(&mut self, authority: Address) -> (r: Result<(), Error>)
        requires
            old(self).wf(),
        ensures
            final(self).wf(),
            final(self).spec_spent() == old(self).spec_spent(),
            final(self).spec_events() == old(self).spec_events(),
            old(self).spec_authority() is Some ==> r == Err::<(), Error>(Error::AlreadyInitialized)
                && final(self).spec_authority() == old(self).spec_authority(),
            old(self).spec_authority() is None ==> r == Ok::<(), Error>(())
                && final(self).spec_authority() == Some(authority),
    {
        if self.authority.is_some() {
            return Err(Error::AlreadyInitialized);
        }
        self.authority = Some(authority);
        Ok(())
    }

    /// Has this nullifier already been spent?
    pub fn is_spent(&self, nullifier: Bytes32) -> (r: bool)
        ensures
            r == self.spec_spent().contains(nullifier),
    {
        let mut i: usize = 0;
        while i < self.spent.len()
            invariant
                i <= self.spent@.len(),
                forall|j: int| 0 <= j < i ==> self.spent@[j] != nullifier,
            decreases self.spent@.len() - i,
        {
            if bytes32_eq(&self.spent[i], &nullifier) {
                proof {
                    assert(self.spent@[i as int] =~= nullifier);
                }
                return true;
            }
            i = i + 1;
        }
        false
    }

    /// Mark a nullifier spent. Fails if it already is. Only the authority may
    /// call this (`caller` is the address whose authorization the invocation
    /// carries).
    pub fn mark_spent(&mut self, caller: &Address, nullifier: Bytes32) -> (r: Result<(), Error>)
        requires
            old(self).wf(),
            old(self).spec_authority() matches Some(a) ==> a == *caller,
        ensures
            final(self).wf(),
            final(self).spec_authority() == old(self).spec_authority(),
            old(self).spec_authority() is None ==> r == Err::<(), Error>(Error::NotInitialized),
            old(self).spec_authority() is Some && old(self).spec_spent().contains(nullifier) ==> r
                == Err::<(), Error>(Error::AlreadySpent),
            old(self).spec_authority() is Some && !old(self).spec_spent().contains(nullifier) ==> r
                == Ok::<(), Error>(()),
            r is Err ==> final(self).spec_spent() == old(self).spec_spent() && final(self).spec_events()
                == old(self).spec_events(),
            r is Ok ==> final(self).spec_spent() == old(self).spec_spent().push(nullifier)
                && final(self).spec_events() == old(self).spec_events().push(
                NullifierSpent { nullifier },
            ),
    {
        if self.authority.is_none() {
            return Err(Error::NotInitialized);
        }
        if self.is_spent(nullifier) {
            return Err(Error::AlreadySpent);
        }
        self.spent.push(nullifier);
        self.events.push(NullifierSpent { nullifier });
        Ok(())
    }
}

} // verus!
