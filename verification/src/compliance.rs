//! An optional, swappable exit policy consulted only at the transparent exit.
//!
//! Modes:
//!   - `default_allow = true`  : denylist (everyone allowed unless listed).
//!   - `default_allow = false` : allowlist (nobody allowed unless listed).

use crate::address::Address;
use vstd::prelude::*;

verus! {

#[derive(Clone, Copy, Debug, PartialEq, Eq)]
pub enum Error {
    AlreadyInitialized,
    NotInitialized,
}

/// Emitted when an account's listing changes.
#[derive(Clone, Copy, Debug, PartialEq, Eq)]
pub struct Listed {
    pub account: Address,
    pub listed: bool,
}

/// The compliance contract and its storage.
pub struct ComplianceContract {
    admin: Option<Address>,
    default_allow: Option<bool>,
    /// In allowlist mode: present => allowed. In denylist mode: present => blocked.
    listed: Vec<Address>,
    events: Vec<Listed>,
}

/// The policy decision for an account.
pub open spec fn allowed(default_allow: Option<bool>, is_listed: bool) -> bool {
    match default_allow {
        Some(false) => is_listed,
        _ => !is_listed,
    }
}

impl ComplianceContract {
    pub closed spec fn wf(self) -> bool {
        &&& self.listed@.no_duplicates()
        &&& (self.admin is None <==> self.default_allow is None)
    }

    pub closed spec fn spec_admin(self) -> Option<Address> {
        self.admin
    }

    pub closed spec fn spec_default_allow(self) -> Option<bool> {
        self.default_allow
    }

    /// The listed accounts.
    pub closed spec fn spec_listed(self) -> Set<Address> {
        self.listed@.to_set()
    }

    pub closed spec fn spec_events(self) -> Seq<Listed> {
        self.events@
    }

    /// A freshly deployed, uninitialized contract.
    pub fn new() -> (r: ComplianceContract)
        ensures
            r.wf(),
            r.spec_admin() is None,
            r.spec_default_allow() is None,
            r.spec_listed() == Set::<Address>::empty(),
            r.spec_events() == Seq::<Listed>::empty(),
    {
        let r = ComplianceContract { admin: None, default_allow: None, listed: Vec::new(), events: Vec::new() };
        proof {
            assert(r.listed@.to_set() =~= Set::<Address>::empty());
        }
        r
    }

    /// `default_allow = false` for an allowlist, `true` for a denylist.
    pub fn initialize(&mut self, admin: Address, default_allow: bool) -> (r: Result<(), Error>)
        requires
            old(self).wf(),
        ensures
            final(self).wf(),
            final(self).spec_listed() == old(self).spec_listed(),
            final(self).spec_events() == old(self).spec_events(),
            old(self).spec_admin() is Some ==> r == Err::<(), Error>(Error::AlreadyInitialized)
                && final(self).spec_admin() == old(self).spec_admin()
                && final(self).spec_default_allow() == old(self).spec_default_allow(),
            old(self).spec_admin() is None ==> r == Ok::<(), Error>(()) && final(self).spec_admin()
                == Some(admin) && final(self).spec_default_allow() == Some(default_allow),
    {
        if self.admin.is_some() {
            return Err(Error::AlreadyInitialized);
        }
        self.admin = Some(admin);
        self.default_allow = Some(default_allow);
        Ok(())
    }

    fn position(&self, account: &Address) -> (r: Option<usize>)
        ensures
            r matches Some(i) ==> i < self.listed@.len() && self.listed@[i as int] == *account,
            r is None ==> !self.listed@.contains(*account),
    {
        let mut i: usize = 0;
        while i < self.listed.len()
            invariant
                i <= self.listed@.len(),
                forall|j: int| 0 <= j < i ==> self.listed@[j] != *account,
            decreases self.listed@.len() - i,
        {
            if self.listed[i].same(account) {
                return Some(i);
            }
            i = i + 1;
        }
        None
    }

    /// Add or remove an account from the list. Admin-gated (`caller` is the
    /// address whose authorization the invocation carries).
    pub fn set_listed(&mut self, caller: &Address, account: Address, listed: bool) -> (r: Result<(), Error>)
        requires
            old(self).wf(),
            old(self).spec_admin() matches Some(a) ==> a == *caller,
        ensures
            final(self).wf(),
            final(self).spec_admin() == old(self).spec_admin(),
            final(self).spec_default_allow() == old(self).spec_default_allow(),
            old(self).spec_admin() is None ==> r == Err::<(), Error>(Error::NotInitialized)
                && final(self).spec_listed() == old(self).spec_listed() && final(self).spec_events()
                == old(self).spec_events(),
            old(self).spec_admin() is Some ==> r == Ok::<(), Error>(()) && final(self).spec_events()
                == old(self).spec_events().push(Listed { account, listed }),
            old(self).spec_admin() is Some && listed ==> final(self).spec_listed() == old(
                self,
            ).spec_listed().insert(account),
            old(self).spec_admin() is Some && !listed ==> final(self).spec_listed() == old(
                self,
            ).spec_listed().remove(account),
    {
        if self.admin.is_none() {
            return Err(Error::NotInitialized);
        }
        let ghost before = self.listed@;
        match self.position(&account) {
            Some(i) => {
                if !listed {
                    self.listed.remove(i);
                    proof {
                        assert(self.listed@ =~= before.remove(i as int));
                        assert forall|j: int, k: int|
                            0 <= j < self.listed@.len() && 0 <= k < self.listed@.len() && j != k
                            implies self.listed@[j] != self.listed@[k] by {
                            let oj = if j < i { j } else { j + 1 };
                            let ok = if k < i { k } else { k + 1 };
                            assert(self.listed@[j] == before[oj]);
                            assert(self.listed@[k] == before[ok]);
                        }
                        assert(self.listed@.to_set() =~= before.to_set().remove(account)) by {
                            assert forall|a: Address| self.listed@.to_set().contains(a) == before.to_set().remove(account).contains(a) by {
                                if before.contains(a) && a != account {
                                    let k = choose|k: int| 0 <= k < before.len() && before[k] == a;
                                    assert(k != i);
                                    if k < i {
                                        assert(self.listed@[k] == a);
                                    } else {
                                        assert(self.listed@[k - 1] == a);
                                    }
                                }
                            }
                        }
                    }
                } else {
                    proof {
                        assert(before.to_set().insert(account) =~= before.to_set());
                    }
                }
            },
            None => {
                if listed {
                    self.listed.push(account);
                    proof {
                        assert forall|a: Address| self.listed@.to_set().contains(a) == before.to_set().insert(account).contains(a) by {
                            if before.contains(a) {
                                let k = choose|k: int| 0 <= k < before.len() && before[k] == a;
                                assert(self.listed@[k] == a);
                            }
                            if a == account {
                                assert(self.listed@[before.len() as int] == a);
                            }
                        }
                        assert(self.listed@.to_set() =~= before.to_set().insert(account));
                    }
                } else {
                    proof {
                        assert(before.to_set().remove(account) =~= before.to_set());
                    }
                }
            },
        }
        self.events.push(Listed { account, listed });
        Ok(())
    }

    /// The policy decision consumed by the pool at exit.
    pub fn is_allowed(&self, account: Address) -> (r: bool)
        ensures
            r == allowed(self.spec_default_allow(), self.spec_listed().contains(account)),
    {
        let default_allow = match self.default_allow {
            Some(d) => d,
            None => true,
        };
        let is_listed = self.position(&account).is_some();
        if default_allow {
            // Denylist: allowed unless explicitly listed (blocked).
            !is_listed
        } else {
            // Allowlist: allowed only if explicitly listed.
            is_listed
        }
    }
}

/// The interface a pool consults its exit policy through: on chain, a
/// contract of its own at the address the pool's configuration names, so any
/// policy module that keeps these contracts can stand behind a pool.
pub trait ComplianceApi: Sized {
    /// The policy's own invariant.
    spec fn policy_wf(&self) -> bool;

    /// The policy admits `account` as an exit recipient.
    spec fn admits(&self, account: Address) -> bool;

    /// The policy decision for `account`.
    fn allows(&self, account: Address) -> (r: bool)
        requires
            self.policy_wf(),
        ensures
            r == self.admits(account),
    ;
}

impl ComplianceApi for ComplianceContract {
    open spec fn policy_wf(&self) -> bool {
        self.wf()
    }

    open spec fn admits(&self, account: Address) -> bool {
        allowed(self.spec_default_allow(), self.spec_listed().contains(account))
    }

    fn allows(&self, account: Address) -> (r: bool) {
        self.is_allowed(account)
    }
}

/// The two policy modes: a denylist (`default_allow = true`) admits exactly
/// the accounts not listed, an allowlist (`default_allow = false`) exactly
/// the listed ones, and a policy not yet initialized admits everyone it has
/// not listed.
pub proof fn law_policy_modes(is_listed: bool)
    ensures
        allowed(Some(true), is_listed) == !is_listed,
        allowed(Some(false), is_listed) == is_listed,
        allowed(None, is_listed) == !is_listed,
{
}

} // verus!
