//! The fungible-token balances the pool moves (the SEP-41 asset it is
//! configured with): an admin mints, holders transfer. A transfer that would
//! overdraw the sender aborts the invocation on chain, so it is left out by
//! `requires`.

use crate::address::Address;
use vstd::prelude::*;

verus! {

/// Balances of one token, by holder.
pub struct TokenLedger {
    admin: Address,
    /// `(holder, balance)`; each holder appears once.
    balances: Vec<(Address, i128)>,
}

/// Some entry belongs to `a`.
pub open spec fn holds(entries: Seq<(Address, i128)>, a: Address) -> bool {
    exists|i: int| 0 <= i < entries.len() && #[trigger] entries[i].0 == a
}

/// The balance recorded for `a` (zero when it has none).
pub open spec fn balance_in(entries: Seq<(Address, i128)>, a: Address) -> int {
    if holds(entries, a) {
        entries[choose|i: int| 0 <= i < entries.len() && #[trigger] entries[i].0 == a].1 as int
    } else {
        0
    }
}

/// No holder is recorded twice.
pub open spec fn unique_holders(entries: Seq<(Address, i128)>) -> bool {
    forall|i: int, j: int|
        0 <= i < entries.len() && 0 <= j < entries.len() && #[trigger] entries[i].0 == #[trigger] entries[j].0
            ==> i == j
}

proof fn lemma_balance_at(entries: Seq<(Address, i128)>, a: Address, i: int)
    requires
        unique_holders(entries),
        0 <= i < entries.len(),
        entries[i].0 == a,
    ensures
        balance_in(entries, a) == entries[i].1,
{
    assert(holds(entries, a));
    let j = choose|j: int| 0 <= j < entries.len() && #[trigger] entries[j].0 == a;
    assert(entries[j].0 == entries[i].0);
}

/// Writing `(a, v)` at `a`'s position (or appending it) changes `a`'s balance
/// to `v` and no other.
proof fn lemma_balance_after_write(before: Seq<(Address, i128)>, after: Seq<(Address, i128)>, a: Address, v: i128, pos: int)
    requires
        unique_holders(before),
        0 <= pos <= before.len(),
        pos < before.len() ==> before[pos].0 == a,
        pos == before.len() ==> !holds(before, a),
        after == (if pos < before.len() { before.update(pos, (a, v)) } else { before.push((a, v)) }),
    ensures
        unique_holders(after),
        balance_in(after, a) == v,
        forall|b: Address| b != a ==> #[trigger] balance_in(after, b) == balance_in(before, b),
{
    assert forall|i: int, j: int|
        0 <= i < after.len() && 0 <= j < after.len() && #[trigger] after[i].0 == #[trigger] after[j].0 implies i == j by {
        if i != pos && j != pos {
            assert(after[i] == before[i] && after[j] == before[j]);
        } else if i == pos && j != pos {
            assert(after[j] == before[j]);
            if pos < before.len() {
                assert(before[pos].0 == before[j].0);
            }
        } else if j == pos && i != pos {
            assert(after[i] == before[i]);
            if pos < before.len() {
                assert(before[pos].0 == before[i].0);
            }
        }
    }
    assert(after[pos] == (a, v));
    lemma_balance_at(after, a, pos);
    assert forall|b: Address| b != a implies #[trigger] balance_in(after, b) == balance_in(before, b) by {
        if holds(before, b) {
            let j = choose|j: int| 0 <= j < before.len() && #[trigger] before[j].0 == b;
            assert(j != pos);
            assert(after[j] == before[j]);
            lemma_balance_at(before, b, j);
            lemma_balance_at(after, b, j);
        } else if holds(after, b) {
            let j = choose|j: int| 0 <= j < after.len() && #[trigger] after[j].0 == b;
            assert(j != pos);
            assert(after[j] == before[j]);
        }
    }
}

impl TokenLedger {
    pub closed spec fn wf(self) -> bool {
        unique_holders(self.balances@)
    }

    pub closed spec fn spec_admin(self) -> Address {
        self.admin
    }

    /// `a`'s balance.
    pub closed spec fn balance_of(self, a: Address) -> int {
        balance_in(self.balances@, a)
    }

    /// A token with no balances, minted by `admin`.
    pub fn new(admin: Address) -> (r: TokenLedger)
        ensures
            r.wf(),
            r.spec_admin() == admin,
            forall|a: Address| #[trigger] r.balance_of(a) == 0,
    {
        TokenLedger { admin, balances: Vec::new() }
    }

    fn position(&self, a: &Address) -> (r: Option<usize>)
        ensures
            r matches Some(i) ==> i < self.balances@.len() && self.balances@[i as int].0 == *a,
            r is None ==> !holds(self.balances@, *a),
    {
        let mut i: usize = 0;
        while i < self.balances.len()
            invariant
                i <= self.balances@.len(),
                forall|j: int| 0 <= j < i ==> self.balances@[j].0 != *a,
            decreases self.balances@.len() - i,
        {
            if self.balances[i].0.same(a) {
                return Some(i);
            }
            i = i + 1;
        }
        None
    }

    /// `a`'s balance.
    pub fn balance(&self, a: &Address) -> (r: i128)
        requires
            self.wf(),
        ensures
            r == self.balance_of(*a),
    {
        match self.position(a) {
            Some(i) => {
                proof {
                    lemma_balance_at(self.balances@, *a, i as int);
                }
                self.balances[i].1
            },
            None => 0,
        }
    }

    fn set_balance(&mut self, a: &Address, v: i128)
        requires
            old(self).wf(),
        ensures
            final(self).wf(),
            final(self).spec_admin() == old(self).spec_admin(),
            final(self).balance_of(*a) == v,
            forall|b: Address| b != *a ==> #[trigger] final(self).balance_of(b) == old(self).balance_of(b),
    {
        let ghost before = self.balances@;
        match self.position(a) {
            Some(i) => {
                self.balances.set(i, (*a, v));
                proof {
                    lemma_balance_after_write(before, self.balances@, *a, v, i as int);
                }
            },
            None => {
                self.balances.push((*a, v));
                proof {
                    lemma_balance_after_write(before, self.balances@, *a, v, before.len() as int);
                }
            },
        }
    }

    /// Mint `amount` to `to`. Admin-gated (`caller` is the address whose
    /// authorization the invocation carries).
    pub fn mint(&mut self, caller: &Address, to: &Address, amount: i128)
        requires
            old(self).wf(),
            *caller == old(self).spec_admin(),
            0 <= amount,
            old(self).balance_of(*to) + amount <= i128::MAX,
        ensures
            final(self).wf(),
            final(self).spec_admin() == old(self).spec_admin(),
            final(self).balance_of(*to) == old(self).balance_of(*to) + amount,
            forall|b: Address| b != *to ==> #[trigger] final(self).balance_of(b) == old(self).balance_of(b),
    {
        let cur = self.balance(to);
        self.set_balance(to, cur + amount);
    }

    /// Move `amount` from `from` to `to`. The invocation carries `from`'s
    /// authorization.
    pub fn transfer(&mut self, from: &Address, to: &Address, amount: i128)
        requires
            old(self).wf(),
            0 <= amount <= old(self).balance_of(*from),
            *from != *to ==> old(self).balance_of(*to) + amount <= i128::MAX,
        ensures
            final(self).wf(),
            final(self).spec_admin() == old(self).spec_admin(),
            *from != *to ==> final(self).balance_of(*from) == old(self).balance_of(*from) - amount
                && final(self).balance_of(*to) == old(self).balance_of(*to) + amount,
            forall|b: Address| b != *from && b != *to ==> #[trigger] final(self).balance_of(b) == old(self).balance_of(b),
            *from == *to ==> forall|b: Address| #[trigger] final(self).balance_of(b) == old(self).balance_of(b),
    {
        if from.same(to) {
            return;
        }
        let f = self.balance(from);
        let t = self.balance(to);
        self.set_balance(from, f - amount);
        self.set_balance(to, t + amount);
    }
}

} // verus!
