//! The note-commitment engine: an incremental (Tornado-style) Poseidon Merkle
//! tree of depth 20 with a ring buffer of the most recent 32 roots, so that a
//! proof built against a slightly stale root is still accepted.
//!
//! Only the configured authority (the shielded pool) may insert, and a leaf
//! can be inserted at most once.

use crate::address::Address;
use crate::field::{bytes32_eq, fr_zero, is_fe, Bytes32};
use crate::merkle::{
    all_fe, lemma_append_keeps_full_subtree, lemma_div_window, lemma_empty_subtree,
    lemma_parent_of_path_node, sibling_index, tree_node, tree_root, zero_node,
};
use crate::poseidon::poseidon2to1;
use vstd::arithmetic::div_mod::lemma_div_denominator;
use vstd::arithmetic::power2::{lemma2_to64, lemma_pow2_pos, lemma_pow2_unfold, pow2};
use vstd::prelude::*;

verus! {

/// Depth of the Merkle tree: `2^DEPTH` leaf positions.
pub const DEPTH: u32 = 20;

/// Number of historical roots retained so in-flight proofs stay valid.
pub const ROOT_HISTORY: u32 = 32;

/// Number of leaf positions, `2^DEPTH`.
pub const CAPACITY: u32 = 1048576;

#[derive(Clone, Copy, Debug, PartialEq, Eq)]
pub enum Error {
    AlreadyInitialized,
    NotInitialized,
    TreeFull,
    DuplicateLeaf,
}

/// Emitted when a note commitment is inserted into the tree.
#[derive(Clone, Copy, Debug, PartialEq, Eq)]
pub struct CommitInserted {
    pub index: u32,
    pub leaf: Bytes32,
    pub root: Bytes32,
}

/// Serialized tree state.
#[derive(Debug)]
pub struct TreeState {
    pub next_index: u32,
    pub current_root_index: u32,
    /// Right-most filled node on each level.
    pub filled_subtrees: Vec<Bytes32>,
    /// Precomputed zero (empty) subtree hash for each level.
    pub zeros: Vec<Bytes32>,
    pub root: Bytes32,
    pub size: u32,
}

/// The commitment contract and its storage.
pub struct CommitmentContract {
    /// Address permitted to insert leaves (the transfer contract).
    authority: Option<Address>,
    /// Tree state, present once initialized.
    state: Option<TreeState>,
    /// The inserted leaves, in insertion order (each is also a set member).
    leaves: Vec<Bytes32>,
    /// Root history ring buffer.
    roots: Vec<Option<Bytes32>>,
    /// Events published so far.
    events: Vec<CommitInserted>,
}

/// The root of the tree after its first `k` leaves were inserted.
pub open spec fn root_after(leaves: Seq<Bytes32>, k: nat) -> Seq<u8> {
    tree_root(leaves.take(k as int), DEPTH as nat)
}

/// `root` is one of the last `ROOT_HISTORY` roots of the tree over `leaves`
/// (the roots after `n`, `n - 1`, ..., `n - 31` insertions).
pub open spec fn is_recent_root(leaves: Seq<Bytes32>, root: Seq<u8>) -> bool {
    exists|j: nat|
        j < ROOT_HISTORY && j <= leaves.len() && #[trigger] root_after(leaves, (leaves.len() - j) as nat) == root
}

/// At level `l`, the filled subtree is the last complete left node whenever
/// the next insertion position is a right child.
pub open spec fn filled_ok(filled: Seq<Bytes32>, leaves: Seq<Bytes32>, l: nat) -> bool {
    (leaves.len() / pow2(l)) % 2 == 1 ==> filled[l as int]@ == tree_node(
        leaves,
        l,
        (leaves.len() / pow2(l) - 1) as nat,
    )
}

/// How many insertions ago ring slot `s` was written, when slot `cur` holds
/// the current root.
pub open spec fn slot_age(cur: nat, s: nat) -> nat {
    ((cur + ROOT_HISTORY - s) as nat) % (ROOT_HISTORY as nat)
}

/// What ring slot `s` holds after `leaves` were inserted.
pub open spec fn slot_ok(slot: Option<Bytes32>, leaves: Seq<Bytes32>, cur: nat, s: nat) -> bool {
    if slot_age(cur, s) <= leaves.len() {
        slot is Some && slot->0@ == root_after(leaves, (leaves.len() - slot_age(cur, s)) as nat)
    } else {
        slot is None
    }
}

impl CommitmentContract {
    /// The storage invariant.
    pub closed spec fn wf(self) -> bool {
        &&& self.roots@.len() == ROOT_HISTORY
        &&& (self.authority is None <==> self.state is None)
        &&& all_fe(self.leaves@)
        &&& self.leaves@.no_duplicates()
        &&& self.authority is None ==> {
            &&& self.leaves@.len() == 0
            &&& forall|s: int| 0 <= s < ROOT_HISTORY ==> (#[trigger] self.roots@[s]) is None
        }
        &&& self.state matches Some(st) ==> {
            let n = self.leaves@.len();
            &&& st.next_index == n
            &&& st.size == n
            &&& n <= CAPACITY
            &&& st.zeros@.len() == DEPTH
            &&& st.filled_subtrees@.len() == DEPTH
            &&& forall|l: int| 0 <= l < DEPTH ==> (#[trigger] st.zeros@[l])@ == zero_node(l as nat)
            &&& forall|l: int| 0 <= l < DEPTH ==> is_fe((#[trigger] st.zeros@[l])@)
            &&& forall|l: int| 0 <= l < DEPTH ==> is_fe((#[trigger] st.filled_subtrees@[l])@)
            &&& forall|l: nat| l < DEPTH ==> #[trigger] filled_ok(st.filled_subtrees@, self.leaves@, l)
            &&& st.root@ == tree_root(self.leaves@, DEPTH as nat)
            &&& st.current_root_index < ROOT_HISTORY
            &&& forall|s: int|
                0 <= s < ROOT_HISTORY ==> #[trigger] slot_ok(
                    self.roots@[s],
                    self.leaves@,
                    st.current_root_index as nat,
                    s as nat,
                )
        }
    }

    /// The address allowed to insert, once initialized.
    pub closed spec fn spec_authority(self) -> Option<Address> {
        self.authority
    }

    /// The inserted leaves, in insertion order.
    pub closed spec fn spec_leaves(self) -> Seq<Bytes32> {
        self.leaves@
    }

    /// The events published so far.
    pub closed spec fn spec_events(self) -> Seq<CommitInserted> {
        self.events@
    }

    /// A freshly deployed, uninitialized contract.
    pub fn new() -> (r: CommitmentContract)
        ensures
            r.wf(),
            r.spec_authority() is None,
            r.spec_leaves() == Seq::<Bytes32>::empty(),
            r.spec_events() == Seq::<CommitInserted>::empty(),
    {
        let mut roots: Vec<Option<Bytes32>> = Vec::new();
        let mut i: u32 = 0;
        while i < ROOT_HISTORY
            invariant
                i <= ROOT_HISTORY,
                roots@.len() == i,
                forall|s: int| 0 <= s < i ==> (#[trigger] roots@[s]) is None,
            decreases ROOT_HISTORY - i,
        {
            roots.push(None);
            i = i + 1;
        }
        CommitmentContract { authority: None, state: None, leaves: Vec::new(), roots, events: Vec::new() }
    }

    /// Initialize the tree. `authority` is the only address allowed to insert.
    pub fn initialize(&mut self, authority: Address) -> (r: Result<(), Error>)
        requires
            old(self).wf(),
        ensures
            final(self).wf(),
            old(self).spec_authority() is Some ==> r == Err::<(), Error>(Error::AlreadyInitialized)
                && final(self).spec_authority() == old(self).spec_authority()
                && final(self).spec_leaves() == old(self).spec_leaves(),
            old(self).spec_authority() is None ==> r == Ok::<(), Error>(())
                && final(self).spec_authority() == Some(authority)
                && final(self).spec_leaves() == Seq::<Bytes32>::empty(),
            final(self).spec_events() == old(self).spec_events(),
    {
        if self.authority.is_some() {
            return Err(Error::AlreadyInitialized);
        }
        // The empty leaf is the field element zero, matching the circuits'
        // zero-leaf convention.
        let base = fr_zero();
        let mut zeros: Vec<Bytes32> = Vec::new();
        let mut filled: Vec<Bytes32> = Vec::new();
        let mut current = base;
        let mut level: u32 = 0;
        while level < DEPTH
            invariant
                level <= DEPTH,
                zeros@.len() == level,
                filled@ == zeros@,
                current@ == zero_node(level as nat),
                is_fe(current@),
                forall|l: int| 0 <= l < level ==> (#[trigger] zeros@[l])@ == zero_node(l as nat),
                forall|l: int| 0 <= l < level ==> is_fe((#[trigger] zeros@[l])@),
            decreases DEPTH - level,
        {
            zeros.push(current);
            filled.push(current);
            current = poseidon2to1(current, current);
            level = level + 1;
        }
        // `current` is now the root of a fully-empty tree.
        let root = current;
        proof {
            lemma_empty_subtree(self.leaves@, DEPTH as nat, 0);
            assert forall|l: nat| l < DEPTH implies #[trigger] filled_ok(filled@, self.leaves@, l) by {
                lemma_pow2_pos(l);
                assert(0nat / pow2(l) == 0) by (nonlinear_arith)
                    requires
                        pow2(l) > 0,
                ;
            }
        }
        let state = TreeState {
            next_index: 0,
            current_root_index: 0,
            filled_subtrees: filled,
            zeros,
            root,
            size: 0,
        };
        self.authority = Some(authority);
        self.state = Some(state);
        self.roots.set(0, Some(root));
        proof {
            assert(self.leaves@.take(0) =~= self.leaves@);
            assert forall|s: int| 0 <= s < ROOT_HISTORY implies #[trigger] slot_ok(
                self.roots@[s],
                self.leaves@,
                0,
                s as nat,
            ) by {
                if s == 0 {
                    assert(slot_age(0, 0) == 0);
                } else {
                    assert(slot_age(0, s as nat) == ROOT_HISTORY - s);
                }
            }
        }
        Ok(())
    }

    /// Whether `leaf` has been inserted.
    pub fn contains_leaf(&self, leaf: &Bytes32) -> (r: bool)
        ensures
            r == self.spec_leaves().contains(*leaf),
    {
        let mut i: usize = 0;
        while i < self.leaves.len()
            invariant
                i <= self.leaves@.len(),
                forall|j: int| 0 <= j < i ==> self.leaves@[j] != *leaf,
            decreases self.leaves@.len() - i,
        {
            if bytes32_eq(&self.leaves[i], leaf) {
                proof {
                    assert(self.leaves@[i as int] =~= *leaf);
                }
                return true;
            }
            i = i + 1;
        }
        false
    }

    /// Insert a note commitment leaf and return its leaf index. Only the
    /// configured authority may call this (`caller` is the address whose
    /// authorization the invocation carries).
    #[verifier::rlimit(80)]
    #[verifier::spinoff_prover]
    pub fn insert(&mut self, caller: &Address, leaf: Bytes32) -> (r: Result<u32, Error>)
        requires
            old(self).wf(),
            old(self).spec_authority() matches Some(a) ==> a == *caller,
            old(self).spec_authority() is Some && !old(self).spec_leaves().contains(leaf)
                && old(self).spec_leaves().len() < CAPACITY ==> is_fe(leaf@),
        ensures
            final(self).wf(),
            final(self).spec_authority() == old(self).spec_authority(),
            old(self).spec_authority() is None ==> r == Err::<u32, Error>(Error::NotInitialized),
            old(self).spec_authority() is Some && old(self).spec_leaves().contains(leaf) ==> r
                == Err::<u32, Error>(Error::DuplicateLeaf),
            old(self).spec_authority() is Some && !old(self).spec_leaves().contains(leaf)
                && old(self).spec_leaves().len() >= CAPACITY ==> r == Err::<u32, Error>(
                Error::TreeFull,
            ),
            r is Err ==> final(self).spec_leaves() == old(self).spec_leaves() && final(self).spec_events()
                == old(self).spec_events(),
            r is Ok <==> old(self).spec_authority() is Some && !old(self).spec_leaves().contains(leaf)
                && old(self).spec_leaves().len() < CAPACITY,
            r is Ok ==> {
                &&& old(self).spec_authority() is Some
                &&& !old(self).spec_leaves().contains(leaf)
                &&& old(self).spec_leaves().len() < CAPACITY
                &&& r == Ok::<u32, Error>(old(self).spec_leaves().len() as u32)
                &&& final(self).spec_leaves() == old(self).spec_leaves().push(leaf)
                &&& final(self).spec_events().len() == old(self).spec_events().len() + 1
                &&& final(self).spec_events().drop_last() == old(self).spec_events()
                &&& final(self).spec_events().last().index == old(self).spec_leaves().len()
                &&& final(self).spec_events().last().leaf == leaf
                &&& final(self).spec_events().last().root@ == tree_root(
                    final(self).spec_leaves(),
                    DEPTH as nat,
                )
            },
    {
        if self.authority.is_none() {
            return Err(Error::NotInitialized);
        }
        if self.contains_leaf(&leaf) {
            return Err(Error::DuplicateLeaf);
        }
        let mut st = match self.state.take() {
            Some(st) => st,
            None => {
                return Err(Error::NotInitialized);
            },
        };
        if st.next_index >= CAPACITY {
            self.state = Some(st);
            return Err(Error::TreeFull);
        }
        let ghost leaves = self.leaves@;
        let ghost leaves2 = self.leaves@.push(leaf);
        let ghost old_filled = st.filled_subtrees@;
        let leaf_index = st.next_index;
        let mut current = leaf;
        let mut index = leaf_index;
        let mut level: u32 = 0;
        proof {
            assert(pow2(0) == 1) by {
                lemma2_to64();
            }
        }
        while level < DEPTH
            invariant
                level <= DEPTH,
                leaves2 == leaves.push(leaf),
                leaf_index as nat == leaves.len(),
                leaves.len() < CAPACITY,
                all_fe(leaves),
                st.zeros@.len() == DEPTH,
                st.filled_subtrees@.len() == DEPTH,
                forall|l: int| 0 <= l < DEPTH ==> (#[trigger] st.zeros@[l])@ == zero_node(l as nat),
                forall|l: int| 0 <= l < DEPTH ==> is_fe((#[trigger] st.zeros@[l])@),
                forall|l: int| 0 <= l < DEPTH ==> is_fe((#[trigger] old_filled[l])@),
                forall|l: nat| l < DEPTH ==> #[trigger] filled_ok(old_filled, leaves, l),
                forall|l: int| 0 <= l < DEPTH ==> is_fe((#[trigger] st.filled_subtrees@[l])@),
                forall|l: nat| l < level ==> #[trigger] filled_ok(st.filled_subtrees@, leaves2, l),
                forall|l: int| level <= l < DEPTH ==> #[trigger] st.filled_subtrees@[l] == old_filled[l],
                index as nat == leaf_index as nat / pow2(level as nat),
                st.current_root_index < ROOT_HISTORY,
                st.size as nat == leaves.len(),
                st.next_index == leaf_index,
                self.roots@.len() == ROOT_HISTORY,
                forall|s: int|
                    0 <= s < ROOT_HISTORY ==> #[trigger] slot_ok(
                        self.roots@[s],
                        leaves,
                        st.current_root_index as nat,
                        s as nat,
                    ),
                current@ == tree_node(leaves2, level as nat, index as nat),
                is_fe(current@),
            decreases DEPTH - level,
        {
            let ghost p = pow2(level as nat);
            let ghost before = st.filled_subtrees@;
            proof {
                lemma_pow2_pos(level as nat);
                lemma_div_window(leaf_index as nat, p);
                lemma_parent_of_path_node(leaves2, level as nat, index as nat);
            }
            let (left, right) = if index % 2 == 0 {
                st.filled_subtrees.set(level as usize, current);
                proof {
                    lemma_empty_subtree(leaves2, level as nat, (index + 1) as nat);
                }
                (current, st.zeros[level as usize])
            } else {
                proof {
                    assert(filled_ok(old_filled, leaves, level as nat));
                    lemma_append_keeps_full_subtree(leaves, leaf, level as nat, (index - 1) as nat);
                }
                (st.filled_subtrees[level as usize], current)
            };
            proof {
                assert(sibling_index(index as nat) == if index % 2 == 0 {
                    (index + 1) as nat
                } else {
                    (index - 1) as nat
                });
                assert forall|l: nat| l < level + 1 implies #[trigger] filled_ok(
                    st.filled_subtrees@,
                    leaves2,
                    l,
                ) by {
                    if l < level {
                        assert(filled_ok(before, leaves2, l));
                        assert(st.filled_subtrees@[l as int] == before[l as int]);
                    }
                }
                lemma_pow2_unfold((level + 1) as nat);
                lemma_div_denominator(leaf_index as int, p as int, 2);
            }
            current = poseidon2to1(left, right);
            index = index / 2;
            level = level + 1;
        }
        proof {
            lemma2_to64();
            assert(leaf_index as nat / pow2(DEPTH as nat) == 0);
        }
        st.root = current;
        let ghost cur = st.current_root_index as nat;
        let new_root_index = (st.current_root_index + 1) % ROOT_HISTORY;
        st.current_root_index = new_root_index;
        st.next_index = leaf_index + 1;
        st.size = st.size + 1;
        let ghost old_roots = self.roots@;
        self.roots.set(new_root_index as usize, Some(current));
        self.leaves.push(leaf);
        self.events.push(CommitInserted { index: leaf_index, leaf, root: current });
        proof {
            assert(self.leaves@ == leaves2);
            assert(leaves2.take(leaves2.len() as int) =~= leaves2);
            assert forall|k: nat| k <= leaves.len() implies #[trigger] root_after(leaves2, k)
                == root_after(leaves, k) by {
                assert(leaves2.take(k as int) =~= leaves.take(k as int));
            }
            assert forall|s: int| 0 <= s < ROOT_HISTORY implies #[trigger] slot_ok(
                self.roots@[s],
                leaves2,
                new_root_index as nat,
                s as nat,
            ) by {
                if s == new_root_index {
                    assert(slot_age(new_root_index as nat, s as nat) == 0);
                } else {
                    assert(slot_ok(old_roots[s], leaves, cur, s as nat));
                    assert(slot_age(new_root_index as nat, s as nat) == slot_age(cur, s as nat) + 1);
                    if slot_age(cur, s as nat) <= leaves.len() {
                        assert(root_after(leaves2, (leaves2.len() - slot_age(new_root_index as nat, s as nat)) as nat)
                            == root_after(leaves, (leaves.len() - slot_age(cur, s as nat)) as nat));
                    }
                }
            }
            assert(self.leaves@.no_duplicates());
        }
        self.state = Some(st);
        Ok(leaf_index)
    }

    /// Current Merkle root.
    pub fn root(&self) -> (r: Bytes32)
        requires
            self.wf(),
            self.spec_authority() is Some,
        ensures
            r@ == tree_root(self.spec_leaves(), DEPTH as nat),
    {
        match &self.state {
            Some(st) => st.root,
            None => fr_zero(),
        }
    }

    /// Total number of leaves inserted.
    pub fn size(&self) -> (r: u32)
        requires
            self.wf(),
            self.spec_authority() is Some,
        ensures
            r == self.spec_leaves().len(),
    {
        match &self.state {
            Some(st) => st.size,
            None => 0,
        }
    }

    /// Was `root` one of the last `ROOT_HISTORY` roots? Proofs built against a
    /// slightly stale root are accepted through this check.
    pub fn is_known_root(&self, root: Bytes32) -> (r: bool)
        requires
            self.wf(),
        ensures
            r == (self.spec_authority() is Some && is_recent_root(self.spec_leaves(), root@)),
    {
        let mut i: usize = 0;
        while i < 32
            invariant
                i <= 32,
                self.wf(),
                forall|s: int| 0 <= s < i ==> !(#[trigger] self.roots@[s] matches Some(x) && x@ == root@),
            decreases 32 - i,
        {
            let slot = self.roots[i];
            match slot {
                Some(x) => {
                    assert(self.roots@[i as int] == Some(x));
                    if bytes32_eq(&x, &root) {
                        proof {
                            self.lemma_slot_is_recent(i as nat);
                        }
                        return true;
                    }
                },
                None => {},
            }
            i = i + 1;
        }
        proof {
            if self.authority is Some && is_recent_root(self.leaves@, root@) {
                let j = choose|j: nat|
                    j < ROOT_HISTORY && j <= self.leaves@.len() && #[trigger] root_after(
                        self.leaves@,
                        (self.leaves@.len() - j) as nat,
                    ) == root@;
                let st = self.state->0;
                let cur = st.current_root_index as nat;
                let s: nat = if cur >= j {
                    (cur - j) as nat
                } else {
                    (cur + ROOT_HISTORY - j) as nat
                };
                assert(slot_age(cur, s) == j);
                assert(slot_ok(self.roots@[s as int], self.leaves@, st.current_root_index as nat, s));
            }
        }
        false
    }

    proof fn lemma_slot_is_recent(&self, s: nat)
        requires
            self.wf(),
            s < ROOT_HISTORY,
            self.roots@[s as int] is Some,
        ensures
            self.authority is Some,
            is_recent_root(self.leaves@, self.roots@[s as int]->0@),
    {
        if self.authority is None {
            assert(self.roots@[s as int] is None);
        } else {
            let st = self.state->0;
            let si: int = s as int;
            assert(slot_ok(self.roots@[si], self.leaves@, st.current_root_index as nat, si as nat));
            let j = slot_age(st.current_root_index as nat, s);
            assert(j <= self.leaves@.len());
            let x = self.roots@[s as int]->0;
            assert(x@ == root_after(self.leaves@, (self.leaves@.len() - j) as nat));
            assert(j < ROOT_HISTORY);
        }
    }
}

/// A root stays known for the next `ROOT_HISTORY - 1` insertions: the root
/// after the first `k` leaves is a recent root as long as fewer than
/// `ROOT_HISTORY` leaves were inserted since.
pub proof fn law_root_stays_known(leaves: Seq<Bytes32>, k: nat)
    requires
        k <= leaves.len(),
        leaves.len() - k < ROOT_HISTORY,
    ensures
        is_recent_root(leaves, root_after(leaves, k)),
{
    let j = (leaves.len() - k) as nat;
    assert(root_after(leaves, (leaves.len() - j) as nat) == root_after(leaves, k));
}

/// Inserting a leaf does not rewrite history: every earlier root is still
/// the root after the same number of insertions.
pub proof fn law_history_is_stable(leaves: Seq<Bytes32>, leaf: Bytes32, k: nat)
    requires
        k <= leaves.len(),
    ensures
        root_after(leaves.push(leaf), k) == root_after(leaves, k),
{
    assert(leaves.push(leaf).take(k as int) =~= leaves.take(k as int));
}

/// The current root is `root_after` all the leaves, and so is known.
pub proof fn law_current_root_known(leaves: Seq<Bytes32>)
    ensures
        root_after(leaves, leaves.len()) == tree_root(leaves, DEPTH as nat),
        is_recent_root(leaves, tree_root(leaves, DEPTH as nat)),
{
    assert(leaves.take(leaves.len() as int) =~= leaves);
    law_root_stays_known(leaves, leaves.len());
}

} // verus!
