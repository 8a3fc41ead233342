//! The Poseidon Merkle tree of note commitments: the tree every root is taken
//! over, and the off-chain reconstruction of a leaf's authentication path.
//!
//! A tree of depth `d` has `2^d` leaf positions; positions past the inserted
//! leaves hold the empty leaf `0`. An inner node is
//! `Poseidon(left child, right child)`.

use crate::field::{bytes32_eq, fr_zero, is_fe, zero32, Bytes32};
use crate::poseidon::{poseidon, poseidon2to1};
use vstd::arithmetic::div_mod::{lemma_div_denominator, lemma_fundamental_div_mod_converse};
use vstd::arithmetic::power2::{
    lemma2_to64, lemma_pow2_pos, lemma_pow2_strictly_increases, lemma_pow2_unfold, pow2,
};
use vstd::bits::lemma_usize_shr_is_div;
use vstd::prelude::*;

verus! {

/// The leaf at position `i`: an inserted leaf, or the empty leaf `0`.
pub open spec fn leaf_at(leaves: Seq<Bytes32>, i: nat) -> Seq<u8> {
    if i < leaves.len() {
        leaves[i as int]@
    } else {
        zero32()
    }
}

/// The node at `level` (0 = leaves) and position `idx` of the tree over `leaves`.
pub open spec fn tree_node(leaves: Seq<Bytes32>, level: nat, idx: nat) -> Seq<u8>
    decreases level,
{
    if level == 0 {
        leaf_at(leaves, idx)
    } else {
        poseidon(
            tree_node(leaves, (level - 1) as nat, 2 * idx),
            tree_node(leaves, (level - 1) as nat, 2 * idx + 1),
        )
    }
}

/// The root of an empty subtree of height `level`:
/// `zero(0) = 0`, `zero(i + 1) = Poseidon(zero(i), zero(i))`.
pub open spec fn zero_node(level: nat) -> Seq<u8>
    decreases level,
{
    if level == 0 {
        zero32()
    } else {
        poseidon(zero_node((level - 1) as nat), zero_node((level - 1) as nat))
    }
}

/// The root of the depth-`depth` tree over `leaves`.
pub open spec fn tree_root(leaves: Seq<Bytes32>, depth: nat) -> Seq<u8> {
    tree_node(leaves, depth, 0)
}

/// Every inserted leaf is a canonical field element.
pub open spec fn all_fe(leaves: Seq<Bytes32>) -> bool {
    forall|i: int| 0 <= i < leaves.len() ==> is_fe(#[trigger] leaves[i]@)
}

/// One step up an authentication path: the parent of `cur` and its sibling
/// `sib`, where `is_right` says that `cur` is the right child.
pub open spec fn path_step(cur: Seq<u8>, sib: Seq<u8>, is_right: bool) -> Seq<u8> {
    if is_right {
        poseidon(sib, cur)
    } else {
        poseidon(cur, sib)
    }
}

/// The node reached from `leaf` after the first `n` steps of a path.
pub open spec fn path_fold(leaf: Seq<u8>, siblings: Seq<Bytes32>, bits: Seq<bool>, n: nat) -> Seq<u8>
    decreases n,
{
    if n == 0 {
        leaf
    } else {
        path_step(
            path_fold(leaf, siblings, bits, (n - 1) as nat),
            siblings[n - 1]@,
            bits[n - 1],
        )
    }
}

/// `leaf = Poseidon(n, k)`.
pub fn leaf(n: Bytes32, k: Bytes32) -> (r: Bytes32)
    requires
        is_fe(n@),
        is_fe(k@),
    ensures
        r@ == poseidon(n@, k@),
        is_fe(r@),
{
    poseidon2to1(n, k)
}

/// `nullifier_hash = Poseidon(n, 0)`.
pub fn nullifier(n: Bytes32) -> (r: Bytes32)
    requires
        is_fe(n@),
    ensures
        r@ == poseidon(n@, zero32()),
        is_fe(r@),
{
    poseidon2to1(n, fr_zero())
}

/// Roots of empty subtrees at each level: `zeros[0] = 0`,
/// `zeros[i + 1] = Poseidon(zeros[i], zeros[i])`.
pub fn zeros(depth: usize) -> (z: Vec<Bytes32>)
    requires
        depth < usize::MAX,
    ensures
        z.len() == depth + 1,
        forall|i: int| 0 <= i <= depth ==> (#[trigger] z@[i])@ == zero_node(i as nat),
        forall|i: int| 0 <= i <= depth ==> is_fe((#[trigger] z@[i])@),
{
    let mut z: Vec<Bytes32> = Vec::new();
    z.push(fr_zero());
    let mut i: usize = 0;
    while i < depth
        invariant
            i <= depth,
            depth < usize::MAX,
            z.len() == i + 1,
            forall|j: int| 0 <= j <= i ==> (#[trigger] z@[j])@ == zero_node(j as nat),
            forall|j: int| 0 <= j <= i ==> is_fe((#[trigger] z@[j])@),
        decreases depth - i,
    {
        let prev = z[i];
        z.push(poseidon2to1(prev, prev));
        i = i + 1;
    }
    z
}

/// Position of the path node at `level` for the leaf at `index`.
pub open spec fn path_index(index: nat, level: nat) -> nat {
    index / pow2(level)
}

/// The bit at level `d` of a position is its `d`-th binary digit: the low
/// bit of `index >> d` (zero past the width of `usize`).
proof fn lemma_path_bit(index: usize, d: nat)
    ensures
        (path_index(index as nat, d) % 2 == 1) == (d < usize::BITS && (index >> (d as usize)) & 1usize
            == 1usize),
{
    lemma_pow2_pos(d);
    if d < usize::BITS {
        lemma_usize_shr_is_div(index, d as usize);
        let x: usize = index >> (d as usize);
        assert(x & 1usize == x % 2) by (bit_vector);
    } else {
        lemma2_to64();
        if usize::BITS < d {
            lemma_pow2_strictly_increases(usize::BITS as nat, d);
        }
        assert(index < pow2(usize::BITS as nat));
        vstd::arithmetic::div_mod::lemma_basic_div(index as int, pow2(d) as int);
    }
}

/// The position that shares a parent with `idx`.
pub open spec fn sibling_index(idx: nat) -> nat {
    if idx % 2 == 0 {
        idx + 1
    } else {
        (idx - 1) as nat
    }
}

pub proof fn lemma_path_index_step(index: nat, level: nat)
    ensures
        path_index(index, level + 1) == path_index(index, level) / 2,
        path_index(index, 0) == index,
{
    lemma_pow2_unfold(level + 1);
    lemma_pow2_pos(level);
    lemma_div_denominator(index as int, pow2(level) as int, 2);
    assert(pow2(0) == 1) by {
        lemma2_to64();
    }
}

pub proof fn lemma_parent_of_path_node(leaves: Seq<Bytes32>, level: nat, idx: nat)
    ensures
        tree_node(leaves, level + 1, idx / 2) == path_step(
            tree_node(leaves, level, idx),
            tree_node(leaves, level, sibling_index(idx)),
            idx % 2 == 1,
        ),
{
    assert(tree_node(leaves, level + 1, idx / 2) == poseidon(
        tree_node(leaves, level, 2 * (idx / 2)),
        tree_node(leaves, level, 2 * (idx / 2) + 1),
    ));
    if idx % 2 == 0 {
        assert(2 * (idx / 2) == idx);
    } else {
        assert(2 * (idx / 2) + 1 == idx);
    }
}

/// An authentication path authenticates its leaf: folding the leaf with the
/// siblings of its path reaches the path node at the top, which for a leaf
/// position inside the tree is the root.
pub proof fn law_path_authenticates(
    leaves: Seq<Bytes32>,
    index: nat,
    siblings: Seq<Bytes32>,
    bits: Seq<bool>,
    depth: nat,
)
    requires
        siblings.len() >= depth,
        bits.len() >= depth,
        forall|d: int|
            0 <= d < depth ==> (#[trigger] siblings[d])@ == tree_node(
                leaves,
                d as nat,
                sibling_index(path_index(index, d as nat)),
            ),
        forall|d: int| 0 <= d < depth ==> #[trigger] bits[d] == (path_index(index, d as nat) % 2 == 1),
    ensures
        path_fold(leaf_at(leaves, index), siblings, bits, depth) == tree_node(
            leaves,
            depth,
            path_index(index, depth),
        ),
        index < pow2(depth) ==> path_fold(leaf_at(leaves, index), siblings, bits, depth) == tree_root(
            leaves,
            depth,
        ),
    decreases depth,
{
    lemma_path_index_step(index, 0);
    if depth > 0 {
        let n = (depth - 1) as nat;
        law_path_authenticates(leaves, index, siblings, bits, n);
        assert(siblings[n as int]@ == tree_node(leaves, n, sibling_index(path_index(index, n))));
        assert(bits[n as int] == (path_index(index, n) % 2 == 1));
        lemma_parent_of_path_node(leaves, n, path_index(index, n));
        lemma_path_index_step(index, n);
    }
    lemma_pow2_pos(depth);
    if index < pow2(depth) {
        vstd::arithmetic::div_mod::lemma_basic_div(index as int, pow2(depth) as int);
    }
}

proof fn lemma_xor_one(idx: usize)
    ensures
        (idx ^ 1) as nat == sibling_index(idx as nat),
{
    assert(idx % 2 == 0 ==> idx ^ 1 == idx + 1) by (bit_vector);
    assert(idx % 2 == 1 ==> idx ^ 1 == idx - 1) by (bit_vector);
}

/// Reconstruct the root and the authentication path for the leaf at `index`,
/// given the ordered list of inserted `leaves` (unfilled positions are the
/// empty leaf `0`). Returns `(root, siblings, path_bits)` where
/// `path_bits[i]` means the path node is the right child at level `i`.
pub fn path(leaves: &[Bytes32], index: usize, depth: usize) -> (r: (Bytes32, Vec<Bytes32>, Vec<bool>))
    requires
        all_fe(leaves@),
        depth < usize::MAX,
        depth > 0 || leaves@.len() > 0,
    ensures
        r.0@ == tree_root(leaves@, depth as nat),
        r.1.len() == depth,
        r.2.len() == depth,
        forall|d: int|
            0 <= d < depth ==> (#[trigger] r.1@[d])@ == tree_node(
                leaves@,
                d as nat,
                sibling_index(path_index(index as nat, d as nat)),
            ),
        forall|d: int|
            0 <= d < depth ==> #[trigger] r.2@[d] == (path_index(index as nat, d as nat) % 2 == 1),
        forall|d: int|
            0 <= d < depth ==> #[trigger] r.2@[d] == (d < usize::BITS && (index >> (d as usize)) & 1usize
                == 1usize),
        path_fold(leaf_at(leaves@, index as nat), r.1@, r.2@, depth as nat) == tree_node(
            leaves@,
            depth as nat,
            path_index(index as nat, depth as nat),
        ),
        index < pow2(depth as nat) ==> path_fold(leaf_at(leaves@, index as nat), r.1@, r.2@, depth as nat)
            == r.0@,
{
    proof {
        assert forall|d: nat| #[trigger] path_index(index as nat, d) % 2 == 1 <==> (d < usize::BITS && (index
            >> (d as usize)) & 1usize == 1usize) by {
            lemma_path_bit(index, d);
        }
        lemma_pow2_pos(depth as nat);
        if index < pow2(depth as nat) {
            vstd::arithmetic::div_mod::lemma_basic_div(index as int, pow2(depth as nat) as int);
        }
    }
    let z = zeros(depth);
    let mut level: Vec<Bytes32> = Vec::new();
    let mut j: usize = 0;
    while j < leaves.len()
        invariant
            j <= leaves@.len(),
            level@ =~= leaves@.subrange(0, j as int),
        decreases leaves@.len() - j,
    {
        level.push(leaves[j]);
        j = j + 1;
    }
    let mut idx = index;
    let mut siblings: Vec<Bytes32> = Vec::new();
    let mut path_bits: Vec<bool> = Vec::new();
    proof {
        lemma_path_index_step(index as nat, 0);
    }
    let mut d: usize = 0;
    while d < depth
        invariant
            d <= depth,
            depth < usize::MAX,
            z.len() == depth + 1,
            forall|i: int| 0 <= i <= depth ==> (#[trigger] z@[i])@ == zero_node(i as nat),
            forall|i: int| 0 <= i <= depth ==> is_fe((#[trigger] z@[i])@),
            all_fe(leaves@),
            idx as nat == path_index(index as nat, d as nat),
            d > 0 || level@.len() == leaves@.len(),
            d > 0 ==> level@.len() > 0,
            forall|i: int|
                0 <= i < level@.len() ==> (#[trigger] level@[i])@ == tree_node(
                    leaves@,
                    d as nat,
                    i as nat,
                ),
            forall|i: int| 0 <= i < level@.len() ==> is_fe((#[trigger] level@[i])@),
            forall|i: nat| i >= level@.len() ==> #[trigger] tree_node(leaves@, d as nat, i) == zero_node(d as nat),
            siblings.len() == d,
            path_bits.len() == d,
            forall|e: int|
                0 <= e < d ==> (#[trigger] siblings@[e])@ == tree_node(
                    leaves@,
                    e as nat,
                    sibling_index(path_index(index as nat, e as nat)),
                ),
            forall|e: int|
                0 <= e < d ==> #[trigger] path_bits@[e] == (path_index(index as nat, e as nat) % 2
                    == 1),
            path_fold(leaf_at(leaves@, index as nat), siblings@, path_bits@, d as nat) == tree_node(
                leaves@,
                d as nat,
                idx as nat,
            ),
        decreases depth - d,
    {
        let zero = z[d];
        let sib_idx = idx ^ 1;
        proof {
            lemma_xor_one(idx);
        }
        let sib = if sib_idx < level.len() {
            level[sib_idx]
        } else {
            zero
        };
        let ghost prev_sib = siblings@;
        let ghost prev_bits = path_bits@;
        siblings.push(sib);
        path_bits.push(idx & 1 == 1);
        proof {
            assert((idx & 1 == 1) == (idx % 2 == 1)) by (bit_vector);
            assert(siblings@.subrange(0, d as int) =~= prev_sib);
            assert(path_bits@.subrange(0, d as int) =~= prev_bits);
            lemma_path_fold_prefix(leaf_at(leaves@, index as nat), siblings@, path_bits@, prev_sib, prev_bits, d as nat);
            lemma_parent_of_path_node(leaves@, d as nat, idx as nat);
            lemma_path_index_step(index as nat, d as nat);
        }

        // Build the next level up, padding the missing right node with `zero`.
        let mut next: Vec<Bytes32> = Vec::new();
        let half = level.len() / 2 + level.len() % 2;
        let mut h: usize = 0;
        while h < half
            invariant
                d < depth,
                z.len() == depth + 1,
                zero@ == zero_node(d as nat),
                is_fe(zero@),
                half == level@.len() / 2 + level@.len() % 2,
                h <= half,
                next@.len() == h,
                forall|m: int|
                    0 <= m < level@.len() ==> (#[trigger] level@[m])@ == tree_node(
                        leaves@,
                        d as nat,
                        m as nat,
                    ),
                forall|m: int| 0 <= m < level@.len() ==> is_fe((#[trigger] level@[m])@),
                forall|m: nat| m >= level@.len() ==> #[trigger] tree_node(leaves@, d as nat, m) == zero_node(d as nat),
                forall|m: int|
                    0 <= m < next@.len() ==> (#[trigger] next@[m])@ == tree_node(
                        leaves@,
                        (d + 1) as nat,
                        m as nat,
                    ),
                forall|m: int| 0 <= m < next@.len() ==> is_fe((#[trigger] next@[m])@),
            decreases half - h,
        {
            assert(2 * h < level.len()) by (nonlinear_arith)
                requires
                    h < half,
                    half == level.len() / 2 + level.len() % 2,
            ;
            let i = 2 * h;
            let l = level[i];
            let r = if i + 1 < level.len() {
                level[i + 1]
            } else {
                zero
            };
            proof {
                assert(r@ == tree_node(leaves@, d as nat, (i + 1) as nat));
            }
            next.push(poseidon2to1(l, r));
            h = h + 1;
        }
        proof {
            assert forall|m: nat| m >= next@.len() implies #[trigger] tree_node(
                leaves@,
                (d + 1) as nat,
                m,
            ) == zero_node((d + 1) as nat) by {
                assert(tree_node(leaves@, d as nat, 2 * m) == zero_node(d as nat));
                assert(tree_node(leaves@, d as nat, 2 * m + 1) == zero_node(d as nat));
            }
        }
        if next.len() == 0 {
            proof {
                assert(tree_node(leaves@, d as nat, 0) == zero_node(d as nat));
                assert(tree_node(leaves@, d as nat, 1) == zero_node(d as nat));
            }
            next.push(poseidon2to1(zero, zero));
        }
        level = next;
        idx = idx / 2;
        d = d + 1;
    }
    (level[0], siblings, path_bits)
}

/// The root of the depth-`depth` tree over `leaves` (the empty-tree root when
/// there are none), as the contract computes it.
pub fn root(leaves: &[Bytes32], depth: usize) -> (r: Bytes32)
    requires
        all_fe(leaves@),
        depth < usize::MAX,
    ensures
        r@ == tree_root(leaves@, depth as nat),
{
    if depth == 0 && leaves.len() == 0 {
        return fr_zero();
    }
    path(leaves, 0, depth).0
}

proof fn lemma_path_fold_prefix(
    leaf: Seq<u8>,
    sib: Seq<Bytes32>,
    bits: Seq<bool>,
    sib0: Seq<Bytes32>,
    bits0: Seq<bool>,
    n: nat,
)
    requires
        n <= sib0.len(),
        n <= bits0.len(),
        sib.len() >= n,
        bits.len() >= n,
        forall|i: int| 0 <= i < n ==> sib[i] == sib0[i],
        forall|i: int| 0 <= i < n ==> bits[i] == bits0[i],
    ensures
        path_fold(leaf, sib, bits, n) == path_fold(leaf, sib0, bits0, n),
    decreases n,
{
    if n > 0 {
        lemma_path_fold_prefix(leaf, sib, bits, sib0, bits0, (n - 1) as nat);
    }
}

/// A subtree whose first leaf position lies past the inserted leaves is empty.
pub proof fn lemma_empty_subtree(leaves: Seq<Bytes32>, level: nat, idx: nat)
    requires
        idx * pow2(level) >= leaves.len(),
    ensures
        tree_node(leaves, level, idx) == zero_node(level),
    decreases level,
{
    if level == 0 {
        assert(pow2(0) == 1) by {
            lemma2_to64();
        }
    } else {
        let p = pow2((level - 1) as nat);
        lemma_pow2_unfold(level);
        assert((2 * idx) * p == idx * pow2(level)) by (nonlinear_arith)
            requires
                pow2(level) == 2 * p,
        ;
        assert((2 * idx + 1) * p >= (2 * idx) * p) by (nonlinear_arith);
        lemma_empty_subtree(leaves, (level - 1) as nat, 2 * idx);
        lemma_empty_subtree(leaves, (level - 1) as nat, 2 * idx + 1);
    }
}

/// Appending a leaf leaves every subtree that ends at or before its position
/// unchanged.
pub proof fn lemma_append_keeps_full_subtree(leaves: Seq<Bytes32>, x: Bytes32, level: nat, idx: nat)
    requires
        (idx + 1) * pow2(level) <= leaves.len(),
    ensures
        tree_node(leaves.push(x), level, idx) == tree_node(leaves, level, idx),
    decreases level,
{
    if level == 0 {
        assert(pow2(0) == 1) by {
            lemma2_to64();
        }
    } else {
        let p = pow2((level - 1) as nat);
        lemma_pow2_unfold(level);
        lemma_pow2_pos((level - 1) as nat);
        assert((2 * idx + 1 + 1) * p == (idx + 1) * pow2(level)) by (nonlinear_arith)
            requires
                pow2(level) == 2 * p,
        ;
        assert((2 * idx + 1) * p <= (2 * idx + 2) * p) by (nonlinear_arith)
            requires
                p > 0,
        ;
        lemma_append_keeps_full_subtree(leaves, x, (level - 1) as nat, 2 * idx);
        lemma_append_keeps_full_subtree(leaves, x, (level - 1) as nat, 2 * idx + 1);
    }
}

/// Facts about `m / p` used to walk the insertion path of leaf `m`.
pub proof fn lemma_div_window(m: nat, p: nat)
    requires
        p > 0,
    ensures
        (m / p) * p <= m,
        m < (m / p + 1) * p,
        (m + 1) / p == m / p || ((m + 1) / p == m / p + 1 && m + 1 == (m / p + 1) * p),
{
    let q = m / p;
    let r = m % p;
    vstd::arithmetic::div_mod::lemma_fundamental_div_mod(m as int, p as int);
    vstd::arithmetic::div_mod::lemma_mod_bound(m as int, p as int);
    assert(m == q * p + r) by (nonlinear_arith)
        requires
            m == p * q + r,
    ;
    assert((q + 1) * p == q * p + p) by (nonlinear_arith);
    if r + 1 < p {
        lemma_fundamental_div_mod_converse((m + 1) as int, p as int, q as int, (r + 1) as int);
    } else {
        assert(m + 1 == (q + 1) * p);
        lemma_fundamental_div_mod_converse((m + 1) as int, p as int, (q + 1) as int, 0);
    }
}

/// Appending a zero leaf leaves the node at (`level`, `idx`) unchanged.
proof fn lemma_padding_node(leaves: Seq<Bytes32>, z: Bytes32, level: nat, idx: nat)
    requires
        z@ == zero32(),
    ensures
        tree_node(leaves.push(z), level, idx) == tree_node(leaves, level, idx),
    decreases level,
{
    if level == 0 {
        assert(leaf_at(leaves.push(z), idx) == leaf_at(leaves, idx));
    } else {
        lemma_padding_node(leaves, z, (level - 1) as nat, 2 * idx);
        lemma_padding_node(leaves, z, (level - 1) as nat, 2 * idx + 1);
    }
}

/// Unfilled positions are the empty leaf `0`: appending a zero leaf changes
/// no node of the tree (so `path` gives the same root, siblings and bits,
/// its contract being stated over these nodes alone), and every node of the
/// empty tree is the empty-subtree root, the root being `zeros(depth)[depth]`.
pub proof fn law_zero_leaf_padding(leaves: Seq<Bytes32>, z: Bytes32, level: nat, idx: nat)
    requires
        z@ == zero32(),
    ensures
        tree_node(leaves.push(z), level, idx) == tree_node(leaves, level, idx),
        tree_root(leaves.push(z), level) == tree_root(leaves, level),
        tree_node(Seq::<Bytes32>::empty(), level, idx) == zero_node(level),
        tree_root(Seq::<Bytes32>::empty(), level) == zero_node(level),
{
    lemma_padding_node(leaves, z, level, idx);
    lemma_padding_node(leaves, z, level, 0);
    lemma_empty_subtree(Seq::<Bytes32>::empty(), level, idx);
    lemma_empty_subtree(Seq::<Bytes32>::empty(), level, 0);
}

} // verus!
