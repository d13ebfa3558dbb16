//! The census tree: a fixed-depth binary hash tree stored level by level, with
//! authentication paths, and the builder of the relation's assignment.

use vstd::arithmetic::power2::{
    lemma2_to64, lemma_pow2_adds, lemma_pow2_pos, lemma_pow2_strictly_increases, lemma_pow2_unfold,
    pow2,
};
use vstd::arithmetic::div_mod::lemma_div_denominator;
use vstd::bits::lemma_usize_pow2_no_overflow;
use vstd::prelude::*;

use crate::field::{field_add, lemma_add_changes, lemma_view_injective, modulus, values, Fp};
use crate::franchise::{climb, nullifier, public_key, Error, FranchiseCircuit};
use crate::poseidon::{self, poseidon};

verus! {

/// The number of leaves of a tree of the given depth.
pub open spec fn capacity(depth: nat) -> nat {
    pow2((depth - 1) as nat)
}

/// The number of nodes of a tree of the given depth, leaves included.
pub open spec fn node_count(depth: nat) -> nat {
    (2 * capacity(depth) - 1) as nat
}

/// The first `n` leaf slots: the given leaves, then zeroes.
pub open spec fn padded(leaves: Seq<nat>, n: nat) -> Seq<nat> {
    Seq::new(
        n,
        |i: int|
            if i < leaves.len() {
                leaves[i]
            } else {
                0nat
            },
    )
}

/// The position, within a level, of the other node of the pair that holds
/// `position`.
pub open spec fn sibling(position: nat) -> nat {
    if position % 2 == 0 {
        position + 1
    } else {
        (position - 1) as nat
    }
}

/// One step of a path: the running value is hashed with the sibling, on the
/// left when the flag is set and on the right otherwise.
pub open spec fn path_step(running: nat, step: (nat, bool)) -> nat {
    if step.1 {
        poseidon(running, step.0)
    } else {
        poseidon(step.0, running)
    }
}

/// The value reached from `leaf` by taking the steps of `path` in order.
pub open spec fn fold_path(leaf: nat, path: Seq<(nat, bool)>) -> nat
    decreases path.len(),
{
    if path.len() == 0 {
        leaf
    } else {
        path_step(fold_path(leaf, path.drop_last()), path.last())
    }
}

/// The level above a level: each node is the hash of a pair of the level
/// below.
pub open spec fn level_above(level: Seq<nat>) -> Seq<nat> {
    Seq::new(level.len() / 2, |j: int| poseidon(level[2 * j], level[2 * j + 1]))
}

/// The root over a full level of leaves: hashed pairwise, level by level,
/// until one node is left.
pub open spec fn merkle_root(leaves: Seq<nat>) -> nat
    decreases leaves.len(),
{
    if leaves.len() <= 1 {
        leaves[0]
    } else {
        merkle_root(level_above(leaves))
    }
}

/// The values and flags of an authentication path.
pub open spec fn path_view(path: Seq<(Fp, bool)>) -> Seq<(nat, bool)> {
    Seq::new(path.len(), |i: int| (path[i].0@, path[i].1))
}

/// What a tree is: its depth and the values of its nodes in storage order,
/// leaves first, then each level above, the root last.
pub struct MerkleTreeView {
    pub depth: nat,
    pub nodes: Seq<nat>,
}

impl MerkleTreeView {
    /// The number of leaf slots.
    pub open spec fn capacity(self) -> nat {
        capacity(self.depth)
    }

    /// The number of nodes once every level is present.
    pub open spec fn node_count(self) -> nat {
        node_count(self.depth)
    }

    /// Only leaves are stored, and the machine can index the whole tree: the
    /// tree can still be calculated.
    pub open spec fn is_building(self) -> bool {
        &&& self.depth >= 1
        &&& self.node_count() <= usize::MAX
        &&& self.nodes.len() <= self.capacity()
    }

    /// The `j`-th node above the leaves is the hash of the `j`-th pair of nodes.
    pub open spec fn hashes_pair(self, j: int) -> bool {
        self.nodes[self.capacity() + j] == poseidon(self.nodes[2 * j], self.nodes[2 * j + 1])
    }

    /// Every level is present, and each node above the leaves is the hash of
    /// its two children.
    pub open spec fn is_calculated(self) -> bool {
        &&& self.depth >= 1
        &&& self.nodes.len() == self.node_count()
        &&& forall|j: int| 0 <= j < self.capacity() - 1 ==> #[trigger] self.hashes_pair(j)
    }

    /// The tree is in one of its two states: it is being built, or it is
    /// calculated.
    pub open spec fn is_valid(self) -> bool {
        self.is_building() || self.is_calculated()
    }

    /// The number of leaves that can be read.
    pub open spec fn leaf_count(self) -> nat {
        if self.nodes.len() <= self.capacity() {
            self.nodes.len()
        } else {
            self.capacity()
        }
    }

    /// The leaf slots of a calculated tree.
    pub open spec fn leaves(self) -> Seq<nat> {
        self.nodes.subrange(0, self.capacity() as int)
    }

    /// The root of a calculated tree.
    pub open spec fn root(self) -> nat {
        self.nodes[self.nodes.len() - 1]
    }

    /// The storage offset of the first node of a level, the leaves being level 0.
    pub open spec fn level_start(self, level: nat) -> nat {
        (pow2(self.depth) - pow2((self.depth - level) as nat)) as nat
    }

    /// The nodes of a level, left to right, the leaves being level 0.
    pub open spec fn level(self, level: nat) -> Seq<nat> {
        self.nodes.subrange(
            self.level_start(level) as int,
            (self.level_start(level) + pow2((self.depth - 1 - level) as nat)) as int,
        )
    }

    /// The step of the path of leaf `index` at `level`: the sibling of the
    /// leaf's ancestor there, and whether that ancestor is the left node of
    /// the pair.
    pub open spec fn witness_step(self, index: nat, level: nat) -> (nat, bool) {
        let position = index / pow2(level);
        (self.nodes[(self.level_start(level) + sibling(position)) as int], position % 2 == 0)
    }

    /// The authentication path of leaf `index`, from the leaves up.
    pub open spec fn witness(self, index: nat) -> Seq<(nat, bool)> {
        Seq::new((self.depth - 1) as nat, |level: int| self.witness_step(index, level as nat))
    }
}

/// Taking the first `level` steps of the path of leaf `index` leads from the
/// leaf to its ancestor at that level.
proof fn lemma_path_reaches_ancestor(tree: MerkleTreeView, index: nat, level: nat)
    requires
        tree.is_calculated(),
        index < tree.capacity(),
        level <= tree.depth - 1,
    ensures
        index / pow2(level) < pow2((tree.depth - 1 - level) as nat),
        tree.level_start(level) + pow2((tree.depth - level) as nat) == pow2(tree.depth),
        fold_path(tree.nodes[index as int], tree.witness(index).take(level as int))
            == tree.nodes[(tree.level_start(level) + index / pow2(level)) as int],
    decreases level,
{
    let depth = tree.depth;
    let path = tree.witness(index);
    lemma2_to64();
    lemma_pow2_pos(level);
    lemma_pow2_pos((depth - level) as nat);
    lemma_pow2_adds(level, (depth - 1 - level) as nat);
    let low = pow2(level) as int;
    let high = pow2((depth - 1 - level) as nat) as int;
    assert(index / pow2(level) < high) by (nonlinear_arith)
        requires
            0 <= index < low * high,
            low > 0,
            low == pow2(level),
    ;
    if level == 0 {
        assert(path.take(0).len() == 0);
        assert(index / 1 == index);
    } else {
        let below = (level - 1) as nat;
        lemma_path_reaches_ancestor(tree, index, below);
        lemma_pow2_unfold(depth);
        lemma_pow2_unfold((depth - below) as nat);
        lemma_pow2_unfold((depth - 1 - below) as nat);
        lemma_pow2_unfold(level);
        lemma_pow2_pos(below);
        lemma_pow2_pos((depth - 1 - level) as nat);
        lemma_div_denominator(index as int, pow2(below) as int, 2);
        // The ancestor at the level below sits at `offset`; it and its
        // sibling are the pair whose hash is stored at the level above.
        let offset = tree.level_start(below) + index / pow2(below);
        assert(path.take(level as int).drop_last() == path.take(below as int));
        assert(path.take(level as int).last() == tree.witness_step(index, below));
        assert(tree.hashes_pair((offset / 2) as int));
    }
}

/// Every leaf of a calculated tree verifies against the root: following the
/// leaf's authentication path from the leaf yields the root.
pub proof fn lemma_round_trip(tree: MerkleTreeView, index: nat)
    requires
        tree.is_calculated(),
        index < tree.capacity(),
    ensures
        fold_path(tree.nodes[index as int], tree.witness(index)) == tree.root(),
{
    let top = (tree.depth - 1) as nat;
    lemma_path_reaches_ancestor(tree, index, top);
    lemma2_to64();
    lemma_pow2_unfold(tree.depth);
    assert(tree.witness(index).take(top as int) == tree.witness(index));
}

/// In a calculated tree each level is the level above the one below it.
proof fn lemma_levels_stack(tree: MerkleTreeView, level: nat)
    requires
        tree.is_calculated(),
        level + 1 <= tree.depth - 1,
    ensures
        tree.level(level + 1) == level_above(tree.level(level)),
{
    let depth = tree.depth;
    lemma2_to64();
    lemma_pow2_unfold(depth);
    lemma_pow2_unfold((depth - level) as nat);
    lemma_pow2_unfold((depth - 1 - level) as nat);
    lemma_pow2_pos((depth - 2 - level) as nat);
    if depth - level < depth {
        lemma_pow2_strictly_increases((depth - level) as nat, depth);
    }
    let start = tree.level_start(level);
    let upper = tree.level(level + 1);
    let lower = tree.level(level);
    assert forall|j: int| 0 <= j < upper.len() implies upper[j] == level_above(lower)[j] by {
        assert(tree.hashes_pair(start / 2 + j));
    }
    assert(upper =~= level_above(lower));
}

/// The root of a calculated tree is the root over each of its levels.
proof fn lemma_root_over_level(tree: MerkleTreeView, level: nat)
    requires
        tree.is_calculated(),
        level <= tree.depth - 1,
    ensures
        merkle_root(tree.level(level)) == tree.root(),
    decreases tree.depth - level,
{
    let depth = tree.depth;
    lemma2_to64();
    lemma_pow2_unfold(depth);
    lemma_pow2_pos((depth - 1) as nat);
    if level + 1 <= depth - 1 {
        lemma_levels_stack(tree, level);
        lemma_root_over_level(tree, level + 1);
        lemma_pow2_unfold((depth - 1 - level) as nat);
        lemma_pow2_pos((depth - 2 - level) as nat);
        lemma_pow2_unfold((depth - level) as nat);
        if depth - level < depth {
            lemma_pow2_strictly_increases((depth - level) as nat, depth);
        }
        assert(tree.level(level).len() >= 2);
    } else {
        assert(tree.level(level).len() == 1);
        assert(tree.level(level)[0] == tree.root());
    }
}

/// The root of a calculated tree is a function of its leaves alone: the
/// result of hashing them pairwise, level by level.
pub proof fn lemma_root_of_leaves(tree: MerkleTreeView)
    requires
        tree.is_calculated(),
    ensures
        tree.root() == merkle_root(tree.leaves()),
{
    lemma_root_over_level(tree, 0);
    lemma_pow2_unfold(tree.depth);
    lemma_pow2_pos((tree.depth - 1) as nat);
    assert(tree.level(0) =~= tree.leaves());
}

/// A tree of depth one is its single leaf: the leaf's path is empty and leads
/// from the leaf to the leaf, which is the root, and to nothing else; in
/// particular not to the leaf plus one.
pub proof fn lemma_single_leaf(tree: MerkleTreeView)
    requires
        tree.is_calculated(),
        tree.depth == 1,
        tree.nodes[0] < modulus(),
    ensures
        tree.witness(0) == Seq::<(nat, bool)>::empty(),
        tree.root() == tree.nodes[0],
        fold_path(tree.nodes[0], tree.witness(0)) == tree.nodes[0],
        fold_path(tree.nodes[0], tree.witness(0)) != field_add(tree.nodes[0], 1),
{
    lemma2_to64();
    lemma_add_changes(tree.nodes[0], 1);
    assert(tree.witness(0) =~= Seq::<(nat, bool)>::empty());
}

/// A binary hash tree of fixed depth over field elements.
pub struct MerkleTree {
    depth: u32,
    nodes: Vec<Fp>,
}

impl View for MerkleTree {
    type V = MerkleTreeView;

    closed spec fn view(&self) -> MerkleTreeView {
        MerkleTreeView { depth: self.depth as nat, nodes: values(self.nodes@) }
    }
}

/// The machine can index a whole tree exactly when the tree's depth is at
/// most the width of the machine word.
proof fn lemma_depth_fits(depth: nat)
    requires
        depth >= 1,
    ensures
        node_count(depth) <= usize::MAX <==> depth <= usize::BITS,
        0 < capacity(depth),
        2 * capacity(depth) == pow2(depth),
{
    lemma2_to64();
    lemma_pow2_unfold(depth);
    lemma_pow2_pos((depth - 1) as nat);
    if depth < usize::BITS {
        lemma_usize_pow2_no_overflow(depth);
    } else if depth > usize::BITS {
        lemma_pow2_strictly_increases(usize::BITS as nat, depth);
    }
}

/// Two to the power `exp`.
fn pow2_usize(exp: u32) -> (r: usize)
    requires
        exp < usize::BITS,
    ensures
        r == pow2(exp as nat),
{
    let mut r: usize = 1;
    let mut i: u32 = 0;
    proof {
        lemma2_to64();
    }
    while i < exp
        invariant
            i <= exp < usize::BITS,
            r == pow2(i as nat),
        decreases exp - i,
    {
        proof {
            lemma_pow2_unfold((i + 1) as nat);
            lemma_usize_pow2_no_overflow((i + 1) as nat);
        }
        r = r * 2;
        i = i + 1;
    }
    r
}

impl MerkleTree {
    /// An empty tree of the given depth, which is at least one and at most
    /// the width of the machine word.
    pub fn new(depth: u32) -> (tree: MerkleTree)
        requires
            1 <= depth <= usize::BITS,
        ensures
            tree@.depth == depth,
            tree@.nodes == Seq::<nat>::empty(),
            tree@.is_building(),
    {
        proof {
            lemma_depth_fits(depth as nat);
        }
        MerkleTree { depth, nodes: Vec::new() }
    }

    /// The depth of a tree in either state is within the machine's reach.
    proof fn lemma_valid_depth(&self)
        requires
            self@.is_valid(),
        ensures
            1 <= self.depth <= usize::BITS,
            self@.node_count() <= usize::MAX,
            0 < self@.capacity(),
            2 * self@.capacity() == pow2(self@.depth),
    {
        lemma_depth_fits(self@.depth);
        assert(self@.nodes.len() == self.nodes.len());
    }

    /// The depth of the tree.
    pub fn depth(&self) -> (depth: u32)
        ensures
            depth == self@.depth,
    {
        self.depth
    }

    /// The number of leaf slots.
    pub fn capacity(&self) -> (size: usize)
        requires
            self@.is_valid(),
        ensures
            size == self@.capacity(),
    {
        proof {
            self.lemma_valid_depth();
        }
        pow2_usize(self.depth - 1)
    }

    /// The number of leaves that can be read: those inserted while the tree
    /// is built, every leaf slot once it is calculated.
    pub fn leaf_count(&self) -> (count: usize)
        requires
            self@.is_valid(),
        ensures
            count == self@.leaf_count(),
    {
        let size = self.capacity();
        if self.nodes.len() <= size {
            self.nodes.len()
        } else {
            size
        }
    }

    /// Whether the tree holds leaves only, and so can still be calculated.
    pub fn is_building(&self) -> (building: bool)
        requires
            self@.is_valid(),
        ensures
            building == self@.is_building(),
    {
        proof {
            self.lemma_valid_depth();
        }
        self.nodes.len() <= self.capacity()
    }

    /// Whether every level of the tree is present.
    pub fn is_calculated(&self) -> (calculated: bool)
        requires
            self@.is_valid(),
        ensures
            calculated == self@.is_calculated(),
    {
        proof {
            self.lemma_valid_depth();
            lemma2_to64();
        }
        let size = self.capacity();
        self.nodes.len() == size - 1 + size
    }

    /// Appends `value` as the next leaf and returns its index. The tree must
    /// have a free leaf slot.
    pub fn insert(&mut self, value: Fp) -> (index: usize)
        requires
            old(self)@.is_building(),
            old(self)@.nodes.len() < old(self)@.capacity(),
        ensures
            final(self)@.depth == old(self)@.depth,
            final(self)@.nodes == old(self)@.nodes.push(value@),
            final(self)@.is_building(),
            index == old(self)@.nodes.len(),
    {
        self.nodes.push(value);
        self.nodes.len() - 1
    }

    /// The hash of a pair of nodes.
    pub fn hash(first: Fp, second: Fp) -> (digest: Fp)
        ensures
            digest@ == poseidon(first@, second@),
    {
        poseidon::hash(first, second)
    }

    /// Fills the unused leaf slots with zero and computes every level above
    /// the leaves, each node as the hash of the pair below it.
    pub fn calc(&mut self)
        requires
            old(self)@.is_building(),
        ensures
            final(self)@.depth == old(self)@.depth,
            final(self)@.is_calculated(),
            final(self)@.leaves() == padded(old(self)@.nodes, old(self)@.capacity()),
    {
        proof {
            self.lemma_valid_depth();
        }
        let size = self.capacity();
        while self.nodes.len() < size
            invariant
                1 <= self.depth <= usize::BITS,
                self@.depth == old(self)@.depth,
                size == self@.capacity(),
                2 * size - 1 <= usize::MAX,
                old(self)@.nodes.len() <= self@.nodes.len() <= size,
                self@.nodes == padded(old(self)@.nodes, self@.nodes.len()),
            decreases size - self.nodes.len(),
        {
            let ghost before = self@;
            self.nodes.push(Fp::zero());
            assert(self@.nodes == before.nodes.push(0nat));
        }
        let ghost leaves = self@.nodes;
        let mut i: usize = 0;
        while i < size - 1 + size - 1
            invariant
                1 <= self.depth <= usize::BITS,
                self@.depth == old(self)@.depth,
                size == self@.capacity(),
                1 <= size,
                2 * size - 1 <= usize::MAX,
                i % 2 == 0,
                i <= 2 * size - 2,
                self@.nodes.len() == size + i / 2,
                self@.nodes.subrange(0, size as int) == leaves,
                forall|j: int| 0 <= j < i / 2 ==> #[trigger] self@.hashes_pair(j),
            decreases 2 * size - i,
        {
            let digest = Self::hash(self.nodes[i], self.nodes[i + 1]);
            let ghost before = self@;
            self.nodes.push(digest);
            proof {
                assert(self@.nodes == before.nodes.push(digest@));
                assert forall|j: int| 0 <= j < i / 2 + 1 implies #[trigger] self@.hashes_pair(
                    j,
                ) by {
                    if j < i / 2 {
                        assert(before.hashes_pair(j));
                    }
                }
                assert(self@.nodes.subrange(0, size as int) == before.nodes.subrange(
                    0,
                    size as int,
                ));
            }
            i = i + 2;
        }
    }

    /// The root of a calculated tree: the last node stored, which is the
    /// root over the leaves.
    pub fn root(&self) -> (root: Fp)
        requires
            self@.is_calculated(),
        ensures
            root@ == self@.root(),
            root@ == merkle_root(self@.leaves()),
    {
        proof {
            lemma_pow2_pos((self@.depth - 1) as nat);
            lemma_root_of_leaves(self@);
        }
        self.nodes[self.nodes.len() - 1]
    }

    /// The leaf at `index`, counted in insertion order.
    pub fn get(&self, index: usize) -> (leaf: Fp)
        requires
            index < self@.leaf_count(),
        ensures
            leaf@ == self@.nodes[index as int],
    {
        self.nodes[index]
    }

    /// The authentication path of the leaf at `index` in a calculated tree:
    /// for each level from the leaves up, the sibling and whether the node on
    /// the path is the left one of the pair.
    pub fn witness(&self, index: usize) -> (siblings: Vec<(Fp, bool)>)
        requires
            self@.is_calculated(),
            index < self@.capacity(),
        ensures
            path_view(siblings@) == self@.witness(index as nat),
    {
        let ghost leaf = index as nat;
        let ghost depth = self@.depth;
        let mut index = index;
        let mut base: usize = 0;
        let mut siblings: Vec<(Fp, bool)> = Vec::new();
        let mut n: u32 = 0;
        proof {
            self.lemma_valid_depth();
            lemma2_to64();
        }
        while n < self.depth - 1
            invariant
                1 <= self.depth <= usize::BITS,
                self@.is_calculated(),
                depth == self@.depth,
                n <= depth - 1,
                self.nodes.len() + 1 == pow2(depth),
                base == self@.level_start(n as nat),
                base + 2 * pow2((depth - 1 - n) as nat) == pow2(depth),
                index == leaf / pow2(n as nat),
                index < pow2((depth - 1 - n) as nat),
                siblings@.len() == n,
                forall|k: int|
                    0 <= k < n ==> #[trigger] path_view(siblings@)[k] == self@.witness_step(
                        leaf,
                        k as nat,
                    ),
            decreases depth - 1 - n,
        {
            proof {
                lemma_pow2_unfold((depth - 1 - n) as nat);
                lemma_pow2_pos((depth - 2 - n) as nat);
                lemma_pow2_unfold((depth - n) as nat);
                lemma_pow2_unfold((n + 1) as nat);
                lemma_pow2_pos(n as nat);
                lemma_div_denominator(leaf as int, pow2(n as nat) as int, 2);
            }
            let left = index % 2 == 0;
            let other = if left {
                index + 1
            } else {
                index - 1
            };
            let ghost before = siblings@;
            siblings.push((self.nodes[base + other], left));
            proof {
                assert forall|k: int| 0 <= k < n + 1 implies #[trigger] path_view(siblings@)[k]
                    == self@.witness_step(leaf, k as nat) by {
                    if k < n {
                        assert(path_view(before)[k] == self@.witness_step(leaf, k as nat));
                    }
                }
            }
            base = base + pow2_usize(self.depth - n - 1);
            index = index / 2;
            n = n + 1;
        }
        assert(path_view(siblings@) =~= self@.witness(leaf));
        siblings
    }

    /// Whether `siblings` leads from `value` to `root`: each step hashes the
    /// running value with the sibling, the running value on the left when the
    /// step's flag is set.
    pub fn check_witness(value: Fp, siblings: Vec<(Fp, bool)>, root: Fp) -> (ok: bool)
        ensures
            ok == (fold_path(value@, path_view(siblings@)) == root@),
    {
        let mut hash = value;
        let mut i: usize = 0;
        while i < siblings.len()
            invariant
                i <= siblings.len(),
                hash@ == fold_path(value@, path_view(siblings@).take(i as int)),
            decreases siblings.len() - i,
        {
            let (sibling, order) = siblings[i];
            proof {
                let path = path_view(siblings@);
                assert(path.take(i + 1).drop_last() == path.take(i as int));
            }
            hash = if order {
                Self::hash(hash, sibling)
            } else {
                Self::hash(sibling, hash)
            };
            i = i + 1;
        }
        proof {
            let path = path_view(siblings@);
            assert(path.take(i as int) == path);
            lemma_view_injective(hash, root);
        }
        hash == root
    }

    /// The levels of a calculated tree from the root down, each from left to
    /// right: what a printout of the tree shows, line by line.
    pub fn rows(&self) -> (rows: Vec<Vec<Fp>>)
        requires
            self@.is_calculated(),
        ensures
            rows@.len() == self@.depth,
            forall|k: int|
                0 <= k < self@.depth ==> values(#[trigger] rows@[k]@) == self@.level(
                    (self@.depth - 1 - k) as nat,
                ),
    {
        let ghost depth = self@.depth;
        let mut rows: Vec<Vec<Fp>> = Vec::new();
        let mut lvl: usize = 1;
        let mut k: u32 = 0;
        proof {
            self.lemma_valid_depth();
            lemma2_to64();
        }
        while k < self.depth
            invariant
                1 <= self.depth <= usize::BITS,
                self@.is_calculated(),
                depth == self@.depth,
                self.nodes.len() + 1 == pow2(depth),
                k <= depth,
                k < depth ==> lvl == pow2(k as nat),
                rows@.len() == k,
                forall|r: int|
                    0 <= r < k ==> values(#[trigger] rows@[r]@) == self@.level(
                        (depth - 1 - r) as nat,
                    ),
            decreases depth - k,
        {
            proof {
                lemma_pow2_pos(k as nat);
                lemma_pow2_unfold((k + 1) as nat);
                if k + 1 < depth {
                    lemma_pow2_strictly_increases((k + 1) as nat, depth);
                }
            }
            let start = self.nodes.len() - (lvl - 1) - lvl;
            let mut row: Vec<Fp> = Vec::new();
            let mut l: usize = 0;
            while l < lvl
                invariant
                    l <= lvl,
                    start + lvl <= self.nodes.len(),
                    row@.len() == l,
                    forall|i: int| 0 <= i < l ==> #[trigger] row@[i] == self.nodes@[start + i],
                decreases lvl - l,
            {
                row.push(self.nodes[start + l]);
                l = l + 1;
            }
            proof {
                assert(start == self@.level_start((depth - 1 - k) as nat));
                assert(values(row@) =~= self@.level((depth - 1 - k) as nat));
            }
            rows.push(row);
            k = k + 1;
            if k < self.depth {
                lvl = lvl * 2;
            }
        }
        rows
    }
}

/// The siblings of a path, by value.
pub open spec fn path_siblings(path: Seq<(nat, bool)>) -> Seq<nat> {
    Seq::new(path.len(), |i: int| path[i].0)
}

/// The direction bits of a path: at each step the inverse of the tree's flag.
pub open spec fn path_directions(path: Seq<(nat, bool)>) -> Seq<bool> {
    Seq::new(path.len(), |i: int| !path[i].1)
}

/// The relation's climb over the siblings and inverted flags of a path
/// reaches what the first `steps` steps of the path reach.
proof fn lemma_climb_prefix(start: nat, path: Seq<(nat, bool)>, steps: nat)
    requires
        steps <= path.len(),
    ensures
        climb(start, path_siblings(path), path_directions(path), steps) == fold_path(
            start,
            path.take(steps as int),
        ),
    decreases steps,
{
    if steps > 0 {
        lemma_climb_prefix(start, path, (steps - 1) as nat);
        assert(path.take(steps as int).drop_last() == path.take(steps - 1));
    }
}

/// The relation re-derives exactly what the tree's path check derives: with
/// the siblings of a path and the inverses of its flags as direction bits,
/// the climb from a value ends where the path leads from that value.
pub proof fn lemma_climb_follows_path(start: nat, path: Seq<(nat, bool)>)
    ensures
        climb(start, path_siblings(path), path_directions(path), path.len()) == fold_path(
            start,
            path,
        ),
{
    lemma_climb_prefix(start, path, path.len());
    assert(path.take(path.len() as int) == path);
}

/// An honest voter is accepted: when the census leaf of the secret key sits
/// at `index` of a calculated tree, and the assignment holds the key with
/// the siblings and inverted flags of that leaf's path, the relation holds
/// of the tree's root, the derived nullifier and the vote hash.
pub proof fn lemma_member_is_accepted<const LVL: usize>(
    tree: MerkleTreeView,
    index: nat,
    circuit: FranchiseCircuit<LVL>,
)
    requires
        tree.is_calculated(),
        index < tree.capacity(),
        LVL == tree.depth - 1,
        circuit.is_complete(),
        tree.nodes[index as int] == public_key(circuit.pri_secret_key.unwrap()@),
        circuit.siblings() == path_siblings(tree.witness(index)),
        circuit.directions() == path_directions(tree.witness(index)),
    ensures
        circuit.satisfied_by(
            seq![tree.root(), circuit.derived_nullifier(), circuit.pub_votehash.unwrap()@],
        ),
{
    lemma_round_trip(tree, index);
    lemma_climb_follows_path(tree.nodes[index as int], tree.witness(index));
}

/// Builds the assignment of the relation from a secret key, a process id, a
/// vote hash and the authentication path of the key's census leaf, and
/// derives the nullifier to declare. A path that does not have `LVL` steps
/// is rejected.
pub fn generate_circuit_inputs<const LVL: usize>(
    secret_key: Fp,
    process_id: [Fp; 2],
    vote_hash: Fp,
    witness: &[(Fp, bool)],
) -> (r: Result<(FranchiseCircuit<LVL>, Fp), Error>)
    ensures
        r is Ok <==> witness@.len() == LVL,
        r matches Err(e) ==> e == Error::PathLength,
        r matches Ok((circuit, pub_nullifier)) ==> {
            &&& circuit.pri_secret_key == Some(secret_key)
            &&& circuit.pub_processid == Some(process_id)
            &&& circuit.pub_votehash == Some(vote_hash)
            &&& circuit.pri_siblings is Some
            &&& circuit.pri_index is Some
            &&& circuit.siblings() == path_siblings(path_view(witness@))
            &&& circuit.directions() == path_directions(path_view(witness@))
            &&& circuit.derived_root() == fold_path(public_key(secret_key@), path_view(witness@))
            &&& pub_nullifier@ == nullifier(secret_key@, process_id@[0]@, process_id@[1]@)
        },
{
    if witness.len() != LVL {
        return Err(Error::PathLength);
    }
    let process_id_hash = poseidon::hash(process_id[0], process_id[1]);
    let pub_nullifier = poseidon::hash(secret_key, process_id_hash);

    let zero = Fp::zero();
    let mut pri_siblings = [zero;LVL];
    let mut pri_index = [false;LVL];
    let mut n: usize = 0;
    while n < LVL
        invariant
            n <= LVL,
            witness@.len() == LVL,
            forall|k: int| 0 <= k < n ==> #[trigger] pri_siblings@[k] == witness@[k].0,
            forall|k: int| 0 <= k < n ==> #[trigger] pri_index@[k] == !witness@[k].1,
        decreases LVL - n,
    {
        let (l, p) = witness[n];
        pri_siblings[n] = l;
        pri_index[n] = !p;
        n = n + 1;
    }
    let circuit = FranchiseCircuit {
        pri_index: Some(pri_index),
        pri_siblings: Some(pri_siblings),
        pri_secret_key: Some(secret_key),
        pub_processid: Some(process_id),
        pub_votehash: Some(vote_hash),
    };
    proof {
        let path = path_view(witness@);
        assert(circuit.siblings() =~= path_siblings(path));
        assert(circuit.directions() =~= path_directions(path));
        lemma_climb_follows_path(public_key(secret_key@), path);
    }
    Ok((circuit, pub_nullifier))
}

/// The path of the worked example: at level `n` the sibling is `n`, and the
/// running value is the left operand on even levels.
pub open spec fn test_path(levels: nat) -> Seq<(nat, bool)> {
    Seq::new(levels, |n: int| (n as nat, n % 2 == 0))
}

/// The worked example: secret key 8, process id (6, 7), vote hash 1, and the
/// path `test_path(LVL)` from the key's census leaf. Returns the assignment
/// and the public values that satisfy it: root, nullifier, vote hash.
pub fn generate_test_data<const LVL: usize>() -> (r: (FranchiseCircuit<LVL>, Vec<Fp>))
    ensures
        r.0.pri_secret_key.unwrap()@ == 8,
        r.0.pub_processid.unwrap()@[0]@ == 6,
        r.0.pub_processid.unwrap()@[1]@ == 7,
        r.0.pub_votehash.unwrap()@ == 1,
        r.0.pri_siblings is Some,
        r.0.pri_index is Some,
        r.0.siblings() == path_siblings(test_path(LVL as nat)),
        r.0.directions() == path_directions(test_path(LVL as nat)),
        values(r.1@) == seq![
            fold_path(public_key(8), test_path(LVL as nat)),
            nullifier(8, 6, 7),
            1nat,
        ],
        r.0.satisfied_by(values(r.1@)),
{
    let secret_key = Fp::from(8);
    let process_id = [Fp::from(6), Fp::from(7)];
    let vote_hash = Fp::from(1);
    let public_key = secret_to_public_key(secret_key);

    let mut root = public_key;
    let mut witness: Vec<(Fp, bool)> = Vec::new();
    let mut n: usize = 0;
    while n < LVL
        invariant
            n <= LVL,
            witness@.len() == n,
            path_view(witness@) == test_path(n as nat),
            root@ == fold_path(public_key@, test_path(n as nat)),
        decreases LVL - n,
    {
        let direction = n % 2 == 0;
        let value = Fp::from(n as u64);
        let (left, right) = if direction {
            (root, value)
        } else {
            (value, root)
        };
        let digest = poseidon::hash(left, right);
        let ghost before = witness@;
        witness.push((value, direction));
        proof {
            assert forall|k: int| 0 <= k < n + 1 implies #[trigger] path_view(witness@)[k]
                == test_path((n + 1) as nat)[k] by {
                if k < n {
                    assert(path_view(before)[k] == test_path(n as nat)[k]);
                }
            }
            assert(path_view(witness@) =~= test_path((n + 1) as nat));
            assert(test_path((n + 1) as nat).drop_last() =~= test_path(n as nat));
        }
        root = digest;
        n = n + 1;
    }
    let (circuit, nullifier) = generate_circuit_inputs::<LVL>(
        secret_key,
        process_id,
        vote_hash,
        witness.as_slice(),
    ).unwrap();
    let public = vec![root, nullifier, vote_hash];
    proof {
        assert(values(public@) =~= circuit.outputs());
    }
    (circuit, public)
}

/// The census leaf depends on the secret key alone: equal keys have equal
/// leaves.
pub proof fn lemma_leaf_deterministic(first: Fp, second: Fp)
    requires
        first@ == second@,
    ensures
        first == second,
        public_key(first@) == public_key(second@),
{
    lemma_view_injective(first, second);
}

/// The census leaf of a secret key: the key hashed with itself.
pub fn secret_to_public_key(secret_key: Fp) -> (leaf: Fp)
    ensures
        leaf@ == public_key(secret_key@),
{
    poseidon::hash(secret_key, secret_key)
}

} // verus!
