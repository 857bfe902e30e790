use vstd::arithmetic::power2::{lemma2_to64, lemma_pow2_strictly_increases, lemma_pow2_unfold, pow2};
use vstd::prelude::*;

verus! {

/// A strictly binary tree: a node has either no children or exactly two, each owned by it.
pub enum TreeNode {
    Leaf,
    Node(Box<TreeNode>, Box<TreeNode>),
}

/// The deepest tree whose node count fits in an `i32`.
pub const TREE_MAX_DEPTH: i32 = 30;

impl TreeNode {
    /// The number of nodes, leaves included.
    pub open spec fn size(self) -> nat
        decreases self,
    {
        match self {
            TreeNode::Leaf => 1,
            TreeNode::Node(left, right) => 1 + left.size() + right.size(),
        }
    }

    /// Every path from the root down to a leaf has `depth` edges.
    pub open spec fn is_perfect(self, depth: nat) -> bool
        decreases self,
    {
        match self {
            TreeNode::Leaf => depth == 0,
            TreeNode::Node(left, right) => depth > 0 && left.is_perfect((depth - 1) as nat)
                && right.is_perfect((depth - 1) as nat),
        }
    }

    /// Counts the nodes: a leaf counts 1, an inner node 1 plus the counts of its subtrees.
    pub fn check(&self) -> (r: i32)
        requires
            self.size() <= i32::MAX,
        ensures
            r == self.size(),
        decreases self,
    {
        match self {
            TreeNode::Leaf => 1,
            TreeNode::Node(left, right) => 1 + left.check() + right.check(),
        }
    }
}

/// A perfect tree of depth `depth` has `2^(depth + 1) - 1` nodes.
pub proof fn lemma_perfect_size(t: TreeNode, depth: nat)
    requires
        t.is_perfect(depth),
    ensures
        t.size() == pow2(depth + 1) - 1,
    decreases t,
{
    lemma_pow2_unfold(depth + 1);
    match t {
        TreeNode::Leaf => {
            lemma2_to64();
        },
        TreeNode::Node(left, right) => {
            lemma_perfect_size(*left, (depth - 1) as nat);
            lemma_perfect_size(*right, (depth - 1) as nat);
        },
    }
}

/// Builds a perfect tree of depth `n`: a leaf at depth 0, otherwise a node over two
/// separately built trees of depth `n - 1`.
pub fn create_tree(n: i32) -> (t: TreeNode)
    requires
        n >= 0,
    ensures
        t.is_perfect(n as nat),
    decreases n,
{
    if n == 0 {
        TreeNode::Leaf
    } else {
        TreeNode::Node(Box::new(create_tree(n - 1)), Box::new(create_tree(n - 1)))
    }
}

/// Builds the perfect tree of depth `n` and counts its nodes: `2^(n + 1) - 1`.
pub fn binary_trees(n: i32) -> (r: i32)
    requires
        0 <= n <= TREE_MAX_DEPTH,
    ensures
        r == pow2((n + 1) as nat) - 1,
{
    let t = create_tree(n);
    proof {
        lemma_perfect_size(t, n as nat);
        lemma2_to64();
        if n < 30 {
            lemma_pow2_strictly_increases((n + 1) as nat, 31);
        }
    }
    t.check()
}

/// `binary_trees` is idempotent: two calls with the same argument return the same value.
pub proof fn lemma_binary_trees_idempotent(n: i32, r1: i32, r2: i32)
    requires
        call_ensures(binary_trees, (n,), r1),
        call_ensures(binary_trees, (n,), r2),
    ensures
        r1 == r2,
{
}

}
