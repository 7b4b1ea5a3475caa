use vstd::prelude::*;

use crate::brain::moves::Move;

verus! {

/// What the search learnt of a position: the best path from it, a move
/// that cut the search off, or the best move when none raised alpha; with
/// the key of the position and the depth searched.
#[derive(Debug, Clone, PartialEq, Eq)]
pub enum TreeNode {
    Pv { hash: u64, depth: u8, eval: i32, best_path: Vec<Move> },
    Cut { hash: u64, depth: u8, beta: i32, cutoff_move: Move },
    All { hash: u64, depth: u8, eval: i32, best_move: Move },
}

impl TreeNode {
    /// The key of the position of this node.
    pub open spec fn hash_of(self) -> u64 {
        match self {
            TreeNode::Pv { hash, .. } => hash,
            TreeNode::Cut { hash, .. } => hash,
            TreeNode::All { hash, .. } => hash,
        }
    }

    /// The depth this node was searched to.
    pub open spec fn depth_of(self) -> u8 {
        match self {
            TreeNode::Pv { depth, .. } => depth,
            TreeNode::Cut { depth, .. } => depth,
            TreeNode::All { depth, .. } => depth,
        }
    }

    /// Whether this node was stored for the position of the given key.
    pub fn matches(&self, hash: u64) -> (r: bool)
        ensures
            r == (self.hash_of() == hash),
    {
        match self {
            TreeNode::Cut { hash: node_hash, .. } => *node_hash == hash,
            TreeNode::All { hash: node_hash, .. } => *node_hash == hash,
            TreeNode::Pv { hash: node_hash, .. } => *node_hash == hash,
        }
    }

    /// The depth this node was searched to.
    pub fn depth(&self) -> (r: usize)
        ensures
            r == self.depth_of(),
    {
        (match self {
            TreeNode::Pv { depth, .. } => *depth,
            TreeNode::Cut { depth, .. } => *depth,
            TreeNode::All { depth, .. } => *depth,
        }) as usize
    }

    /// The move to try first from the position: the head of the best path,
    /// the move that cut off, or the best move.
    pub fn get_move(&self) -> (r: &Move)
        requires
            self matches TreeNode::Pv { best_path, .. } ==> best_path@.len() > 0,
        ensures
            *r == (match self {
                TreeNode::Pv { best_path, .. } => best_path@[0],
                TreeNode::Cut { cutoff_move, .. } => *cutoff_move,
                TreeNode::All { best_move, .. } => *best_move,
            }),
    {
        match self {
            TreeNode::Pv { best_path, .. } => &best_path[0],
            TreeNode::Cut { cutoff_move, .. } => cutoff_move,
            TreeNode::All { best_move, .. } => best_move,
        }
    }
}

/// A store of what the search learnt of positions, by their keys.
pub trait Transpositions {
    /// The store can be read and written.
    spec fn ready(&self) -> bool;

    /// What was stored for the position of the key, if anything.
    fn get(&self, key: u64) -> Option<&TreeNode>
        requires
            self.ready(),
    ;

    /// Store what was learnt of the position of the key.
    fn put(&mut self, key: u64, n: TreeNode)
        requires
            old(self).ready(),
        ensures
            final(self).ready(),
    ;
}

/// A fixed size table: each key has one slot, the key modulo the size, and
/// a new node replaces whatever the slot held.
pub struct TranspositionsImpl {
    inner: Vec<Option<TreeNode>>,
}

impl View for TranspositionsImpl {
    type V = Seq<Option<TreeNode>>;

    closed spec fn view(&self) -> Seq<Option<TreeNode>> {
        self.inner@
    }
}

/// The slot of a key in a table of `n` slots.
pub open spec fn slot(k: u64, n: nat) -> int {
    (k as int) % (n as int)
}

/// The node a lookup of `k` finds in the slots `s`.
pub open spec fn lookup(s: Seq<Option<TreeNode>>, k: u64) -> Option<TreeNode> {
    match s[slot(k, s.len())] {
        Some(n) => if n.hash_of() == k {
            Some(n)
        } else {
            None
        },
        None => None,
    }
}

impl TranspositionsImpl {
    /// A table of `n_entries` empty slots.
    pub fn new(n_entries: usize) -> (r: TranspositionsImpl)
        ensures
            r@.len() == n_entries,
            forall|i: int| 0 <= i < n_entries ==> r@[i] is None,
    {
        let mut inner: Vec<Option<TreeNode>> = Vec::new();
        let mut k: usize = 0;
        while k < n_entries
            invariant
                k <= n_entries,
                inner@.len() == k,
                forall|i: int| 0 <= i < k ==> inner@[i] is None,
            decreases n_entries - k,
        {
            inner.push(None);
            k = k + 1;
        }
        TranspositionsImpl { inner }
    }

    fn index(&self, k: u64) -> (r: usize)
        requires
            self@.len() > 0,
        ensures
            r == slot(k, self@.len()),
            r < self@.len(),
    {
        (k % self.inner.len() as u64) as usize
    }
}

impl Transpositions for TranspositionsImpl {
    open spec fn ready(&self) -> bool {
        self@.len() > 0
    }

    fn get(&self, key: u64) -> (r: Option<&TreeNode>)
        ensures
            r matches Some(n) ==> lookup(self@, key) == Some(*n),
            r is None ==> lookup(self@, key) is None,
    {
        let index = self.index(key);
        match &self.inner[index] {
            Some(n) => if n.matches(key) {
                Some(n)
            } else {
                None
            },
            None => None,
        }
    }

    fn put(&mut self, key: u64, n: TreeNode)
        ensures
            final(self)@ == old(self)@.update(slot(key, old(self)@.len()), Some(n)),
    {
        let index = self.index(key);
        self.inner.set(index, Some(n));
    }
}

/// A lookup of the key of a node just put finds that node, and lookups of
/// keys of other slots are unchanged.
pub proof fn lemma_put_then_get(s: Seq<Option<TreeNode>>, n: TreeNode, k: u64)
    requires
        s.len() > 0,
    ensures
        lookup(s.update(slot(n.hash_of(), s.len()), Some(n)), n.hash_of()) == Some(n),
        slot(k, s.len()) != slot(n.hash_of(), s.len()) ==> lookup(
            s.update(slot(n.hash_of(), s.len()), Some(n)),
            k,
        ) == lookup(s, k),
{
}

} // verus!
