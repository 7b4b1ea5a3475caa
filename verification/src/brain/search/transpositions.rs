use vstd::prelude::*;

use crate::brain::moves::Move;

verus! {

/// What the search learnt of a position: the principal variation, a cut
/// or an all node, with the hash of the position and the search depth.
#[derive(Debug, Clone, PartialEq, Eq)]
pub enum TreeNode {
    Pv { hash: u64, depth: u8, eval: i32, optimal_path: Vec<Move> },
    Cut { hash: u64, depth: u8, beta: i32, cutoff_move: Move },
    All { hash: u64, depth: u8, eval: i32, best_move: Move },
}

impl TreeNode {
    /// The hash of the position of this node.
    pub open spec fn hash_of(self) -> u64 {
        match self {
            TreeNode::Pv { hash, .. } => hash,
            TreeNode::Cut { hash, .. } => hash,
            TreeNode::All { hash, .. } => hash,
        }
    }

    /// The depth this node was searched to.
    pub open spec fn depth_of(self) -> u8 {
        match self {
            TreeNode::Pv { depth, .. } => depth,
            TreeNode::Cut { depth, .. } => depth,
            TreeNode::All { depth, .. } => depth,
        }
    }

    /// Whether this node was stored for the position of the given hash.
    pub fn matches(&self, hash: u64) -> (r: bool)
        ensures
            r == (self.hash_of() == hash),
    {
        match self {
            TreeNode::Cut { hash: node_hash, .. } => *node_hash == hash,
            TreeNode::All { hash: node_hash, .. } => *node_hash == hash,
            TreeNode::Pv { hash: node_hash, .. } => *node_hash == hash,
        }
    }

    /// The depth this node was searched to.
    pub fn depth(&self) -> (r: usize)
        ensures
            r == self.depth_of(),
    {
        (match self {
            TreeNode::Pv { depth, .. } => *depth,
            TreeNode::Cut { depth, .. } => *depth,
            TreeNode::All { depth, .. } => *depth,
        }) as usize
    }
}

/// A fixed size table of search results indexed by position hash: each
/// hash has one slot, the hash modulo the size, and a new entry replaces
/// whatever the slot held.
pub struct TranspositionTable {
    inner: Vec<Option<TreeNode>>,
}

impl View for TranspositionTable {
    type V = Seq<Option<TreeNode>>;

    closed spec fn view(&self) -> Seq<Option<TreeNode>> {
        self.inner@
    }
}

impl TranspositionTable {
    /// The slot of a hash in a table of `n` slots.
    pub open spec fn slot(k: u64, n: nat) -> int {
        (k as int) % (n as int)
    }

    /// The entry a lookup of `k` finds in the slots `s`.
    pub open spec fn lookup(s: Seq<Option<TreeNode>>, k: u64) -> Option<TreeNode> {
        match s[Self::slot(k, s.len())] {
            Some(n) => if n.hash_of() == k {
                Some(n)
            } else {
                None
            },
            None => None,
        }
    }

    /// A table of `n_entries` empty slots.
    pub fn new(n_entries: usize) -> (r: TranspositionTable)
        ensures
            r@.len() == n_entries,
            forall|i: int| 0 <= i < n_entries ==> r@[i] is None,
    {
        let mut inner: Vec<Option<TreeNode>> = Vec::new();
        let mut k: usize = 0;
        while k < n_entries
            invariant
                k <= n_entries,
                inner@.len() == k,
                forall|i: int| 0 <= i < k ==> inner@[i] is None,
            decreases n_entries - k,
        {
            inner.push(None);
            k = k + 1;
        }
        TranspositionTable { inner }
    }

    fn index(&self, k: u64) -> (r: usize)
        requires
            self@.len() > 0,
        ensures
            r == Self::slot(k, self@.len()),
            r < self@.len(),
    {
        (k % self.inner.len() as u64) as usize
    }

    /// The entry stored for hash `k`, if the slot of `k` holds one for `k`.
    pub fn get(&self, k: u64) -> (r: Option<&TreeNode>)
        requires
            self@.len() > 0,
        ensures
            r matches Some(n) ==> Self::lookup(self@, k) == Some(*n),
            r is None ==> Self::lookup(self@, k) is None,
    {
        let index = self.index(k);
        match &self.inner[index] {
            Some(n) => if n.matches(k) {
                Some(n)
            } else {
                None
            },
            None => None,
        }
    }

    /// Store `v` in the slot of `k`, replacing what it held.
    pub fn insert(&mut self, k: u64, v: TreeNode)
        requires
            old(self)@.len() > 0,
        ensures
            final(self)@ == old(self)@.update(Self::slot(k, old(self)@.len()), Some(v)),
    {
        let index = self.index(k);
        self.inner.set(index, Some(v));
    }
}

/// After storing `v` under the key `k`, a lookup of `k` finds `v` when `v`
/// was stored for `k` and nothing otherwise; a lookup of a key of another
/// slot finds what it found before; and a lookup never finds a node stored
/// for another key.
pub proof fn lemma_insert_then_get(s: Seq<Option<TreeNode>>, k: u64, v: TreeNode, k2: u64)
    requires
        s.len() > 0,
    ensures
        TranspositionTable::lookup(s.update(TranspositionTable::slot(k, s.len()), Some(v)), k) == (
        if v.hash_of() == k {
            Some(v)
        } else {
            None
        }),
        TranspositionTable::slot(k2, s.len()) != TranspositionTable::slot(k, s.len())
            ==> TranspositionTable::lookup(
            s.update(TranspositionTable::slot(k, s.len()), Some(v)),
            k2,
        ) == TranspositionTable::lookup(s, k2),
        TranspositionTable::lookup(s, k2) matches Some(n) ==> n.hash_of() == k2,
{
}

} // verus!
