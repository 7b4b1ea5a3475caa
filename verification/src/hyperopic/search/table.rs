use vstd::prelude::*;

use crate::brain::moves::Move;

verus! {

/// What the search learnt of a node: the best path, the move that cut the
/// search off, or the best move when none raised alpha.
#[derive(Debug, Clone, PartialEq, Eq)]
pub enum NodeType {
    Pv(Vec<Move>),
    Cut(Move),
    All(Move),
}

/// An entry of the table: the index of the root position of the search
/// that stored it, the key of the position, the depth searched and the
/// evaluation.
#[derive(Debug, Clone, PartialEq, Eq)]
pub struct TableEntry {
    pub root_index: u16,
    pub key: u64,
    pub depth: u8,
    pub eval: i32,
    pub node_type: NodeType,
}

/// A store of entries by position key.
pub trait Transpositions {
    /// The store can be read and written.
    spec fn ready(&self) -> bool;

    /// The entry stored for the position of the key, if any.
    fn get(&self, key: u64) -> Option<&TableEntry>
        requires
            self.ready(),
    ;

    /// Storing an entry for the key with this root index and depth goes
    /// through without overflow.
    spec fn can_put(&self, key: u64, root_index: u16, depth: u8) -> bool;

    /// Store an entry for the position of the key, unless the store keeps
    /// what it holds.
    fn put(&mut self, key: u64, root_index: u16, depth: u8, eval: i32, node_type: NodeType)
        requires
            old(self).ready(),
            old(self).can_put(key, root_index, depth),
        ensures
            final(self).ready(),
    ;
}

/// A fixed size table, one slot per key modulo the size. An entry is kept
/// against a new one when it is deeper than the new one by more than the
/// number of root moves played since it was stored.
pub struct TranspositionsImpl {
    inner: Vec<Option<TableEntry>>,
}

impl View for TranspositionsImpl {
    type V = Seq<Option<TableEntry>>;

    closed spec fn view(&self) -> Seq<Option<TableEntry>> {
        self.inner@
    }
}

/// The slot of a key in a table of `n` slots.
pub open spec fn slot(k: u64, n: nat) -> int {
    (k as int) % (n as int)
}

/// The entry a lookup of `k` finds in the slots `s`.
pub open spec fn lookup(s: Seq<Option<TableEntry>>, k: u64) -> Option<TableEntry> {
    match s[slot(k, s.len())] {
        Some(e) => if e.key == k {
            Some(e)
        } else {
            None
        },
        None => None,
    }
}

/// The number of root moves played between an entry stored at root index
/// `old_root` and one at `root_index` (nothing if the old one is later).
pub open spec fn index_diff(old_root: u16, root_index: u16) -> int {
    if old_root < root_index {
        root_index - old_root
    } else {
        0
    }
}

/// Whether an existing entry is kept against a new entry of the given root
/// index and depth.
pub open spec fn keeps(existing: Option<TableEntry>, root_index: u16, depth: u8) -> bool {
    match existing {
        Some(e) => e.depth > depth + index_diff(e.root_index, root_index),
        None => false,
    }
}

/// The comparison of depths stays within `u16`.
pub open spec fn put_fits(existing: Option<TableEntry>, root_index: u16, depth: u8) -> bool {
    match existing {
        Some(e) => depth + index_diff(e.root_index, root_index) <= u16::MAX,
        None => true,
    }
}

impl TranspositionsImpl {
    /// A table of `n_entries` empty slots.
    pub fn new(n_entries: usize) -> (r: TranspositionsImpl)
        ensures
            r@.len() == n_entries,
            forall|i: int| 0 <= i < n_entries ==> r@[i] is None,
    {
        let mut inner: Vec<Option<TableEntry>> = Vec::new();
        let mut k: usize = 0;
        while k < n_entries
            invariant
                k <= n_entries,
                inner@.len() == k,
                forall|i: int| 0 <= i < k ==> inner@[i] is None,
            decreases n_entries - k,
        {
            inner.push(None);
            k = k + 1;
        }
        TranspositionsImpl { inner }
    }

    fn index(&self, k: u64) -> (r: usize)
        requires
            self@.len() > 0,
        ensures
            r == slot(k, self@.len()),
            r < self@.len(),
    {
        (k % self.inner.len() as u64) as usize
    }
}

impl Transpositions for TranspositionsImpl {
    open spec fn ready(&self) -> bool {
        self@.len() > 0
    }

    fn get(&self, key: u64) -> (r: Option<&TableEntry>)
        ensures
            r matches Some(e) ==> lookup(self@, key) == Some(*e),
            r is None ==> lookup(self@, key) is None,
    {
        let index = self.index(key);
        match &self.inner[index] {
            Some(e) => if e.key == key {
                Some(e)
            } else {
                None
            },
            None => None,
        }
    }

    open spec fn can_put(&self, key: u64, root_index: u16, depth: u8) -> bool {
        put_fits(self@[slot(key, self@.len())], root_index, depth)
    }

    fn put(&mut self, key: u64, root_index: u16, depth: u8, eval: i32, node_type: NodeType)
        ensures
            final(self)@ == (if keeps(old(self)@[slot(key, old(self)@.len())], root_index, depth) {
                old(self)@
            } else {
                old(self)@.update(
                    slot(key, old(self)@.len()),
                    Some(TableEntry { root_index, key, depth, eval, node_type }),
                )
            }),
    {
        let index = self.index(key);
        if let Some(existing) = &self.inner[index] {
            let lower = if existing.root_index < root_index {
                existing.root_index
            } else {
                root_index
            };
            let diff = root_index - lower;
            if existing.depth as u16 > depth as u16 + diff {
                return ;
            }
        }
        self.inner.set(index, Some(TableEntry { root_index, depth, eval, key, node_type }));
    }
}

/// An entry at least as deep as the one a slot holds, from the same or a
/// later root, always replaces it, and a lookup of its key then finds it.
pub proof fn lemma_deeper_entry_replaces(
    s: Seq<Option<TableEntry>>,
    e: TableEntry,
)
    requires
        s.len() > 0,
        s[slot(e.key, s.len())] matches Some(old) ==> old.depth <= e.depth && old.root_index
            <= e.root_index,
    ensures
        !keeps(s[slot(e.key, s.len())], e.root_index, e.depth),
        lookup(s.update(slot(e.key, s.len()), Some(e)), e.key) == Some(e),
{
}

} // verus!
