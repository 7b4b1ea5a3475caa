use vstd::prelude::*;

use rustc_hash::{FxBuildHasher, FxHashSet};

use crate::base::types::Side;
use crate::brain::eval::development::{
    dev_slot, dev_slot_of, dev_start, dev_start_of, first_matching, lemma_development_unmake_undoes_make,
    moved_wf,
};
use crate::brain::moves::Move;

verus! {

/// The hash builder of the Fx hash sets of rustc-hash, declared so that
/// such a set can be held in a field.
#[verifier::external_type_specification]
#[verifier::external_body]
pub struct ExFxBuildHasher(FxBuildHasher);

/// Whether an Fx hash set holds an index, by `HashSet::contains`. The Fx
/// hasher of rustc-hash starts from zero and depends on nothing but the
/// words it is given, so the set behaves as a set of its elements: the
/// contract claims that the answer is whether the view holds the index.
#[verifier::external_body]
fn index_set_contains(set: &FxHashSet<usize>, k: usize) -> (r: bool)
    ensures
        r == set@.contains(k),
{
    set.contains(&k)
}

/// Adds an index to an Fx hash set, by `HashSet::insert`: the contract
/// claims that the view gains the index.
#[verifier::external_body]
fn index_set_insert(set: &mut FxHashSet<usize>, k: usize)
    ensures
        final(set)@ == old(set)@.insert(k),
{
    set.insert(k);
}

/// Takes an index out of an Fx hash set, by `HashSet::remove`: the
/// contract claims that the view loses the index.
#[verifier::external_body]
fn index_set_remove(set: &mut FxHashSet<usize>, k: usize)
    ensures
        final(set)@ == old(set)@.remove(k),
{
    set.remove(&k);
}

/// The move indices recorded in the slots.
pub open spec fn recorded_indices(moved: Seq<Option<usize>>) -> Set<usize> {
    Set::new(|m: usize| exists|k: int| 0 <= k < 12 && moved[k] == Some(m))
}

/// No two slots record the same move.
pub open spec fn distinct_records(moved: Seq<Option<usize>>) -> bool {
    forall|i: int, j: int|
        0 <= i < 12 && 0 <= j < 12 && i != j && (#[trigger] moved[i]) is Some ==> moved[i]
            != #[trigger] moved[j]
}

/// The slot that a move records as first moved, if it moves a development
/// piece from its start square for the first time.
pub open spec fn new_slot(moved: Seq<Option<usize>>, mv: Move) -> Option<int> {
    match mv {
        Move::Standard { from, .. } => match dev_start(from) {
            Some(sd) => if moved[dev_slot(sd.0, sd.1)] is None {
                Some(dev_slot(sd.0, sd.1))
            } else {
                None
            },
            None => None,
        },
        _ => None,
    }
}

/// The slots after the move of the given index is made.
pub open spec fn moved_after_make(moved: Seq<Option<usize>>, index: usize, mv: Move) -> Seq<
    Option<usize>,
> {
    match new_slot(moved, mv) {
        Some(k) => moved.update(k, Some(index)),
        None => moved,
    }
}

/// The number of the first `k` slots from `base` whose piece has not moved.
pub open spec fn unmoved_upto(moved: Seq<Option<usize>>, base: int, k: int) -> int
    decreases k,
{
    if k <= 0 {
        0
    } else {
        unmoved_upto(moved, base, k - 1) + if moved[base + k - 1] is None {
            1int
        } else {
            0int
        }
    }
}

/// Tracks when each side first moved its centre pawns and minor pieces,
/// with the set of the move indices recorded.
#[derive(Debug, PartialEq, Eq)]
pub struct DevelopmentFacet {
    /// The number of moves made.
    pub move_index: usize,
    /// The index of the move that first moved each piece, by slot: white's
    /// six first, in the order e pawn, d pawn, b knight, g knight, c bishop,
    /// f bishop.
    pub pieces_moved: [Option<usize>; 12],
    /// The cost of each piece not developed.
    pub undeveloped_cost: usize,
    /// The number of moves over which the cost doubles.
    pub move_index_divisor: usize,
    /// The greatest penalty.
    pub max_penalty: i32,
    /// The move indices recorded in the slots.
    pub dev_indices: FxHashSet<usize>,
}

impl DevelopmentFacet {
    /// The record is consistent: the moves recorded came before, no move is
    /// recorded twice, and the set holds exactly the indices recorded.
    pub open spec fn wf(&self) -> bool {
        &&& moved_wf(self.pieces_moved@, self.move_index)
        &&& distinct_records(self.pieces_moved@)
        &&& self.dev_indices@ == recorded_indices(self.pieces_moved@)
    }

    /// The slot of the first piece whose first move has the given index,
    /// looked for only when the set of indices holds it.
    pub fn matching_piece(&self, move_count: usize) -> (r: Option<usize>)
        ensures
            !self.dev_indices@.contains(move_count) ==> r is None,
            self.dev_indices@.contains(move_count) ==> match r {
                Some(k) => first_matching(self.pieces_moved@, move_count, 0) == Some(k as int) && k
                    < 12,
                None => first_matching(self.pieces_moved@, move_count, 0) is None,
            },
    {
        if !index_set_contains(&self.dev_indices, move_count) {
            return None;
        }
        let mut k: usize = 0;
        while k < 12
            invariant
                k <= 12,
                self.dev_indices@.contains(move_count),
                first_matching(self.pieces_moved@, move_count, 0) == first_matching(
                    self.pieces_moved@,
                    move_count,
                    k as int,
                ),
            decreases 12 - k,
        {
            if self.pieces_moved[k] == Some(move_count) {
                return Some(k);
            }
            k = k + 1;
        }
        None
    }

    /// The number of pieces of a side that have not moved.
    pub fn undeveloped_count(&self, side: Side) -> (r: usize)
        ensures
            r == unmoved_upto(self.pieces_moved@, 6 * side.idx(), 6),
            r <= 6,
    {
        let base: usize = match side {
            Side::W => 0,
            Side::B => 6,
        };
        let mut count: usize = 0;
        let mut k: usize = 0;
        while k < 6
            invariant
                k <= 6,
                base == 6 * side.idx(),
                count == unmoved_upto(self.pieces_moved@, base as int, k as int),
                count <= k,
            decreases 6 - k,
        {
            if self.pieces_moved[base + k].is_none() {
                count = count + 1;
            }
            k = k + 1;
        }
        count
    }

    /// Records the first move of a development piece from its start square,
    /// with its index.
    pub fn make(&mut self, mv: &Move)
        requires
            old(self).move_index < usize::MAX,
        ensures
            final(self).move_index == old(self).move_index + 1,
            final(self).pieces_moved@ == moved_after_make(
                old(self).pieces_moved@,
                old(self).move_index,
                *mv,
            ),
            final(self).dev_indices@ == (if new_slot(old(self).pieces_moved@, *mv) is Some {
                old(self).dev_indices@.insert(old(self).move_index)
            } else {
                old(self).dev_indices@
            }),
            final(self).undeveloped_cost == old(self).undeveloped_cost,
            final(self).move_index_divisor == old(self).move_index_divisor,
            final(self).max_penalty == old(self).max_penalty,
            old(self).wf() ==> final(self).wf(),
    {
        let ghost before = self.pieces_moved@;
        let ghost index = self.move_index;
        let ghost was_wf = self.wf();
        if let Move::Standard { from, .. } = mv {
            if let Some((side, piece)) = dev_start_of(*from) {
                let k = dev_slot_of(side, piece);
                if self.pieces_moved[k].is_none() {
                    self.pieces_moved.set(k, Some(self.move_index));
                    index_set_insert(&mut self.dev_indices, self.move_index);
                }
            }
        }
        self.move_index = self.move_index + 1;
        proof {
            if was_wf {
                lemma_make_keeps_wf(before, index, *mv);
            }
        }
    }

    /// Forgets the first move that the move taken back made, if the set of
    /// indices holds its index.
    pub fn unmake(&mut self, mv: &Move)
        requires
            old(self).move_index > 0,
        ensures
            final(self).move_index == old(self).move_index - 1,
            ({
                let idx = (old(self).move_index - 1) as usize;
                let found = if old(self).dev_indices@.contains(idx) {
                    first_matching(old(self).pieces_moved@, idx, 0)
                } else {
                    None
                };
                &&& final(self).pieces_moved@ == match found {
                    Some(k) => old(self).pieces_moved@.update(k, None),
                    None => old(self).pieces_moved@,
                }
                &&& final(self).dev_indices@ == match found {
                    Some(_) => old(self).dev_indices@.remove(idx),
                    None => old(self).dev_indices@,
                }
            }),
            final(self).undeveloped_cost == old(self).undeveloped_cost,
            final(self).move_index_divisor == old(self).move_index_divisor,
            final(self).max_penalty == old(self).max_penalty,
            old(self).wf() ==> final(self).wf(),
    {
        let ghost before = self.pieces_moved@;
        let ghost was_wf = self.wf();
        self.move_index = self.move_index - 1;
        let found = self.matching_piece(self.move_index);
        if let Some(k) = found {
            self.pieces_moved.set(k, None);
            index_set_remove(&mut self.dev_indices, self.move_index);
        }
        proof {
            if was_wf {
                lemma_unmake_keeps_wf(before, self.move_index);
            }
        }
    }
}

impl std::default::Default for DevelopmentFacet {
    fn default() -> (r: DevelopmentFacet)
        ensures
            r.move_index == 0,
            forall|i: int| 0 <= i < 12 ==> r.pieces_moved@[i] is None,
            r.undeveloped_cost == 10,
            r.move_index_divisor == 10,
            r.max_penalty == 300,
            r.dev_indices@ == Set::<usize>::empty(),
            r.wf(),
    {
        let r = DevelopmentFacet {
            move_index: 0,
            pieces_moved: [None; 12],
            undeveloped_cost: 10,
            move_index_divisor: 10,
            max_penalty: 300,
            dev_indices: FxHashSet::default(),
        };
        assert(recorded_indices(r.pieces_moved@) =~= Set::<usize>::empty());
        r
    }
}

/// Making a move keeps the record consistent.
proof fn lemma_make_keeps_wf(moved: Seq<Option<usize>>, index: usize, mv: Move)
    requires
        moved_wf(moved, index),
        distinct_records(moved),
        index < usize::MAX,
    ensures
        moved_wf(moved_after_make(moved, index, mv), (index + 1) as usize),
        distinct_records(moved_after_make(moved, index, mv)),
        recorded_indices(moved_after_make(moved, index, mv)) == (if new_slot(moved, mv) is Some {
            recorded_indices(moved).insert(index)
        } else {
            recorded_indices(moved)
        }),
{
    let after = moved_after_make(moved, index, mv);
    match new_slot(moved, mv) {
        Some(c) => {
            assert(0 <= c < 12);
            assert forall|i: int, j: int|
                0 <= i < 12 && 0 <= j < 12 && i != j && (#[trigger] after[i]) is Some implies after[i]
                != #[trigger] after[j] by {
                if i != c && j != c {
                    assert(moved[i] != moved[j]);
                }
            }
            assert forall|m: usize| #[trigger] recorded_indices(after).contains(m) <==> recorded_indices(
                moved,
            ).insert(index).contains(m) by {
                if recorded_indices(moved).contains(m) {
                    let k = choose|k: int| 0 <= k < 12 && moved[k] == Some(m);
                    assert(k != c);
                    assert(after[k] == Some(m));
                }
                if m == index {
                    assert(after[c] == Some(m));
                }
                if recorded_indices(after).contains(m) {
                    let k = choose|k: int| 0 <= k < 12 && after[k] == Some(m);
                    if k != c {
                        assert(moved[k] == Some(m));
                    }
                }
            }
            assert(recorded_indices(after) =~= recorded_indices(moved).insert(index));
        },
        None => {
            assert(recorded_indices(after) =~= recorded_indices(moved));
        },
    }
}

/// Taking back the move of the given index, in a consistent record, keeps
/// it consistent.
proof fn lemma_unmake_keeps_wf(moved: Seq<Option<usize>>, idx: usize)
    requires
        moved_wf(moved, (idx + 1) as usize),
        distinct_records(moved),
    ensures
        ({
            let found = if recorded_indices(moved).contains(idx) {
                first_matching(moved, idx, 0)
            } else {
                None
            };
            let after = match found {
                Some(k) => moved.update(k, None),
                None => moved,
            };
            &&& moved_wf(after, idx)
            &&& distinct_records(after)
            &&& recorded_indices(after) == match found {
                Some(_) => recorded_indices(moved).remove(idx),
                None => recorded_indices(moved),
            }
        }),
{
    let found = if recorded_indices(moved).contains(idx) {
        first_matching(moved, idx, 0)
    } else {
        None
    };
    if recorded_indices(moved).contains(idx) {
        let c = choose|k: int| 0 <= k < 12 && moved[k] == Some(idx);
        assert forall|i: int| 0 <= i < 12 implies (#[trigger] moved[i] == Some(idx) <==> Some(c)
            == Some(i)) by {
            if i != c && moved[i] == Some(idx) {
                assert(moved[c] != moved[i]);
            }
        }
        lemma_first_matching_unique(moved, idx, 0, c);
        let after = moved.update(c, None);
        assert forall|m: usize| #[trigger] recorded_indices(after).contains(m) <==> recorded_indices(
            moved,
        ).remove(idx).contains(m) by {
            if recorded_indices(after).contains(m) {
                let k = choose|k: int| 0 <= k < 12 && after[k] == Some(m);
                assert(k != c);
                assert(moved[k] == Some(m));
            }
            if recorded_indices(moved).remove(idx).contains(m) {
                let k = choose|k: int| 0 <= k < 12 && moved[k] == Some(m);
                assert(k != c);
                assert(after[k] == Some(m));
            }
        }
        assert(recorded_indices(after) =~= recorded_indices(moved).remove(idx));
        assert forall|i: int| 0 <= i < 12 implies (#[trigger] after[i] matches Some(m) ==> m < idx) by {
            if i != c {
                if let Some(m) = moved[i] {
                    assert(m != idx);
                }
            }
        }
    } else {
        assert forall|i: int| 0 <= i < 12 implies (#[trigger] moved[i] matches Some(m) ==> m < idx) by {
            if let Some(m) = moved[i] {
                if m == idx {
                    assert(recorded_indices(moved).contains(idx));
                }
            }
        }
    }
}

/// When exactly slot `c` holds the index, the first match from `k` is that
/// slot if `k` has not passed it.
proof fn lemma_first_matching_unique(moved: Seq<Option<usize>>, idx: usize, k: int, c: int)
    requires
        0 <= k <= 12,
        0 <= c < 12,
        forall|i: int| 0 <= i < 12 ==> (#[trigger] moved[i] == Some(idx) <==> Some(c) == Some(i)),
    ensures
        k <= c ==> first_matching(moved, idx, k) == Some(c),
    decreases 12 - k,
{
    if k < 12 && k < c {
        assert(moved[k] != Some(idx));
        lemma_first_matching_unique(moved, idx, k + 1, c);
    }
    if k == c {
        assert(moved[k] == Some(idx));
    }
}

/// Unmaking a move undoes making it, in a consistent record: the slots and
/// the set of indices are as they were.
pub proof fn lemma_dev_facet_unmake_undoes_make(
    moved: Seq<Option<usize>>,
    indices: Set<usize>,
    index: usize,
    mv: Move,
)
    requires
        moved_wf(moved, index),
        distinct_records(moved),
        indices == recorded_indices(moved),
        index < usize::MAX,
    ensures
        ({
            let after = moved_after_make(moved, index, mv);
            let after_set = if new_slot(moved, mv) is Some {
                indices.insert(index)
            } else {
                indices
            };
            let found = if after_set.contains(index) {
                first_matching(after, index, 0)
            } else {
                None
            };
            &&& match found {
                Some(k) => after.update(k, None),
                None => after,
            } == moved
            &&& match found {
                Some(_) => after_set.remove(index),
                None => after_set,
            } == indices
        }),
{
    let after = moved_after_make(moved, index, mv);
    lemma_make_keeps_wf(moved, index, mv);
    lemma_development_unmake_undoes_make(moved, index, mv);
    lemma_unmake_keeps_wf(after, index);
    assert(!indices.contains(index)) by {
        if indices.contains(index) {
            let k = choose|k: int| 0 <= k < 12 && moved[k] == Some(index);
            assert(moved[k] matches Some(m) && m < index);
        }
    }
    match new_slot(moved, mv) {
        Some(c) => {
            assert(indices.insert(index).remove(index) =~= indices);
        },
        None => {},
    }
}

} // verus!
