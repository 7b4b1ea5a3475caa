use vstd::prelude::*;

use crate::base::bitboard::BitBoard;
use crate::base::square::{file_of, rank_of, lemma_square_at, lemma_square_idx, Square};
use crate::base::reflect::reflect_square;
use crate::base::types::Side;
use crate::brain::moves::Move;

verus! {

broadcast use lemma_square_idx, lemma_square_at;

/// The two knights of a side, by the file they start on.
#[derive(Debug, Copy, Clone, PartialEq, Eq, Structural)]
pub enum Knight {
    B,
    G,
}

/// Where the first move of each knight went, and when: indexed by
/// `2 * side + knight`, white first and the b knight first.
pub type FirstMoveStore = [Option<(usize, Square)>; 4];

/// The slot of a knight in the store.
pub open spec fn slot(side: Side, knight: Knight) -> int {
    2 * side.idx() + (if knight == Knight::B {
        0int
    } else {
        1int
    })
}

/// The knight that starts on a square, if one does.
pub open spec fn start_knight(sq: Square) -> Option<(Side, Knight)> {
    if sq == Square::B1 {
        Some((Side::W, Knight::B))
    } else if sq == Square::B8 {
        Some((Side::B, Knight::B))
    } else if sq == Square::G1 {
        Some((Side::W, Knight::G))
    } else if sq == Square::G8 {
        Some((Side::B, Knight::G))
    } else {
        None
    }
}

/// A square on the edge of the board.
pub open spec fn on_rim(sq: Square) -> bool {
    let i = sq.idx();
    rank_of(i) == 0 || rank_of(i) == 7 || file_of(i) == 0 || file_of(i) == 7
}

/// The first move recorded in a slot went to the rim.
pub open spec fn rim_move(m: Option<(usize, Square)>) -> bool {
    m matches Some(x) && on_rim(x.1)
}

/// One for a first move that went to the rim, else zero.
pub open spec fn rim_flag(m: Option<(usize, Square)>) -> int {
    if m matches Some(x) && on_rim(x.1) {
        1
    } else {
        0
    }
}

/// A first move with its square mirrored.
pub open spec fn mirror_entry(m: Option<(usize, Square)>) -> Option<(usize, Square)> {
    match m {
        Some(x) => Some((x.0, reflect_square(x.1))),
        None => None,
    }
}

/// Gives a penalty for each knight whose first move is onto the rim of the
/// board.
#[derive(Debug, Copy, Clone, PartialEq, Eq)]
pub struct KnightRimFacet {
    /// The penalty for each knight that went to the rim first.
    pub penalty: i32,
    /// The first move of each knight, with the index of the move.
    pub first_move: FirstMoveStore,
    /// The number of moves made.
    pub move_index: usize,
}

impl KnightRimFacet {
    /// The number of knights of a side whose first move went to the rim.
    pub open spec fn rim_count(self, side: Side) -> int {
        (if rim_move(self.first_move@[slot(side, Knight::B)]) {
            1int
        } else {
            0int
        }) + (if rim_move(self.first_move@[slot(side, Knight::G)]) {
            1int
        } else {
            0int
        })
    }

    /// The number of knights of a side whose first move went to the rim.
    fn pattern_count(&self, side: Side) -> (r: i32)
        ensures
            r == self.rim_count(side),
    {
        let base: usize = match side {
            Side::W => 0,
            Side::B => 2,
        };
        let rim = BitBoard::rim();
        let mut count: i32 = 0;
        if let Some((_, sq)) = self.first_move[base] {
            if rim.contains(sq) {
                count = count + 1;
            }
        }
        if let Some((_, sq)) = self.first_move[base + 1] {
            if rim.contains(sq) {
                count = count + 1;
            }
        }
        count
    }

    /// The penalty for the knights of black less that of white.
    pub fn static_eval(&self) -> (r: i32)
        requires
            i32::MIN <= self.penalty * (self.rim_count(Side::B) - self.rim_count(Side::W))
                <= i32::MAX,
        ensures
            r == self.penalty * (self.rim_count(Side::B) - self.rim_count(Side::W)),
            r == self.penalty * (rim_flag(self.first_move@[2]) + rim_flag(self.first_move@[3])
                - rim_flag(self.first_move@[0]) - rim_flag(self.first_move@[1])),
    {
        let b = self.pattern_count(Side::B);
        let w = self.pattern_count(Side::W);
        self.penalty * (b - w)
    }
    /// Records the first move of a knight from its start square.
    pub fn make(&mut self, mv: &Move)
        requires
            old(self).move_index < usize::MAX,
        ensures
            final(self).penalty == old(self).penalty,
            final(self).move_index == old(self).move_index + 1,
            final(self).first_move@ == store_after_make(
                old(self).first_move@,
                old(self).move_index,
                *mv,
            ),
    {
        if let Move::Standard { from, dest, .. } = mv {
            if let Some((side, knight)) = start_knight_of(*from) {
                let k = slot_of(side, knight);
                if self.first_move[k].is_none() {
                    self.first_move.set(k, Some((self.move_index, *dest)));
                }
            }
        }
        self.move_index = self.move_index + 1;
    }

    /// Forgets the first move of a knight that the move taken back made.
    pub fn unmake(&mut self, mv: &Move)
        requires
            old(self).move_index > 0,
        ensures
            final(self).penalty == old(self).penalty,
            final(self).move_index == old(self).move_index - 1,
            final(self).first_move@ == store_after_unmake(
                old(self).first_move@,
                old(self).move_index,
                *mv,
            ),
    {
        self.move_index = self.move_index - 1;
        if let Move::Standard { from, .. } = mv {
            if let Some((side, knight)) = start_knight_of(*from) {
                let k = slot_of(side, knight);
                if let Some((index, _)) = self.first_move[k] {
                    if index == self.move_index {
                        self.first_move.set(k, None);
                    }
                }
            }
        }
    }
}

impl std::default::Default for KnightRimFacet {
    fn default() -> (r: KnightRimFacet)
        ensures
            r.penalty == 80,
            r.move_index == 0,
            forall|i: int| 0 <= i < 4 ==> r.first_move@[i] is None,
    {
        KnightRimFacet { penalty: 80, first_move: [None, None, None, None], move_index: 0 }
    }
}

/// The slot of a knight in the store.
fn slot_of(side: Side, knight: Knight) -> (r: usize)
    ensures
        r == slot(side, knight),
        r < 4,
{
    let s: usize = match side {
        Side::W => 0,
        Side::B => 2,
    };
    match knight {
        Knight::B => s,
        Knight::G => s + 1,
    }
}

/// The knight that starts on a square, if one does.
fn start_knight_of(sq: Square) -> (r: Option<(Side, Knight)>)
    ensures
        r == start_knight(sq),
{
    match sq {
        Square::B1 => Some((Side::W, Knight::B)),
        Square::B8 => Some((Side::B, Knight::B)),
        Square::G1 => Some((Side::W, Knight::G)),
        Square::G8 => Some((Side::B, Knight::G)),
        _ => None,
    }
}

/// The store after making a move, when `index` moves had been made: the
/// first move of a knight from its start square is recorded.
pub open spec fn store_after_make(
    store: Seq<Option<(usize, Square)>>,
    index: usize,
    mv: Move,
) -> Seq<Option<(usize, Square)>> {
    match mv {
        Move::Standard { from, dest, .. } => match start_knight(from) {
            Some(sk) => if store[slot(sk.0, sk.1)] is None {
                store.update(slot(sk.0, sk.1), Some((index, dest)))
            } else {
                store
            },
            None => store,
        },
        _ => store,
    }
}

/// The store after unmaking a move, when `index` moves had been made: a
/// first move recorded by the move taken back is forgotten.
pub open spec fn store_after_unmake(
    store: Seq<Option<(usize, Square)>>,
    index: usize,
    mv: Move,
) -> Seq<Option<(usize, Square)>> {
    match mv {
        Move::Standard { from, .. } => match start_knight(from) {
            Some(sk) => match store[slot(sk.0, sk.1)] {
                Some(m) => if m.0 == index - 1 {
                    store.update(slot(sk.0, sk.1), None)
                } else {
                    store
                },
                None => store,
            },
            None => store,
        },
        _ => store,
    }
}

/// Every first move in the store was made before the `index` moves made
/// so far.
pub open spec fn store_wf(store: Seq<Option<(usize, Square)>>, index: usize) -> bool {
    &&& store.len() == 4
    &&& forall|i: int| 0 <= i < 4 ==> (#[trigger] store[i] matches Some(m) ==> m.0 < index)
}

/// Unmaking a move undoes making it, on a store whose moves all came
/// before: the store is as it was. Making a move keeps the store well
/// formed.
pub proof fn lemma_knight_unmake_undoes_make(
    store: Seq<Option<(usize, Square)>>,
    index: usize,
    mv: Move,
)
    requires
        store_wf(store, index),
        index < usize::MAX,
    ensures
        store_wf(store_after_make(store, index, mv), (index + 1) as usize),
        store_after_unmake(store_after_make(store, index, mv), (index + 1) as usize, mv) == store,
{
    let after = store_after_make(store, index, mv);
    assert forall|i: int| 0 <= i < 4 implies (#[trigger] after[i] matches Some(m) ==> m.0 < index
        + 1) by {
        if let Some(m) = store[i] {
        }
    }
    if let Move::Standard { from, dest, .. } = mv {
        if let Some(sk) = start_knight(from) {
            let k = slot(sk.0, sk.1);
            if store[k] is None {
                assert(store_after_unmake(after, (index + 1) as usize, mv) =~= store);
            }
        }
    }
}

/// Making a move and then unmaking it leaves a knight rim facet exactly as
/// it was (its penalty, its first moves and its move count), when every
/// first move it recorded came before the moves made so far. `made` is the
/// facet as `make` leaves it and `back` the facet as `unmake` then leaves it.
pub proof fn lemma_knight_rim_make_unmake(
    f: KnightRimFacet,
    made: KnightRimFacet,
    back: KnightRimFacet,
    mv: Move,
)
    requires
        store_wf(f.first_move@, f.move_index),
        made.penalty == f.penalty,
        made.move_index == f.move_index + 1,
        made.first_move@ == store_after_make(f.first_move@, f.move_index, mv),
        back.penalty == made.penalty,
        back.move_index == made.move_index - 1,
        back.first_move@ == store_after_unmake(made.first_move@, made.move_index, mv),
    ensures
        back == f,
{
    lemma_knight_unmake_undoes_make(f.first_move@, f.move_index, mv);
    assert(back.first_move =~= f.first_move);
}

/// Colour symmetry of the knight rim facet: the facet seen from the other
/// side (the first moves of the white knights given to the black ones and
/// back, their squares mirrored) counts for each side the rim knights the
/// facet counts for the other, and so its evaluation is negated. Every
/// knight of each side counts, the g knights as much as the b knights.
pub proof fn lemma_knight_rim_mirror(f: KnightRimFacet, g: KnightRimFacet)
    requires
        g.penalty == f.penalty,
        forall|i: int| 0 <= i < 4 ==> #[trigger] g.first_move@[i] == mirror_entry(f.first_move@[(i + 2) % 4]),
    ensures
        g.rim_count(Side::W) == f.rim_count(Side::B),
        g.rim_count(Side::B) == f.rim_count(Side::W),
        g.penalty * (g.rim_count(Side::B) - g.rim_count(Side::W)) == -(f.penalty * (f.rim_count(
            Side::B,
        ) - f.rim_count(Side::W))),
        f.rim_count(Side::W) == rim_flag(f.first_move@[0]) + rim_flag(f.first_move@[1]),
        f.rim_count(Side::B) == rim_flag(f.first_move@[2]) + rim_flag(f.first_move@[3]),
{
    assert forall|i: int| 0 <= i < 4 implies rim_flag(#[trigger] g.first_move@[i]) == rim_flag(
        f.first_move@[(i + 2) % 4],
    ) by {
        if let Some(x) = f.first_move@[(i + 2) % 4] {
            let q = x.1.idx();
            crate::base::flip::lemma_reflect_coords(q);
            assert(reflect_square(x.1).idx() == crate::base::reflect::reflect_idx(q));
        }
    }
    assert(g.first_move@[0] == mirror_entry(f.first_move@[2]));
    assert(g.first_move@[1] == mirror_entry(f.first_move@[3]));
    assert(g.first_move@[2] == mirror_entry(f.first_move@[0]));
    assert(g.first_move@[3] == mirror_entry(f.first_move@[1]));
    let a = f.rim_count(Side::B) - f.rim_count(Side::W);
    assert(g.penalty * (-a) == -(f.penalty * a)) by (nonlinear_arith)
        requires
            g.penalty == f.penalty,
    ;
}

} // verus!
