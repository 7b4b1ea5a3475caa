use vstd::prelude::*;

use crate::base::types::Side;
use crate::brain::moves::Move;

verus! {

/// The number of the two castling rights of a side that are left, with
/// the rights ordered white kingside, white queenside, black kingside,
/// black queenside.
pub open spec fn rights_left(rights: [bool; 4], side: Side) -> int {
    let k = 2 * side.idx();
    (if rights@[k] {
        1int
    } else {
        0int
    }) + (if rights@[k + 1] {
        1int
    } else {
        0int
    })
}

/// Penalises a side that has not castled, by the castling rights it has
/// lost.
#[derive(Debug, Copy, Clone, PartialEq, Eq)]
pub struct CastlingFacet {
    /// Whether each side has castled, white first.
    pub castling_status: [bool; 2],
    /// The penalty for each castling right lost without castling.
    pub penalty: i32,
}

impl CastlingFacet {
    /// The penalty of a side with `left` castling rights: nothing once it
    /// has castled, else the penalty for each of its two rights that is
    /// gone.
    pub open spec fn side_penalty(self, side: Side, left: int) -> int {
        if self.castling_status@[side.idx()] {
            0
        } else {
            (2 - left) * self.penalty
        }
    }

    /// Twice the penalty fits in `i32`.
    pub open spec fn penalty_fits(self) -> bool {
        i32::MIN <= 2 * self.penalty <= i32::MAX
    }

    /// The penalty of a side for the rights it lost without castling.
    pub fn penalty(&self, side: Side, rights_left: usize) -> (r: i32)
        requires
            self.penalty_fits(),
            rights_left <= 2,
        ensures
            r == self.side_penalty(side, rights_left as int),
    {
        let castled = match side {
            Side::W => self.castling_status[0],
            Side::B => self.castling_status[1],
        };
        if castled {
            0
        } else {
            let left = rights_left as i32;
            assert(i32::MIN <= (2 - left) * self.penalty <= i32::MAX) by (nonlinear_arith)
                requires
                    0 <= left <= 2,
                    i32::MIN <= 2 * self.penalty <= i32::MAX,
            ;
            (2i32 - left) * self.penalty
        }
    }

    /// The penalty of black less that of white, by the castling rights left
    /// in the order white kingside, white queenside, black kingside, black
    /// queenside.
    pub fn static_eval(&self, rights: [bool; 4]) -> (r: i32)
        requires
            self.penalty_fits(),
            i32::MIN <= self.side_penalty(Side::B, rights_left(rights, Side::B))
                - self.side_penalty(Side::W, rights_left(rights, Side::W)) <= i32::MAX,
        ensures
            r == self.side_penalty(Side::B, rights_left(rights, Side::B)) - self.side_penalty(
                Side::W,
                rights_left(rights, Side::W),
            ),
    {
        let black_left = (if rights[2] {
            1usize
        } else {
            0usize
        }) + (if rights[3] {
            1usize
        } else {
            0usize
        });
        let white_left = (if rights[0] {
            1usize
        } else {
            0usize
        }) + (if rights[1] {
            1usize
        } else {
            0usize
        });
        self.penalty(Side::B, black_left) - self.penalty(Side::W, white_left)
    }

    /// Records that the side of a castling move has castled.
    pub fn make(&mut self, mv: &Move)
        ensures
            final(self).penalty == old(self).penalty,
            final(self).castling_status@ == (match *mv {
                Move::Castle { corner } => old(self).castling_status@.update(
                    corner.side_of().idx(),
                    true,
                ),
                _ => old(self).castling_status@,
            }),
    {
        if let Move::Castle { corner } = mv {
            match corner.side() {
                Side::W => self.castling_status[0] = true,
                Side::B => self.castling_status[1] = true,
            }
        }
    }

    /// Records that the side of a castling move has not castled.
    pub fn unmake(&mut self, mv: &Move)
        ensures
            final(self).penalty == old(self).penalty,
            final(self).castling_status@ == (match *mv {
                Move::Castle { corner } => old(self).castling_status@.update(
                    corner.side_of().idx(),
                    false,
                ),
                _ => old(self).castling_status@,
            }),
    {
        if let Move::Castle { corner } = mv {
            match corner.side() {
                Side::W => self.castling_status[0] = false,
                Side::B => self.castling_status[1] = false,
            }
        }
    }
}

impl std::default::Default for CastlingFacet {
    fn default() -> (r: CastlingFacet)
        ensures
            r.castling_status@ == seq![false, false],
            r.penalty == 70,
    {
        let r = CastlingFacet { castling_status: [false, false], penalty: 70 };
        assert(r.castling_status@ =~= seq![false, false]);
        r
    }
}

/// Unmaking a castling move of a side that had not castled before makes
/// it not castled again: the facet is as it was.
pub proof fn lemma_castled_unmake_undoes_make(status: Seq<bool>, mv: Move)
    requires
        status.len() == 2,
        mv matches Move::Castle { corner } ==> !status[corner.side_of().idx()],
    ensures
        (match mv {
            Move::Castle { corner } => status.update(corner.side_of().idx(), true).update(
                corner.side_of().idx(),
                false,
            ),
            _ => status,
        }) == status,
{
    if let Move::Castle { corner } = mv {
        assert(status.update(corner.side_of().idx(), true).update(corner.side_of().idx(), false)
            =~= status);
    }
}

} // verus!
