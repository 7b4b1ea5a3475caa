use vstd::prelude::*;

use crate::base::castlezone::{CastleZone, CastleZoneSet};
use crate::base::types::Side;
use crate::brain::moves::Move;

verus! {

/// The number of castling rights of a side in a set of rights.
pub open spec fn side_rights(rights: CastleZoneSet, side: Side) -> int {
    if side == Side::W {
        (if rights.wk {
            1int
        } else {
            0int
        }) + (if rights.wq {
            1int
        } else {
            0int
        })
    } else {
        (if rights.bk {
            1int
        } else {
            0int
        }) + (if rights.bq {
            1int
        } else {
            0int
        })
    }
}

/// Penalises a side that has not castled, by the castling rights it has
/// lost.
#[derive(Debug, Copy, Clone, PartialEq, Eq)]
pub struct CastlingFacet {
    /// The zone each side castled in, white first, if it has.
    pub castling_status: [Option<CastleZone>; 2],
    /// The penalty for each castling right lost without castling.
    pub penalty: i32,
}

impl CastlingFacet {
    /// The zone that a side castled in, if it has.
    pub open spec fn status(self, side: Side) -> Option<CastleZone> {
        self.castling_status@[side.idx()]
    }

    /// The penalty of a side: nothing once it has castled, else the penalty
    /// for each of its two rights that is gone.
    pub open spec fn side_penalty(self, side: Side, rights: CastleZoneSet) -> int {
        if self.status(side) is Some {
            0
        } else {
            (2 - side_rights(rights, side)) * self.penalty
        }
    }

    /// The penalty of a side fits in `i32`.
    pub open spec fn penalty_fits(self) -> bool {
        i32::MIN <= 2 * self.penalty <= i32::MAX
    }

    /// The penalty of a side for the rights it lost without castling.
    pub fn penalty(&self, side: Side, rights: &CastleZoneSet) -> (r: i32)
        requires
            self.penalty_fits(),
        ensures
            r == self.side_penalty(side, *rights),
    {
        let status = match side {
            Side::W => self.castling_status[0],
            Side::B => self.castling_status[1],
        };
        if status.is_some() {
            0
        } else {
            let rights_remaining = rights.count_side(side);
            assert((2 - rights_remaining) * self.penalty <= 2 * self.penalty || self.penalty < 0)
                by (nonlinear_arith)
                requires
                    0 <= rights_remaining <= 2,
            ;
            assert(i32::MIN <= (2 - rights_remaining) * self.penalty <= i32::MAX) by (nonlinear_arith)
                requires
                    0 <= rights_remaining <= 2,
                    i32::MIN <= 2 * self.penalty <= i32::MAX,
            ;
            (2i32 - rights_remaining) * self.penalty
        }
    }

    /// The penalty of black less that of white.
    pub fn static_eval(&self, rights: &CastleZoneSet) -> (r: i32)
        requires
            self.penalty_fits(),
            i32::MIN <= self.side_penalty(Side::B, *rights) - self.side_penalty(Side::W, *rights)
                <= i32::MAX,
        ensures
            r == self.side_penalty(Side::B, *rights) - self.side_penalty(Side::W, *rights),
    {
        self.penalty(Side::B, rights) - self.penalty(Side::W, rights)
    }

    /// Records the zone that a castling move castles in.
    pub fn make(&mut self, mv: &Move)
        ensures
            final(self).penalty == old(self).penalty,
            final(self).castling_status@ == (match *mv {
                Move::Castle { corner } => old(self).castling_status@.update(
                    corner.side_of().idx(),
                    Some(corner),
                ),
                _ => old(self).castling_status@,
            }),
    {
        if let Move::Castle { corner: zone } = mv {
            match zone.side() {
                Side::W => self.castling_status[0] = Some(*zone),
                Side::B => self.castling_status[1] = Some(*zone),
            }
        }
    }

    /// Forgets the zone that a castling move castled in.
    pub fn unmake(&mut self, mv: &Move)
        ensures
            final(self).penalty == old(self).penalty,
            final(self).castling_status@ == (match *mv {
                Move::Castle { corner } => old(self).castling_status@.update(
                    corner.side_of().idx(),
                    None,
                ),
                _ => old(self).castling_status@,
            }),
    {
        if let Move::Castle { corner: zone } = mv {
            match zone.side() {
                Side::W => self.castling_status[0] = None,
                Side::B => self.castling_status[1] = None,
            }
        }
    }
}

impl std::default::Default for CastlingFacet {
    fn default() -> (r: CastlingFacet)
        ensures
            r.castling_status@ == seq![None::<CastleZone>, None::<CastleZone>],
            r.penalty == 100,
    {
        let r = CastlingFacet { castling_status: [None, None], penalty: 100 };
        assert(r.castling_status@ =~= seq![None::<CastleZone>, None::<CastleZone>]);
        r
    }
}

/// Unmaking a castling move of a side that had not castled before forgets
/// it again: the facet is as it was.
pub proof fn lemma_castling_unmake_undoes_make(status: Seq<Option<CastleZone>>, mv: Move)
    requires
        status.len() == 2,
        mv matches Move::Castle { corner } ==> status[corner.side_of().idx()] is None,
    ensures
        (match mv {
            Move::Castle { corner } => status.update(corner.side_of().idx(), Some(corner)).update(
                corner.side_of().idx(),
                None,
            ),
            _ => status,
        }) == status,
{
    if let Move::Castle { corner } = mv {
        assert(status.update(corner.side_of().idx(), Some(corner)).update(
            corner.side_of().idx(),
            None,
        ) =~= status);
    }
}

} // verus!
