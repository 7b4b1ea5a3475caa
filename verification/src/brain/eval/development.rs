use vstd::prelude::*;

use crate::base::square::Square;
use crate::base::types::Side;
use crate::brain::moves::Move;

verus! {

/// The pieces whose first move counts as development, on each side.
#[derive(Debug, Copy, Clone, PartialEq, Eq, Structural)]
pub enum DevelopmentPiece {
    EPawn,
    DPawn,
    BKnight,
    GKnight,
    CBishop,
    FBishop,
}

/// The position of a development piece among the six of a side.
pub open spec fn piece_pos(d: DevelopmentPiece) -> int {
    match d {
        DevelopmentPiece::EPawn => 0,
        DevelopmentPiece::DPawn => 1,
        DevelopmentPiece::BKnight => 2,
        DevelopmentPiece::GKnight => 3,
        DevelopmentPiece::CBishop => 4,
        DevelopmentPiece::FBishop => 5,
    }
}

/// The slot of a development piece of a side: white's six first.
pub open spec fn dev_slot(side: Side, d: DevelopmentPiece) -> int {
    6 * side.idx() + piece_pos(d)
}

/// The development piece that starts on a square, if one does.
pub open spec fn dev_start(sq: Square) -> Option<(Side, DevelopmentPiece)> {
    if sq == Square::E2 {
        Some((Side::W, DevelopmentPiece::EPawn))
    } else if sq == Square::E7 {
        Some((Side::B, DevelopmentPiece::EPawn))
    } else if sq == Square::D2 {
        Some((Side::W, DevelopmentPiece::DPawn))
    } else if sq == Square::D7 {
        Some((Side::B, DevelopmentPiece::DPawn))
    } else if sq == Square::B1 {
        Some((Side::W, DevelopmentPiece::BKnight))
    } else if sq == Square::B8 {
        Some((Side::B, DevelopmentPiece::BKnight))
    } else if sq == Square::G1 {
        Some((Side::W, DevelopmentPiece::GKnight))
    } else if sq == Square::G8 {
        Some((Side::B, DevelopmentPiece::GKnight))
    } else if sq == Square::C1 {
        Some((Side::W, DevelopmentPiece::CBishop))
    } else if sq == Square::C8 {
        Some((Side::B, DevelopmentPiece::CBishop))
    } else if sq == Square::F1 {
        Some((Side::W, DevelopmentPiece::FBishop))
    } else if sq == Square::F8 {
        Some((Side::B, DevelopmentPiece::FBishop))
    } else {
        None
    }
}

/// The development piece that starts on a square, if one does.
pub(crate) fn dev_start_of(sq: Square) -> (r: Option<(Side, DevelopmentPiece)>)
    ensures
        r == dev_start(sq),
{
    match sq {
        Square::E2 => Some((Side::W, DevelopmentPiece::EPawn)),
        Square::E7 => Some((Side::B, DevelopmentPiece::EPawn)),
        Square::D2 => Some((Side::W, DevelopmentPiece::DPawn)),
        Square::D7 => Some((Side::B, DevelopmentPiece::DPawn)),
        Square::B1 => Some((Side::W, DevelopmentPiece::BKnight)),
        Square::B8 => Some((Side::B, DevelopmentPiece::BKnight)),
        Square::G1 => Some((Side::W, DevelopmentPiece::GKnight)),
        Square::G8 => Some((Side::B, DevelopmentPiece::GKnight)),
        Square::C1 => Some((Side::W, DevelopmentPiece::CBishop)),
        Square::C8 => Some((Side::B, DevelopmentPiece::CBishop)),
        Square::F1 => Some((Side::W, DevelopmentPiece::FBishop)),
        Square::F8 => Some((Side::B, DevelopmentPiece::FBishop)),
        _ => None,
    }
}

/// The slot of a development piece.
pub(crate) fn dev_slot_of(side: Side, d: DevelopmentPiece) -> (r: usize)
    ensures
        r == dev_slot(side, d),
        r < 12,
{
    let base: usize = match side {
        Side::W => 0,
        Side::B => 6,
    };
    base + match d {
        DevelopmentPiece::EPawn => 0,
        DevelopmentPiece::DPawn => 1,
        DevelopmentPiece::BKnight => 2,
        DevelopmentPiece::GKnight => 3,
        DevelopmentPiece::CBishop => 4,
        DevelopmentPiece::FBishop => 5,
    }
}

/// The first slot, in order, whose piece was first moved by the move of
/// the given index.
pub open spec fn first_matching(moved: Seq<Option<usize>>, move_count: usize, k: int) -> Option<int>
    decreases 12 - k,
{
    if k >= 12 || k < 0 {
        None
    } else if moved[k] == Some(move_count) {
        Some(k)
    } else {
        first_matching(moved, move_count, k + 1)
    }
}

/// Tracks when each side first moved its centre pawns and minor pieces.
#[derive(Debug, Copy, Clone, PartialEq, Eq)]
pub struct DevelopmentEvalComponent {
    /// The number of moves made.
    pub move_index: usize,
    /// The index of the move that first moved each piece, by slot.
    pub piece_moved: [Option<usize>; 12],
}

impl DevelopmentEvalComponent {
    /// The slot of the first piece whose first move has the given index.
    pub fn matching_piece(&self, move_count: usize) -> (r: Option<usize>)
        ensures
            r matches Some(k) ==> first_matching(self.piece_moved@, move_count, 0) == Some(k as int)
                && k < 12,
            r is None ==> first_matching(self.piece_moved@, move_count, 0) is None,
    {
        let mut k: usize = 0;
        while k < 12
            invariant
                k <= 12,
                first_matching(self.piece_moved@, move_count, 0) == first_matching(
                    self.piece_moved@,
                    move_count,
                    k as int,
                ),
            decreases 12 - k,
        {
            if self.piece_moved[k] == Some(move_count) {
                return Some(k);
            }
            k = k + 1;
        }
        None
    }

    /// The number of pieces of a side not yet developed by the cutoff: those
    /// never moved, or first moved at or after the cutoff.
    pub open spec fn undeveloped(self, side: Side, cutoff: usize) -> int {
        undeveloped_upto(self.piece_moved@, 6 * side.idx(), cutoff, 6)
    }

    /// The number of pieces of a side not developed by the cutoff.
    pub fn undeveloped_count(&self, side: Side, cutoff: usize) -> (r: usize)
        ensures
            r == self.undeveloped(side, cutoff),
            r <= 6,
    {
        let base: usize = match side {
            Side::W => 0,
            Side::B => 6,
        };
        let mut count: usize = 0;
        let mut k: usize = 0;
        while k < 6
            invariant
                k <= 6,
                base == 6 * side.idx(),
                count == undeveloped_upto(self.piece_moved@, base as int, cutoff, k as int),
                count <= k,
            decreases 6 - k,
        {
            match self.piece_moved[base + k] {
                None => count = count + 1,
                Some(i) => if i >= cutoff {
                    count = count + 1;
                },
            }
            k = k + 1;
        }
        count
    }

    /// Records the first move of a development piece from its start square.
    pub fn make(&mut self, mv: &Move)
        requires
            old(self).move_index < usize::MAX,
        ensures
            final(self).move_index == old(self).move_index + 1,
            final(self).piece_moved@ == (match *mv {
                Move::Standard { from, .. } => match dev_start(from) {
                    Some(sd) => if old(self).piece_moved@[dev_slot(sd.0, sd.1)] is None {
                        old(self).piece_moved@.update(
                            dev_slot(sd.0, sd.1),
                            Some(old(self).move_index),
                        )
                    } else {
                        old(self).piece_moved@
                    },
                    None => old(self).piece_moved@,
                },
                _ => old(self).piece_moved@,
            }),
    {
        if let Move::Standard { from, .. } = mv {
            if let Some((side, piece)) = dev_start_of(*from) {
                let k = dev_slot_of(side, piece);
                if self.piece_moved[k].is_none() {
                    self.piece_moved.set(k, Some(self.move_index));
                }
            }
        }
        self.move_index = self.move_index + 1;
    }

    /// Forgets the first move that the move taken back made.
    pub fn unmake(&mut self, mv: &Move)
        requires
            old(self).move_index > 0,
        ensures
            final(self).move_index == old(self).move_index - 1,
            final(self).piece_moved@ == (match first_matching(
                old(self).piece_moved@,
                (old(self).move_index - 1) as usize,
                0,
            ) {
                Some(k) => old(self).piece_moved@.update(k, None),
                None => old(self).piece_moved@,
            }),
    {
        self.move_index = self.move_index - 1;
        if let Some(k) = self.matching_piece(self.move_index) {
            self.piece_moved.set(k, None);
        }
    }
}

impl std::default::Default for DevelopmentEvalComponent {
    fn default() -> (r: DevelopmentEvalComponent)
        ensures
            r.move_index == 0,
            forall|i: int| 0 <= i < 12 ==> r.piece_moved@[i] is None,
    {
        DevelopmentEvalComponent { move_index: 0, piece_moved: [None; 12] }
    }
}

/// The number of the first `k` slots from `base` whose piece was not moved
/// before the cutoff.
pub open spec fn undeveloped_upto(moved: Seq<Option<usize>>, base: int, cutoff: usize, k: int) -> int
    decreases k,
{
    if k <= 0 {
        0
    } else {
        undeveloped_upto(moved, base, cutoff, k - 1) + match moved[base + k - 1] {
            None => 1int,
            Some(i) => if i >= cutoff {
                1int
            } else {
                0int
            },
        }
    }
}

/// The moves recorded were all made before the `index` moves made so far.
pub open spec fn moved_wf(moved: Seq<Option<usize>>, index: usize) -> bool {
    &&& moved.len() == 12
    &&& forall|i: int| 0 <= i < 12 ==> (#[trigger] moved[i] matches Some(m) ==> m < index)
}

/// Unmaking a move undoes making it when the moves recorded came before:
/// the record is as it was, and stays well formed.
pub proof fn lemma_development_unmake_undoes_make(
    moved: Seq<Option<usize>>,
    index: usize,
    mv: Move,
)
    requires
        moved_wf(moved, index),
        index < usize::MAX,
    ensures
        ({
            let after = match mv {
                Move::Standard { from, .. } => match dev_start(from) {
                    Some(sd) => if moved[dev_slot(sd.0, sd.1)] is None {
                        moved.update(dev_slot(sd.0, sd.1), Some(index))
                    } else {
                        moved
                    },
                    None => moved,
                },
                _ => moved,
            };
            &&& moved_wf(after, (index + 1) as usize)
            &&& match first_matching(after, index, 0) {
                Some(k) => after.update(k, None),
                None => after,
            } == moved
        }),
{
    let after = match mv {
        Move::Standard { from, .. } => match dev_start(from) {
            Some(sd) => if moved[dev_slot(sd.0, sd.1)] is None {
                moved.update(dev_slot(sd.0, sd.1), Some(index))
            } else {
                moved
            },
            None => moved,
        },
        _ => moved,
    };
    let changed = match mv {
        Move::Standard { from, .. } => match dev_start(from) {
            Some(sd) => if moved[dev_slot(sd.0, sd.1)] is None {
                Some(dev_slot(sd.0, sd.1))
            } else {
                None
            },
            None => None,
        },
        _ => None,
    };
    lemma_first_matching(after, index, 0, changed);
    match changed {
        Some(k) => {
            assert(after.update(k, None) =~= moved);
        },
        None => {},
    }
}

/// In a record where only slot `changed` (if any) holds the index, the
/// first match of the index from `k` is that slot.
proof fn lemma_first_matching(moved: Seq<Option<usize>>, index: usize, k: int, changed: Option<int>)
    requires
        moved.len() == 12,
        0 <= k <= 12,
        changed matches Some(c) ==> 0 <= c < 12,
        forall|i: int| 0 <= i < 12 ==> (#[trigger] moved[i] == Some(index) <==> changed == Some(i)),
    ensures
        first_matching(moved, index, k) == (match changed {
            Some(c) => if k <= c {
                Some(c)
            } else {
                None
            },
            None => None,
        }),
    decreases 12 - k,
{
    if k < 12 {
        assert(moved[k] == Some(index) <==> changed == Some(k));
        lemma_first_matching(moved, index, k + 1, changed);
    }
}

} // verus!
