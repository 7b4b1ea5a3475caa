use vstd::prelude::*;

use crate::base::castlezone::CastleZone;
use crate::base::pieces::{Class, Piece};
use crate::base::square::Square;
use crate::base::types::{king_line, rook_line, Side};

verus! {

/// A move as the evaluation and search see it.
#[derive(Debug, Copy, Clone, PartialEq, Eq, Structural, Hash)]
pub enum Move {
    /// A piece moves from one square to another, maybe capturing.
    Standard { moving: Piece, from: Square, dest: Square, capture: Option<Piece> },
    /// A pawn of `side` captures the pawn on `capture` en passant.
    Enpassant { side: Side, from: Square, dest: Square, capture: Square },
    /// A pawn moves to the last rank and becomes `promoted`.
    Promotion { from: Square, dest: Square, promoted: Piece, capture: Option<Piece> },
    /// The king and rook castle in the given zone.
    Castle { corner: CastleZone },
    /// The side to move passes.
    Null,
}

/// The board after a move, where `locs[i]` is the piece on the square of
/// index `i`.
pub open spec fn moved(locs: Seq<Option<Piece>>, mv: Move) -> Seq<Option<Piece>> {
    match mv {
        Move::Standard { moving, from, dest, .. } => locs.update(from.idx(), None).update(
            dest.idx(),
            Some(moving),
        ),
        Move::Enpassant { side, from, dest, capture } => locs.update(from.idx(), None).update(
            capture.idx(),
            None,
        ).update(dest.idx(), Some(Piece(side, Class::P))),
        Move::Promotion { from, dest, promoted, .. } => locs.update(from.idx(), None).update(
            dest.idx(),
            Some(promoted),
        ),
        Move::Castle { corner } => {
            let c = corner.corner_of();
            let k = king_line(c);
            let r = rook_line(c);
            locs.update(k.0.idx(), None).update(r.0.idx(), None).update(
                k.1.idx(),
                Some(Piece(c.0, Class::K)),
            ).update(r.1.idx(), Some(Piece(c.0, Class::R)))
        },
        Move::Null => locs,
    }
}

/// The move agrees with the board: its pieces stand where it says, and
/// the squares it moves to hold what it says it captures.
pub open spec fn move_fits(locs: Seq<Option<Piece>>, mv: Move) -> bool {
    match mv {
        Move::Standard { moving, from, dest, capture } => {
            &&& from != dest
            &&& locs[from.idx()] == Some(moving)
            &&& locs[dest.idx()] == capture
        },
        Move::Enpassant { side, from, dest, capture } => {
            &&& from != dest && from != capture && dest != capture
            &&& locs[from.idx()] == Some(Piece(side, Class::P))
            &&& locs[capture.idx()] == Some(Piece(side.other(), Class::P))
            &&& locs[dest.idx()] == None::<Piece>
        },
        Move::Promotion { from, dest, promoted, capture } => {
            &&& from != dest
            &&& locs[from.idx()] == Some(Piece(promoted.0, Class::P))
            &&& locs[dest.idx()] == capture
        },
        Move::Castle { corner } => {
            let c = corner.corner_of();
            let k = king_line(c);
            let r = rook_line(c);
            &&& locs[k.0.idx()] == Some(Piece(c.0, Class::K))
            &&& locs[r.0.idx()] == Some(Piece(c.0, Class::R))
            &&& locs[k.1.idx()] == None::<Piece>
            &&& locs[r.1.idx()] == None::<Piece>
        },
        Move::Null => true,
    }
}

} // verus!
