use vstd::prelude::*;

use crate::base::pieces::{Class, Piece};
use crate::base::types::Side;

verus! {

/// Midgame values of the classes P, N, B, R, Q, K, as stockfish has them.
pub const DEFAULT_MIDGAME: [i32; 6] = [128, 782, 830, 1289, 2529, 100_000];

/// Endgame values of the classes P, N, B, R, Q, K, as stockfish has them.
pub const DEFAULT_ENDGAME: [i32; 6] = [213, 865, 918, 1378, 2687, 100_000];

/// The material value of each class of piece, in the midgame and in the
/// endgame, indexed in the order P, N, B, R, Q, K.
#[derive(Debug, Copy, Clone, PartialEq, Eq)]
pub struct PieceValues {
    pub midgame: [i32; 6],
    pub endgame: [i32; 6],
}

/// Plus the value for white pieces, minus it for black ones.
pub open spec fn signed_value(side: Side, v: i32) -> int {
    if side == Side::W {
        v as int
    } else {
        -v
    }
}

impl PieceValues {
    /// Values with the given midgame and endgame tables.
    pub fn new(midgame: [i32; 6], endgame: [i32; 6]) -> (r: PieceValues)
        ensures
            r.midgame == midgame,
            r.endgame == endgame,
    {
        PieceValues { midgame, endgame }
    }

    /// The midgame value of a piece, positive for white.
    pub open spec fn mid(&self, piece: Piece) -> int {
        signed_value(piece.0, self.midgame@[piece.1.idx()])
    }

    /// The endgame value of a piece, positive for white.
    pub open spec fn end(&self, piece: Piece) -> int {
        signed_value(piece.0, self.endgame@[piece.1.idx()])
    }

    /// Retrieve the midgame value of the given piece.
    pub fn midgame(&self, piece: Piece) -> (r: i32)
        requires
            piece.0 == Side::B ==> self.midgame@[piece.1.idx()] != i32::MIN,
        ensures
            r == self.mid(piece),
    {
        let v = self.midgame[piece.1.index()];
        match piece.0 {
            Side::W => v,
            Side::B => -v,
        }
    }

    /// Retrieve the endgame value of the given piece.
    pub fn endgame(&self, piece: Piece) -> (r: i32)
        requires
            piece.0 == Side::B ==> self.endgame@[piece.1.idx()] != i32::MIN,
        ensures
            r == self.end(piece),
    {
        let v = self.endgame[piece.1.index()];
        match piece.0 {
            Side::W => v,
            Side::B => -v,
        }
    }
}

impl std::default::Default for PieceValues {
    fn default() -> (r: PieceValues)
        ensures
            r.midgame == DEFAULT_MIDGAME,
            r.endgame == DEFAULT_ENDGAME,
    {
        PieceValues { midgame: DEFAULT_MIDGAME, endgame: DEFAULT_ENDGAME }
    }
}

} // verus!
