use vstd::prelude::*;

use crate::base::bitboard::{rank_set, BitBoard};
use crate::base::square::Square;

verus! {

/// One of the two players.
#[derive(Debug, Copy, Clone, PartialEq, Eq, Structural, Hash, PartialOrd, Ord)]
pub enum Side {
    W,
    B,
}

/// The king or queen side of the board.
#[derive(Debug, Copy, Clone, PartialEq, Eq, Structural, Hash, PartialOrd, Ord)]
pub enum Flank {
    K,
    Q,
}

/// The eight files of the board, ordered from H to A.
#[derive(Debug, Copy, Clone, PartialEq, Eq, Structural, Hash, PartialOrd, Ord)]
pub enum File {
    H,
    G,
    F,
    E,
    D,
    C,
    B,
    A,
}

/// The eight compass directions followed by the eight knight jumps.
#[derive(Debug, Copy, Clone, PartialEq, Eq, Structural, Hash, PartialOrd, Ord)]
pub enum Dir {
    N,
    E,
    S,
    W,
    NE,
    SE,
    SW,
    NW,
    NNE,
    NEE,
    SEE,
    SSE,
    SSW,
    SWW,
    NWW,
    NNW,
}

/// A corner of the board where castling takes place.
#[derive(Debug, Copy, Clone, PartialEq, Eq, Structural, Hash, PartialOrd, Ord)]
pub struct Corner(pub Side, pub Flank);

/// A pair of squares: where a piece starts and where it ends.
#[derive(Debug, Copy, Clone, PartialEq, Eq, Structural, Hash, PartialOrd, Ord)]
pub struct Line(pub Square, pub Square);

/// The path of the king when castling in the given corner.
pub open spec fn king_line(corner: Corner) -> Line {
    match corner {
        Corner(Side::W, Flank::K) => Line(Square::E1, Square::G1),
        Corner(Side::W, Flank::Q) => Line(Square::E1, Square::C1),
        Corner(Side::B, Flank::K) => Line(Square::E8, Square::G8),
        Corner(Side::B, Flank::Q) => Line(Square::E8, Square::C8),
    }
}

/// The path of the rook when castling in the given corner.
pub open spec fn rook_line(corner: Corner) -> Line {
    match corner {
        Corner(Side::W, Flank::K) => Line(Square::H1, Square::F1),
        Corner(Side::W, Flank::Q) => Line(Square::A1, Square::D1),
        Corner(Side::B, Flank::K) => Line(Square::H8, Square::F8),
        Corner(Side::B, Flank::Q) => Line(Square::A8, Square::D8),
    }
}

impl Line {
    /// The path of the king when castling in the given corner.
    pub fn king_castling(corner: Corner) -> (r: Line)
        ensures
            r == king_line(corner),
    {
        match (corner.0, corner.1) {
            (Side::W, Flank::K) => Line(Square::E1, Square::G1),
            (Side::W, Flank::Q) => Line(Square::E1, Square::C1),
            (Side::B, Flank::K) => Line(Square::E8, Square::G8),
            (Side::B, Flank::Q) => Line(Square::E8, Square::C8),
        }
    }

    /// The path of the rook when castling in the given corner.
    pub fn rook_castling(corner: Corner) -> (r: Line)
        ensures
            r == rook_line(corner),
    {
        match (corner.0, corner.1) {
            (Side::W, Flank::K) => Line(Square::H1, Square::F1),
            (Side::W, Flank::Q) => Line(Square::A1, Square::D1),
            (Side::B, Flank::K) => Line(Square::H8, Square::F8),
            (Side::B, Flank::Q) => Line(Square::A8, Square::D8),
        }
    }
}

/// The parse error of the small string formats of this library.
#[derive(Debug, Copy, Clone, PartialEq, Eq, Structural)]
pub enum ParseError {
    Unrecognised,
}

impl Side {
    /// The other side.
    pub open spec fn other(self) -> Side {
        match self {
            Side::W => Side::B,
            Side::B => Side::W,
        }
    }

    /// Index of the side: white 0, black 1.
    pub open spec fn idx(self) -> int {
        match self {
            Side::W => 0,
            Side::B => 1,
        }
    }

    /// Get the vertical direction in which a pawn on this side moves
    /// (north or south).
    pub fn pawn_dir(self) -> (r: Dir)
        ensures
            r == (match self {
                Side::W => Dir::N,
                Side::B => Dir::S,
            }),
    {
        match self {
            Side::W => Dir::N,
            Side::B => Dir::S,
        }
    }

    /// Get the rank on which a pawn on this side starts the game.
    pub fn pawn_first_rank(self) -> (r: BitBoard)
        ensures
            r@ == rank_set(if self == Side::W { 1 } else { 6 }),
    {
        match self {
            Side::W => BitBoard::ranks(1),
            Side::B => BitBoard::ranks(6),
        }
    }

    /// Get the rank to which a pawn on this side moves to following
    /// it's special two rank first move.
    pub fn pawn_third_rank(self) -> (r: BitBoard)
        ensures
            r@ == rank_set(if self == Side::W { 3 } else { 4 }),
    {
        match self {
            Side::W => BitBoard::ranks(3),
            Side::B => BitBoard::ranks(4),
        }
    }

    /// Get the rank a pawn on this side must be on for it to be able
    /// to promote on it's next move.
    pub fn pawn_promoting_from_rank(self) -> (r: BitBoard)
        ensures
            r@ == rank_set(if self == Side::W { 6 } else { 1 }),
    {
        match self {
            Side::W => BitBoard::ranks(6),
            Side::B => BitBoard::ranks(1),
        }
    }

    /// The rank a pawn on this side will end up on after promoting to
    /// another piece.
    pub fn pawn_promoting_dest_rank(self) -> (r: BitBoard)
        ensures
            r@ == rank_set(if self == Side::W { 7 } else { 0 }),
    {
        match self {
            Side::W => BitBoard::ranks(7),
            Side::B => BitBoard::ranks(0),
        }
    }

    /// Plus one for white, minus one for black.
    pub fn parity(self) -> (r: i32)
        ensures
            r == (if self == Side::W { 1i32 } else { -1i32 }),
    {
        match self {
            Side::W => 1,
            Side::B => -1,
        }
    }

    /// The one letter name of the side.
    pub fn to_string(&self) -> (r: String)
        ensures
            r@ == (match *self {
                Side::W => seq!['w'],
                Side::B => seq!['b'],
            }),
    {
        proof {
            reveal_strlit("w");
            reveal_strlit("b");
        }
        match self {
            Side::W => String::from_str("w"),
            Side::B => String::from_str("b"),
        }
    }

    /// Parse a side from its one letter name, in either case.
    pub fn parse(s: &str) -> (r: Result<Side, ParseError>)
        ensures
            r == (if s@ == seq!['w'] || s@ == seq!['W'] {
                Ok(Side::W)
            } else if s@ == seq!['b'] || s@ == seq!['B'] {
                Ok(Side::B)
            } else {
                Err(ParseError::Unrecognised)
            }),
    {
        if s.unicode_len() != 1 {
            return Err(ParseError::Unrecognised);
        }
        let c = s.get_char(0);
        assert(s@ =~= seq![c]);
        if c == 'w' || c == 'W' {
            Ok(Side::W)
        } else if c == 'b' || c == 'B' {
            Ok(Side::B)
        } else {
            Err(ParseError::Unrecognised)
        }
    }
}

impl std::str::FromStr for Side {
    type Err = ParseError;

    fn from_str(s: &str) -> (r: Result<Side, ParseError>)
        ensures
            r == (if s@ == seq!['w'] || s@ == seq!['W'] {
                Ok(Side::W)
            } else if s@ == seq!['b'] || s@ == seq!['B'] {
                Ok(Side::B)
            } else {
                Err(ParseError::Unrecognised)
            }),
    {
        Side::parse(s)
    }
}

impl Flank {
    /// Parse a flank from its one letter name, in either case.
    pub fn parse(s: &str) -> (r: Result<Flank, ParseError>)
        ensures
            r == (if s@ == seq!['k'] || s@ == seq!['K'] {
                Ok(Flank::K)
            } else if s@ == seq!['q'] || s@ == seq!['Q'] {
                Ok(Flank::Q)
            } else {
                Err(ParseError::Unrecognised)
            }),
    {
        if s.unicode_len() != 1 {
            return Err(ParseError::Unrecognised);
        }
        let c = s.get_char(0);
        assert(s@ =~= seq![c]);
        if c == 'k' || c == 'K' {
            Ok(Flank::K)
        } else if c == 'q' || c == 'Q' {
            Ok(Flank::Q)
        } else {
            Err(ParseError::Unrecognised)
        }
    }
}

impl std::str::FromStr for Flank {
    type Err = ParseError;

    fn from_str(s: &str) -> (r: Result<Flank, ParseError>)
        ensures
            r == (if s@ == seq!['k'] || s@ == seq!['K'] {
                Ok(Flank::K)
            } else if s@ == seq!['q'] || s@ == seq!['Q'] {
                Ok(Flank::Q)
            } else {
                Err(ParseError::Unrecognised)
            }),
    {
        Flank::parse(s)
    }
}

impl Dir {
    /// Change of rank index made by one step in this direction.
    pub open spec fn dr(self) -> int {
        match self {
            Dir::N => 1,
            Dir::E => 0,
            Dir::S => -1,
            Dir::W => 0,
            Dir::NE => 1,
            Dir::SE => -1,
            Dir::SW => -1,
            Dir::NW => 1,
            Dir::NNE => 2,
            Dir::NEE => 1,
            Dir::SEE => -1,
            Dir::SSE => -2,
            Dir::SSW => -2,
            Dir::SWW => -1,
            Dir::NWW => 1,
            Dir::NNW => 2,
        }
    }

    /// Change of file index made by one step in this direction (file
    /// indices run from H to A).
    pub open spec fn df(self) -> int {
        match self {
            Dir::N => 0,
            Dir::E => -1,
            Dir::S => 0,
            Dir::W => 1,
            Dir::NE => -1,
            Dir::SE => -1,
            Dir::SW => 1,
            Dir::NW => 1,
            Dir::NNE => -1,
            Dir::NEE => -2,
            Dir::SEE => -2,
            Dir::SSE => -1,
            Dir::SSW => 1,
            Dir::SWW => 2,
            Dir::NWW => 2,
            Dir::NNW => 1,
        }
    }

    /// The (rank, file) offset of one step in this direction.
    pub fn dr_df(self) -> (r: (i8, i8))
        ensures
            r.0 == self.dr(),
            r.1 == self.df(),
    {
        match self {
            Dir::N => (1, 0),
            Dir::E => (0, -1),
            Dir::S => (-1, 0),
            Dir::W => (0, 1),
            Dir::NE => (1, -1),
            Dir::SE => (-1, -1),
            Dir::SW => (-1, 1),
            Dir::NW => (1, 1),
            Dir::NNE => (2, -1),
            Dir::NEE => (1, -2),
            Dir::SEE => (-1, -2),
            Dir::SSE => (-2, -1),
            Dir::SSW => (-2, 1),
            Dir::SWW => (-1, 2),
            Dir::NWW => (1, 2),
            Dir::NNW => (2, 1),
        }
    }
}

} // verus!
