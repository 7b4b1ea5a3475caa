use vstd::prelude::*;

use crate::base::bishops;
use crate::base::bitboard::{bit, bits, lemma_bits_ops, BitBoard};
use crate::base::flip::lemma_ray_coords;
use crate::base::sliding::{
    bishop_dirs, lemma_slide_within, lemma_slides_union_agree, lemma_slides_union_within, rook_control,
    rook_dirs, slide, slides_union,
};
use crate::base::square::{
    file_of, ray,
    Square, next_idx, rank_of, steps_union, square_at, lemma_square_idx, lemma_square_at,
};
use crate::base::types::{Dir, ParseError, Side};

verus! {

broadcast use lemma_square_idx, lemma_square_at;

/// The six classes of chess piece.
#[derive(Debug, Copy, Clone, PartialEq, Eq, Structural, Hash, PartialOrd, Ord)]
pub enum Class {
    P,
    N,
    B,
    R,
    Q,
    K,
}

/// A piece: its side and its class.
#[derive(Debug, Copy, Clone, PartialEq, Eq, Structural, Hash, PartialOrd, Ord)]
pub struct Piece(pub Side, pub Class);

/// The jumps of a knight.
pub open spec fn knight_dirs() -> Seq<Dir> {
    seq![Dir::NNE, Dir::NEE, Dir::SEE, Dir::SSE, Dir::SSW, Dir::SWW, Dir::NWW, Dir::NNW]
}

/// The steps of a king.
pub open spec fn king_dirs() -> Seq<Dir> {
    seq![Dir::N, Dir::NE, Dir::E, Dir::SE, Dir::S, Dir::SW, Dir::W, Dir::NW]
}

/// The two diagonal steps forward of a pawn of the given side.
pub open spec fn pawn_attack_dirs(side: Side) -> Seq<Dir> {
    match side {
        Side::W => seq![Dir::NE, Dir::NW],
        Side::B => seq![Dir::SE, Dir::SW],
    }
}

/// The squares controlled by piece `p` on square index `i` when the
/// squares of `occ` are occupied.
pub open spec fn control_set(p: Piece, i: int, occ: u64) -> Set<int> {
    match p.1 {
        Class::N => steps_union(i, knight_dirs()),
        Class::K => steps_union(i, king_dirs()),
        Class::B => slides_union(i, bishop_dirs(), occ),
        Class::R => slides_union(i, rook_dirs(), occ),
        Class::Q => slides_union(i, bishop_dirs(), occ).union(slides_union(i, rook_dirs(), occ)),
        Class::P => steps_union(i, pawn_attack_dirs(p.0)),
    }
}

/// The forward direction of a pawn of the given side.
pub open spec fn forward(side: Side) -> Dir {
    match side {
        Side::W => Dir::N,
        Side::B => Dir::S,
    }
}

/// The squares a pawn of `side` on square index `i` can move to, with
/// the white pieces on `whites` and the black ones on `blacks`: one step
/// forward onto an empty square, two from its starting rank when both
/// squares are empty, and a diagonal step forward onto an enemy piece.
pub open spec fn pawn_moves_set(side: Side, i: int, whites: u64, blacks: u64) -> Set<int> {
    let enemy = if side == Side::W {
        blacks
    } else {
        whites
    };
    let start: int = if side == Side::W {
        1
    } else {
        6
    };
    let captures = steps_union(i, pawn_attack_dirs(side)).intersect(bits(enemy));
    let pushes = match next_idx(i, forward(side)) {
        Some(j) => if bit(whites | blacks, j) {
            Set::empty()
        } else {
            let two = match next_idx(j, forward(side)) {
                Some(k) => if rank_of(i) == start && !bit(whites | blacks, k) {
                    set![k]
                } else {
                    Set::empty()
                },
                None => Set::empty(),
            };
            set![j].union(two)
        },
        None => Set::empty(),
    };
    captures.union(pushes)
}

/// The control set of a knight.
pub fn knight_control(loc: Square) -> (r: BitBoard)
    ensures
        r@ == steps_union(loc.idx(), knight_dirs()),
{
    let dirs = vec![Dir::NNE, Dir::NEE, Dir::SEE, Dir::SSE, Dir::SSW, Dir::SWW, Dir::NWW, Dir::NNW];
    assert(dirs@ == knight_dirs());
    loc.search_one(&dirs)
}

/// The control set of a king.
pub fn king_control(loc: Square) -> (r: BitBoard)
    ensures
        r@ == steps_union(loc.idx(), king_dirs()),
{
    let dirs = vec![Dir::N, Dir::NE, Dir::E, Dir::SE, Dir::S, Dir::SW, Dir::W, Dir::NW];
    assert(dirs@ == king_dirs());
    loc.search_one(&dirs)
}

/// The control set of a pawn of the given side.
pub fn pawn_control(side: Side, loc: Square) -> (r: BitBoard)
    ensures
        r@ == steps_union(loc.idx(), pawn_attack_dirs(side)),
{
    let dirs = match side {
        Side::W => vec![Dir::NE, Dir::NW],
        Side::B => vec![Dir::SE, Dir::SW],
    };
    assert(dirs@ == pawn_attack_dirs(side));
    loc.search_one(&dirs)
}

/// The moves of a pawn of the given side on `loc`.
pub fn pawn_moves(side: Side, loc: Square, whites: BitBoard, blacks: BitBoard) -> (r: BitBoard)
    ensures
        r@ == pawn_moves_set(side, loc.idx(), whites.0, blacks.0),
{
    let enemy = if side == Side::W {
        blacks
    } else {
        whites
    };
    let start: usize = if side == Side::W {
        1
    } else {
        6
    };
    let occupied = whites | blacks;
    let attacks = pawn_control(side, loc);
    let captures = attacks & enemy;
    let fwd = side.pawn_dir();
    proof {
        lemma_bits_ops(attacks.0, enemy.0);
    }
    let mut pushes = BitBoard::empty();
    match loc.next(fwd) {
        Some(one) => {
            if !occupied.contains(one) {
                pushes = one.lift();
                match one.next(fwd) {
                    Some(two) => {
                        if loc.rank_index() == start && !occupied.contains(two) {
                            let l = two.lift();
                            proof {
                                lemma_bits_ops(pushes.0, l.0);
                            }
                            pushes = pushes | l;
                        }
                    },
                    None => {},
                }
            }
        },
        None => {},
    }
    proof {
        lemma_bits_ops(captures.0, pushes.0);
        lemma_bits_ops(whites.0, blacks.0);
        assert(captures@ =~= steps_union(loc.idx(), pawn_attack_dirs(side)).intersect(bits(enemy.0)));
    }
    let r = captures | pushes;
    assert(r@ =~= pawn_moves_set(side, loc.idx(), whites.0, blacks.0));
    r
}

impl Piece {
    /// Computes the control set for this piece given it's location and the
    /// locations of all the occupied squares on the board.
    pub fn control(&self, loc: Square, occupied: BitBoard) -> (r: BitBoard)
        ensures
            r@ == control_set(*self, loc.idx(), occupied.0),
    {
        match self.1 {
            Class::N => knight_control(loc),
            Class::K => king_control(loc),
            Class::B => bishops::control(loc, occupied),
            Class::R => rook_control(loc, occupied),
            Class::Q => {
                let b = bishops::control(loc, occupied);
                let r = rook_control(loc, occupied);
                proof {
                    lemma_bits_ops(b.0, r.0);
                }
                b | r
            },
            Class::P => pawn_control(self.0, loc),
        }
    }

    /// Computes the control set for this piece given it's location on an
    /// empty board.
    pub fn empty_control(&self, loc: Square) -> (r: BitBoard)
        ensures
            r@ == control_set(*self, loc.idx(), 0),
    {
        self.control(loc, BitBoard::empty())
    }

    /// Computes the set of legal moves for this piece given it's location
    /// and the locations of all the white and black pieces on the board.
    /// Note that this method does not take into account special restrictions
    /// for or due to the king, e.g. can't move in such a way to put the king
    /// into check.
    pub fn moves(&self, loc: Square, whites: BitBoard, blacks: BitBoard) -> (r: BitBoard)
        ensures
            r@ == (match self.1 {
                Class::P => pawn_moves_set(self.0, loc.idx(), whites.0, blacks.0),
                _ => control_set(*self, loc.idx(), whites.0 | blacks.0),
            }).difference(bits(if self.0 == Side::W { whites.0 } else { blacks.0 })),
    {
        let friendly = if self.0 == Side::W {
            whites
        } else {
            blacks
        };
        let reach = match self.1 {
            Class::P => pawn_moves(self.0, loc, whites, blacks),
            _ => self.control(loc, whites | blacks),
        };
        proof {
            lemma_bits_ops(reach.0, friendly.0);
        }
        reach - friendly
    }

    /// The two letter lower case name of this piece, such as "wp".
    pub fn to_string(&self) -> (r: String)
        ensures
            r@ == seq![side_char(self.0), class_char(self.1)],
    {
        let mut s = self.0.to_string();
        let c = match self.1 {
            Class::P => "p",
            Class::N => "n",
            Class::B => "b",
            Class::R => "r",
            Class::Q => "q",
            Class::K => "k",
        };
        proof {
            reveal_strlit("p");
            reveal_strlit("n");
            reveal_strlit("b");
            reveal_strlit("r");
            reveal_strlit("q");
            reveal_strlit("k");
        }
        s.append(c);
        assert(s@ =~= seq![side_char(self.0), class_char(self.1)]);
        s
    }

    /// Parse a piece from its side letter followed by its class letter,
    /// in either case.
    pub fn parse(s: &str) -> (r: Result<Piece, ParseError>)
        ensures
            r matches Ok(p) ==> s@.len() == 2 && (s@[0] == side_char(p.0) || s@[0] == upper(
                side_char(p.0),
            )) && (s@[1] == class_char(p.1) || s@[1] == upper(class_char(p.1))),
            r is Err ==> !(exists|p: Piece|
                s@.len() == 2 && (s@[0] == side_char(p.0) || s@[0] == upper(side_char(p.0))) && (
                s@[1] == class_char(p.1) || s@[1] == upper(class_char(p.1)))),
    {
        if s.unicode_len() != 2 {
            return Err(ParseError::Unrecognised);
        }
        let a = s.get_char(0);
        let b = s.get_char(1);
        let side = if a == 'w' || a == 'W' {
            Side::W
        } else if a == 'b' || a == 'B' {
            Side::B
        } else {
            return Err(ParseError::Unrecognised);
        };
        let class = if b == 'p' || b == 'P' {
            Class::P
        } else if b == 'n' || b == 'N' {
            Class::N
        } else if b == 'b' || b == 'B' {
            Class::B
        } else if b == 'r' || b == 'R' {
            Class::R
        } else if b == 'q' || b == 'Q' {
            Class::Q
        } else if b == 'k' || b == 'K' {
            Class::K
        } else {
            return Err(ParseError::Unrecognised);
        };
        Ok(Piece(side, class))
    }
}

impl Class {
    /// The position of a class in the order P, N, B, R, Q, K.
    pub open spec fn idx(self) -> int {
        match self {
            Class::P => 0,
            Class::N => 1,
            Class::B => 2,
            Class::R => 3,
            Class::Q => 4,
            Class::K => 5,
        }
    }

    /// The position of the class in the order P, N, B, R, Q, K.
    pub fn index(self) -> (r: usize)
        ensures
            r == self.idx(),
    {
        match self {
            Class::P => 0,
            Class::N => 1,
            Class::B => 2,
            Class::R => 3,
            Class::Q => 4,
            Class::K => 5,
        }
    }

    /// Parse a class from its one letter name, in either case.
    pub fn parse(s: &str) -> (r: Result<Class, ParseError>)
        ensures
            r matches Ok(c) ==> s@.len() == 1 && (s@[0] == class_char(c) || s@[0] == upper(
                class_char(c),
            )),
            r is Err ==> !(exists|c: Class|
                s@.len() == 1 && (s@[0] == class_char(c) || s@[0] == upper(class_char(c)))),
    {
        if s.unicode_len() != 1 {
            return Err(ParseError::Unrecognised);
        }
        let b = s.get_char(0);
        if b == 'p' || b == 'P' {
            Ok(Class::P)
        } else if b == 'n' || b == 'N' {
            Ok(Class::N)
        } else if b == 'b' || b == 'B' {
            Ok(Class::B)
        } else if b == 'r' || b == 'R' {
            Ok(Class::R)
        } else if b == 'q' || b == 'Q' {
            Ok(Class::Q)
        } else if b == 'k' || b == 'K' {
            Ok(Class::K)
        } else {
            Err(ParseError::Unrecognised)
        }
    }
}

impl Piece {
    /// The position of a piece in the order white P..K, then black P..K.
    pub open spec fn idx(self) -> int {
        6 * self.0.idx() + self.1.idx()
    }

    /// The position of the piece in the order white P..K, then black P..K.
    pub fn index(self) -> (r: usize)
        ensures
            r == self.idx(),
            r < 12,
    {
        let s: usize = match self.0 {
            Side::W => 0,
            Side::B => 6,
        };
        s + self.1.index()
    }
}

impl std::str::FromStr for Class {
    type Err = ParseError;

    fn from_str(s: &str) -> (r: Result<Class, ParseError>)
        ensures
            r matches Ok(c) ==> s@.len() == 1 && (s@[0] == class_char(c) || s@[0] == upper(
                class_char(c),
            )),
            r is Err ==> !(exists|c: Class|
                s@.len() == 1 && (s@[0] == class_char(c) || s@[0] == upper(class_char(c)))),
    {
        Class::parse(s)
    }
}

impl std::str::FromStr for Piece {
    type Err = ParseError;

    fn from_str(s: &str) -> (r: Result<Piece, ParseError>)
        ensures
            r matches Ok(p) ==> s@.len() == 2 && (s@[0] == side_char(p.0) || s@[0] == upper(
                side_char(p.0),
            )) && (s@[1] == class_char(p.1) || s@[1] == upper(class_char(p.1))),
            r is Err ==> !(exists|p: Piece|
                s@.len() == 2 && (s@[0] == side_char(p.0) || s@[0] == upper(side_char(p.0))) && (
                s@[1] == class_char(p.1) || s@[1] == upper(class_char(p.1)))),
    {
        Piece::parse(s)
    }
}

/// The lower case letter of a side.
pub open spec fn side_char(s: Side) -> char {
    match s {
        Side::W => 'w',
        Side::B => 'b',
    }
}

/// The lower case letter of a class.
pub open spec fn class_char(c: Class) -> char {
    match c {
        Class::P => 'p',
        Class::N => 'n',
        Class::B => 'b',
        Class::R => 'r',
        Class::Q => 'q',
        Class::K => 'k',
    }
}

/// The upper case of the lower case letters used in the names of pieces.
pub open spec fn upper(c: char) -> char {
    if c == 'w' {
        'W'
    } else if c == 'b' {
        'B'
    } else if c == 'p' {
        'P'
    } else if c == 'n' {
        'N'
    } else if c == 'r' {
        'R'
    } else if c == 'q' {
        'Q'
    } else if c == 'k' {
        'K'
    } else {
        c
    }
}

/// Every direction moves a square somewhere else.
proof fn lemma_dir_moves(d: Dir)
    ensures
        d.dr() != 0 || d.df() != 0,
        -2 <= d.dr() <= 2,
        -2 <= d.df() <= 2,
{
}

/// A ray never comes back to its start.
pub proof fn lemma_ray_excludes(i: int, d: Dir)
    requires
        0 <= i < 64,
    ensures
        !ray(i, d).contains(i),
{
    if ray(i, d).contains(i) {
        let k = choose|k: int| 0 <= k < ray(i, d).len() && ray(i, d)[k] == i;
        lemma_ray_coords(i, d, k);
        lemma_dir_moves(d);
        let (dr, df) = (d.dr(), d.df());
        assert((k + 1) * dr == 0 && (k + 1) * df == 0);
        assert(false) by (nonlinear_arith)
            requires
                k >= 0,
                (k + 1) * dr == 0,
                (k + 1) * df == 0,
                dr != 0 || df != 0,
        ;
    }
}

/// The squares one step away in each of some directions never include
/// the start.
proof fn lemma_steps_excludes(i: int, dirs: Seq<Dir>)
    requires
        0 <= i < 64,
    ensures
        !steps_union(i, dirs).contains(i),
    decreases dirs.len(),
{
    if dirs.len() > 0 {
        lemma_steps_excludes(i, dirs.drop_last());
        lemma_dir_moves(dirs.last());
    }
}

/// Slides along some directions never include the start.
proof fn lemma_slides_excludes(i: int, dirs: Seq<Dir>, occ: u64)
    requires
        0 <= i < 64,
    ensures
        !slides_union(i, dirs, occ).contains(i),
    decreases dirs.len(),
{
    if dirs.len() > 0 {
        lemma_slides_excludes(i, dirs.drop_last(), occ);
        lemma_slide_within(i, dirs.last(), occ);
        lemma_ray_excludes(i, dirs.last());
    }
}

/// How control depends on the blockers. A piece never controls its own
/// square; blockers only ever take squares away from what it controls on
/// an empty board; only the blockers on the squares it controls on an
/// empty board matter, so that masking the blockers by that set (`w`)
/// changes nothing; and a queen controls what a bishop and a rook of its
/// side would on its square.
pub proof fn lemma_control_blockers(p: Piece, i: int, occ: u64, occ2: u64, w: u64)
    requires
        0 <= i < 64,
    ensures
        !control_set(p, i, occ).contains(i),
        control_set(p, i, occ).subset_of(control_set(p, i, 0)),
        (forall|j: int| control_set(p, i, 0).contains(j) ==> bit(occ, j) == bit(occ2, j))
            ==> control_set(p, i, occ) == control_set(p, i, occ2),
        bits(w) == control_set(p, i, 0) ==> control_set(p, i, occ & w) == control_set(p, i, occ),
        control_set(Piece(p.0, Class::Q), i, occ) == control_set(Piece(p.0, Class::B), i, occ).union(
            control_set(Piece(p.0, Class::R), i, occ),
        ),
{
    lemma_slides_excludes(i, bishop_dirs(), occ);
    lemma_slides_excludes(i, rook_dirs(), occ);
    lemma_steps_excludes(i, knight_dirs());
    lemma_steps_excludes(i, king_dirs());
    lemma_steps_excludes(i, pawn_attack_dirs(p.0));
    lemma_slides_union_within(i, bishop_dirs(), occ);
    lemma_slides_union_within(i, rook_dirs(), occ);
    if forall|j: int| control_set(p, i, 0).contains(j) ==> bit(occ, j) == bit(occ2, j) {
        match p.1 {
            Class::B => lemma_slides_union_agree(i, bishop_dirs(), occ, occ2),
            Class::R => lemma_slides_union_agree(i, rook_dirs(), occ, occ2),
            Class::Q => {
                lemma_slides_union_agree(i, bishop_dirs(), occ, occ2);
                lemma_slides_union_agree(i, rook_dirs(), occ, occ2);
            },
            _ => {},
        }
    }
    if bits(w) == control_set(p, i, 0) {
        lemma_bits_ops(occ, w);
        assert forall|j: int| control_set(p, i, 0).contains(j) implies bit(occ & w, j) == bit(occ, j) by {
            assert(bits(w).contains(j));
            assert(0 <= j < 64);
            if bit(occ, j) {
                assert(bits(occ).contains(j));
                assert(bits(occ & w).contains(j));
            } else {
                assert(!bits(occ).contains(j));
                assert(!bits(occ & w).contains(j));
            }
        }
        match p.1 {
            Class::B => lemma_slides_union_agree(i, bishop_dirs(), occ & w, occ),
            Class::R => lemma_slides_union_agree(i, rook_dirs(), occ & w, occ),
            Class::Q => {
                lemma_slides_union_agree(i, bishop_dirs(), occ & w, occ);
                lemma_slides_union_agree(i, rook_dirs(), occ & w, occ);
            },
            _ => {},
        }
    }
}

} // verus!
