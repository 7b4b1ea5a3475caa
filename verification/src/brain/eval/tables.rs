use vstd::prelude::*;

use crate::base::castlezone::CastleZone;
use crate::base::pieces::{Class, Piece};
use crate::base::reflect::{reflect_idx, Reflectable};
use crate::base::square::{Square, file_of, rank_of, square_at, lemma_square_idx, lemma_square_at};
use crate::base::types::{king_line, rook_line, Line, Side};
use crate::brain::eval::Evaluation;
use crate::brain::moves::{move_fits, moved, Move};

verus! {

broadcast use lemma_square_idx, lemma_square_at;

/// Tables lifted from stockfish: the (mid, end) values of the white pieces.
/// The pawn table runs over the whole board in two halves, the others
/// over the files H to E, mirrored to the files D to A.
#[derive(Debug, Copy, Clone, PartialEq, Eq)]
pub struct PositionTables {
    pub pawn_1_4: [(i32, i32); 32],
    pub pawn_5_8: [(i32, i32); 32],
    pub knight: [(i32, i32); 32],
    pub bishop: [(i32, i32); 32],
    pub rook: [(i32, i32); 32],
    pub queen: [(i32, i32); 32],
    pub king: [(i32, i32); 32],
}

/// The square index from the point of view of white: black pieces read
/// the mirrored square.
pub open spec fn adjusted(side: Side, i: int) -> int {
    if side == Side::W {
        i
    } else {
        reflect_idx(i)
    }
}

/// The index into the table of a class of the (adjusted) square index.
pub open spec fn table_index(class: Class, adj: int) -> int {
    if class == Class::P {
        adj % 32
    } else {
        let f = file_of(adj);
        rank_of(adj) * 4 + (if f < 4 {
            f
        } else {
            7 - f
        })
    }
}

/// Plus one for white pieces, minus one for black ones.
pub open spec fn piece_parity(p: Piece) -> int {
    if p.0 == Side::W {
        1
    } else {
        -1
    }
}

impl PositionTables {
    /// The (mid, end) entry of a class on an adjusted square index.
    pub open spec fn entry(&self, class: Class, adj: int) -> (i32, i32) {
        let k = table_index(class, adj);
        match class {
            Class::N => self.knight@[k],
            Class::B => self.bishop@[k],
            Class::R => self.rook@[k],
            Class::Q => self.queen@[k],
            Class::K => self.king@[k],
            Class::P => if adj < 32 {
                self.pawn_1_4@[k]
            } else {
                self.pawn_5_8@[k]
            },
        }
    }

    /// The midgame value of a piece on a square, positive for white.
    pub open spec fn mid(&self, p: Piece, sq: Square) -> int {
        piece_parity(p) * self.entry(p.1, adjusted(p.0, sq.idx())).0
    }

    /// The endgame value of a piece on a square, positive for white.
    pub open spec fn end(&self, p: Piece, sq: Square) -> int {
        piece_parity(p) * self.entry(p.1, adjusted(p.0, sq.idx())).1
    }

    /// Every entry lies within a million of zero.
    pub open spec fn bounded(&self) -> bool {
        forall|c: Class, i: int|
            0 <= i < 64 ==> -1_000_000 <= (#[trigger] self.entry(c, i)).0 <= 1_000_000 && -1_000_000
                <= self.entry(c, i).1 <= 1_000_000
    }

    fn access(&self, piece: Piece, location: Square) -> (r: (i32, i32))
        ensures
            r == self.entry(piece.1, adjusted(piece.0, location.idx())),
    {
        let adjusted_location = match piece.0 {
            Side::W => location,
            Side::B => location.reflect(),
        };
        let i = adjusted_location.index();
        let k = if piece.1 == Class::P {
            i % 32
        } else {
            let file_index = adjusted_location.file_index();
            let column_index = if file_index < 4 {
                file_index
            } else {
                7 - file_index
            };
            adjusted_location.rank_index() * 4 + column_index
        };
        match piece.1 {
            Class::N => self.knight[k],
            Class::B => self.bishop[k],
            Class::R => self.rook[k],
            Class::Q => self.queen[k],
            Class::K => self.king[k],
            Class::P => if i < 32 {
                self.pawn_1_4[k]
            } else {
                self.pawn_5_8[k]
            },
        }
    }

    /// API method for retrieving the evaluation for a piece at a given location
    /// in the midgame.
    pub fn midgame(&self, piece: Piece, location: Square) -> (r: i32)
        requires
            piece.0 == Side::B ==> self.entry(piece.1, adjusted(piece.0, location.idx())).0
                != i32::MIN,
        ensures
            r == self.mid(piece, location),
    {
        let v = self.access(piece, location).0;
        match piece.0 {
            Side::W => {
                assert(piece_parity(piece) == 1);
                v
            },
            Side::B => {
                assert(piece_parity(piece) == -1);
                -v
            },
        }
    }

    /// API method for retrieving the evaluation for a piece at a given location
    /// in the endgame.
    pub fn endgame(&self, piece: Piece, location: Square) -> (r: i32)
        requires
            piece.0 == Side::B ==> self.entry(piece.1, adjusted(piece.0, location.idx())).1
                != i32::MIN,
        ensures
            r == self.end(piece, location),
    {
        let v = self.access(piece, location).1;
        match piece.0 {
            Side::W => {
                assert(piece_parity(piece) == 1);
                v
            },
            Side::B => {
                assert(piece_parity(piece) == -1);
                -v
            },
        }
    }
}


/// One change that a move makes to the pieces on the board: whether the
/// piece arrives on the square (rather than leaves it), the piece and the
/// square. Captured pieces are taken off the square the capturer came from.
pub open spec fn move_steps(mv: Move) -> Seq<(bool, Piece, Square)> {
    match mv {
        Move::Castle { corner } => {
            let c = corner.corner_of();
            let rook = Piece(c.0, Class::R);
            let king = Piece(c.0, Class::K);
            seq![
                (false, rook, rook_line(c).0),
                (true, rook, rook_line(c).1),
                (false, king, king_line(c).0),
                (true, king, king_line(c).1),
            ]
        },
        Move::Standard { moving, from, dest, capture } => {
            let base = seq![(false, moving, from), (true, moving, dest)];
            match capture {
                Some(p) => base.push((false, p, from)),
                None => base,
            }
        },
        Move::Enpassant { side, from, dest, capture } => seq![
            (false, Piece(side, Class::P), from),
            (true, Piece(side, Class::P), dest),
            (false, Piece(side.other(), Class::P), capture),
        ],
        Move::Promotion { from, dest, promoted, capture } => {
            let base = seq![(false, Piece(promoted.0, Class::P), from), (true, promoted, dest)];
            match capture {
                Some(p) => base.push((false, p, from)),
                None => base,
            }
        },
        Move::Null => seq![],
    }
}

/// The value that one step adds to the midgame (`mid`) or endgame value,
/// when the move is made (`forward`) or unmade.
pub open spec fn step_value(
    t: PositionTables,
    step: (bool, Piece, Square),
    forward: bool,
    mid: bool,
) -> int {
    let v = if mid {
        t.mid(step.1, step.2)
    } else {
        t.end(step.1, step.2)
    };
    if step.0 == forward {
        v
    } else {
        -v
    }
}

/// The sum of the values of the first `k` steps.
pub open spec fn steps_sum(
    t: PositionTables,
    steps: Seq<(bool, Piece, Square)>,
    forward: bool,
    mid: bool,
    k: int,
) -> int
    decreases k,
{
    if k <= 0 {
        0
    } else {
        steps_sum(t, steps, forward, mid, k - 1) + step_value(t, steps[k - 1], forward, mid)
    }
}

/// The change of the midgame (`mid`) or endgame value when a move is made
/// (`forward`) or unmade.
pub open spec fn move_delta(t: PositionTables, mv: Move, forward: bool, mid: bool) -> int {
    steps_sum(t, move_steps(mv), forward, mid, move_steps(mv).len() as int)
}

/// Starting from `start`, no running total of the steps of the move leaves
/// the range of `i32`.
pub open spec fn update_fits(
    start: int,
    t: PositionTables,
    mv: Move,
    forward: bool,
    mid: bool,
) -> bool {
    forall|k: int|
        0 <= k <= move_steps(mv).len() ==> i32::MIN <= start + #[trigger] steps_sum(
            t,
            move_steps(mv),
            forward,
            mid,
            k,
        ) <= i32::MAX
}

/// The value of the pieces of a board by the tables, summed over its first
/// `n` squares: `locs[i]` is the piece on the square of index `i`.
pub open spec fn locs_sum(t: PositionTables, locs: Seq<Option<Piece>>, mid: bool, n: int) -> int
    decreases n,
{
    if n <= 0 {
        0
    } else {
        locs_sum(t, locs, mid, n - 1) + match locs[n - 1] {
            Some(p) => if mid {
                t.mid(p, square_at(n - 1))
            } else {
                t.end(p, square_at(n - 1))
            },
            None => 0,
        }
    }
}

/// The value of a piece on a square of bounded tables is bounded.
pub proof fn lemma_value_bounded(t: PositionTables, p: Piece, sq: Square)
    requires
        t.bounded(),
    ensures
        -1_000_000 <= t.mid(p, sq) <= 1_000_000,
        -1_000_000 <= t.end(p, sq) <= 1_000_000,
{
    crate::base::reflect::lemma_reflect_idx(sq.idx());
    let e = t.entry(p.1, adjusted(p.0, sq.idx()));
    assert(-1_000_000 <= e.0 <= 1_000_000 && -1_000_000 <= e.1 <= 1_000_000);
    if p.0 == Side::W {
        assert(piece_parity(p) == 1);
    } else {
        assert(piece_parity(p) == -1);
    }
}

/// Evaluates the pieces of the board by their squares, in the midgame and
/// in the endgame, updating the values as moves are made and unmade.
#[derive(Debug, Copy, Clone, PartialEq, Eq)]
pub struct PieceSquareTablesFacet {
    tables: PositionTables,
    mid_eval: i32,
    end_eval: i32,
}

impl PieceSquareTablesFacet {
    #[verifier::type_invariant]
    spec fn inv(self) -> bool {
        self.tables == default_tables()
    }

    /// The midgame value held by the facet.
    pub closed spec fn mid_of(self) -> i32 {
        self.mid_eval
    }

    /// The endgame value held by the facet.
    pub closed spec fn end_of(self) -> i32 {
        self.end_eval
    }

    /// The facet of an empty board.
    pub fn new() -> (r: PieceSquareTablesFacet)
        ensures
            r.mid_of() == 0,
            r.end_of() == 0,
    {
        PieceSquareTablesFacet { tables: PositionTables::default(), mid_eval: 0, end_eval: 0 }
    }

    /// The facet of the board whose square of index `i` holds `locs[i]`.
    pub fn from_locs(locs: &[Option<Piece>; 64]) -> (r: PieceSquareTablesFacet)
        ensures
            r.mid_of() == locs_sum(default_tables(), locs@, true, 64),
            r.end_of() == locs_sum(default_tables(), locs@, false, 64),
    {
        let empty = PieceSquareTablesFacet::new();
        let mid = empty.compute_midgame_eval(locs);
        let end = empty.compute_endgame_eval(locs);
        PieceSquareTablesFacet { tables: PositionTables::default(), mid_eval: mid, end_eval: end }
    }

    /// The sum over the board of the table values of its pieces, in the
    /// midgame (`mid`) or in the endgame.
    fn compute_eval(&self, locs: &[Option<Piece>; 64], mid: bool) -> (r: i32)
        ensures
            r == locs_sum(default_tables(), locs@, mid, 64),
    {
        proof {
            use_type_invariant(self);
            lemma_default_bounded();
        }
        let mut sum: i32 = 0;
        let mut i: usize = 0;
        while i < 64
            invariant
                i <= 64,
                self.tables == default_tables(),
                default_tables().bounded(),
                sum == locs_sum(default_tables(), locs@, mid, i as int),
                -1_000_000 * i <= sum <= 1_000_000 * i,
            decreases 64 - i,
        {
            let square = Square::from_index(i);
            match locs[i] {
                Some(p) => {
                    proof {
                        lemma_value_bounded(self.tables, p, square);
                    }
                    let v = if mid {
                        self.tables.midgame(p, square)
                    } else {
                        self.tables.endgame(p, square)
                    };
                    sum = sum + v;
                },
                None => {},
            }
            i = i + 1;
        }
        sum
    }

    /// The midgame value of the pieces of the board.
    pub fn compute_midgame_eval(&self, locs: &[Option<Piece>; 64]) -> (r: i32)
        ensures
            r == locs_sum(default_tables(), locs@, true, 64),
    {
        self.compute_eval(locs, true)
    }

    /// The endgame value of the pieces of the board.
    pub fn compute_endgame_eval(&self, locs: &[Option<Piece>; 64]) -> (r: i32)
        ensures
            r == locs_sum(default_tables(), locs@, false, 64),
    {
        self.compute_eval(locs, false)
    }

    /// Adds (`add`) or removes the values of a piece on a square.
    fn update(&mut self, add: bool, piece: Piece, square: Square)
        requires
            i32::MIN <= old(self).mid_eval + (if add {
                default_tables().mid(piece, square)
            } else {
                -default_tables().mid(piece, square)
            }) <= i32::MAX,
            i32::MIN <= old(self).end_eval + (if add {
                default_tables().end(piece, square)
            } else {
                -default_tables().end(piece, square)
            }) <= i32::MAX,
        ensures
            final(self).mid_eval == old(self).mid_eval + (if add {
                default_tables().mid(piece, square)
            } else {
                -default_tables().mid(piece, square)
            }),
            final(self).end_eval == old(self).end_eval + (if add {
                default_tables().end(piece, square)
            } else {
                -default_tables().end(piece, square)
            }),
    {
        proof {
            use_type_invariant(&*self);
            lemma_default_bounded();
            lemma_value_bounded(self.tables, piece, square);
        }
        let m = self.tables.midgame(piece, square);
        let e = self.tables.endgame(piece, square);
        if add {
            self.mid_eval = self.mid_eval + m;
            self.end_eval = self.end_eval + e;
        } else {
            self.mid_eval = self.mid_eval - m;
            self.end_eval = self.end_eval - e;
        }
    }

    /// Applies the steps of a move, made (`forward`) or unmade.
    fn make_impl(&mut self, mv: &Move, forward: bool)
        requires
            update_fits(old(self).mid_eval as int, default_tables(), *mv, forward, true),
            update_fits(old(self).end_eval as int, default_tables(), *mv, forward, false),
        ensures
            final(self).mid_eval == old(self).mid_eval + move_delta(
                default_tables(),
                *mv,
                forward,
                true,
            ),
            final(self).end_eval == old(self).end_eval + move_delta(
                default_tables(),
                *mv,
                forward,
                false,
            ),
    {
        let steps = move_steps_of(mv);
        let ghost t = default_tables();
        let ghost st = move_steps(*mv);
        let ghost mid0 = self.mid_eval as int;
        let ghost end0 = self.end_eval as int;
        let mut i: usize = 0;
        while i < steps.len()
            invariant
                steps@ == st,
                st == move_steps(*mv),
                t == default_tables(),
                i <= st.len(),
                update_fits(mid0, t, *mv, forward, true),
                update_fits(end0, t, *mv, forward, false),
                self.mid_eval == mid0 + steps_sum(t, st, forward, true, i as int),
                self.end_eval == end0 + steps_sum(t, st, forward, false, i as int),
            decreases st.len() - i,
        {
            let (arrives, piece, square) = steps[i];
            proof {
                assert(i32::MIN <= mid0 + steps_sum(t, st, forward, true, i + 1) <= i32::MAX);
                assert(i32::MIN <= end0 + steps_sum(t, st, forward, false, i + 1) <= i32::MAX);
            }
            self.update(arrives == forward, piece, square);
            i = i + 1;
        }
    }

    /// The evaluation held by the facet.
    pub fn static_eval(&self) -> (r: Evaluation)
        ensures
            r == (Evaluation::Phased { mid: self.mid_of(), end: self.end_of() }),
    {
        Evaluation::Phased { mid: self.mid_eval, end: self.end_eval }
    }

    /// Updates the values by making the given move.
    pub fn make(&mut self, mv: &Move)
        requires
            update_fits(old(self).mid_of() as int, default_tables(), *mv, true, true),
            update_fits(old(self).end_of() as int, default_tables(), *mv, true, false),
        ensures
            final(self).mid_of() == old(self).mid_of() + move_delta(default_tables(), *mv, true, true),
            final(self).end_of() == old(self).end_of() + move_delta(default_tables(), *mv, true, false),
    {
        self.make_impl(mv, true);
    }

    /// Updates the values by unmaking the given move.
    pub fn unmake(&mut self, mv: &Move)
        requires
            update_fits(old(self).mid_of() as int, default_tables(), *mv, false, true),
            update_fits(old(self).end_of() as int, default_tables(), *mv, false, false),
        ensures
            final(self).mid_of() == old(self).mid_of() + move_delta(default_tables(), *mv, false, true),
            final(self).end_of() == old(self).end_of() + move_delta(default_tables(), *mv, false, false),
    {
        self.make_impl(mv, false);
    }
}

impl std::default::Default for PieceSquareTablesFacet {
    fn default() -> (r: PieceSquareTablesFacet)
        ensures
            r.mid_of() == 0,
            r.end_of() == 0,
    {
        PieceSquareTablesFacet::new()
    }
}

/// The steps of a move, as `move_steps` describes them.
fn move_steps_of(mv: &Move) -> (r: Vec<(bool, Piece, Square)>)
    ensures
        r@ == move_steps(*mv),
{
    match *mv {
        Move::Castle { corner } => {
            let c = corner.corner();
            let rook = Piece(c.0, Class::R);
            let king = Piece(c.0, Class::K);
            let rl = Line::rook_castling(c);
            let kl = Line::king_castling(c);
            vec![(false, rook, rl.0), (true, rook, rl.1), (false, king, kl.0), (true, king, kl.1)]
        },
        Move::Standard { moving, from, dest, capture } => {
            let mut v = vec![(false, moving, from), (true, moving, dest)];
            if let Some(p) = capture {
                v.push((false, p, from));
            }
            v
        },
        Move::Enpassant { side, from, dest, capture } => {
            vec![
                (false, Piece(side, Class::P), from),
                (true, Piece(side, Class::P), dest),
                (false, Piece(side.reflect(), Class::P), capture),
            ]
        },
        Move::Promotion { from, dest, promoted, capture } => {
            let mut v = vec![(false, Piece(promoted.0, Class::P), from), (true, promoted, dest)];
            if let Some(p) = capture {
                v.push((false, p, from));
            }
            v
        },
        Move::Null => Vec::new(),
    }
}

/// The table value of what stands on a square.
pub open spec fn square_value(t: PositionTables, o: Option<Piece>, sq: int, mid: bool) -> int {
    match o {
        Some(p) => if mid {
            t.mid(p, square_at(sq))
        } else {
            t.end(p, square_at(sq))
        },
        None => 0,
    }
}

proof fn lemma_locs_sum_update(
    t: PositionTables,
    s: Seq<Option<Piece>>,
    i: int,
    v: Option<Piece>,
    mid: bool,
    n: int,
)
    requires
        0 <= i < s.len(),
        n <= s.len(),
    ensures
        locs_sum(t, s.update(i, v), mid, n) == locs_sum(t, s, mid, n) + (if 0 <= i < n {
            square_value(t, v, i, mid) - square_value(t, s[i], i, mid)
        } else {
            0
        }),
    decreases n,
{
    if n > 0 {
        lemma_locs_sum_update(t, s, i, v, mid, n - 1);
    }
}

/// A move captures nothing, unless en passant.
pub open spec fn captures_nothing(mv: Move) -> bool {
    match mv {
        Move::Standard { capture, .. } => capture is None,
        Move::Promotion { capture, .. } => capture is None,
        _ => true,
    }
}

/// For a move that captures nothing (or captures en passant), the change
/// that making it adds to the values is the change of the values of a board
/// on which the move is made. (A captured piece is taken off the square the
/// capturer came from, so captures other than en passant are left out.)
pub proof fn lemma_tables_track_board(
    t: PositionTables,
    locs: Seq<Option<Piece>>,
    mv: Move,
    mid: bool,
)
    requires
        locs.len() == 64,
        move_fits(locs, mv),
        captures_nothing(mv),
    ensures
        locs_sum(t, moved(locs, mv), mid, 64) == locs_sum(t, locs, mid, 64) + move_delta(
            t,
            mv,
            true,
            mid,
        ),
{
    match mv {
        Move::Standard { .. } => lemma_standard_tables(t, locs, mv, mid),
        Move::Enpassant { .. } => lemma_enpassant_tables(t, locs, mv, mid),
        Move::Promotion { .. } => lemma_promotion_tables(t, locs, mv, mid),
        Move::Castle { .. } => lemma_castle_tables(t, locs, mv, mid),
        Move::Null => {},
    }
}

proof fn lemma_standard_tables(t: PositionTables, locs: Seq<Option<Piece>>, mv: Move, mid: bool)
    requires
        locs.len() == 64,
        move_fits(locs, mv),
        captures_nothing(mv),
        mv is Standard,
    ensures
        locs_sum(t, moved(locs, mv), mid, 64) == locs_sum(t, locs, mid, 64) + move_delta(
            t,
            mv,
            true,
            mid,
        ),
{
    if let Move::Standard { moving, from, dest, capture } = mv {
        let st = move_steps(mv);
        let s1 = locs.update(from.idx(), None);
        lemma_locs_sum_update(t, locs, from.idx(), None, mid, 64);
        lemma_locs_sum_update(t, s1, dest.idx(), Some(moving), mid, 64);
        assert(st.len() == 2);
        assert(steps_sum(t, st, true, mid, 1) == steps_sum(t, st, true, mid, 0) + step_value(
            t,
            st[0],
            true,
            mid,
        ));
        assert(steps_sum(t, st, true, mid, 2) == steps_sum(t, st, true, mid, 1) + step_value(
            t,
            st[1],
            true,
            mid,
        ));
    }
}

proof fn lemma_enpassant_tables(t: PositionTables, locs: Seq<Option<Piece>>, mv: Move, mid: bool)
    requires
        locs.len() == 64,
        move_fits(locs, mv),
        mv is Enpassant,
    ensures
        locs_sum(t, moved(locs, mv), mid, 64) == locs_sum(t, locs, mid, 64) + move_delta(
            t,
            mv,
            true,
            mid,
        ),
{
    if let Move::Enpassant { side, from, dest, capture } = mv {
        let st = move_steps(mv);
        let s1 = locs.update(from.idx(), None);
        let s2 = s1.update(capture.idx(), None);
        lemma_locs_sum_update(t, locs, from.idx(), None, mid, 64);
        lemma_locs_sum_update(t, s1, capture.idx(), None, mid, 64);
        lemma_locs_sum_update(t, s2, dest.idx(), Some(Piece(side, Class::P)), mid, 64);
        assert(st.len() == 3);
        assert(steps_sum(t, st, true, mid, 1) == steps_sum(t, st, true, mid, 0) + step_value(
            t,
            st[0],
            true,
            mid,
        ));
        assert(steps_sum(t, st, true, mid, 2) == steps_sum(t, st, true, mid, 1) + step_value(
            t,
            st[1],
            true,
            mid,
        ));
        assert(steps_sum(t, st, true, mid, 3) == steps_sum(t, st, true, mid, 2) + step_value(
            t,
            st[2],
            true,
            mid,
        ));
    }
}

proof fn lemma_promotion_tables(t: PositionTables, locs: Seq<Option<Piece>>, mv: Move, mid: bool)
    requires
        locs.len() == 64,
        move_fits(locs, mv),
        captures_nothing(mv),
        mv is Promotion,
    ensures
        locs_sum(t, moved(locs, mv), mid, 64) == locs_sum(t, locs, mid, 64) + move_delta(
            t,
            mv,
            true,
            mid,
        ),
{
    if let Move::Promotion { from, dest, promoted, capture } = mv {
        let st = move_steps(mv);
        let s1 = locs.update(from.idx(), None);
        lemma_locs_sum_update(t, locs, from.idx(), None, mid, 64);
        lemma_locs_sum_update(t, s1, dest.idx(), Some(promoted), mid, 64);
        assert(st.len() == 2);
        assert(steps_sum(t, st, true, mid, 1) == steps_sum(t, st, true, mid, 0) + step_value(
            t,
            st[0],
            true,
            mid,
        ));
        assert(steps_sum(t, st, true, mid, 2) == steps_sum(t, st, true, mid, 1) + step_value(
            t,
            st[1],
            true,
            mid,
        ));
    }
}

proof fn lemma_castle_tables(t: PositionTables, locs: Seq<Option<Piece>>, mv: Move, mid: bool)
    requires
        locs.len() == 64,
        move_fits(locs, mv),
        mv is Castle,
    ensures
        locs_sum(t, moved(locs, mv), mid, 64) == locs_sum(t, locs, mid, 64) + move_delta(
            t,
            mv,
            true,
            mid,
        ),
{
    if let Move::Castle { corner } = mv {
        let st = move_steps(mv);
        let c = corner.corner_of();
        let k = king_line(c);
        let r = rook_line(c);
        let s1 = locs.update(k.0.idx(), None);
        let s2 = s1.update(r.0.idx(), None);
        let s3 = s2.update(k.1.idx(), Some(Piece(c.0, Class::K)));
        lemma_locs_sum_update(t, locs, k.0.idx(), None, mid, 64);
        lemma_locs_sum_update(t, s1, r.0.idx(), None, mid, 64);
        lemma_locs_sum_update(t, s2, k.1.idx(), Some(Piece(c.0, Class::K)), mid, 64);
        lemma_locs_sum_update(t, s3, r.1.idx(), Some(Piece(c.0, Class::R)), mid, 64);
        assert(st.len() == 4);
        assert(steps_sum(t, st, true, mid, 1) == steps_sum(t, st, true, mid, 0) + step_value(
            t,
            st[0],
            true,
            mid,
        ));
        assert(steps_sum(t, st, true, mid, 2) == steps_sum(t, st, true, mid, 1) + step_value(
            t,
            st[1],
            true,
            mid,
        ));
        assert(steps_sum(t, st, true, mid, 3) == steps_sum(t, st, true, mid, 2) + step_value(
            t,
            st[2],
            true,
            mid,
        ));
        assert(steps_sum(t, st, true, mid, 4) == steps_sum(t, st, true, mid, 3) + step_value(
            t,
            st[3],
            true,
            mid,
        ));
    }
}

/// The tables are symmetric between the sides: a piece on a square is worth
/// to its side what the piece of the other side is worth to that side on
/// the mirrored square, in the midgame and in the endgame.
pub proof fn lemma_tables_symmetric(t: PositionTables, p: Piece, sq: Square)
    ensures
        t.mid(Piece(p.0.other(), p.1), square_at(reflect_idx(sq.idx()))) == -t.mid(p, sq),
        t.end(Piece(p.0.other(), p.1), square_at(reflect_idx(sq.idx()))) == -t.end(p, sq),
{
    crate::base::reflect::lemma_reflect_idx(sq.idx());
    let r = square_at(reflect_idx(sq.idx()));
    assert(r.idx() == reflect_idx(sq.idx()));
    assert(adjusted(p.0.other(), r.idx()) == adjusted(p.0, sq.idx()));
    if p.0 == Side::W {
        assert(piece_parity(p) == 1);
        assert(piece_parity(Piece(p.0.other(), p.1)) == -1);
    } else {
        assert(piece_parity(p) == -1);
        assert(piece_parity(Piece(p.0.other(), p.1)) == 1);
    }
}

/// Unmaking a move takes back exactly what making it added, in the midgame
/// and in the endgame.
pub proof fn lemma_tables_unmake_undoes_make(mv: Move, mid: bool)
    ensures
        move_delta(default_tables(), mv, false, mid) == -move_delta(default_tables(), mv, true, mid),
{
    lemma_steps_sum_negate(default_tables(), move_steps(mv), mid, move_steps(mv).len() as int);
}

proof fn lemma_steps_sum_negate(
    t: PositionTables,
    steps: Seq<(bool, Piece, Square)>,
    mid: bool,
    k: int,
)
    ensures
        steps_sum(t, steps, false, mid, k) == -steps_sum(t, steps, true, mid, k),
    decreases k,
{
    if k > 0 {
        lemma_steps_sum_negate(t, steps, mid, k - 1);
    }
}

impl std::default::Default for PositionTables {
    fn default() -> (r: PositionTables)
        ensures
            r == default_tables(),
    {
        PositionTables {
            pawn_1_4: PAWN_1_4,
            pawn_5_8: PAWN_5_8,
            knight: KNIGHT,
            bishop: BISHOP,
            rook: ROOK,
            queen: QUEEN,
            king: KING,
        }
    }
}

/// The tables of stockfish.
pub open spec fn default_tables() -> PositionTables {
    PositionTables {
        pawn_1_4: PAWN_1_4,
        pawn_5_8: PAWN_5_8,
        knight: KNIGHT,
        bishop: BISHOP,
        rook: ROOK,
        queen: QUEEN,
        king: KING,
    }
}


/// Every entry of a table lies within a million of zero.
pub open spec fn table_bounded(t: [(i32, i32); 32]) -> bool {
    forall|k: int|
        0 <= k < 32 ==> -1_000_000 <= #[trigger] t@[k].0 <= 1_000_000 && -1_000_000 <= t@[k].1
            <= 1_000_000
}

/// The tables of stockfish are bounded.
pub proof fn lemma_default_bounded()
    ensures
        default_tables().bounded(),
{
    assert(table_bounded(KNIGHT));
    assert(table_bounded(BISHOP));
    assert(table_bounded(ROOK));
    assert(table_bounded(QUEEN));
    assert(table_bounded(KING));
    assert(table_bounded(PAWN_1_4));
    assert(table_bounded(PAWN_5_8));
    let t = default_tables();
    assert forall|c: Class, i: int| 0 <= i < 64 implies -1_000_000 <= (#[trigger] t.entry(c, i)).0
        <= 1_000_000 && -1_000_000 <= t.entry(c, i).1 <= 1_000_000 by {
        let k = table_index(c, i);
        assert(0 <= k < 32);
    }
}

/// (mid, end) values of the white knight table.
pub const KNIGHT: [(i32, i32); 32] = [
    (-169, -105), (-96, -74), (-80, -46), (-79, -18), (-79, -70), (-39, -56), (-24, -15), (-9, 6), (-64, -38), (-20, -33), (4, -5), (19, 27), (-28, -36), (5, 0), (41, 13), (47, 34), (-29, -41), (13, -20), (42, 4), (52, 35), (-11, -51), (28, -38), (63, -17), (55, 19), (-67, -64), (-21, -45), (6, -37), (37, 16), (-200, -98), (-80, -89), (-53, -53), (-32, -16),
];

/// (mid, end) values of the white bishop table.
pub const BISHOP: [(i32, i32); 32] = [
    (-44, -63), (-4, -30), (-11, -35), (-28, -8), (-18, -38), (7, -13), (14, -14), (3, 0), (-8, -18), (24, 0), (-3, -7), (15, 13), (1, -26), (8, -3), (26, 1), (37, 16), (-7, -24), (30, -6), (23, -10), (28, 17), (-17, -26), (4, 2), (-1, 1), (8, 16), (-21, -34), (-19, -18), (10, -7), (-6, 9), (-48, -51), (-3, -40), (-12, -39), (-25, -20),
];

/// (mid, end) values of the white rook table.
pub const ROOK: [(i32, i32); 32] = [
    (-24, -2), (-13, -6), (-7, -3), (2, -2), (-18, -10), (-10, -7), (-5, 1), (9, 0), (-21, 10), (-7, -4), (3, 2), (-1, -2), (-13, -5), (-5, 2), (-4, -8), (-6, 8), (-24, -8), (-12, 5), (-1, 4), (6, -9), (-24, 3), (-4, -2), (4, -10), (10, 7), (-8, 1), (6, 2), (10, 17), (12, -8), (-22, 12), (-24, -6), (-6, 13), (4, 7),
];

/// (mid, end) values of the white queen table.
pub const QUEEN: [(i32, i32); 32] = [
    (3, -69), (-5, -57), (-5, -47), (4, -26), (-3, -55), (5, -31), (8, -22), (12, -4), (-3, -39), (6, -18), (13, -9), (7, 3), (4, -23), (5, -3), (9, 13), (8, 24), (0, -29), (14, -6), (12, 9), (5, 21), (-4, -38), (10, -18), (6, -12), (8, 1), (-5, -50), (6, -27), (10, -24), (8, -8), (-2, -75), (-2, -52), (1, -43), (-2, -36),
];

/// (mid, end) values of the white king table.
pub const KING: [(i32, i32); 32] = [
    (272, 0), (325, 41), (273, 80), (190, 93), (277, 57), (305, 98), (241, 138), (183, 131), (198, 86), (253, 138), (168, 165), (120, 173), (169, 103), (191, 152), (136, 168), (108, 169), (145, 98), (176, 166), (112, 197), (69, 194), (122, 87), (159, 164), (85, 174), (36, 189), (87, 40), (120, 99), (64, 128), (25, 141), (64, 5), (87, 60), (49, 75), (0, 75),
];

/// (mid, end) values of the white pawn 1 4 table.
pub const PAWN_1_4: [(i32, i32); 32] = [
    (0, 0), (0, 0), (0, 0), (0, 0), (0, 0), (0, 0), (0, 0), (0, 0), (-5, -19), (7, -5), (19, 7), (-20, -20), (-20, -20), (10, 10), (3, -6), (3, -10), (-22, -4), (5, -6), (22, 3), (32, 4), (15, 4), (11, -10), (-15, -10), (-9, -10), (-12, -9), (4, -10), (17, -12), (40, -13), (20, -4), (6, -8), (-23, -2), (-8, 6),
];

/// (mid, end) values of the white pawn 5 8 table.
pub const PAWN_5_8: [(i32, i32); 32] = [
    (5, 8), (-13, 13), (-2, -6), (11, -12), (1, -12), (-13, 3), (0, 4), (13, 9), (-18, 13), (-15, 6), (-5, 7), (-8, 30), (22, 28), (-7, 21), (-12, 20), (-5, 28), (-8, 7), (10, 4), (-16, 19), (5, 25), (-13, 21), (-3, 12), (7, -11), (-7, 0), (0, 0), (0, 0), (0, 0), (0, 0), (0, 0), (0, 0), (0, 0), (0, 0),
];


} // verus!
