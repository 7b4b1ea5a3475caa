use vstd::prelude::*;

use crate::base::bitboard::{bits, cord_set, lemma_bits_ops, loc, BitBoard, FILE_BITS};
use crate::base::pieces::{control_set, Class, Piece};
use crate::base::reflect::Reflectable;
use crate::base::square::{file_of, idxs, rank_of, lemma_square_at, lemma_square_idx, Square};
use crate::base::types::{rook_line, Line, Side};
use crate::brain::eval::pawns::ADJACENT_FILE_BITS;
use crate::brain::eval::tables::{default_tables, lemma_default_bounded, lemma_value_bounded, PositionTables};
use crate::brain::moves::Move;
use crate::brain::search::moves::{sort_by_score_stable, stable_sorted};

verus! {

broadcast use lemma_square_idx, lemma_square_at;

/// A move with what the search needs to know of it to decide how deep to
/// look.
#[derive(Debug, Copy, Clone, PartialEq, Eq, Structural)]
pub struct SearchMove {
    pub m: Move,
    pub is_attack: bool,
    pub is_check: bool,
    pub is_promoting: bool,
    pub is_passed_pawn: bool,
    pub is_positional_xray: bool,
}

impl SearchMove {
    /// Whether any of the tactical features holds of the move.
    pub open spec fn tactical(self) -> bool {
        self.is_attack || self.is_check || self.is_promoting || self.is_passed_pawn
            || self.is_positional_xray
    }

    /// A move is tactical if it attacks, checks, promotes, pushes a passed
    /// pawn or lines up on a more valuable piece.
    pub fn is_tactical(&self) -> (r: bool)
        ensures
            r == self.tactical(),
    {
        self.is_attack || self.is_check || self.is_promoting || self.is_passed_pawn
            || self.is_positional_xray
    }
}

/// Whether a move captures something.
pub open spec fn attacks(m: Move) -> bool {
    match m {
        Move::Null | Move::Castle { .. } => false,
        Move::Enpassant { .. } => true,
        Move::Standard { capture, .. } => capture is Some,
        Move::Promotion { capture, .. } => capture is Some,
    }
}

/// Whether a move captures something.
pub fn is_attack(m: &Move) -> (r: bool)
    ensures
        r == attacks(*m),
{
    match m {
        Move::Null | Move::Castle { .. } => false,
        Move::Enpassant { .. } => true,
        Move::Standard { capture, .. } => capture.is_some(),
        Move::Promotion { capture, .. } => capture.is_some(),
    }
}

/// The classes a slider of the given class can line up on with profit:
/// those worth more than itself.
pub open spec fn xray_targets(class: Class) -> Seq<Class> {
    match class {
        Class::B => seq![Class::R, Class::Q, Class::K],
        Class::R => seq![Class::Q, Class::K],
        _ => seq![Class::K],
    }
}

/// The classes more valuable than a bishop, rook or queen.
pub fn get_positional_xray_targets(class: Class) -> (r: Vec<Class>)
    requires
        class == Class::B || class == Class::R || class == Class::Q,
    ensures
        r@ == xray_targets(class),
{
    match class {
        Class::B => vec![Class::R, Class::Q, Class::K],
        Class::R => vec![Class::Q, Class::K],
        _ => vec![Class::K],
    }
}

/// The classes worth less than the given class.
pub open spec fn lower_value_classes(class: Class) -> Seq<Class> {
    match class {
        Class::P => seq![],
        Class::N | Class::B => seq![Class::P],
        Class::R => seq![Class::P, Class::N, Class::B],
        Class::Q => seq![Class::P, Class::N, Class::B, Class::R],
        Class::K => seq![Class::P, Class::N, Class::B, Class::R, Class::Q],
    }
}

/// The classes worth less than the given class.
pub fn get_lower_value_pieces(class: Class) -> (r: Vec<Class>)
    ensures
        r@ == lower_value_classes(class),
{
    match class {
        Class::P => Vec::new(),
        Class::N | Class::B => vec![Class::P],
        Class::R => vec![Class::P, Class::N, Class::B],
        Class::Q => vec![Class::P, Class::N, Class::B, Class::R],
        Class::K => vec![Class::P, Class::N, Class::B, Class::R, Class::Q],
    }
}

/// The boards of a position that the move heuristics read.
#[derive(Debug, Copy, Clone, PartialEq, Eq)]
pub struct PositionBoards {
    /// The squares of each piece, indexed by `6 * side + class`.
    pub piece_boards: [BitBoard; 12],
    /// The squares of the pieces of each side, white first.
    pub side_boards: [BitBoard; 2],
    /// The squares the side not to move controls.
    pub passive_control: BitBoard,
}

/// Plus one for white, minus one for black.
pub open spec fn side_sign(s: Side) -> int {
    if s == Side::W {
        1
    } else {
        -1
    }
}

/// The enemy pawns on the file of a square and the files next to it.
pub open spec fn blocking_pawns(pos: PositionBoards, moving: Piece, dest: Square) -> Set<int> {
    let f = file_of(dest.idx());
    bits(pos.piece_boards@[Piece(moving.0.other(), moving.1).idx()].0 & (ADJACENT_FILE_BITS@[f]
        | FILE_BITS@[f]))
}

/// Whether a move pushes a pawn that no enemy pawn ahead of it, on its file
/// or the files next to it, can stop. Null moves and promotions count,
/// castling and captures en passant do not.
pub open spec fn passed_pawn_move(m: Move, pos: PositionBoards) -> bool {
    match m {
        Move::Null | Move::Promotion { .. } => true,
        Move::Castle { .. } | Move::Enpassant { .. } => false,
        Move::Standard { moving, dest, .. } => moving.1 == Class::P && forall|i: int|
            #[trigger] blocking_pawns(pos, moving, dest).contains(i) ==> !(side_sign(moving.0) * (
            rank_of(i) - rank_of(dest.idx())) > 0),
    }
}

/// Whether a move pushes a passed pawn.
#[verifier::spinoff_prover]
pub fn is_passed_pawn(m: &Move, pos: &PositionBoards) -> (r: bool)
    ensures
        r == passed_pawn_move(*m, *pos),
{
    match m {
        Move::Null | Move::Promotion { .. } => true,
        Move::Castle { .. } | Move::Enpassant { .. } => false,
        Move::Standard { moving, dest, .. } => {
            if moving.1 != Class::P {
                return false;
            }
            let file_index = dest.file_index();
            let adjacents = BitBoard(ADJACENT_FILE_BITS[file_index] | FILE_BITS[file_index]);
            let enemy_pawns = pos.piece_boards[moving.reflect().index()] & adjacents;
            let rank_index = dest.rank_index() as i32;
            let parity = moving.0.parity();
            let squares = enemy_pawns.iter();
            let ghost blockers = blocking_pawns(*pos, *moving, *dest);
            assert(enemy_pawns@ == blockers);
            let mut k: usize = 0;
            while k < squares.len()
                invariant
                    k <= squares@.len(),
                    idxs(squares@).to_set() == blockers,
                    blockers == blocking_pawns(*pos, *moving, *dest),
                    m is Standard,
                    m->Standard_moving == *moving,
                    m->Standard_dest == *dest,
                    moving.1 == Class::P,
                    rank_index == rank_of(dest.idx()),
                    parity == side_sign(moving.0),
                    forall|j: int|
                        0 <= j < k ==> !(side_sign(moving.0) * (rank_of(#[trigger] squares@[j].idx())
                            - rank_of(dest.idx())) > 0),
                decreases squares@.len() - k,
            {
                let sq = squares[k];
                let diff = sq.rank_index() as i32 - rank_index;
                assert(-8 <= diff <= 8);
                assert(parity == 1 || parity == -1);
                assert(-8 <= parity * diff <= 8) by (nonlinear_arith)
                    requires
                        -8 <= diff <= 8,
                        parity == 1 || parity == -1,
                ;
                if parity * diff > 0 {
                    proof {
                        assert(idxs(squares@)[k as int] == sq.idx());
                        assert(idxs(squares@).to_set().contains(sq.idx()));
                        assert(blockers.contains(sq.idx()));
                        if moving.0 == Side::W {
                            assert(side_sign(moving.0) == 1);
                        } else {
                            assert(side_sign(moving.0) == -1);
                        }
                        assert(side_sign(moving.0) * (rank_of(sq.idx()) - rank_of(dest.idx())) > 0);
                        assert(blocking_pawns(*pos, *moving, *dest).contains(sq.idx()));
                        assert(!passed_pawn_move(*m, *pos));
                    }
                    return false;
                }
                k = k + 1;
            }
            proof {
                assert forall|i: int| #[trigger] blockers.contains(i) implies !(side_sign(moving.0)
                    * (rank_of(i) - rank_of(dest.idx())) > 0) by {
                    assert(idxs(squares@).contains(i));
                    let j = choose|j: int| 0 <= j < idxs(squares@).len() && idxs(squares@)[j] == i;
                    assert(squares@[j].idx() == i);
                }
            }
            true
        },
    }
}

/// The squares of the enemy pieces of the given classes.
pub open spec fn enemy_squares(pos: PositionBoards, side: Side, classes: Seq<Class>, k: int) -> Set<
    int,
>
    decreases k,
{
    if k <= 0 {
        Set::empty()
    } else {
        enemy_squares(pos, side, classes, k - 1).union(
            bits(pos.piece_boards@[Piece(side.other(), classes[k - 1]).idx()].0),
        )
    }
}

/// The occupied squares once a piece has moved from `from` to `dest`.
pub open spec fn occupied_after(pos: PositionBoards, from: Square, dest: Square) -> Set<int> {
    bits(pos.side_boards@[0].0).union(bits(pos.side_boards@[1].0)).insert(dest.idx()).remove(
        from.idx(),
    )
}

/// Whether a quiet move of a bishop, rook or queen to a square the enemy
/// does not control lines it up, on an empty board, with a more valuable
/// enemy piece with fewer than four occupied squares on the line between
/// them, ends included.
pub open spec fn positional_xray(m: Move, pos: PositionBoards) -> bool {
    match m {
        Move::Standard { moving, from, dest, capture } => {
            let class = moving.1;
            &&& capture is None
            &&& (class == Class::B || class == Class::R || class == Class::Q)
            &&& !bits(pos.passive_control.0).contains(dest.idx())
            &&& exists|i: int|
                #![trigger cord_set(dest.idx(), i)]
                control_set(moving, dest.idx(), 0).contains(i) && enemy_squares(
                    pos,
                    moving.0,
                    xray_targets(class),
                    xray_targets(class).len() as int,
                ).contains(i) && occupied_after(pos, from, dest).intersect(
                    cord_set(dest.idx(), i),
                ).len() < 4
        },
        _ => false,
    }
}

/// Whether a quiet slider move lines up with a more valuable enemy piece.
#[verifier::spinoff_prover]
pub fn is_positional_xray(m: &Move, pos: &PositionBoards) -> (r: bool)
    ensures
        r == positional_xray(*m, *pos),
{
    match m {
        Move::Standard { moving, from, dest, capture } => {
            let class = moving.1;
            if !(capture.is_none() && (class == Class::B || class == Class::R || class == Class::Q)
                && !pos.passive_control.contains(*dest)) {
                return false;
            }
            let dest_loc = loc(*dest);
            let from_loc = loc(*from);
            let occupied = BitBoard(
                (pos.side_boards[0].0 | pos.side_boards[1].0 | dest_loc) & !from_loc,
            );
            proof {
                lemma_bits_ops(pos.side_boards@[0].0, pos.side_boards@[1].0);
                lemma_bits_ops(pos.side_boards@[0].0 | pos.side_boards@[1].0, dest_loc);
                lemma_bits_ops(
                    pos.side_boards@[0].0 | pos.side_boards@[1].0 | dest_loc,
                    from_loc,
                );
                assert(occupied@ =~= occupied_after(*pos, *from, *dest));
            }
            let empty_control = moving.control(*dest, BitBoard(0));
            let enemy_side = moving.0.reflect();
            let targets = get_positional_xray_targets(class);
            let mut acc: u64 = 0;
            let mut k: usize = 0;
            proof {
                lemma_bits_ops(0, 0);
            }
            while k < targets.len()
                invariant
                    k <= targets@.len(),
                    targets@ == xray_targets(class),
                    enemy_side == moving.0.other(),
                    bits(acc) == enemy_squares(*pos, moving.0, targets@, k as int),
                decreases targets@.len() - k,
            {
                let board = pos.piece_boards[Piece(enemy_side, targets[k]).index()];
                proof {
                    lemma_bits_ops(acc, board.0);
                }
                acc = acc | board.0;
                k = k + 1;
            }
            let higher_value_locs = BitBoard(acc) & empty_control;
            proof {
                lemma_bits_ops(acc, empty_control.0);
            }
            let squares = higher_value_locs.iter();
            let ghost cands = higher_value_locs@;
            let mut j: usize = 0;
            while j < squares.len()
                invariant
                    j <= squares@.len(),
                    idxs(squares@).to_set() == cands,
                    cands == bits(acc).intersect(control_set(*moving, dest.idx(), 0)),
                    bits(acc) == enemy_squares(*pos, moving.0, xray_targets(class), xray_targets(class).len() as int),
                    occupied@ == occupied_after(*pos, *from, *dest),
                    *m == (Move::Standard { moving: *moving, from: *from, dest: *dest, capture: *capture }),
                    capture is None,
                    class == moving.1,
                    class == Class::B || class == Class::R || class == Class::Q,
                    !bits(pos.passive_control.0).contains(dest.idx()),
                    forall|q: int|
                        0 <= q < j ==> occupied_after(*pos, *from, *dest).intersect(
                            #[trigger] cord_set(dest.idx(), squares@[q].idx()),
                        ).len() >= 4,
                decreases squares@.len() - j,
            {
                let sq = squares[j];
                let cord = BitBoard::cord(*dest, sq);
                let line = occupied & cord;
                proof {
                    lemma_bits_ops(occupied.0, cord.0);
                }
                if line.size() < 4 {
                    proof {
                        assert(idxs(squares@)[j as int] == sq.idx());
                        assert(cands.contains(sq.idx()));
                        assert(occupied_after(*pos, *from, *dest).intersect(cord_set(dest.idx(), sq.idx())).len() < 4);
                    }
                    return true;
                }
                j = j + 1;
            }
            proof {
                assert forall|i: int|
                    control_set(*moving, dest.idx(), 0).contains(i) && enemy_squares(
                        *pos,
                        moving.0,
                        xray_targets(class),
                        xray_targets(class).len() as int,
                    ).contains(i) implies !(occupied_after(*pos, *from, *dest).intersect(
                    #[trigger] cord_set(dest.idx(), i),
                ).len() < 4) by {
                    assert(cands.contains(i));
                    assert(idxs(squares@).contains(i));
                    let q = choose|q: int| 0 <= q < idxs(squares@).len() && idxs(squares@)[q] == i;
                    assert(squares@[q].idx() == i);
                }
            }
            false
        },
        _ => false,
    }
}

/// The squares a piece controls from any of its squares.
pub open spec fn piece_control(pos: PositionBoards, piece: Piece) -> Set<int> {
    let occ = pos.side_boards@[0].0 | pos.side_boards@[1].0;
    Set::new(
        |j: int|
            exists|i: int|
                #![trigger control_set(piece, i, occ)]
                bits(pos.piece_boards@[piece.idx()].0).contains(i) && control_set(
                    piece,
                    i,
                    occ,
                ).contains(j),
    )
}

/// The squares a piece controls from any of its squares on the board.
#[verifier::spinoff_prover]
pub fn compute_control(pos: &PositionBoards, piece: Piece) -> (r: BitBoard)
    ensures
        r@ == piece_control(*pos, piece),
{
    let occupied = pos.side_boards[0] | pos.side_boards[1];
    let ghost occ = pos.side_boards@[0].0 | pos.side_boards@[1].0;
    let squares = pos.piece_boards[piece.index()].iter();
    let mut acc: u64 = 0;
    proof {
        lemma_bits_ops(0, 0);
    }
    let mut k: usize = 0;
    while k < squares.len()
        invariant
            k <= squares@.len(),
            occupied.0 == occ,
            occ == pos.side_boards@[0].0 | pos.side_boards@[1].0,
            idxs(squares@).to_set() == bits(pos.piece_boards@[piece.idx()].0),
            bits(acc) == Set::new(
                |j: int|
                    exists|q: int|
                        0 <= q < k && #[trigger] control_set(piece, squares@[q].idx(), occ).contains(
                            j,
                        ),
            ),
        decreases squares@.len() - k,
    {
        let c = piece.control(squares[k], occupied);
        proof {
            lemma_bits_ops(acc, c.0);
            assert(bits(acc | c.0) =~= Set::new(
                |j: int|
                    exists|q: int|
                        0 <= q < k + 1 && #[trigger] control_set(piece, squares@[q].idx(), occ).contains(
                            j,
                        ),
            ));
        }
        acc = acc | c.0;
        k = k + 1;
    }
    proof {
        assert forall|j: int| piece_control(*pos, piece).contains(j) implies bits(acc).contains(j) by {
            let i = choose|i: int|
                bits(pos.piece_boards@[piece.idx()].0).contains(i) && control_set(
                    piece,
                    i,
                    occ,
                ).contains(j);
            assert(idxs(squares@).contains(i));
            let q = choose|q: int| 0 <= q < idxs(squares@).len() && idxs(squares@)[q] == i;
            assert(squares@[q].idx() == i);
            assert(control_set(piece, squares@[q].idx(), occ).contains(j));
        }
        assert forall|j: int| bits(acc).contains(j) implies piece_control(*pos, piece).contains(j) by {
            let q = choose|q: int|
                0 <= q < squares@.len() && #[trigger] control_set(piece, squares@[q].idx(), occ).contains(j);
            assert(idxs(squares@)[q] == squares@[q].idx());
            assert(idxs(squares@).to_set().contains(squares@[q].idx()));
        }
        assert(bits(acc) =~= piece_control(*pos, piece));
    }
    BitBoard(acc)
}

/// The least of the value losses of the first `k` lower classes whose enemy
/// pieces control `dst`: the value of such a piece less that of the mover.
pub open spec fn lower_delta(
    values: Seq<i32>,
    pos: PositionBoards,
    piece: Piece,
    dst: Square,
    k: int,
) -> Option<int>
    decreases k,
{
    if k <= 0 {
        None
    } else {
        let c = lower_value_classes(piece.1)[k - 1];
        let rest = lower_delta(values, pos, piece, dst, k - 1);
        if piece_control(pos, Piece(piece.0.other(), c)).contains(dst.idx()) {
            let d = values[c.idx()] - values[piece.1.idx()];
            match rest {
                Some(e) => Some(if e <= d {
                    e
                } else {
                    d
                }),
                None => Some(d),
            }
        } else {
            rest
        }
    }
}

/// The value differences between lower classes and the class of a piece
/// fit in `i32`.
pub open spec fn deltas_fit(values: Seq<i32>, class: Class) -> bool {
    forall|i: int|
        0 <= i < 6 ==> i32::MIN <= #[trigger] values[i] - values[class.idx()] <= i32::MAX
}

/// The least loss of value if a piece moving to `dst` were taken by an
/// enemy piece of a lower class that controls `dst`, if one does.
#[verifier::spinoff_prover]
pub fn get_lower_value_delta(values: &[i32; 6], pos: &PositionBoards, piece: Piece, dst: Square) -> (r:
    Option<i32>)
    requires
        deltas_fit(values@, piece.1),
    ensures
        r matches Some(n) ==> lower_delta(
            values@,
            *pos,
            piece,
            dst,
            lower_value_classes(piece.1).len() as int,
        ) == Some(n as int),
        r is None ==> lower_delta(
            values@,
            *pos,
            piece,
            dst,
            lower_value_classes(piece.1).len() as int,
        ) is None,
{
    let moving_value = values[piece.1.index()];
    let classes = get_lower_value_pieces(piece.1);
    let enemy = piece.0.reflect();
    let mut best: Option<i32> = None;
    let mut k: usize = 0;
    while k < classes.len()
        invariant
            k <= classes@.len(),
            classes@ == lower_value_classes(piece.1),
            enemy == piece.0.other(),
            moving_value == values@[piece.1.idx()],
            deltas_fit(values@, piece.1),
            best matches Some(n) ==> lower_delta(values@, *pos, piece, dst, k as int) == Some(
                n as int,
            ),
            best is None ==> lower_delta(values@, *pos, piece, dst, k as int) is None,
        decreases classes@.len() - k,
    {
        let c = classes[k];
        let control = compute_control(pos, Piece(enemy, c));
        if control.contains(dst) {
            assert(i32::MIN <= values@[c.idx()] - values@[piece.1.idx()] <= i32::MAX);
            let d = values[c.index()] - moving_value;
            best = match best {
                Some(e) => Some(if e <= d {
                    e
                } else {
                    d
                }),
                None => Some(d),
            };
        }
        k = k + 1;
    }
    best
}

/// The category of a move for ordering: exchanges that win material first,
/// then special moves, then quiet moves by their positional gain, then
/// exchanges that lose material.
#[derive(Debug, Copy, Clone, PartialEq, Eq, Structural)]
pub enum MoveCategory {
    /// A capture with this positive exchange value.
    GoodExchange(i32),
    Special,
    /// A quiet move with this gain by the midgame tables.
    Positional(i32),
    /// A capture with this exchange value at most zero, or a quiet move to
    /// a square where a lower class would take it, losing this much.
    BadExchange(i32),
}

/// The positional gain of a piece moving between two squares, for its side.
pub open spec fn positional_gain(moving: Piece, from: Square, dest: Square) -> int {
    side_sign(moving.0) * (default_tables().mid(moving, dest) - default_tables().mid(moving, from))
}

/// The category of a move. `exchange_value` is the static exchange value of
/// the capture when the move is a plain capture, and `lower_delta` the least
/// loss to a lower class controlling the destination.
pub open spec fn category_of(mv: Move, exchange_value: i32, delta: Option<int>) -> MoveCategory {
    match mv {
        Move::Standard { moving, from, dest, capture } => if capture is Some {
            if exchange_value > 0 {
                MoveCategory::GoodExchange(exchange_value)
            } else {
                MoveCategory::BadExchange(exchange_value)
            }
        } else {
            match delta {
                Some(n) => MoveCategory::BadExchange(n as i32),
                None => MoveCategory::Positional(positional_gain(moving, from, dest) as i32),
            }
        },
        _ => MoveCategory::Special,
    }
}

/// The ordering score of a category.
pub open spec fn category_score(c: MoveCategory) -> int {
    match c {
        MoveCategory::GoodExchange(n) => 30_000 + n,
        MoveCategory::Special => 20_000,
        MoveCategory::Positional(n) => 10_000 + n,
        MoveCategory::BadExchange(n) => n as int,
    }
}

/// Orders moves by material won and positional gain.
#[derive(Debug, Copy, Clone, PartialEq, Eq)]
pub struct MaterialAndPositioningHeuristic {
    tables: PositionTables,
}

impl MaterialAndPositioningHeuristic {
    #[verifier::type_invariant]
    spec fn inv(self) -> bool {
        self.tables == default_tables()
    }

    /// The category of a move in a position with the given piece values;
    /// `exchange_value` is the static exchange value of the capture, read
    /// only when the move is a plain capture.
    #[verifier::spinoff_prover]
    pub fn get_category(
        &self,
        values: &[i32; 6],
        pos: &PositionBoards,
        mv: &Move,
        exchange_value: i32,
    ) -> (r: MoveCategory)
        requires
            mv matches Move::Standard { moving, .. } ==> deltas_fit(values@, moving.1),
        ensures
            r == category_of(
                *mv,
                exchange_value,
                match *mv {
                    Move::Standard { moving, dest, .. } => lower_delta(
                        values@,
                        *pos,
                        moving,
                        dest,
                        lower_value_classes(moving.1).len() as int,
                    ),
                    _ => None,
                },
            ),
    {
        proof {
            use_type_invariant(self);
            lemma_default_bounded();
        }
        match mv {
            Move::Standard { moving, from, dest, capture } => {
                if capture.is_some() {
                    if exchange_value > 0 {
                        MoveCategory::GoodExchange(exchange_value)
                    } else {
                        MoveCategory::BadExchange(exchange_value)
                    }
                } else {
                    match get_lower_value_delta(values, pos, *moving, *dest) {
                        Some(n) => MoveCategory::BadExchange(n),
                        None => {
                            proof {
                                lemma_value_bounded(self.tables, *moving, *from);
                                lemma_value_bounded(self.tables, *moving, *dest);
                            }
                            let from_value = self.tables.midgame(*moving, *from);
                            let dest_value = self.tables.midgame(*moving, *dest);
                            let gain = dest_value - from_value;
                            let r = match moving.0 {
                                Side::W => gain,
                                Side::B => -gain,
                            };
                            proof {
                                if moving.0 == Side::W {
                                    assert(side_sign(moving.0) == 1);
                                } else {
                                    assert(side_sign(moving.0) == -1);
                                }
                            }
                            MoveCategory::Positional(r)
                        },
                    }
                }
            },
            _ => MoveCategory::Special,
        }
    }

    /// The ordering score of a move: larger is searched first.
    pub fn estimate(
        &self,
        values: &[i32; 6],
        pos: &PositionBoards,
        mv: &Move,
        exchange_value: i32,
    ) -> (r: i32)
        requires
            mv matches Move::Standard { moving, .. } ==> deltas_fit(values@, moving.1),
            exchange_value <= i32::MAX - 30_000,
        ensures
            r == category_score(
                category_of(
                    *mv,
                    exchange_value,
                    match *mv {
                        Move::Standard { moving, dest, .. } => lower_delta(
                            values@,
                            *pos,
                            moving,
                            dest,
                            lower_value_classes(moving.1).len() as int,
                        ),
                        _ => None,
                    },
                ),
            ),
    {
        proof {
            use_type_invariant(self);
        }
        match self.get_category(values, pos, mv, exchange_value) {
            MoveCategory::GoodExchange(n) => 30_000 + n,
            MoveCategory::Special => 20_000,
            MoveCategory::Positional(n) => {
                proof {
                    lemma_positional_bounded(*mv);
                }
                10_000 + n
            },
            MoveCategory::BadExchange(n) => n,
        }
    }
}

impl std::default::Default for MaterialAndPositioningHeuristic {
    fn default() -> (r: MaterialAndPositioningHeuristic) {
        MaterialAndPositioningHeuristic { tables: PositionTables::default() }
    }
}

proof fn lemma_positional_bounded(mv: Move)
    ensures
        mv matches Move::Standard { moving, from, dest, .. } ==> -2_000_000 <= positional_gain(
            moving,
            from,
            dest,
        ) <= 2_000_000,
{
    if let Move::Standard { moving, from, dest, .. } = mv {
        lemma_default_bounded();
        lemma_value_bounded(default_tables(), moving, from);
        lemma_value_bounded(default_tables(), moving, dest);
        if moving.0 == Side::W {
            assert(side_sign(moving.0) == 1);
        } else {
            assert(side_sign(moving.0) == -1);
        }
    }
}

/// Whether a move gives check to the enemy king on `enemy_king`: it uncovers
/// a line onto the king (`discovery_lines[from]` holds the destinations
/// from `from` that do), or the moved piece attacks the king from its new
/// square, or the castled rook does.
pub open spec fn gives_check(m: Move, discovery_lines: Seq<BitBoard>, enemy_king: Square, occupied: u64) -> bool {
    match m {
        Move::Null | Move::Enpassant { .. } => false,
        Move::Standard { moving, from, dest, .. } => bits(discovery_lines[from.idx()].0).contains(
            dest.idx(),
        ) || control_set(moving, dest.idx(), occupied & !(1u64 << (from.idx() as u64))).contains(
            enemy_king.idx(),
        ),
        Move::Promotion { from, dest, promoted, .. } => bits(discovery_lines[from.idx()].0).contains(
            dest.idx(),
        ) || control_set(promoted, dest.idx(), occupied & !(1u64 << (from.idx() as u64))).contains(
            enemy_king.idx(),
        ),
        Move::Castle { corner } => control_set(
            Piece(Side::W, Class::R),
            rook_line(corner.corner_of()).1.idx(),
            occupied,
        ).contains(enemy_king.idx()),
    }
}

/// A move gives check when it uncovers a line onto the enemy king (its
/// destination is off the line it leaves), or when the piece it puts on
/// the destination attacks the king once the square it left is empty; a
/// null move or an en passant capture never does.
pub proof fn lemma_check_laws(m: Move, discovery_lines: Seq<BitBoard>, enemy_king: Square, occupied: u64)
    ensures
        (m matches Move::Standard { from, dest, .. } && bits(discovery_lines[from.idx()].0).contains(
            dest.idx(),
        )) ==> gives_check(m, discovery_lines, enemy_king, occupied),
        (m matches Move::Promotion { from, dest, .. } && bits(discovery_lines[from.idx()].0).contains(
            dest.idx(),
        )) ==> gives_check(m, discovery_lines, enemy_king, occupied),
        (m matches Move::Standard { moving, from, dest, .. } && control_set(
            moving,
            dest.idx(),
            occupied & !(1u64 << (from.idx() as u64)),
        ).contains(enemy_king.idx())) ==> gives_check(m, discovery_lines, enemy_king, occupied),
        (m matches Move::Promotion { promoted, from, dest, .. } && control_set(
            promoted,
            dest.idx(),
            occupied & !(1u64 << (from.idx() as u64)),
        ).contains(enemy_king.idx())) ==> gives_check(m, discovery_lines, enemy_king, occupied),
        (m is Null || m is Enpassant) ==> !gives_check(m, discovery_lines, enemy_king, occupied),
{
}

/// Whether a move gives check to the enemy king.
pub fn is_checking(m: &Move, discovery_lines: &[BitBoard; 64], enemy_king: Square, occupied: BitBoard) -> (r: bool)
    ensures
        r == gives_check(*m, discovery_lines@, enemy_king, occupied.0),
        (*m matches Move::Standard { from, dest, .. } && bits(discovery_lines@[from.idx()].0).contains(
            dest.idx(),
        )) ==> r,
        (*m matches Move::Promotion { from, dest, .. } && bits(discovery_lines@[from.idx()].0).contains(
            dest.idx(),
        )) ==> r,
        (*m is Null || *m is Enpassant) ==> !r,
{
    match m {
        Move::Null | Move::Enpassant { .. } => false,
        Move::Standard { moving, from, dest, .. } => {
            let without = BitBoard(occupied.0 & !loc(*from));
            discovery_lines[from.index()].contains(*dest) || moving.control(*dest, without).contains(
                enemy_king,
            )
        },
        Move::Promotion { from, dest, promoted, .. } => {
            let without = BitBoard(occupied.0 & !loc(*from));
            discovery_lines[from.index()].contains(*dest) || promoted.control(*dest, without).contains(
                enemy_king,
            )
        },
        Move::Castle { corner } => {
            let line = Line::rook_castling(corner.corner());
            Piece(Side::W, Class::R).control(line.1, occupied).contains(enemy_king)
        },
    }
}

/// The move with its tactical features in the position.
pub fn search_move(
    m: &Move,
    pos: &PositionBoards,
    discovery_lines: &[BitBoard; 64],
    enemy_king: Square,
) -> (r: SearchMove)
    ensures
        r.m == *m,
        r.is_attack == attacks(*m),
        r.is_check == gives_check(
            *m,
            discovery_lines@,
            enemy_king,
            pos.side_boards@[0].0 | pos.side_boards@[1].0,
        ),
        r.is_promoting == (*m is Promotion),
        r.is_passed_pawn == passed_pawn_move(*m, *pos),
        r.is_positional_xray == positional_xray(*m, *pos),
{
    let occupied = pos.side_boards[0] | pos.side_boards[1];
    SearchMove {
        is_attack: is_attack(m),
        is_check: is_checking(m, discovery_lines, enemy_king, occupied),
        is_promoting: matches!(m, Move::Promotion { .. }),
        is_passed_pawn: is_passed_pawn(m, pos),
        is_positional_xray: is_positional_xray(m, pos),
        m: *m,
    }
}

/// A move with its features in a position.
pub open spec fn search_move_of(
    m: Move,
    pos: PositionBoards,
    discovery_lines: Seq<BitBoard>,
    enemy_king: Square,
) -> SearchMove {
    SearchMove {
        m,
        is_attack: attacks(m),
        is_check: gives_check(m, discovery_lines, enemy_king, pos.side_boards@[0].0 | pos.side_boards@[1].0),
        is_promoting: m is Promotion,
        is_passed_pawn: passed_pawn_move(m, pos),
        is_positional_xray: positional_xray(m, pos),
    }
}

/// The estimates negated, so that sorting them puts the best first.
pub open spec fn negated_estimates(s: Seq<(i32, Move)>) -> Seq<(i32, Move)> {
    s.map_values(|x: (i32, Move)| ((-x.0) as i32, x.1))
}

/// The moves of a position, each with its estimated value, as search
/// moves: best estimated first, moves of equal estimate in their order,
/// each with its features.
pub fn generate(
    estimated: &Vec<(i32, Move)>,
    pos: &PositionBoards,
    discovery_lines: &[BitBoard; 64],
    enemy_king: Square,
) -> (r: Vec<SearchMove>)
    requires
        forall|i: int| 0 <= i < estimated@.len() ==> (#[trigger] estimated@[i]).0 > i32::MIN,
    ensures
        r@ == stable_sorted(negated_estimates(estimated@)).map_values(
            |x: (i32, Move)| search_move_of(x.1, *pos, discovery_lines@, enemy_king),
        ),
{
    let mut keyed: Vec<(i32, Move)> = Vec::new();
    let mut k: usize = 0;
    while k < estimated.len()
        invariant
            k <= estimated@.len(),
            forall|i: int| 0 <= i < estimated@.len() ==> (#[trigger] estimated@[i]).0 > i32::MIN,
            keyed@ == negated_estimates(estimated@.take(k as int)),
        decreases estimated@.len() - k,
    {
        let (e, m) = estimated[k];
        keyed.push((-e, m));
        k = k + 1;
        proof {
            assert(negated_estimates(estimated@.take(k as int)) =~= negated_estimates(
                estimated@.take(k as int - 1),
            ).push(((-e) as i32, m)));
        }
    }
    assert(estimated@.take(estimated@.len() as int) =~= estimated@);
    let sorted = sort_by_score_stable(&keyed);
    let mut r: Vec<SearchMove> = Vec::new();
    let mut j: usize = 0;
    while j < sorted.len()
        invariant
            j <= sorted@.len(),
            r@ == sorted@.take(j as int).map_values(
                |x: (i32, Move)| search_move_of(x.1, *pos, discovery_lines@, enemy_king),
            ),
        decreases sorted@.len() - j,
    {
        let sm = search_move(&sorted[j].1, pos, discovery_lines, enemy_king);
        r.push(sm);
        j = j + 1;
        proof {
            assert(sorted@.take(j as int).map_values(
                |x: (i32, Move)| search_move_of(x.1, *pos, discovery_lines@, enemy_king),
            ) =~= sorted@.take(j as int - 1).map_values(
                |x: (i32, Move)| search_move_of(x.1, *pos, discovery_lines@, enemy_king),
            ).push(search_move_of(sorted@[j as int - 1].1, *pos, discovery_lines@, enemy_king)));
        }
    }
    assert(sorted@.take(sorted@.len() as int) =~= sorted@);
    r
}

} // verus!
