use vstd::prelude::*;
use vstd::std_specs::bits::u64_trailing_zeros;

use crate::base::bitboard::{bits, lemma_bits_min, lemma_bits_ops, loc, BitBoard};
use crate::base::pieces::{control_set, Class, Piece};
use crate::base::square::{square_at, lemma_square_at, lemma_square_idx, Square};
use crate::base::types::Side;
use crate::hyperopic::search::moves::PositionBoards;

verus! {

broadcast use lemma_square_idx, lemma_square_at;

/// How much of the ring of empty squares around a king the enemy pieces
/// control: the number of (piece, square) controls in all, and the number
/// of pieces that control any.
#[derive(Debug, Copy, Clone, PartialEq, Eq, Structural)]
pub struct SafetyCounts {
    pub total_control: usize,
    pub attacker_count: usize,
}

/// The class at a position in the order N, B, R, Q.
pub open spec fn attacker_class(k: int) -> Class {
    if k == 0 {
        Class::N
    } else if k == 1 {
        Class::B
    } else if k == 2 {
        Class::R
    } else {
        Class::Q
    }
}

/// The occupied squares with the king lifted off.
pub open spec fn occupied_without(pos: PositionBoards, king_loc: int) -> u64 {
    (pos.side_boards@[0].0 | pos.side_boards@[1].0) & !(1u64 << (king_loc as u64))
}

/// The controls of the ring by enemy pieces of the first `k` attacking
/// classes on their first `n` squares: (total controls, controlling pieces).
pub open spec fn ring_counts(
    pos: PositionBoards,
    side: Side,
    ring: Set<int>,
    occ: u64,
    k: int,
    n: int,
) -> (int, int)
    decreases k, n,
{
    if k <= 0 {
        (0, 0)
    } else if n <= 0 {
        ring_counts(pos, side, ring, occ, k - 1, 64)
    } else {
        let p = Piece(side.other(), attacker_class(k - 1));
        let prev = ring_counts(pos, side, ring, occ, k, n - 1);
        if bits(pos.piece_boards@[p.idx()].0).contains(n - 1) {
            let c = control_set(p, n - 1, occ).intersect(ring).len() as int;
            (prev.0 + c, prev.1 + (if c > 0 {
                1int
            } else {
                0int
            }))
        } else {
            prev
        }
    }
}

/// The safety counts of the king of a side: nothing if the side has no
/// king, else the controls of its ring by the enemy knights, bishops, rooks
/// and queens.
pub open spec fn safety_counts(pos: PositionBoards, side: Side) -> (int, int) {
    let kb = pos.piece_boards@[Piece(side, Class::K).idx()].0;
    if kb == 0 {
        (0, 0)
    } else {
        let king_loc = u64_trailing_zeros(kb) as int;
        let occ = occupied_without(pos, king_loc);
        let ring = control_set(Piece(side, Class::K), king_loc, 0).difference(bits(occ));
        ring_counts(pos, side, ring, occ, 4, 64)
    }
}

/// Counts how much of the empty ring around the king of a side the enemy
/// controls, and with how many pieces.
#[verifier::spinoff_prover]
pub fn compute_safety_counts(pos: &PositionBoards, side: Side) -> (r: SafetyCounts)
    ensures
        (r.total_control as int, r.attacker_count as int) == safety_counts(*pos, side),
{
    let king = Piece(side, Class::K);
    let king_board = pos.piece_boards[king.index()];
    let first = king_board.first();
    proof {
        lemma_bits_min(king_board.0);
    }
    let king_sq = match first {
        None => {
            return SafetyCounts { total_control: 0, attacker_count: 0 };
        },
        Some(sq) => sq,
    };
    proof {
        vstd::std_specs::bits::axiom_u64_trailing_zeros(king_board.0);
        assert(king_sq.idx() == u64_trailing_zeros(king_board.0) as int);
    }
    let king_bit = loc(king_sq);
    let occupied = BitBoard((pos.side_boards[0].0 | pos.side_boards[1].0) & !king_bit);
    let king_control = king.empty_control(king_sq);
    let ring = BitBoard(king_control.0 & !occupied.0);
    proof {
        lemma_bits_ops(king_control.0, occupied.0);
    }
    let ghost ring_set = control_set(king, king_sq.idx(), 0).difference(bits(occupied.0));
    let other_side = match side {
        Side::W => Side::B,
        Side::B => Side::W,
    };
    let classes = [Class::N, Class::B, Class::R, Class::Q];
    let mut total_control: usize = 0;
    let mut attacker_count: usize = 0;
    let mut k: usize = 0;
    while k < 4
        invariant
            k <= 4,
            classes@ == seq![Class::N, Class::B, Class::R, Class::Q],
            other_side == side.other(),
            ring@ == ring_set,
            occupied.0 == occupied_without(*pos, king_sq.idx()),
            (total_control as int, attacker_count as int) == ring_counts(
                *pos,
                side,
                ring_set,
                occupied.0,
                k as int,
                64,
            ),
            total_control as int <= 4096 * (k as int),
            attacker_count as int <= 64 * (k as int),
        decreases 4 - k,
    {
        let p = Piece(other_side, classes[k]);
        assert(classes@[k as int] == attacker_class(k as int));
        let board = pos.piece_boards[p.index()];
        let mut i: usize = 0;
        proof {
            assert(ring_counts(*pos, side, ring_set, occupied.0, k + 1, 0) == ring_counts(
                *pos,
                side,
                ring_set,
                occupied.0,
                k as int,
                64,
            ));
        }
        while i < 64
            invariant
                i <= 64,
                k < 4,
                p == Piece(side.other(), attacker_class(k as int)),
                board == pos.piece_boards@[p.idx()],
                ring@ == ring_set,
                (total_control as int, attacker_count as int) == ring_counts(
                    *pos,
                    side,
                    ring_set,
                    occupied.0,
                    k + 1,
                    i as int,
                ),
                total_control as int <= 4096 * (k as int) + 64 * (i as int),
                attacker_count as int <= 64 * (k as int) + (i as int),
            decreases 64 - i,
        {
            let sq = Square::from_index(i);
            if board.contains(sq) {
                let control = p.control(sq, occupied);
                let controlled = control & ring;
                proof {
                    lemma_bits_ops(control.0, ring.0);
                }
                let control_count = controlled.size();
                total_control = total_control + control_count;
                if control_count > 0 {
                    attacker_count = attacker_count + 1;
                }
            }
            i = i + 1;
        }
        k = k + 1;
    }
    SafetyCounts { total_control, attacker_count }
}

/// The counts are never negative.
proof fn lemma_ring_counts_nonneg(pos: PositionBoards, side: Side, ring: Set<int>, occ: u64, k: int, n: int)
    ensures
        ring_counts(pos, side, ring, occ, k, n).0 >= 0,
        ring_counts(pos, side, ring, occ, k, n).1 >= 0,
    decreases k, n,
{
    if k > 0 {
        if n <= 0 {
            lemma_ring_counts_nonneg(pos, side, ring, occ, k - 1, 64);
        } else {
            lemma_ring_counts_nonneg(pos, side, ring, occ, k, n - 1);
        }
    }
}

/// Each attacking piece counted so far adds its controls of the ring.
proof fn lemma_ring_counts_ge(
    pos: PositionBoards,
    side: Side,
    ring: Set<int>,
    occ: u64,
    k: int,
    n: int,
    kk: int,
    s: int,
)
    requires
        0 <= kk < k <= 4,
        0 <= s < 64,
        n <= 64,
        kk < k - 1 || s < n,
        bits(pos.piece_boards@[Piece(side.other(), attacker_class(kk)).idx()].0).contains(s),
    ensures
        ring_counts(pos, side, ring, occ, k, n).0 >= control_set(
            Piece(side.other(), attacker_class(kk)),
            s,
            occ,
        ).intersect(ring).len(),
        control_set(Piece(side.other(), attacker_class(kk)), s, occ).intersect(ring).len() > 0
            ==> ring_counts(pos, side, ring, occ, k, n).1 >= 1,
    decreases k, n,
{
    if n <= 0 {
        lemma_ring_counts_ge(pos, side, ring, occ, k - 1, 64, kk, s);
    } else if kk == k - 1 && s == n - 1 {
        lemma_ring_counts_nonneg(pos, side, ring, occ, k, n - 1);
    } else {
        lemma_ring_counts_ge(pos, side, ring, occ, k, n - 1, kk, s);
    }
}

/// Two positions that agree on the occupied squares, on the king of the
/// side and on the enemy knights, bishops, rooks and queens agree on the
/// ring counts of the first `k` attacking classes.
proof fn lemma_ring_counts_same(
    p1: PositionBoards,
    p2: PositionBoards,
    side: Side,
    ring: Set<int>,
    occ: u64,
    k: int,
    n: int,
)
    requires
        k <= 4,
        forall|j: int| 0 <= j < 4 ==> p1.piece_boards@[Piece(side.other(), #[trigger] attacker_class(j)).idx()]
            == p2.piece_boards@[Piece(side.other(), attacker_class(j)).idx()],
    ensures
        ring_counts(p1, side, ring, occ, k, n) == ring_counts(p2, side, ring, occ, k, n),
    decreases k, n,
{
    if k > 0 {
        if n <= 0 {
            lemma_ring_counts_same(p1, p2, side, ring, occ, k - 1, 64);
        } else {
            assert(p1.piece_boards@[Piece(side.other(), attacker_class(k - 1)).idx()]
                == p2.piece_boards@[Piece(side.other(), attacker_class(k - 1)).idx()]);
            lemma_ring_counts_same(p1, p2, side, ring, occ, k, n - 1);
        }
    }
}

/// King safety counts only the enemy knights, bishops, rooks and queens:
/// two positions with the same occupied squares, the same king of the side
/// and the same enemy knights, bishops, rooks and queens have the same
/// counts, whatever else differs (the enemy pawns and king among them).
pub proof fn lemma_safety_counts_attackers_only(p1: PositionBoards, p2: PositionBoards, side: Side)
    requires
        p1.side_boards@[0] == p2.side_boards@[0],
        p1.side_boards@[1] == p2.side_boards@[1],
        p1.piece_boards@[Piece(side, Class::K).idx()] == p2.piece_boards@[Piece(side, Class::K).idx()],
        p1.piece_boards@[Piece(side.other(), Class::N).idx()] == p2.piece_boards@[Piece(side.other(), Class::N).idx()],
        p1.piece_boards@[Piece(side.other(), Class::B).idx()] == p2.piece_boards@[Piece(side.other(), Class::B).idx()],
        p1.piece_boards@[Piece(side.other(), Class::R).idx()] == p2.piece_boards@[Piece(side.other(), Class::R).idx()],
        p1.piece_boards@[Piece(side.other(), Class::Q).idx()] == p2.piece_boards@[Piece(side.other(), Class::Q).idx()],
    ensures
        safety_counts(p1, side) == safety_counts(p2, side),
{
    let kb = p1.piece_boards@[Piece(side, Class::K).idx()].0;
    if kb != 0 {
        let king_loc = u64_trailing_zeros(kb) as int;
        let occ = occupied_without(p1, king_loc);
        assert(occ == occupied_without(p2, king_loc));
        let ring = control_set(Piece(side, Class::K), king_loc, 0).difference(bits(occ));
        assert forall|j: int| 0 <= j < 4 implies p1.piece_boards@[Piece(side.other(), #[trigger] attacker_class(j)).idx()]
            == p2.piece_boards@[Piece(side.other(), attacker_class(j)).idx()] by {
            if j == 0 {
                assert(attacker_class(j) == Class::N);
            } else if j == 1 {
                assert(attacker_class(j) == Class::B);
            } else if j == 2 {
                assert(attacker_class(j) == Class::R);
            } else {
                assert(attacker_class(j) == Class::Q);
            }
        }
        lemma_ring_counts_same(p1, p2, side, ring, occ, 4, 64);
    }
}

/// Every enemy knight, bishop, rook and queen counts: when the side has a
/// king, the total control is at least the number of empty ring squares
/// such a piece controls, and if it controls any the attacker count is at
/// least one.
pub proof fn lemma_safety_counts_each_attacker(pos: PositionBoards, side: Side, c: Class, s: int)
    requires
        c == Class::N || c == Class::B || c == Class::R || c == Class::Q,
        0 <= s < 64,
        pos.piece_boards@[Piece(side, Class::K).idx()].0 != 0,
        bits(pos.piece_boards@[Piece(side.other(), c).idx()].0).contains(s),
    ensures
        ({
            let king_loc = u64_trailing_zeros(pos.piece_boards@[Piece(side, Class::K).idx()].0) as int;
            let occ = occupied_without(pos, king_loc);
            let ring = control_set(Piece(side, Class::K), king_loc, 0).difference(bits(occ));
            let controls = control_set(Piece(side.other(), c), s, occ).intersect(ring).len();
            &&& safety_counts(pos, side).0 >= controls
            &&& controls > 0 ==> safety_counts(pos, side).1 >= 1
        }),
{
    let king_loc = u64_trailing_zeros(pos.piece_boards@[Piece(side, Class::K).idx()].0) as int;
    let occ = occupied_without(pos, king_loc);
    let ring = control_set(Piece(side, Class::K), king_loc, 0).difference(bits(occ));
    let kk: int = if c == Class::N {
        0
    } else if c == Class::B {
        1
    } else if c == Class::R {
        2
    } else {
        3
    };
    assert(attacker_class(kk) == c);
    lemma_ring_counts_ge(pos, side, ring, occ, 4, 64, kk, s);
}

} // verus!
