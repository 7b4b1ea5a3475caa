use vstd::prelude::*;

use vstd::std_specs::bits::u64_trailing_zeros;

use crate::base::bitboard::{bits, lemma_bits_ext, lemma_bits_min, lemma_bits_ops, lemma_bits_single};
use crate::base::flip::{
    lemma_control_mirror, lemma_mirror_empty, lemma_reflect_coords, lemma_reflect_set_len,
    lemma_steps_union_on_board,
};
use crate::base::pieces::{control_set, king_dirs, Class, Piece};
use crate::base::reflect::{lemma_mirror_bits, mirror_board, mirror_word, reflect_idx, reflect_set};
use crate::base::types::Side;
use crate::brain::eval::pawns::sum_upto;
use crate::hyperopic::eval::safety::{attacker_class, occupied_without, ring_counts, safety_counts};
use crate::hyperopic::search::moves::PositionBoards;
use crate::hyperopic::search::symmetry::mirrored_boards;

verus! {

/// The sum of the eight values of rank `r`.
pub open spec fn rank_sum(g: spec_fn(int) -> int, r: int) -> int {
    g(8 * r) + g(8 * r + 1) + g(8 * r + 2) + g(8 * r + 3) + g(8 * r + 4) + g(8 * r + 5) + g(8 * r
        + 6) + g(8 * r + 7)
}

/// Summing one more rank adds its eight values.
proof fn lemma_sum_next_rank(g: spec_fn(int) -> int, r: int)
    requires
        0 <= r,
    ensures
        sum_upto(g, 8 * r + 8) == sum_upto(g, 8 * r) + rank_sum(g, r),
{
    reveal_with_fuel(sum_upto, 9);
}

/// The sum over the board is the sum of its ranks.
proof fn lemma_sum_by_ranks(g: spec_fn(int) -> int)
    ensures
        sum_upto(g, 64) == rank_sum(g, 0) + rank_sum(g, 1) + rank_sum(g, 2) + rank_sum(g, 3)
            + rank_sum(g, 4) + rank_sum(g, 5) + rank_sum(g, 6) + rank_sum(g, 7),
{
    lemma_sum_next_rank(g, 0);
    lemma_sum_next_rank(g, 1);
    lemma_sum_next_rank(g, 2);
    lemma_sum_next_rank(g, 3);
    lemma_sum_next_rank(g, 4);
    lemma_sum_next_rank(g, 5);
    lemma_sum_next_rank(g, 6);
    lemma_sum_next_rank(g, 7);
}

/// A sum over the board does not change when the board is mirrored.
pub proof fn lemma_sum_mirror(g1: spec_fn(int) -> int, g2: spec_fn(int) -> int)
    requires
        forall|m: int| 0 <= m < 64 ==> #[trigger] g2(m) == g1(reflect_idx(m)),
    ensures
        sum_upto(g2, 64) == sum_upto(g1, 64),
{
    assert forall|r: int| 0 <= r < 8 implies #[trigger] rank_sum(g2, r) == rank_sum(g1, 7 - r) by {
        assert forall|f: int| 0 <= f < 8 implies #[trigger] reflect_idx(8 * r + f) == 8 * (7 - r) + f by {}
        assert(g2(8 * r) == g1(8 * (7 - r)));
        assert(g2(8 * r + 1) == g1(8 * (7 - r) + 1));
        assert(g2(8 * r + 2) == g1(8 * (7 - r) + 2));
        assert(g2(8 * r + 3) == g1(8 * (7 - r) + 3));
        assert(g2(8 * r + 4) == g1(8 * (7 - r) + 4));
        assert(g2(8 * r + 5) == g1(8 * (7 - r) + 5));
        assert(g2(8 * r + 6) == g1(8 * (7 - r) + 6));
        assert(g2(8 * r + 7) == g1(8 * (7 - r) + 7));
    }
    lemma_sum_by_ranks(g1);
    lemma_sum_by_ranks(g2);
    assert(rank_sum(g2, 0) == rank_sum(g1, 7));
    assert(rank_sum(g2, 1) == rank_sum(g1, 6));
    assert(rank_sum(g2, 2) == rank_sum(g1, 5));
    assert(rank_sum(g2, 3) == rank_sum(g1, 4));
    assert(rank_sum(g2, 4) == rank_sum(g1, 3));
    assert(rank_sum(g2, 5) == rank_sum(g1, 2));
    assert(rank_sum(g2, 6) == rank_sum(g1, 1));
    assert(rank_sum(g2, 7) == rank_sum(g1, 0));
}

/// The ring squares that the enemy piece of attacking class `k - 1` on
/// square `m` controls, if one stands there.
pub open spec fn ring_control(
    pos: PositionBoards,
    side: Side,
    ring: Set<int>,
    occ: u64,
    k: int,
    m: int,
) -> int {
    let p = Piece(side.other(), attacker_class(k - 1));
    if bits(pos.piece_boards@[p.idx()].0).contains(m) {
        control_set(p, m, occ).intersect(ring).len() as int
    } else {
        0
    }
}

/// One if the enemy piece of attacking class `k - 1` on square `m`
/// controls a ring square.
pub open spec fn ring_attacker(
    pos: PositionBoards,
    side: Side,
    ring: Set<int>,
    occ: u64,
    k: int,
    m: int,
) -> int {
    if ring_control(pos, side, ring, occ, k, m) > 0 {
        1
    } else {
        0
    }
}

/// The counts of the first `k` attacking classes on the first `n` squares
/// add the sums over the squares to the counts of the classes before.
proof fn lemma_ring_counts_sum(
    pos: PositionBoards,
    side: Side,
    ring: Set<int>,
    occ: u64,
    k: int,
    n: int,
)
    requires
        k >= 1,
        0 <= n <= 64,
    ensures
        ring_counts(pos, side, ring, occ, k, n) == (ring_counts(pos, side, ring, occ, k - 1, 64).0
            + sum_upto(|m: int| ring_control(pos, side, ring, occ, k, m), n), ring_counts(
            pos,
            side,
            ring,
            occ,
            k - 1,
            64,
        ).1 + sum_upto(|m: int| ring_attacker(pos, side, ring, occ, k, m), n)),
    decreases n,
{
    if n > 0 {
        lemma_ring_counts_sum(pos, side, ring, occ, k, n - 1);
    }
}

/// The enemy piece on the mirrored square of the mirrored position
/// controls as many squares of the mirrored ring.
proof fn lemma_ring_control_mirror(
    pos: PositionBoards,
    mirrored: PositionBoards,
    side: Side,
    ring: Set<int>,
    occ: u64,
    k: int,
    m: int,
)
    requires
        mirrored_boards(pos, mirrored),
        ring.finite(),
        forall|x: int| #[trigger] ring.contains(x) ==> 0 <= x < 64,
        0 <= m < 64,
    ensures
        ring_control(mirrored, side.other(), reflect_set(ring), mirror_word(occ), k, m)
            == ring_control(pos, side, ring, occ, k, reflect_idx(m)),
        ring_attacker(mirrored, side.other(), reflect_set(ring), mirror_word(occ), k, m)
            == ring_attacker(pos, side, ring, occ, k, reflect_idx(m)),
{
    let cls = attacker_class(k - 1);
    let p = Piece(side.other(), cls);
    let p2 = Piece(side.other().other(), cls);
    assert((p2.idx() + 6) % 12 == p.idx());
    assert(mirrored.piece_boards@[p2.idx()] == mirror_board(pos.piece_boards@[(p2.idx() + 6) % 12]));
    let b = pos.piece_boards@[p.idx()].0;
    lemma_mirror_bits(b);
    lemma_reflect_coords(m);
    let rm = reflect_idx(m);
    assert(bits(mirror_word(b)).contains(m) == bits(b).contains(rm));
    lemma_control_mirror(p, rm, occ);
    let c = control_set(p, rm, occ).intersect(ring);
    assert(control_set(p2, m, mirror_word(occ)).intersect(reflect_set(ring)) =~= reflect_set(c));
    lemma_reflect_set_len(c);
}

/// The counts of the mirrored position, for the other side, are those of
/// the position.
proof fn lemma_ring_counts_mirror(
    pos: PositionBoards,
    mirrored: PositionBoards,
    side: Side,
    ring: Set<int>,
    occ: u64,
    k: int,
)
    requires
        mirrored_boards(pos, mirrored),
        ring.finite(),
        forall|x: int| #[trigger] ring.contains(x) ==> 0 <= x < 64,
        0 <= k,
    ensures
        ring_counts(mirrored, side.other(), reflect_set(ring), mirror_word(occ), k, 64)
            == ring_counts(pos, side, ring, occ, k, 64),
    decreases k,
{
    if k > 0 {
        let ring2 = reflect_set(ring);
        let occ2 = mirror_word(occ);
        lemma_ring_counts_mirror(pos, mirrored, side, ring, occ, k - 1);
        lemma_ring_counts_sum(pos, side, ring, occ, k, 64);
        lemma_ring_counts_sum(mirrored, side.other(), ring2, occ2, k, 64);
        let c1 = |m: int| ring_control(pos, side, ring, occ, k, m);
        let c2 = |m: int| ring_control(mirrored, side.other(), ring2, occ2, k, m);
        let a1 = |m: int| ring_attacker(pos, side, ring, occ, k, m);
        let a2 = |m: int| ring_attacker(mirrored, side.other(), ring2, occ2, k, m);
        assert forall|m: int| 0 <= m < 64 implies #[trigger] c2(m) == c1(reflect_idx(m)) by {
            lemma_ring_control_mirror(pos, mirrored, side, ring, occ, k, m);
        }
        assert forall|m: int| 0 <= m < 64 implies #[trigger] a2(m) == a1(reflect_idx(m)) by {
            lemma_ring_control_mirror(pos, mirrored, side, ring, occ, k, m);
        }
        lemma_sum_mirror(c1, c2);
        lemma_sum_mirror(a1, a2);
    }
}

/// The occupied squares with the mirrored king lifted off are the mirrored
/// squares.
proof fn lemma_occupied_without_mirror(pos: PositionBoards, mirrored: PositionBoards, t: int)
    requires
        mirrored_boards(pos, mirrored),
        0 <= t < 64,
    ensures
        occupied_without(mirrored, reflect_idx(t)) == mirror_word(occupied_without(pos, t)),
{
    let w = pos.side_boards@[0].0;
    let b = pos.side_boards@[1].0;
    let rt = reflect_idx(t);
    lemma_reflect_coords(t);
    let kbit = 1u64 << (t as u64);
    let rkbit = 1u64 << (rt as u64);
    lemma_bits_single(t as u64);
    lemma_bits_single(rt as u64);
    lemma_mirror_bits(w);
    lemma_mirror_bits(b);
    lemma_bits_ops(w, b);
    lemma_bits_ops(w | b, kbit);
    lemma_bits_ops(mirror_word(b), mirror_word(w));
    lemma_bits_ops(mirror_word(b) | mirror_word(w), rkbit);
    lemma_bits_ops(mirror_word(w) | mirror_word(b), rkbit);
    let x = occupied_without(pos, t);
    lemma_mirror_bits(x);
    let y = occupied_without(mirrored, rt);
    assert(x == (w | b) & !kbit);
    assert(mirrored.side_boards@[0].0 == mirror_word(b));
    assert(mirrored.side_boards@[1].0 == mirror_word(w));
    assert(y == (mirror_word(b) | mirror_word(w)) & !rkbit);
    assert forall|j: int| #[trigger] bits(y).contains(j) <==> bits(mirror_word(x)).contains(j) by {
        if 0 <= j < 64 {
            lemma_reflect_coords(j);
            assert(bits(y).contains(j) <==> (bits(mirror_word(b)).contains(j) || bits(mirror_word(w)).contains(j)) && j != rt);
            assert(bits(x).contains(reflect_idx(j)) <==> (bits(w).contains(reflect_idx(j)) || bits(b).contains(reflect_idx(j))) && reflect_idx(j) != t);
        }
    }
    assert(bits(y) =~= bits(mirror_word(x)));
    lemma_bits_ext(y, mirror_word(x));
}

/// The safety counts of the king of a side are those of the king of the
/// other side in the mirrored position, when the side has at most one
/// king.
pub proof fn lemma_safety_mirror(pos: PositionBoards, mirrored: PositionBoards, side: Side)
    requires
        mirrored_boards(pos, mirrored),
        forall|i: int, j: int|
            #![trigger bits(pos.piece_boards@[Piece(side, Class::K).idx()].0).contains(i), bits(pos.piece_boards@[Piece(side, Class::K).idx()].0).contains(j)]
            bits(pos.piece_boards@[Piece(side, Class::K).idx()].0).contains(i) && bits(
                pos.piece_boards@[Piece(side, Class::K).idx()].0,
            ).contains(j) ==> i == j,
    ensures
        safety_counts(mirrored, side.other()) == safety_counts(pos, side),
{
    let king = Piece(side, Class::K);
    let king2 = Piece(side.other(), Class::K);
    assert((king2.idx() + 6) % 12 == king.idx());
    assert(mirrored.piece_boards@[king2.idx()] == mirror_board(pos.piece_boards@[(king2.idx() + 6) % 12]));
    let kb = pos.piece_boards@[king.idx()].0;
    let kb2 = mirrored.piece_boards@[king2.idx()].0;
    assert(kb2 == mirror_word(kb));
    lemma_mirror_bits(kb);
    lemma_mirror_empty();
    if kb == 0 {
        assert(kb2 == 0);
    } else {
        lemma_mirror_bits(kb2);
        if kb2 == 0 {
            assert(kb == mirror_word(kb2));
        }
        lemma_bits_min(kb);
        lemma_bits_min(kb2);
        let t = u64_trailing_zeros(kb) as int;
        let t2 = u64_trailing_zeros(kb2) as int;
        assert(bits(kb).contains(t));
        assert(bits(kb2).contains(t2));
        assert(0 <= t2 < 64);
        lemma_reflect_coords(t2);
        assert(bits(kb).contains(reflect_idx(t2)));
        assert(reflect_idx(t2) == t);
        lemma_reflect_coords(t);
        assert(t2 == reflect_idx(t));
        let occ = occupied_without(pos, t);
        lemma_occupied_without_mirror(pos, mirrored, t);
        assert(occupied_without(mirrored, t2) == mirror_word(occ));
        lemma_control_mirror(king, t, 0u64);
        lemma_mirror_bits(occ);
        let ctrl = control_set(king, t, 0);
        let ring = ctrl.difference(bits(occ));
        let ring2 = control_set(king2, t2, 0).difference(bits(mirror_word(occ)));
        assert(ring2 =~= reflect_set(ring));
        lemma_steps_union_on_board(t, king_dirs());
        lemma_ring_counts_mirror(pos, mirrored, side, ring, occ, 4);
    }
}

} // verus!
