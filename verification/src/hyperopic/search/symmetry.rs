use vstd::prelude::*;

use crate::base::bitboard::{bits, cord_set, lemma_bits_finite, lemma_bits_ops, lemma_lines, FILE_BITS};
use crate::base::flip::{lemma_control_mirror, lemma_cord_mirror, lemma_mirror_empty, lemma_reflect_coords, lemma_reflect_set_len};
use crate::base::pieces::{control_set, Class, Piece};
use crate::base::reflect::{lemma_mirror_bits, lemma_reflect_idx, mirror_board, mirror_word, reflect_idx, reflect_set, reflect_square};
use crate::base::square::{file_of, rank_of, lemma_square_at, lemma_square_idx, Square};
use crate::brain::eval::pawns::{lemma_adjacent, ADJACENT_FILE_BITS};
use crate::brain::moves::Move;
use crate::base::types::Side;
use crate::hyperopic::search::moves::{
    blocking_pawns, enemy_squares, occupied_after, passed_pawn_move, positional_xray, side_sign,
    xray_targets, PositionBoards,
};
use crate::hyperopic::Symmetric;

verus! {

broadcast use lemma_square_idx, lemma_square_at;

/// Whether `mirrored` is `pos` seen from the other side: every board
/// reflected across the middle of the board, and the pieces of each side
/// handed to the other side.
pub open spec fn mirrored_boards(pos: PositionBoards, mirrored: PositionBoards) -> bool {
    &&& forall|k: int|
        0 <= k < 12 ==> #[trigger] mirrored.piece_boards@[k] == mirror_board(pos.piece_boards@[(k + 6) % 12])
    &&& mirrored.side_boards@[0] == mirror_board(pos.side_boards@[1])
    &&& mirrored.side_boards@[1] == mirror_board(pos.side_boards@[0])
    &&& mirrored.passive_control == mirror_board(pos.passive_control)
}

/// The enemy pawns that could stop a pawn are those of the mirrored
/// position, mirrored back.
proof fn lemma_blocking_mirror(pos: PositionBoards, mirrored: PositionBoards, moving: Piece, dest: Square)
    requires
        mirrored_boards(pos, mirrored),
    ensures
        forall|i: int|
            #[trigger] blocking_pawns(mirrored, Piece(moving.0.other(), moving.1), reflect_square(dest)).contains(i)
                <==> (0 <= i < 64 && blocking_pawns(pos, moving, dest).contains(reflect_idx(i))),
{
    lemma_reflect_idx(dest.idx());
    let f = file_of(dest.idx());
    let d2 = reflect_square(dest);
    assert(d2.idx() == reflect_idx(dest.idx()));
    assert(file_of(d2.idx()) == f);
    let k = Piece(moving.0.other(), moving.1).idx();
    let m2 = Piece(moving.0.other(), moving.1);
    let k2 = Piece(m2.0.other(), m2.1).idx();
    assert((k2 + 6) % 12 == k);
    assert(mirrored.piece_boards@[k2] == mirror_board(pos.piece_boards@[(k2 + 6) % 12]));
    let b = pos.piece_boards@[k].0;
    let mask = ADJACENT_FILE_BITS@[f] | FILE_BITS@[f];
    lemma_bits_ops(b, mask);
    lemma_bits_ops(mirror_word(b), mask);
    lemma_bits_ops(ADJACENT_FILE_BITS@[f], FILE_BITS@[f]);
    lemma_mirror_bits(b);
    lemma_adjacent(f);
    lemma_lines(f);
    assert forall|i: int|
        #[trigger] blocking_pawns(mirrored, m2, d2).contains(i) <==> (0 <= i < 64
            && blocking_pawns(pos, moving, dest).contains(reflect_idx(i))) by {
        if 0 <= i < 64 {
            lemma_reflect_idx(i);
            assert(file_of(reflect_idx(i)) == file_of(i));
            assert(bits(mask).contains(i) <==> bits(mask).contains(reflect_idx(i)));
        }
    }
}

/// A pawn push is passed exactly when the mirrored push is passed in the
/// mirrored position.
pub proof fn lemma_passed_pawn_mirror(m: Move, pos: PositionBoards, mirrored: PositionBoards)
    requires
        mirrored_boards(pos, mirrored),
    ensures
        passed_pawn_move(m.mirror(), mirrored) == passed_pawn_move(m, pos),
{
    match m {
        Move::Standard { moving, from, dest, capture } => {
            let m2 = Piece(moving.0.other(), moving.1);
            let d2 = reflect_square(dest);
            lemma_reflect_idx(dest.idx());
            assert(d2.idx() == reflect_idx(dest.idx()));
            assert(rank_of(d2.idx()) == 7 - rank_of(dest.idx()));
            assert(side_sign(m2.0) == -side_sign(moving.0));
            lemma_blocking_mirror(pos, mirrored, moving, dest);
            let blockers = blocking_pawns(pos, moving, dest);
            let blockers2 = blocking_pawns(mirrored, m2, d2);
            if moving.1 == Class::P {
                if passed_pawn_move(m, pos) {
                    assert forall|i: int| #[trigger] blockers2.contains(i) implies !(side_sign(m2.0) * (
                    rank_of(i) - rank_of(d2.idx())) > 0) by {
                        assert(0 <= i < 64 && blockers.contains(reflect_idx(i)));
                        lemma_reflect_coords(i);
                        assert(!(side_sign(moving.0) * (rank_of(reflect_idx(i)) - rank_of(dest.idx()))
                            > 0));
                        let x = rank_of(i) - rank_of(d2.idx());
                        let y = rank_of(reflect_idx(i)) - rank_of(dest.idx());
                        assert(y == -x);
                        if moving.0 == Side::W {
                            assert(side_sign(m2.0) * x == -x);
                            assert(side_sign(moving.0) * y == y);
                        } else {
                            assert(side_sign(m2.0) * x == x);
                            assert(side_sign(moving.0) * y == -y);
                        }
                    }
                }
                if passed_pawn_move(m.mirror(), mirrored) {
                    assert forall|j: int| #[trigger] blockers.contains(j) implies !(side_sign(moving.0) * (
                    rank_of(j) - rank_of(dest.idx())) > 0) by {
                        lemma_bits_finite(pos.piece_boards@[Piece(moving.0.other(), moving.1).idx()].0 & (ADJACENT_FILE_BITS@[file_of(dest.idx())] | FILE_BITS@[file_of(dest.idx())]));
                        assert(0 <= j < 64);
                        lemma_reflect_idx(j);
                        let i = reflect_idx(j);
                        lemma_reflect_coords(j);
                        assert(blockers2.contains(i));
                        assert(rank_of(i) == 7 - rank_of(j));
                        assert(!(side_sign(m2.0) * (rank_of(i) - rank_of(d2.idx())) > 0));
                        let x = rank_of(j) - rank_of(dest.idx());
                        let y = rank_of(i) - rank_of(d2.idx());
                        assert(y == -x);
                        if moving.0 == Side::W {
                            assert(side_sign(m2.0) * y == -y);
                            assert(side_sign(moving.0) * x == x);
                        } else {
                            assert(side_sign(m2.0) * y == y);
                            assert(side_sign(moving.0) * x == -x);
                        }
                    }
                }
            }
        },
        _ => {},
    }
}

/// The enemy pieces of some classes in the mirrored position, seen from
/// the other side, stand on the mirrored squares.
proof fn lemma_enemy_squares_mirror(
    pos: PositionBoards,
    mirrored: PositionBoards,
    side: Side,
    classes: Seq<Class>,
    k: int,
)
    requires
        mirrored_boards(pos, mirrored),
        k <= classes.len(),
    ensures
        enemy_squares(mirrored, side.other(), classes, k) == reflect_set(
            enemy_squares(pos, side, classes, k),
        ),
        forall|x: int| #[trigger] enemy_squares(pos, side, classes, k).contains(x) ==> 0 <= x < 64,
    decreases k,
{
    if k <= 0 {
        assert(reflect_set(Set::<int>::empty()) =~= Set::<int>::empty());
    } else {
        lemma_enemy_squares_mirror(pos, mirrored, side, classes, k - 1);
        let c = classes[k - 1];
        let i2 = Piece(side.other().other(), c).idx();
        let i1 = Piece(side.other(), c).idx();
        assert((i2 + 6) % 12 == i1);
        assert(mirrored.piece_boards@[i2] == mirror_board(pos.piece_boards@[(i2 + 6) % 12]));
        let b = pos.piece_boards@[i1].0;
        lemma_mirror_bits(b);
        lemma_bits_finite(b);
        let prev = enemy_squares(pos, side, classes, k - 1);
        assert(reflect_set(prev.union(bits(b))) =~= reflect_set(prev).union(reflect_set(bits(b))));
    }
}

/// The occupied squares after the mirrored move in the mirrored position
/// are the mirrored squares.
proof fn lemma_occupied_after_mirror(
    pos: PositionBoards,
    mirrored: PositionBoards,
    from: Square,
    dest: Square,
)
    requires
        mirrored_boards(pos, mirrored),
    ensures
        occupied_after(mirrored, reflect_square(from), reflect_square(dest)) == reflect_set(
            occupied_after(pos, from, dest),
        ),
        occupied_after(pos, from, dest).finite(),
        forall|x: int| #[trigger] occupied_after(pos, from, dest).contains(x) ==> 0 <= x < 64,
{
    let w = pos.side_boards@[0].0;
    let b = pos.side_boards@[1].0;
    lemma_mirror_bits(w);
    lemma_mirror_bits(b);
    lemma_bits_finite(w);
    lemma_bits_finite(b);
    lemma_reflect_coords(from.idx());
    lemma_reflect_coords(dest.idx());
    assert(reflect_square(from).idx() == reflect_idx(from.idx()));
    assert(reflect_square(dest).idx() == reflect_idx(dest.idx()));
    assert forall|x: int|
        #[trigger] occupied_after(mirrored, reflect_square(from), reflect_square(dest)).contains(x)
            <==> reflect_set(occupied_after(pos, from, dest)).contains(x) by {
        if 0 <= x < 64 {
            lemma_reflect_coords(x);
        }
    }
    assert(occupied_after(mirrored, reflect_square(from), reflect_square(dest)) =~= reflect_set(
        occupied_after(pos, from, dest),
    ));
}

/// A quiet slider move lines up with a more valuable enemy piece exactly
/// when the mirrored move does so in the mirrored position.
pub proof fn lemma_positional_xray_mirror(m: Move, pos: PositionBoards, mirrored: PositionBoards)
    requires
        mirrored_boards(pos, mirrored),
    ensures
        positional_xray(m.mirror(), mirrored) == positional_xray(m, pos),
{
    match m {
        Move::Standard { moving, from, dest, capture } => {
            let m2 = Piece(moving.0.other(), moving.1);
            let f2 = reflect_square(from);
            let d2 = reflect_square(dest);
            let class = moving.1;
            let targets = xray_targets(class);
            let n = targets.len() as int;
            lemma_reflect_coords(dest.idx());
            assert(d2.idx() == reflect_idx(dest.idx()));
            lemma_mirror_bits(pos.passive_control.0);
            assert(bits(mirrored.passive_control.0).contains(d2.idx()) == bits(
                pos.passive_control.0,
            ).contains(dest.idx()));
            lemma_mirror_empty();
            lemma_control_mirror(moving, dest.idx(), 0u64);
            lemma_enemy_squares_mirror(pos, mirrored, moving.0, targets, n);
            lemma_occupied_after_mirror(pos, mirrored, from, dest);
            let ctrl = control_set(moving, dest.idx(), 0);
            let enemy = enemy_squares(pos, moving.0, targets, n);
            let occ = occupied_after(pos, from, dest);
            let ctrl2 = control_set(m2, d2.idx(), 0);
            let enemy2 = enemy_squares(mirrored, m2.0, targets, n);
            let occ2 = occupied_after(mirrored, f2, d2);
            assert(ctrl2 == reflect_set(ctrl));
            assert(enemy2 == reflect_set(enemy));
            assert(occ2 == reflect_set(occ));
            assert forall|i: int| 0 <= i < 64 implies (#[trigger] cord_set(dest.idx(), i) == cord_set(
                dest.idx(),
                i,
            )) && occ2.intersect(cord_set(d2.idx(), reflect_idx(i))).len() == occ.intersect(
                cord_set(dest.idx(), i),
            ).len() by {
                lemma_cord_mirror(dest.idx(), i);
                let a = occ.intersect(cord_set(dest.idx(), i));
                assert(occ2.intersect(cord_set(d2.idx(), reflect_idx(i))) =~= reflect_set(a));
                lemma_reflect_set_len(a);
            }
            if positional_xray(m, pos) {
                let i = choose|i: int|
                    #![trigger cord_set(dest.idx(), i)]
                    ctrl.contains(i) && enemy.contains(i) && occ.intersect(cord_set(dest.idx(), i)).len()
                        < 4;
                lemma_reflect_coords(i);
                let j = reflect_idx(i);
                assert(ctrl2.contains(j));
                assert(enemy2.contains(j));
                assert(occ2.intersect(cord_set(d2.idx(), j)).len() < 4);
            }
            if positional_xray(m.mirror(), mirrored) {
                let j = choose|j: int|
                    #![trigger cord_set(d2.idx(), j)]
                    ctrl2.contains(j) && enemy2.contains(j) && occ2.intersect(cord_set(d2.idx(), j)).len()
                        < 4;
                lemma_reflect_coords(j);
                let i = reflect_idx(j);
                assert(reflect_idx(i) == j);
                assert(ctrl.contains(i));
                assert(enemy.contains(i));
                assert(occ.intersect(cord_set(dest.idx(), i)).len() < 4);
            }
        },
        _ => {},
    }
}

} // verus!
