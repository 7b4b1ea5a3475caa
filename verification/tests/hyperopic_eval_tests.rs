use myopic::base::castlezone::CastleZone;
use myopic::base::pieces::{Class, Piece};
use myopic::base::square::Square;
use myopic::base::square::Square::{
    A5, A7, B1, B5, B7, B8, C1, C2, C3, C4, C5, C6, C8, D1, D2, D4, D5, D6, D7, D8, E2, E3, E4,
    E5, E7, F1, F3, F5, F6, F8, G1, G2, G3, G8, H6, H7,
};
use myopic::base::types::Side;
use myopic::brain::moves::Move;
use myopic::hyperopic::eval::castling::CastlingFacet;
use myopic::hyperopic::eval::development::DevelopmentFacet;
use rustc_hash::FxHashSet;

fn quiet(side: Side, class: Class, from: Square, dest: Square) -> Move {
    Move::Standard { moving: Piece(side, class), from, dest, capture: None }
}

fn castle(corner: CastleZone) -> Move {
    Move::Castle { corner }
}

/// Plays the moves one by one, checking the castling status after each,
/// then takes them back and checks the statuses again.
fn check_evolution(moves: Vec<Move>, expected: Vec<[bool; 2]>) {
    assert_eq!(moves.len(), expected.len());
    let mut facet = CastlingFacet::default();
    for (mv, status) in moves.iter().zip(expected.iter()) {
        facet.make(mv);
        assert_eq!(*status, facet.castling_status);
    }
    for k in (0..moves.len()).rev() {
        facet.unmake(&moves[k]);
        let before = if k == 0 { [false, false] } else { expected[k - 1] };
        assert_eq!(before, facet.castling_status);
    }
    assert_eq!(CastlingFacet::default(), facet);
}

#[test]
fn castling_penalty_by_rights_left() {
    let under_test = CastlingFacet { penalty: 100, castling_status: [false, false] };

    assert_eq!(200, under_test.penalty(Side::W, 0));
    assert_eq!(200, under_test.penalty(Side::B, 0));

    assert_eq!(100, under_test.penalty(Side::W, 1));
    assert_eq!(100, under_test.penalty(Side::B, 1));

    assert_eq!(0, under_test.penalty(Side::W, 2));
    assert_eq!(0, under_test.penalty(Side::B, 2));
}

#[test]
fn castling_penalty_after_castling() {
    let under_test = CastlingFacet { penalty: 100, castling_status: [true, false] };
    assert_eq!(0, under_test.penalty(Side::W, 0));
    assert_eq!(200, under_test.penalty(Side::B, 0));
}

#[test]
fn castling_static_eval_by_rights() {
    let facet = CastlingFacet::default();
    assert_eq!(70, facet.penalty);
    assert_eq!(0, facet.static_eval([true, true, true, true]));
    assert_eq!(-70, facet.static_eval([false, true, true, true]));
    assert_eq!(140, facet.static_eval([true, true, false, false]));
    let castled = CastlingFacet { penalty: 70, castling_status: [true, false] };
    assert_eq!(70, castled.static_eval([false, false, true, false]));
}

#[test]
fn castling_status_queenside_game() {
    let moves = vec![
        quiet(Side::W, Class::P, D2, D4),
        quiet(Side::B, Class::P, D7, D5),
        quiet(Side::W, Class::B, C1, E3),
        quiet(Side::B, Class::B, C8, F5),
        quiet(Side::W, Class::N, B1, C3),
        quiet(Side::B, Class::Q, D8, D6),
        quiet(Side::W, Class::Q, D1, D2),
        quiet(Side::B, Class::N, B8, C6),
        castle(CastleZone::WQ),
        castle(CastleZone::BQ),
        quiet(Side::W, Class::P, G2, G3),
        quiet(Side::B, Class::P, H7, H6),
    ];
    let expected = vec![
        [false, false],
        [false, false],
        [false, false],
        [false, false],
        [false, false],
        [false, false],
        [false, false],
        [false, false],
        [true, false],
        [true, true],
        [true, true],
        [true, true],
    ];
    check_evolution(moves, expected);
}

#[test]
fn castling_status_kingside_game() {
    let moves = vec![
        quiet(Side::W, Class::P, E2, E4),
        quiet(Side::B, Class::P, E7, E5),
        quiet(Side::W, Class::B, F1, E2),
        quiet(Side::B, Class::B, F8, E7),
        quiet(Side::W, Class::N, G1, F3),
        quiet(Side::B, Class::N, G8, F6),
        castle(CastleZone::WK),
        castle(CastleZone::BK),
        quiet(Side::W, Class::P, C2, C4),
        quiet(Side::B, Class::P, A7, A5),
    ];
    let expected = vec![
        [false, false],
        [false, false],
        [false, false],
        [false, false],
        [false, false],
        [false, false],
        [true, false],
        [true, true],
        [true, true],
        [true, true],
    ];
    check_evolution(moves, expected);
}

fn capture(side: Side, class: Class, from: Square, dest: Square, taken: Class) -> Move {
    Move::Standard {
        moving: Piece(side, class),
        from,
        dest,
        capture: Some(Piece(if side == Side::W { Side::B } else { Side::W }, taken)),
    }
}

fn opening_game() -> Vec<Move> {
    vec![
        quiet(Side::W, Class::P, E2, E4),
        quiet(Side::B, Class::P, E7, E5),
        quiet(Side::W, Class::N, G1, F3),
        quiet(Side::B, Class::N, B8, C6),
        quiet(Side::W, Class::B, F1, B5),
        quiet(Side::B, Class::N, G8, F6),
        capture(Side::W, Class::B, B5, C6, Class::N),
        capture(Side::B, Class::P, B7, C6, Class::B),
        quiet(Side::W, Class::P, D2, D4),
        capture(Side::B, Class::P, E5, D4, Class::P),
        capture(Side::W, Class::N, F3, D4, Class::P),
        quiet(Side::B, Class::B, F8, C5),
        quiet(Side::W, Class::B, C1, E3),
        quiet(Side::B, Class::B, C8, B7),
        quiet(Side::W, Class::N, B1, C3),
        quiet(Side::B, Class::P, D7, D6),
    ]
}

#[test]
fn development_records_first_moves() {
    let moves = opening_game();
    let mut facet = DevelopmentFacet::default();
    for mv in moves.iter().take(6) {
        facet.make(mv);
    }
    assert_eq!(6, facet.move_index);
    assert_eq!(
        [Some(0), None, None, Some(2), None, Some(4), Some(1), None, Some(3), Some(5), None, None],
        facet.pieces_moved
    );
    assert_eq!(3, facet.undeveloped_count(Side::W));
    assert_eq!(3, facet.undeveloped_count(Side::B));
    assert!(facet.dev_indices.contains(&4));
    assert!(!facet.dev_indices.contains(&6));
    for mv in moves.iter().skip(6) {
        facet.make(mv);
    }
    assert_eq!(16, facet.move_index);
    assert_eq!(
        [
            Some(0),
            Some(8),
            Some(14),
            Some(2),
            Some(12),
            Some(4),
            Some(1),
            Some(15),
            Some(3),
            Some(5),
            Some(13),
            Some(11)
        ],
        facet.pieces_moved
    );
    assert_eq!(0, facet.undeveloped_count(Side::W));
    assert_eq!(0, facet.undeveloped_count(Side::B));
    assert_eq!(12, facet.dev_indices.len());
    assert!(!facet.dev_indices.contains(&6));
    assert!(!facet.dev_indices.contains(&10));
}

#[test]
fn development_unmake_takes_back() {
    let moves = opening_game();
    let mut facet = DevelopmentFacet::default();
    for mv in moves.iter() {
        facet.make(mv);
    }
    facet.unmake(&moves[15]);
    assert_eq!(None, facet.pieces_moved[7]);
    assert!(!facet.dev_indices.contains(&15));
    assert_eq!(1, facet.undeveloped_count(Side::B));
    for mv in moves.iter().take(15).rev() {
        facet.unmake(mv);
    }
    assert_eq!(DevelopmentFacet::default(), facet);
}

#[test]
fn development_match_needs_recorded_index() {
    let mut facet = DevelopmentFacet::default();
    facet.pieces_moved[0] = Some(3);
    assert_eq!(None, facet.matching_piece(3));
    let mut indices = FxHashSet::default();
    indices.insert(3usize);
    facet.dev_indices = indices;
    assert_eq!(Some(0), facet.matching_piece(3));
    assert_eq!(None, facet.matching_piece(4));
}
