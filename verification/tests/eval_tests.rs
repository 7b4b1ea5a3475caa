use myopic::base::bitboard::BitBoard;
use myopic::base::castlezone::CastleZone;
use myopic::base::pieces::{Class, Piece};
use myopic::base::reflect::Reflectable;
use myopic::base::square::Square;
use myopic::base::square::Square::{
    A1, A2, A4, A5, A7, A8, B1, B3, B6, B7, B8, C2, C3, C4, C5, C6, C7, D2, D3, D4, D5, D6, D7,
    E1, E2, E3, E4, E7, E8, F2, F4, F7, G2, G6, G7, H1, H2, H7, H8,
};
use myopic::base::types::Side;
use myopic::brain::eval::pawns::count_backward_pawns;
use myopic::brain::eval::tables::{PieceSquareTablesFacet, PositionTables};
use myopic::brain::eval::Evaluation;
use myopic::brain::moves::Move;

// Fully connected pawn table
const PAWN: [(i32, i32); 64] = [
    (0, 0), (0, 0), (0, 0), (0, 0), (0, 0), (0, 0), (0, 0), (0, 0),
    (-5, -19), (7, -5), (19, 7), (-20, -20), (-20, -20), (10, 10), (3, -6), (3, -10),
    (-22, -4), (5, -6), (22, 3), (32, 4), (15, 4), (11, -10), (-15, -10), (-9, -10),
    (-12, -9), (4, -10), (17, -12), (40, -13), (20, -4), (6, -8), (-23, -2), (-8, 6),
    (5, 8), (-13, 13), (-2, -6), (11, -12), (1, -12), (-13, 3), (0, 4), (13, 9),
    (-18, 13), (-15, 6), (-5, 7), (-8, 30), (22, 28), (-7, 21), (-12, 20), (-5, 28),
    (-8, 7), (10, 4), (-16, 19), (5, 25), (-13, 21), (-3, 12), (7, -11), (-7, 0),
    (0, 0), (0, 0), (0, 0), (0, 0), (0, 0), (0, 0), (0, 0), (0, 0),
];

#[test]
fn test_pawn_table_conjunction() {
    let tables = PositionTables::default();
    for i in 0..64 {
        assert_eq!(PAWN[i as usize].0, tables.midgame(Piece(Side::W, Class::P), Square::from_index(i)))
    }
}

#[test]
fn test_reflect() {
    assert_eq!(A8, A1.reflect());
    assert_eq!(H1, H8.reflect());
    assert_eq!(D3, D6.reflect());
    assert_eq!(D5, D4.reflect());
}

#[test]
fn test_midgame() {
    let tables = PositionTables::default();
    assert_eq!(-7, tables.midgame(Piece(Side::W, Class::P), C6));
    assert_eq!(7, tables.midgame(Piece(Side::B, Class::P), C3));

    assert_eq!(19, tables.midgame(Piece(Side::W, Class::N), D3));
    assert_eq!(-19, tables.midgame(Piece(Side::B, Class::N), D6));

    assert_eq!(26, tables.midgame(Piece(Side::W, Class::B), C4));
    assert_eq!(-26, tables.midgame(Piece(Side::B, Class::B), C5));

    assert_eq!(-5, tables.midgame(Piece(Side::W, Class::R), F2));
    assert_eq!(5, tables.midgame(Piece(Side::B, Class::R), F7));

    assert_eq!(6, tables.midgame(Piece(Side::W, Class::Q), B3));
    assert_eq!(-6, tables.midgame(Piece(Side::B, Class::Q), B6));

    assert_eq!(325, tables.midgame(Piece(Side::W, Class::K), B1));
    assert_eq!(-325, tables.midgame(Piece(Side::B, Class::K), B8));
}

#[test]
fn test_endgame() {
    let tables = PositionTables::default();
    assert_eq!(21, tables.endgame(Piece(Side::W, Class::P), C6));
    assert_eq!(-21, tables.endgame(Piece(Side::B, Class::P), C3));

    assert_eq!(-18, tables.endgame(Piece(Side::W, Class::N), E1));
    assert_eq!(18, tables.endgame(Piece(Side::B, Class::N), E8));

    assert_eq!(16, tables.endgame(Piece(Side::W, Class::B), D4));
    assert_eq!(-16, tables.endgame(Piece(Side::B, Class::B), D5));

    assert_eq!(-2, tables.endgame(Piece(Side::W, Class::R), D3));
    assert_eq!(2, tables.endgame(Piece(Side::B, Class::R), D6));

    assert_eq!(-23, tables.endgame(Piece(Side::W, Class::Q), A4));
    assert_eq!(23, tables.endgame(Piece(Side::B, Class::Q), A5));

    assert_eq!(141, tables.endgame(Piece(Side::W, Class::K), D7));
    assert_eq!(-141, tables.endgame(Piece(Side::B, Class::K), D2));
}

fn or_all(squares: &[Square]) -> BitBoard {
    BitBoard::from_squares(&squares.to_vec())
}

fn execute_backward_test(whites: BitBoard, blacks: BitBoard, expected: i32) {
    assert_eq!(count_backward_pawns(whites, blacks), expected);
    assert_eq!(count_backward_pawns(blacks.reflect(), whites.reflect()), -expected);
}

#[test]
fn pawns_case_0() {
    execute_backward_test(
        or_all(&[A2, myopic::base::square::Square::B2, C2, D2, E2, F2, G2, H2]),
        or_all(&[A7, B7, C7, D7, E7, F7, G7, H7]),
        0,
    );
}

#[test]
fn pawns_case_1() {
    execute_backward_test(
        or_all(&[C3, D2, E3, F2, G2, H2]),
        or_all(&[A7, B7, C7, D7, E7, F7, G7, H7]),
        1,
    );
}

#[test]
fn case_2() {
    execute_backward_test(
        or_all(&[C3, D2, F2, G2, H2]),
        or_all(&[A7, B7, C7, D7, E7, F7, G7, H7]),
        1,
    );
}

#[test]
fn case_3() {
    execute_backward_test(or_all(&[A2, C3, D2, F4, G2]), or_all(&[C7, D6, E7, F7, G6, H7]), 1);
}

fn start_locs() -> [Option<Piece>; 64] {
    let mut locs = [None; 64];
    let back = [Class::R, Class::N, Class::B, Class::K, Class::Q, Class::B, Class::N, Class::R];
    for f in 0..8 {
        locs[f] = Some(Piece(Side::W, back[f]));
        locs[8 + f] = Some(Piece(Side::W, Class::P));
        locs[48 + f] = Some(Piece(Side::B, Class::P));
        locs[56 + f] = Some(Piece(Side::B, back[f]));
    }
    locs
}

#[test]
fn tables_facet_start_position_is_balanced() {
    let facet = PieceSquareTablesFacet::from_locs(&start_locs());
    assert_eq!(Evaluation::Phased { mid: 0, end: 0 }, facet.static_eval());
}

#[test]
fn tables_facet_make_then_unmake() {
    let mut facet = PieceSquareTablesFacet::from_locs(&start_locs());
    let mv = Move::Standard { moving: Piece(Side::W, Class::P), from: E2, dest: E4, capture: None };
    facet.make(&mv);
    let tables = PositionTables::default();
    let p = Piece(Side::W, Class::P);
    let expected_mid = tables.midgame(p, E4) - tables.midgame(p, E2);
    let expected_end = tables.endgame(p, E4) - tables.endgame(p, E2);
    assert_eq!(Evaluation::Phased { mid: expected_mid, end: expected_end }, facet.static_eval());
    facet.unmake(&mv);
    assert_eq!(Evaluation::Phased { mid: 0, end: 0 }, facet.static_eval());
}

#[test]
fn tables_facet_castle() {
    let mut facet = PieceSquareTablesFacet::default();
    facet.make(&Move::Castle { corner: CastleZone::WK });
    let t = PositionTables::default();
    let (r, k) = (Piece(Side::W, Class::R), Piece(Side::W, Class::K));
    let mid = t.midgame(r, myopic::base::square::Square::F1) - t.midgame(r, H1)
        + t.midgame(k, myopic::base::square::Square::G1) - t.midgame(k, E1);
    match facet.static_eval() {
        Evaluation::Phased { mid: m, .. } => assert_eq!(mid, m),
        _ => panic!("expected a phased evaluation"),
    }
}
