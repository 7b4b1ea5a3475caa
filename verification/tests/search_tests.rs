use myopic::base::bitboard::BitBoard;
use myopic::base::castlezone::{CastleZone, CastleZoneSet};
use myopic::base::pieces::{Class, Piece};
use myopic::base::reflect::Reflectable;
use myopic::base::square::Square;
use myopic::base::square::Square::{
    A3, B5, C3, C6, D4, D5, E2, E4, E5, E7, F1, F3, G3, H3,
};
use myopic::base::types::Side;
use myopic::brain::eval::antipattern::KnightRimFacet;
use myopic::brain::eval::castling::CastlingFacet;
use myopic::brain::moves::Move;
use myopic::hyperopic::eval::safety::{compute_safety_counts, SafetyCounts};
use myopic::hyperopic::search::moves::{
    compute_control, generate, get_lower_value_pieces, get_positional_xray_targets, is_attack,
    is_checking, is_passed_pawn, is_positional_xray, search_move, PositionBoards, SearchMove,
};
use myopic::hyperopic::search::pv::PrincipleVariation;
use myopic::brain::search::negascout::{can_break_early, is_psuedo_legal};
use myopic::hyperopic::search::search::{arrange_moves, is_pseudo_legal, PositionView};
use myopic::hyperopic::Symmetric;

#[test]
fn castling_evaluation_not_castled() {
    let under_test = CastlingFacet { penalty: 100, castling_status: [None, None] };
    let none = CastleZoneSet::empty();
    let mut wk = CastleZoneSet::empty();
    wk.insert(CastleZone::WK);
    let mut bk = CastleZoneSet::empty();
    bk.insert(CastleZone::BK);

    assert_eq!(200, under_test.penalty(Side::W, &none));
    assert_eq!(200, under_test.penalty(Side::B, &none));

    assert_eq!(100, under_test.penalty(Side::W, &wk));
    assert_eq!(200, under_test.penalty(Side::B, &wk));

    assert_eq!(200, under_test.penalty(Side::W, &bk));
    assert_eq!(100, under_test.penalty(Side::B, &bk));
}

#[test]
fn castling_facet_make_unmake() {
    let mut facet = CastlingFacet::default();
    let castle = Move::Castle { corner: CastleZone::WQ };
    facet.make(&castle);
    assert_eq!([Some(CastleZone::WQ), None], facet.castling_status);
    assert_eq!(0, facet.penalty(Side::W, &CastleZoneSet::empty()));
    facet.unmake(&castle);
    assert_eq!(CastlingFacet::default(), facet);
}

#[test]
fn evaluation() {
    let facet = KnightRimFacet {
        penalty: 75,
        move_index: 9,
        first_move: [Some((3, C3)), Some((3, H3)), Some((3, C6)), None],
    };
    assert_eq!(-75, facet.static_eval());
}

#[test]
fn knight_rim_make_unmake() {
    let start = KnightRimFacet::default();
    let mut facet = start;
    let to_rim = Move::Standard {
        moving: Piece(Side::W, Class::N),
        from: Square::B1,
        dest: A3,
        capture: None,
    };
    facet.make(&to_rim);
    assert_eq!(Some((0, A3)), facet.first_move[0]);
    assert_eq!(-80, facet.static_eval());
    facet.unmake(&to_rim);
    assert_eq!(start, facet);
}

fn normal(moving: Piece, from: Square, dest: Square) -> Move {
    Move::Standard { moving, from, dest, capture: None }
}

#[test]
fn in_pv_test() {
    let path = vec![
        normal(Piece(Side::W, Class::P), E2, E4),
        normal(Piece(Side::B, Class::P), E5, E7),
        normal(Piece(Side::W, Class::N), F1, G3),
    ];

    let mut pv = PrincipleVariation::default();
    pv.set(&path[..2]);

    assert!(pv.in_pv(&[]));
    assert!(pv.in_pv(&path[..1]));
    assert!(pv.in_pv(&path[..2]));
    assert!(pv.in_pv(path.as_slice()));
}

#[test]
fn pv_next_move() {
    let path = vec![
        normal(Piece(Side::W, Class::P), E2, E4),
        normal(Piece(Side::B, Class::P), E7, E5),
        normal(Piece(Side::W, Class::N), Square::G1, F3),
    ];
    let mut pv = PrincipleVariation::default();
    pv.set(&path);
    assert_eq!(Some(path[0]), pv.get_next_move(&[]));
    assert_eq!(Some(path[2]), pv.get_next_move(&path[..2]));
    assert_eq!(None, pv.get_next_move(&path));
    assert_eq!(None, pv.get_next_move(&[path[1]]));
    assert!(!pv.in_pv(&[path[1]]));
}

#[test]
fn tactical_moves() {
    let quiet = SearchMove {
        m: Move::Null,
        is_attack: false,
        is_check: false,
        is_promoting: false,
        is_passed_pawn: false,
        is_positional_xray: false,
    };
    assert!(!quiet.is_tactical());
    assert!(SearchMove { is_check: true, ..quiet }.is_tactical());
    assert!(is_attack(&Move::Enpassant { side: Side::W, from: E5, dest: D4, capture: D5 }));
    assert!(!is_attack(&normal(Piece(Side::W, Class::P), E2, E4)));
    assert_eq!(vec![Class::Q, Class::K], get_positional_xray_targets(Class::R));
    assert_eq!(vec![Class::P, Class::N, Class::B], get_lower_value_pieces(Class::R));
}

fn square_at(file: usize, rank: usize) -> Square {
    Square::from_index(rank * 8 + (7 - file))
}

fn class_of(c: char) -> Class {
    match c.to_ascii_lowercase() {
        'p' => Class::P,
        'n' => Class::N,
        'b' => Class::B,
        'r' => Class::R,
        'q' => Class::Q,
        _ => Class::K,
    }
}

fn piece_slot(p: Piece) -> usize {
    let s = match p.0 {
        Side::W => 0,
        Side::B => 6,
    };
    s + p.1.index()
}

fn with_control(mut pos: PositionBoards, passive: Side) -> PositionBoards {
    let mut control = BitBoard::empty();
    for class in [Class::P, Class::N, Class::B, Class::R, Class::Q, Class::K] {
        control = control | compute_control(&pos, Piece(passive, class));
    }
    pos.passive_control = control;
    pos
}

fn position(fen: &str) -> (PositionBoards, Side) {
    let mut pos = PositionBoards {
        piece_boards: [BitBoard::empty(); 12],
        side_boards: [BitBoard::empty(); 2],
        passive_control: BitBoard::empty(),
    };
    let mut parts = fen.split(' ');
    let placement = parts.next().unwrap();
    for (r, row) in placement.split('/').enumerate() {
        let rank = 7 - r;
        let mut file = 0;
        for c in row.chars() {
            if let Some(d) = c.to_digit(10) {
                file += d as usize;
            } else {
                let side = if c.is_ascii_uppercase() { Side::W } else { Side::B };
                let piece = Piece(side, class_of(c));
                let sq = square_at(file, rank);
                pos.piece_boards[piece_slot(piece)] = pos.piece_boards[piece_slot(piece)] | sq;
                let s = if side == Side::W { 0 } else { 1 };
                pos.side_boards[s] = pos.side_boards[s] | sq;
                file += 1;
            }
        }
    }
    let active = if parts.next().unwrap() == "w" { Side::W } else { Side::B };
    (with_control(pos, active.reflect()), active)
}

fn reflect_position(pos: &PositionBoards, active: Side) -> PositionBoards {
    let mut r = PositionBoards {
        piece_boards: [BitBoard::empty(); 12],
        side_boards: [pos.side_boards[1].reflect(), pos.side_boards[0].reflect()],
        passive_control: BitBoard::empty(),
    };
    for i in 0..12 {
        r.piece_boards[(i + 6) % 12] = pos.piece_boards[i].reflect();
    }
    with_control(r, active)
}

fn execute_test(fen: &str, m: Move, p: fn(&Move, &PositionBoards) -> bool, expected: bool) {
    let (pos, active) = position(fen);
    let ref_p = reflect_position(&pos, active);
    let ref_m = m.reflect();
    assert_eq!(p(&m, &pos), expected);
    assert_eq!(p(&ref_m, &ref_p), expected);
}

#[test]
fn is_positional_xray_case_0() {
    execute_test(
        "rnbqk2r/pp3pp1/2n2b1p/8/3PN3/1Q3N2/PP3PPP/R3KB1R w KQkq - 1 11",
        normal(Piece(Side::W, Class::B), F1, B5),
        is_positional_xray,
        true,
    )
}

#[test]
fn is_positional_xray_case_1() {
    execute_test(
        "r1bqk2r/pp1n1pp1/2n2b1p/8/3PN3/1Q3N2/PP3PPP/R3KB1R w KQkq - 1 11",
        normal(Piece(Side::W, Class::B), F1, B5),
        is_positional_xray,
        false,
    )
}

#[test]
fn is_positional_xray_case_2() {
    execute_test(
        "rnbqk2r/pp3pp1/2p2b1p/8/3PN3/1Q3N2/PP3PPP/R3KB1R w KQkq - 1 11",
        normal(Piece(Side::W, Class::B), F1, B5),
        is_positional_xray,
        false,
    )
}

#[test]
fn is_passed_pawn_case_0() {
    execute_test(
        "rnbqk2r/pp3pp1/2p2b1p/8/2BPN3/1Q3N2/PP3PPP/R3K2R w KQkq - 2 11",
        normal(Piece(Side::W, Class::P), D4, D5),
        is_passed_pawn,
        false,
    )
}

#[test]
fn is_passed_pawn_case_1() {
    execute_test(
        "rnbqk2r/pp3pp1/5b1p/2p5/2BPN3/1Q3N2/PP3PPP/R3K2R w KQkq - 0 12",
        normal(Piece(Side::W, Class::P), D4, D5),
        is_passed_pawn,
        true,
    )
}

#[test]
fn is_passed_pawn_case_2() {
    execute_test(
        "rnbqk2r/pp3pp1/3p1b1p/2p5/2BPN3/1Q3N2/PP3PPP/R3K2R w KQkq - 0 12",
        normal(Piece(Side::W, Class::P), D4, D5),
        is_passed_pawn,
        false,
    )
}

fn execute_safety_test(fen: &str, side: Side, expected: SafetyCounts) {
    let (pos, active) = position(fen);
    assert_eq!(compute_safety_counts(&pos, side), expected);
    let reflected = reflect_position(&pos, active);
    assert_eq!(compute_safety_counts(&reflected, side.reflect()), expected);
}

#[test]
fn safety_case_0() {
    execute_safety_test(
        "4r1k1/2qbbp1p/2p2npB/2p1p3/r1PpP3/3P1N1P/P1N2PP1/R1Q2R1K b - - 1 20",
        Side::B,
        SafetyCounts { total_control: 2, attacker_count: 1 },
    )
}

#[test]
fn safety_case_1() {
    execute_safety_test(
        "4r1k1/2qbbp1p/2p2QpB/2p1p3/r1PpP3/3P1N1P/P1N2PP1/R4R1K b - - 1 20",
        Side::B,
        SafetyCounts { total_control: 4, attacker_count: 2 },
    )
}

fn view(fen: &str, rights: CastleZoneSet, enpassant: Option<Square>) -> PositionView {
    let (pos, active) = position(fen);
    let mut locs = [None; 64];
    for i in 0..12 {
        for sq in pos.piece_boards[i].iter() {
            let side = if i < 6 { Side::W } else { Side::B };
            let class = [Class::P, Class::N, Class::B, Class::R, Class::Q, Class::K][i % 6];
            locs[sq.index()] = Some(Piece(side, class));
        }
    }
    PositionView {
        piece_locs: locs,
        whites: pos.side_boards[0],
        blacks: pos.side_boards[1],
        castling_rights: rights,
        enpassant,
        active,
    }
}

#[test]
fn pseudo_legal_moves() {
    let start = "rnbqkbnr/pppppppp/8/8/8/8/PPPPPPPP/RNBQKBNR w KQkq - 0 1";
    let pos = view(start, CastleZoneSet::all(), None);
    assert!(is_pseudo_legal(&pos, &normal(Piece(Side::W, Class::P), E2, E4)));
    assert!(!is_pseudo_legal(&pos, &normal(Piece(Side::W, Class::P), E2, E5)));
    assert!(!is_pseudo_legal(&pos, &normal(Piece(Side::W, Class::N), E2, E4)));
    assert!(is_pseudo_legal(&pos, &Move::Castle { corner: CastleZone::WK }));
    assert!(!is_pseudo_legal(&pos, &Move::Null));
    let no_rights = view(start, CastleZoneSet::empty(), None);
    assert!(!is_pseudo_legal(&no_rights, &Move::Castle { corner: CastleZone::WK }));
    let ep = Move::Enpassant { side: Side::W, from: E5, dest: myopic::base::square::Square::D6, capture: D5 };
    assert!(is_pseudo_legal(&view(start, CastleZoneSet::empty(), Some(D5)), &ep));
    assert!(!is_pseudo_legal(&pos, &ep));
}

#[test]
fn checking_moves() {
    let (pos, _) = position("4k3/8/8/8/8/8/8/3QK2R w K - 0 1");
    let lines = [BitBoard::empty(); 64];
    let king = myopic::base::square::Square::E8;
    let d1 = myopic::base::square::Square::D1;
    let d7 = myopic::base::square::Square::D7;
    let d6 = D6_SQ;
    assert!(is_checking(&normal(Piece(Side::W, Class::Q), d1, d7), &lines, king, pos.side_boards[0] | pos.side_boards[1]));
    assert!(!is_checking(&normal(Piece(Side::W, Class::Q), d1, d6), &lines, king, pos.side_boards[0] | pos.side_boards[1]));
    let (pos2, _) = position("5k2/8/8/8/8/8/8/4K2R w K - 0 1");
    let occupied = pos2.side_boards[0] | pos2.side_boards[1];
    let f8 = myopic::base::square::Square::F8;
    assert!(is_checking(&Move::Castle { corner: CastleZone::WK }, &lines, f8, occupied));
    let sm = search_move(&normal(Piece(Side::W, Class::Q), d1, d7), &pos, &lines, king);
    assert!(sm.is_check && sm.is_tactical() && !sm.is_attack);
}

const D6_SQ: Square = Square::D6;

#[test]
fn psuedo_legal_by_control() {
    let start = "rnbqkbnr/pppppppp/8/8/8/8/PPPPPPPP/RNBQKBNR w KQkq - 0 1";
    let pos = view(start, CastleZoneSet::all(), None);
    // A pawn push is not a square the pawn controls.
    assert!(!is_psuedo_legal(&pos, &normal(Piece(Side::W, Class::P), E2, E4)));
    let g1 = Square::G1;
    assert!(is_psuedo_legal(&pos, &normal(Piece(Side::W, Class::N), g1, F3)));
    assert!(!is_psuedo_legal(&pos, &normal(Piece(Side::W, Class::N), E2, E4)));
    assert!(is_psuedo_legal(&pos, &Move::Castle { corner: CastleZone::WK }));
    assert!(is_psuedo_legal(&pos, &Move::Castle { corner: CastleZone::BQ }));
    assert!(!is_psuedo_legal(&pos, &Move::Null));
    let no_rights = view(start, CastleZoneSet::empty(), None);
    assert!(!is_psuedo_legal(&no_rights, &Move::Castle { corner: CastleZone::WK }));
    let takes = view("4k3/8/8/3p4/4P3/8/8/4K3 w - - 0 1", CastleZoneSet::empty(), None);
    let exd5 = Move::Standard {
        moving: Piece(Side::W, Class::P),
        from: E4,
        dest: D5,
        capture: Some(Piece(Side::B, Class::P)),
    };
    assert!(is_psuedo_legal(&takes, &exd5));
    assert!(can_break_early(&takes, &exd5, false));
    assert!(!can_break_early(&takes, &exd5, true));
}

#[test]
fn generated_moves_best_estimate_first() {
    let (pos, _) = position("4k3/8/8/8/8/8/8/3QK2R w K - 0 1");
    let lines = [BitBoard::empty(); 64];
    let king = Square::E8;
    let d1 = Square::D1;
    let qd7 = normal(Piece(Side::W, Class::Q), d1, Square::D7);
    let qd6 = normal(Piece(Side::W, Class::Q), d1, D6_SQ);
    let castle = Move::Castle { corner: CastleZone::WK };
    let moves = generate(&vec![(10, qd6), (30, castle), (10, qd7)], &pos, &lines, king);
    let order: Vec<Move> = moves.iter().map(|sm| sm.m).collect();
    assert_eq!(vec![castle, qd6, qd7], order);
    assert!(!moves[1].is_check);
    assert!(moves[2].is_check);
}

#[test]
fn arranged_moves_pv_first() {
    let (pos, _) = position("4k3/8/8/8/8/8/8/3QK2R w K - 0 1");
    let lines = [BitBoard::empty(); 64];
    let king = Square::E8;
    let d1 = Square::D1;
    let qd7 = normal(Piece(Side::W, Class::Q), d1, Square::D7);
    let qd6 = normal(Piece(Side::W, Class::Q), d1, D6_SQ);
    let castle = Move::Castle { corner: CastleZone::WK };
    let mut moves = generate(&vec![(30, castle), (20, qd6), (10, qd7)], &pos, &lines, king);
    arrange_moves(&mut moves, Some(qd7), None, Some(qd6));
    let order: Vec<Move> = moves.iter().map(|sm| sm.m).collect();
    assert_eq!(vec![qd6, qd7, castle], order);
    arrange_moves(&mut moves, None, Some(castle), Some(Move::Null));
    let order: Vec<Move> = moves.iter().map(|sm| sm.m).collect();
    assert_eq!(vec![castle, qd6, qd7], order);
}
