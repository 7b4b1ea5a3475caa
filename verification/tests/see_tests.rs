use myopic::base::bitboard::BitBoard;
use myopic::base::pieces::{Class, Piece};
use myopic::base::reflect::Reflectable;
use myopic::base::square::Square;
use myopic::base::square::Square::{
    B5, C3, C5, C6, C8, D3, D4, D6, D7, E3, E4, E6, F4, F5, G3, H3, H6, H7,
};
use myopic::base::types::Side;
use myopic::brain::see::{exchange_value, BoardPieces};

fn dummy_values() -> [i32; 6] {
    [1, 3, 3, 5, 9, 1000]
}

fn class_of(c: char) -> Class {
    match c.to_ascii_lowercase() {
        'p' => Class::P,
        'n' => Class::N,
        'b' => Class::B,
        'r' => Class::R,
        'q' => Class::Q,
        _ => Class::K,
    }
}

fn board_of(locs: [Option<Piece>; 64]) -> BoardPieces {
    let mut b = BoardPieces {
        piece_locs: locs,
        piece_boards: [BitBoard::empty(); 12],
        side_boards: [BitBoard::empty(); 2],
    };
    for i in 0..64 {
        if let Some(p) = locs[i] {
            let sq = Square::from_index(i);
            b.piece_boards[p.index()] = b.piece_boards[p.index()] | sq;
            let s = if p.0 == Side::W { 0 } else { 1 };
            b.side_boards[s] = b.side_boards[s] | sq;
        }
    }
    b
}

fn parse(fen: &str) -> BoardPieces {
    let mut locs = [None; 64];
    let placement = fen.split(' ').next().unwrap();
    for (r, row) in placement.split('/').enumerate() {
        let rank = 7 - r;
        let mut file = 0;
        for c in row.chars() {
            if let Some(d) = c.to_digit(10) {
                file += d as usize;
            } else {
                let side = if c.is_ascii_uppercase() { Side::W } else { Side::B };
                locs[rank * 8 + (7 - file)] = Some(Piece(side, class_of(c)));
                file += 1;
            }
        }
    }
    board_of(locs)
}

fn reflect_board(b: &BoardPieces) -> BoardPieces {
    let mut locs = [None; 64];
    for i in 0..64 {
        if let Some(p) = b.piece_locs[i] {
            let sq = Square::from_index(i).reflect();
            locs[sq.index()] = Some(p.reflect());
        }
    }
    board_of(locs)
}

fn execute_case_impl(board: &BoardPieces, expected: &[(Square, Square, i32)]) {
    for &(source, target, expected_value) in expected {
        assert_eq!(
            expected_value,
            exchange_value(board, source, target, &dummy_values()),
            "Source: {:?}, target: {:?}",
            source,
            target
        )
    }
}

fn execute_case(fen: &str, expected: Vec<(Square, Square, i32)>) {
    let board = parse(fen);
    execute_case_impl(&board, &expected);
    let reflected: Vec<(Square, Square, i32)> =
        expected.iter().map(|&(s, t, v)| (s.reflect(), t.reflect(), v)).collect();
    execute_case_impl(&reflect_board(&board), &reflected);
}

#[test]
fn see_see_case_1() {
    execute_case(
        "1b5k/5n2/3p2q1/2P5/8/3R4/1K1Q4/8 w KQkq - 5 20",
        vec![(C5, D6, 0), (D3, D6, -2)],
    )
}

#[test]
fn see_see_case_2() {
    execute_case(
        "k7/6n1/2q1b2R/1P3P2/5N2/4Q3/8/K7 w KQkq - 10 30",
        vec![
            (B5, C6, 9),
            (C6, B5, 1),
            (E3, E6, -3),
            (F5, E6, 3),
            (F4, E6, 3),
            (H6, E6, 1),
            (E6, F5, 1),
        ],
    )
}

#[test]
fn see_see_case_3() {
    execute_case("r1n2qk1/pp5p/2ppr1pQ/4p3/8/2N4R/PPP3PP/6K1 w - - 0 3", vec![(H6, H7, 1)])
}

#[test]
fn see_see_case_4() {
    execute_case("3r2k1/3r1ppp/2n5/8/3P4/5N2/5PPP/3R1RK1 b - - 6 27", vec![(C6, D4, 1)])
}

#[test]
fn see_see_case_5() {
    execute_case("r3k2r/pp1b1ppp/4p3/1Bbp4/8/2N5/PPP2PPP/R1BQ1RK1 w kq - 1 11", vec![(B5, D7, 0)])
}

#[test]
fn see_case_6() {
    execute_case(
        "r1bq1rk1/1pp1npb1/3p2p1/pQBPp1Pp/2P1P2P/2N2P1B/PP6/R3K2R b KQ - 0 14",
        vec![(C8, H3, 0)],
    )
}

/// The position reached from
/// "r1bqk2r/1ppnnpb1/3p2p1/p2Pp1Pp/2P1P2P/2N1BP2/PP6/R2QKBNR w KQkq a6 0 11"
/// by Bf1-h3, black castling short, Qd1-b3, Nd7-c5, Qb3-b5, a null move and
/// Be3xc5: the bishop on h3 is defended by the knight on g1.
#[test]
fn see_case_7() {
    let board = parse("r1bq1rk1/1pp1npb1/3p2p1/pQBPp1Pp/2P1P2P/2N2P1B/PP6/R3K1NR b - - 0 14");
    assert_eq!(0, exchange_value(&board, C8, H3, &dummy_values()));
    let values = [100, 300, 300, 500, 900, 10000];
    assert_eq!(0, exchange_value(&board, C8, H3, &values));
}

#[test]
fn see_value_bounds() {
    let board = parse("k7/6n1/2q1b2R/1P3P2/5N2/4Q3/8/K7 w KQkq - 10 30");
    let values = dummy_values();
    for &(s, t) in &[(B5, C6), (C6, B5), (E3, E6), (F5, E6), (F4, E6), (H6, E6), (E6, F5)] {
        let attacker = board.piece_locs[s.index()].unwrap();
        let victim = board.piece_locs[t.index()].unwrap();
        let v = exchange_value(&board, s, t, &values);
        let (va, vx) = (values[attacker.1.index()], values[victim.1.index()]);
        assert!(vx - va <= v && v <= vx, "Source: {:?}, target: {:?}", s, t);
    }
}

#[test]
fn see_mirror_with_twin_knights() {
    // Two knights a side take part and nothing stands behind them: the
    // exchange is the same on the mirrored board.
    execute_case("8/8/3n4/2n5/4p3/2N3N1/8/K6k w - - 0 1", vec![(C3, E4, -2), (G3, E4, -2)]);
}

#[test]
fn see_mirror_with_twin_rooks_on_one_rank() {
    // Two white rooks on one rank, a queen behind one of them: the lowest
    // square among the rooks is mirrored to the lowest square.
    let board = parse("4r2k/8/8/3p4/QR2n1R1/8/8/K7 w - - 0 1");
    let source = Square::G4;
    let target = Square::E4;
    let value = exchange_value(&board, source, target, &dummy_values());
    let mirrored = exchange_value(
        &reflect_board(&board),
        source.reflect(),
        target.reflect(),
        &dummy_values(),
    );
    assert_eq!(value, mirrored);
}

#[test]
fn see_mirror_with_twins_on_two_ranks() {
    // White knights on two ranks, a black queen behind a black rook: no
    // knight stands between a piece behind and the target.
    let board = parse("4q2k/4r3/8/8/4p3/2N5/3N4/K3R3 w - - 0 1");
    for source in [Square::C3, Square::D2, Square::E1] {
        let value = exchange_value(&board, source, Square::E4, &dummy_values());
        let mirrored = exchange_value(
            &reflect_board(&board),
            source.reflect(),
            Square::E4.reflect(),
            &dummy_values(),
        );
        assert_eq!(value, mirrored);
    }
}
