use myopic::base::bitboard::BitBoard;
use myopic::base::magic::{assemble_magics, compute_magic_numbers, magic_consistent, MagicSearch};
use myopic::base::pieces::{Class, Piece};
use myopic::base::square::Square;
use myopic::base::square::Square::{A1, B1, B8, C1, C3, D2, D4, E2, E4, E5, E7, F1, G1, H1};
use myopic::base::types::Side;
use myopic::brain::eval::development::DevelopmentEvalComponent;
use myopic::brain::eval::material::MaterialFacet;
use myopic::brain::eval::pawns::PawnStructureFacet;
use myopic::brain::eval::phase::Phase;
use myopic::brain::eval::values::PieceValues;
use myopic::brain::eval::Evaluation;
use myopic::brain::moves::Move;

fn start_locs() -> [Option<Piece>; 64] {
    let mut locs = [None; 64];
    let back = [Class::R, Class::N, Class::B, Class::K, Class::Q, Class::B, Class::N, Class::R];
    for f in 0..8 {
        locs[f] = Some(Piece(Side::W, back[f]));
        locs[8 + f] = Some(Piece(Side::W, Class::P));
        locs[48 + f] = Some(Piece(Side::B, Class::P));
        locs[56 + f] = Some(Piece(Side::B, back[f]));
    }
    locs
}

#[test]
fn piece_values_default() {
    let values = PieceValues::default();
    assert_eq!(128, values.midgame(Piece(Side::W, Class::P)));
    assert_eq!(-2529, values.midgame(Piece(Side::B, Class::Q)));
    assert_eq!(918, values.endgame(Piece(Side::W, Class::B)));
    assert_eq!(-100_000, values.endgame(Piece(Side::B, Class::K)));
}

#[test]
fn phase_of_start_position_is_zero() {
    let phase = Phase::from_locs(&start_locs());
    assert_eq!(0, phase.phase_counter());
    assert_eq!(0, phase.phase());
    assert_eq!(17, phase.interpolate(17, -40));
    assert_eq!(5, phase.unwrap(Evaluation::Single(5)));
}

#[test]
fn phase_of_kings_only_is_full() {
    let mut locs = [None; 64];
    locs[3] = Some(Piece(Side::W, Class::K));
    locs[59] = Some(Piece(Side::B, Class::K));
    let phase = Phase::from_locs(&locs);
    assert_eq!(28, phase.phase_counter());
    assert_eq!(256, phase.phase());
    assert_eq!(-40, phase.interpolate(17, -40));
    assert_eq!(-40, phase.unwrap(Evaluation::Phased { mid: 17, end: -40 }));
}

#[test]
fn phase_make_unmake() {
    let mut phase = Phase::default();
    let capture = Move::Standard {
        moving: Piece(Side::W, Class::N),
        from: C3,
        dest: E4,
        capture: Some(Piece(Side::B, Class::Q)),
    };
    phase.make(&capture);
    assert_eq!(6, phase.phase_counter());
    // (6 * 256 + 14) / 28 rounds 55.4 down
    assert_eq!(55, phase.phase());
    // (100 * 201 + 0 * 55) / 256 = 78.5 truncated
    assert_eq!(78, phase.interpolate(100, 0));
    assert_eq!(-78, phase.interpolate(-100, 0));
    phase.unmake(&capture);
    assert_eq!(Phase::default(), phase);
}

#[test]
fn material_start_position_is_balanced() {
    let facet = MaterialFacet::from_locs(&start_locs());
    assert_eq!(Evaluation::Phased { mid: 0, end: 0 }, facet.static_eval());
    assert_eq!([200, 782, 830, 1289, 2529, 100_000], facet.mid_values());
}

#[test]
fn material_capture_and_promotion() {
    let mut facet = MaterialFacet::from_locs(&start_locs());
    let capture = Move::Standard {
        moving: Piece(Side::W, Class::P),
        from: D4,
        dest: E5,
        capture: Some(Piece(Side::B, Class::P)),
    };
    facet.make(&capture);
    assert_eq!(Evaluation::Phased { mid: 200, end: 293 }, facet.static_eval());
    let promotion = Move::Promotion {
        from: E7,
        dest: myopic::base::square::Square::F8,
        promoted: Piece(Side::W, Class::Q),
        capture: Some(Piece(Side::B, Class::B)),
    };
    facet.make(&promotion);
    assert_eq!(
        Evaluation::Phased { mid: 200 - 200 + 2529 + 830, end: 293 - 293 + 2687 + 918 },
        facet.static_eval()
    );
    facet.unmake(&promotion);
    facet.unmake(&capture);
    assert_eq!(Evaluation::Phased { mid: 0, end: 0 }, facet.static_eval());
}

#[test]
fn pawn_structure_of_start_position() {
    let facet = PawnStructureFacet::default();
    let whites = BitBoard(0xff00);
    let blacks = BitBoard(0x00ff_0000_0000_0000);
    assert_eq!(Evaluation::Phased { mid: 0, end: 0 }, facet.static_eval(whites, blacks));
    // A lone white pawn on e4 is passed, isolated and backward.
    let lone = BitBoard::from_squares(&vec![E4]);
    assert_eq!(
        Evaluation::Phased { mid: 80 - 60 - 15, end: 200 - 30 },
        facet.static_eval(lone, BitBoard(0))
    );
}

#[test]
fn development_make_unmake() {
    let start = DevelopmentEvalComponent::default();
    let mut dev = start;
    let e4 = Move::Standard { moving: Piece(Side::W, Class::P), from: E2, dest: E4, capture: None };
    let e5 = Move::Standard { moving: Piece(Side::B, Class::P), from: E7, dest: E5, capture: None };
    dev.make(&e4);
    dev.make(&e5);
    assert_eq!(Some(0), dev.piece_moved[0]);
    assert_eq!(Some(1), dev.piece_moved[6]);
    assert_eq!(Some(6), dev.matching_piece(1));
    assert_eq!(5, dev.undeveloped_count(Side::W, 2));
    assert_eq!(6, dev.undeveloped_count(Side::W, 0));
    dev.unmake(&e5);
    dev.unmake(&e4);
    assert_eq!(start, dev);
    let nf3 = Move::Standard { moving: Piece(Side::W, Class::N), from: G1, dest: H1, capture: None };
    dev.make(&nf3);
    assert_eq!(Some(0), dev.piece_moved[3]);
    let _ = (A1, B1, B8, C1, D2, F1);
}

#[test]
fn magic_numbers_are_valid() {
    // Masks of three squares each for the first two squares.
    let masks = vec![0b1110u64 << 8, 0b111u64 << 20];
    let f = |_sq: Square, occupancy: BitBoard| occupancy;
    let magics = compute_magic_numbers(masks.clone(), f).expect("no magic number found");
    assert_eq!(2, magics.len());
    for (k, &mask) in masks.iter().enumerate() {
        let shift = 64 - mask.count_ones() as u64;
        let mut seen: Vec<(u64, u64)> = Vec::new();
        let bits: Vec<u64> = (0..64).filter(|i| mask & (1u64 << i) != 0).collect();
        for subset in 0..(1u64 << bits.len()) {
            let mut occupancy = 0u64;
            for (j, b) in bits.iter().enumerate() {
                if subset & (1 << j) != 0 {
                    occupancy |= 1u64 << b;
                }
            }
            let index = occupancy.wrapping_mul(magics[k]) >> shift;
            for &(i, o) in &seen {
                assert!(i != index || o == occupancy);
            }
            seen.push((index, occupancy));
        }
    }
}

#[test]
fn magic_candidate_consistency() {
    let variations = vec![BitBoard(0), BitBoard(1)];
    // A zero magic maps both variations to index zero.
    assert!(magic_consistent(&variations, &vec![BitBoard(5), BitBoard(5)], 0, 63));
    assert!(!magic_consistent(&variations, &vec![BitBoard(5), BitBoard(6)], 0, 63));
    // The top bit keeps the two variations apart.
    assert!(magic_consistent(&variations, &vec![BitBoard(5), BitBoard(6)], 1u64 << 63, 63));
}

#[test]
fn magic_outcomes_assembled() {
    let (found, exhausted) = (MagicSearch::Found, MagicSearch::Exhausted);
    assert_eq!(Some(vec![7, 9]), assemble_magics(&vec![found(7), exhausted, found(9)]));
    assert_eq!(Some(vec![]), assemble_magics(&vec![exhausted, exhausted]));
    assert_eq!(None, assemble_magics(&vec![found(7), MagicSearch::LastTry(3)]));
    assert_eq!(Some(vec![]), assemble_magics(&vec![]));
}
