use std::collections::HashSet;

use myopic::base::bishops;
use myopic::base::bitboard::{bitscan, compute_cord, create_files, create_ranks, BitBoard};
use myopic::base::castlezone::CastleZone;
use myopic::base::hash;
use myopic::base::magic::compute_powerset;
use myopic::base::pieces::{Class, Piece};
use myopic::base::reflect::Reflectable;
use myopic::base::square::Square;
use myopic::base::square::Square::{A1, A2, A3, A4, A6, A8, B1, B2, B3, B4, B5, B6, B7, B8, C1, C2, C3, C4, C5, C8, D1, D2, D3, D4, D5, D8, E1, E2, E3, E4, E6, E8, F1, F2, F3, F4, F5, F6, F7, F8, G1, G3, G4, G5, G6, G8, H1, H2, H3, H4, H5, H6, H7, H8};
use myopic::base::types::{Dir, Side};

#[test]
fn test_from_square_iter() {
    assert_eq!(F1 | G6, BitBoard::from_squares(&vec![F1, G6]));
}

#[test]
fn test_into_iter() {
    assert_eq!(vec![F1, G6], (F1 | G6).iter());
}

#[test]
fn test_display() {
    let result = A1 | H7 | D5;
    assert_eq!("{a1, d5, h7}".to_owned(), result.to_string());
}

#[test]
fn test_size() {
    assert_eq!(0, BitBoard::empty().size());
    assert_eq!(64, BitBoard::all().size());
    assert_eq!(3, (A3 | G6 | H4).size());
}

#[test]
fn test_create_files() {
    assert_eq!(H1 | H2 | H3 | H4 | H5 | H6 | H7 | H8, create_files()[0]);
}

#[test]
fn test_create_ranks() {
    assert_eq!(A3 | B3 | C3 | D3 | E3 | F3 | G3 | H3, create_ranks()[2]);
}

#[test]
fn test_lsb() {
    assert_eq!(BitBoard::empty(), BitBoard::empty().least_set_bit());
    assert_eq!(G1.lift(), (E4 | G1).least_set_bit());
    assert_eq!(E3.lift(), (E3 | G5).least_set_bit());
    assert_eq!(A8.lift(), A8.lift().least_set_bit());
}

#[test]
fn test_compute_cord() {
    assert_eq!(H1 | H2 | H3, compute_cord(H1, H3));
}

#[test]
fn test_get_cord() {
    assert_eq!(H1 | H2 | H3, BitBoard::cord(H1, H3));
    assert_eq!(H1 | H2 | H3, BitBoard::cord(H3, H1));
    assert_eq!(F3 | E3 | D3 | C3, BitBoard::cord(C3, F3));
    assert_eq!(D5 | E6 | F7, BitBoard::cord(D5, F7));
    assert_eq!(A8 | B7, BitBoard::cord(A8, B7));
    assert_eq!(B8 | A8, BitBoard::cord(B8, A8));
}

#[test]
fn bitboard_test() {
    assert_eq!(0, bitscan(1u64));
    assert_eq!(1, bitscan(2u64));
    assert_eq!(1, bitscan(0b10u64));
    assert_eq!(10, bitscan(0b1001110000000000u64));
    assert_eq!(21, bitscan(0b1001111011000000000000000000000));
}

#[test]
fn castlezone_display() {
    assert_eq!("wk", CastleZone::WK.to_string().as_str());
    assert_eq!("wq", CastleZone::WQ.to_string().as_str());
    assert_eq!("bk", CastleZone::BK.to_string().as_str());
    assert_eq!("bq", CastleZone::BQ.to_string().as_str());
}

#[test]
fn castlezone_from_str() {
    assert_eq!(CastleZone::WK, "wk".parse::<CastleZone>().unwrap());
    assert_eq!(CastleZone::WK, "WK".parse::<CastleZone>().unwrap());
    assert_eq!(CastleZone::WQ, "wq".parse::<CastleZone>().unwrap());
    assert_eq!(CastleZone::WQ, "WQ".parse::<CastleZone>().unwrap());
    assert_eq!(CastleZone::BK, "bk".parse::<CastleZone>().unwrap());
    assert_eq!(CastleZone::BK, "BK".parse::<CastleZone>().unwrap());
    assert_eq!(CastleZone::BQ, "bq".parse::<CastleZone>().unwrap());
    assert_eq!(CastleZone::BQ, "BQ".parse::<CastleZone>().unwrap());
}

#[test]
fn lib_display() {
    assert_eq!("w", Side::W.to_string().as_str());
    assert_eq!("b", Side::B.to_string().as_str());
}

#[test]
fn lib_from_str() {
    assert_eq!(Side::W, "w".parse::<Side>().unwrap());
    assert_eq!(Side::W, "W".parse::<Side>().unwrap());
    assert_eq!(Side::B, "b".parse::<Side>().unwrap());
    assert_eq!(Side::B, "b".parse::<Side>().unwrap());
}

#[test]
fn magic_test() {
    let empty = vec![BitBoard::empty()];
    assert_eq!(empty, compute_powerset(&vec![]));
    let non_empty = vec![A1, F3, H5];
    let mut expected = HashSet::new();
    expected.insert(BitBoard::empty());
    expected.insert(A1.into());
    expected.insert(F3.into());
    expected.insert(H5.into());
    expected.insert(A1 | F3);
    expected.insert(A1 | H5);
    expected.insert(F3 | H5);
    expected.insert(A1 | F3 | H5);
    let actual: HashSet<_> = compute_powerset(&non_empty).into_iter().collect();
    assert_eq!(expected, actual);
}

#[test]
fn mod_display() {
    assert_eq!("wp", Piece(Side::W, Class::P).to_string().as_str());
    assert_eq!("br", Piece(Side::B, Class::R).to_string().as_str());
}

#[test]
fn mod_from_str() {
    assert_eq!(Piece(Side::W, Class::P), "wp".parse::<Piece>().unwrap());
    assert_eq!(Piece(Side::W, Class::P), "WP".parse::<Piece>().unwrap());
    assert_eq!(Piece(Side::B, Class::Q), "bq".parse::<Piece>().unwrap());
    assert!("ba".parse::<Piece>().is_err());
    assert!("bqs".parse::<Piece>().is_err());
    assert!("wxk".parse::<Piece>().is_err());
}

#[test]
fn bishops_test() {
    let (sq, occ) = (D3, E2 | B1 | F5 | H7 | D4);
    let expected = E2 | C2 | B1 | C4 | B5 | A6 | E4 | F5;
    assert_eq!(expected, bishops::control(sq, occ));

    let (sq, occ) = (H5, D1 | E2 | G6 | C5 | F6 | A1 | A4 | D2);
    let expected = G4 | F3 | E2 | G6;
    assert_eq!(expected, bishops::control(sq, occ));
}

#[test]
fn test_direction_reflection() {
    assert_eq!(Dir::N, Dir::S.reflect());
    assert_eq!(Dir::E, Dir::W.reflect());
    assert_eq!(Dir::S, Dir::N.reflect());
    assert_eq!(Dir::W, Dir::E.reflect());
    assert_eq!(Dir::NE, Dir::SW.reflect());
    assert_eq!(Dir::SE, Dir::NW.reflect());
    assert_eq!(Dir::SW, Dir::NE.reflect());
    assert_eq!(Dir::NW, Dir::SE.reflect());
    assert_eq!(Dir::NNE, Dir::SSW.reflect());
    assert_eq!(Dir::NEE, Dir::SWW.reflect());
    assert_eq!(Dir::SEE, Dir::NWW.reflect());
    assert_eq!(Dir::SSE, Dir::NNW.reflect());
    assert_eq!(Dir::SSW, Dir::NNE.reflect());
    assert_eq!(Dir::SWW, Dir::NEE.reflect());
    assert_eq!(Dir::NWW, Dir::SEE.reflect());
    assert_eq!(Dir::NNW, Dir::SSE.reflect());
}

#[test]
fn lift() {
    assert_eq!(A1.lift(), !!A1)
}

#[test]
fn test_rank() {
    assert_eq!(A1 | B1 | C1 | D1 | E1 | F1 | G1 | H1, F1.rank());
    assert_eq!(A4 | B4 | C4 | D4 | E4 | F4 | G4 | H4, D4.rank());
    assert_eq!(A8 | B8 | C8 | D8 | E8 | F8 | G8 | H8, A8.rank());
}

#[test]
fn test_file() {
    assert_eq!(B1 | B2 | B3 | B4 | B5 | B6 | B7 | B8, B4.file())
}

#[test]
fn test_partial_ord() {
    for i in 0..64 {
        let prev: Vec<_> = Square::iter().into_iter().take(i).collect();
        let next: Vec<_> = Square::iter().into_iter().skip(i + 1).collect();
        let pivot: Square = Square::from_index(i);

        for smaller in prev {
            assert_eq!(true, smaller < pivot);
        }

        for larger in next {
            assert_eq!(true, pivot < larger);
        }
    }
}

#[test]
fn test_search() {
    assert_eq!(D3.search(Dir::S), D2 | D1);
}

#[test]
fn test_search_vec() {
    assert_eq!(D3.search_vec(Dir::S), vec![D2, D1])
}

#[test]
fn test_search_one() {
    assert_eq!(D3.search_one(&vec!(Dir::S, Dir::E)), D2 | E3);
    assert_eq!(A8.search_one(&vec!(Dir::N, Dir::NWW, Dir::SE)), B7.into());
}

#[test]
fn test_search_all() {
    assert_eq!(C3.search_all(&vec!(Dir::SSW, Dir::SWW, Dir::S)), B1 | A2 | C2 | C1);
}

#[test]
fn test_next() {
    assert_eq!(C3.next(Dir::N), Some(C4));
    assert_eq!(C3.next(Dir::E), Some(D3));
    assert_eq!(C3.next(Dir::S), Some(C2));
    assert_eq!(C3.next(Dir::W), Some(B3));
    assert_eq!(C3.next(Dir::NE), Some(D4));
    assert_eq!(C3.next(Dir::SE), Some(D2));
    assert_eq!(C3.next(Dir::SW), Some(B2));
    assert_eq!(C3.next(Dir::NW), Some(B4));
    assert_eq!(C3.next(Dir::NNE), Some(D5));
    assert_eq!(C3.next(Dir::NEE), Some(E4));
    assert_eq!(C3.next(Dir::SEE), Some(E2));
    assert_eq!(C3.next(Dir::SSE), Some(D1));
    assert_eq!(C3.next(Dir::SSW), Some(B1));
    assert_eq!(C3.next(Dir::SWW), Some(A2));
    assert_eq!(C3.next(Dir::NWW), Some(A4));
    assert_eq!(C3.next(Dir::NNW), Some(B5));

    assert_eq!(G8.next(Dir::N), None);
    assert_eq!(H6.next(Dir::E), None);
    assert_eq!(B1.next(Dir::S), None);
    assert_eq!(A4.next(Dir::W), None);
}


#[test]
fn enpassant_hash_depends_on_file() {
    assert_eq!(hash::enpassant(E3), hash::enpassant(E6));
    assert_eq!(hash::enpassant(A3), hash::enpassant(A6));
    assert_ne!(hash::enpassant(E3), hash::enpassant(D3));
    assert_ne!(hash::enpassant(H3), hash::enpassant(A3));
}

#[test]
fn castle_zone_geometry() {
    for zone in CastleZone::iter() {
        let (_, ks, kd) = zone.king_data();
        let (_, rs, rd) = zone.rook_data();
        assert_eq!(ks.lift() | rs.lift(), zone.source_squares());
        assert_eq!(BitBoard::cord(ks, kd), zone.uncontrolled_requirement());
        assert_eq!(rd.lift(), BitBoard::cord(ks, kd) - ks - kd);
        assert_eq!(BitBoard::cord(ks, rs) - ks - rs, zone.unoccupied_requirement());
        assert!(zone.unoccupied_requirement().contains(kd));
        assert!(!zone.uncontrolled_requirement().contains(rs));
    }
}

#[test]
fn control_depends_on_line_blockers() {
    let occupied = A1 | D1 | F6 | B2 | C5 | H8 | E4;
    for class in [Class::P, Class::N, Class::B, Class::R, Class::Q, Class::K] {
        let p = Piece(Side::W, class);
        for loc in [D4, A1, H8, E4] {
            let c = p.control(loc, occupied);
            let e = p.empty_control(loc);
            assert!(!c.contains(loc));
            assert_eq!(c, c & e);
            assert_eq!(c, p.control(loc, occupied & e));
            assert_eq!(e, p.control(loc, BitBoard::empty()));
        }
    }
    let q = Piece(Side::B, Class::Q).control(D4, occupied);
    let b = Piece(Side::B, Class::B).control(D4, occupied);
    let r = Piece(Side::B, Class::R).control(D4, occupied);
    assert_eq!(q, b | r);
}
