use vstd::prelude::*;

use crate::base::bitboard::{bits, lemma_bits_ext, lemma_bits_finite, BitBoard};
use crate::base::castlezone::{CastleZone, CastleZoneSet};
use crate::base::pieces::Piece;
use crate::base::square::{
    Square, idxs, file_of, rank_of, square_at, lemma_square_idx, lemma_square_at,
};
use crate::base::types::{Dir, Side};

verus! {

broadcast use lemma_square_idx, lemma_square_at;

/// Chess is a symmetric game and this trait represents a component of
/// the game which can be reflected to it's symmetric opposite component.
pub trait Reflectable: Sized {
    /// The symmetric opposite of this component.
    spec fn reflection(&self) -> Self;

    fn reflect(&self) -> (r: Self)
        ensures
            r == self.reflection(),
    ;
}

/// The index of the square mirrored across the middle of the board
/// (same file, rank counted from the other side).
pub open spec fn reflect_idx(i: int) -> int {
    8 * (7 - rank_of(i)) + file_of(i)
}

/// The square of the mirrored index.
pub open spec fn reflect_square(s: Square) -> Square {
    square_at(reflect_idx(s.idx()))
}

/// The opposite direction.
pub open spec fn reflect_dir(d: Dir) -> Dir {
    match d {
        Dir::N => Dir::S,
        Dir::E => Dir::W,
        Dir::S => Dir::N,
        Dir::W => Dir::E,
        Dir::NE => Dir::SW,
        Dir::SE => Dir::NW,
        Dir::SW => Dir::NE,
        Dir::NW => Dir::SE,
        Dir::NNE => Dir::SSW,
        Dir::NEE => Dir::SWW,
        Dir::SEE => Dir::NWW,
        Dir::SSE => Dir::NNW,
        Dir::SSW => Dir::NNE,
        Dir::SWW => Dir::NEE,
        Dir::NWW => Dir::SEE,
        Dir::NNW => Dir::SSE,
    }
}

/// The zone of the same flank for the other side.
pub open spec fn reflect_zone(z: CastleZone) -> CastleZone {
    match z {
        CastleZone::WK => CastleZone::BK,
        CastleZone::WQ => CastleZone::BQ,
        CastleZone::BK => CastleZone::WK,
        CastleZone::BQ => CastleZone::WQ,
    }
}

impl Reflectable for Side {
    open spec fn reflection(&self) -> Side {
        self.other()
    }

    fn reflect(&self) -> (r: Side) {
        match self {
            Side::W => Side::B,
            Side::B => Side::W,
        }
    }
}

impl Reflectable for Dir {
    open spec fn reflection(&self) -> Dir {
        reflect_dir(*self)
    }

    fn reflect(&self) -> (r: Dir) {
        match self {
            Dir::N => Dir::S,
            Dir::E => Dir::W,
            Dir::S => Dir::N,
            Dir::W => Dir::E,
            Dir::NE => Dir::SW,
            Dir::SE => Dir::NW,
            Dir::SW => Dir::NE,
            Dir::NW => Dir::SE,
            Dir::NNE => Dir::SSW,
            Dir::NEE => Dir::SWW,
            Dir::SEE => Dir::NWW,
            Dir::SSE => Dir::NNW,
            Dir::SSW => Dir::NNE,
            Dir::SWW => Dir::NEE,
            Dir::NWW => Dir::SEE,
            Dir::NNW => Dir::SSE,
        }
    }
}

impl Reflectable for Square {
    open spec fn reflection(&self) -> Square {
        reflect_square(*self)
    }

    fn reflect(&self) -> (r: Square) {
        let (fi, ri) = (self.file_index(), self.rank_index());
        Square::from_index(8 * (7 - ri) + fi)
    }
}

/// We reflect a piece to it's correspondent on the opposite side.
impl Reflectable for Piece {
    open spec fn reflection(&self) -> Piece {
        Piece(self.0.other(), self.1)
    }

    fn reflect(&self) -> (r: Piece) {
        Piece(self.0.reflect(), self.1)
    }
}

/// A castle is reflected by it's side, i.e.
///  - WK <==> BK
///  - WQ <==> BQ
impl Reflectable for CastleZone {
    open spec fn reflection(&self) -> CastleZone {
        reflect_zone(*self)
    }

    fn reflect(&self) -> (r: CastleZone) {
        match self {
            CastleZone::WK => CastleZone::BK,
            CastleZone::WQ => CastleZone::BQ,
            CastleZone::BK => CastleZone::WK,
            CastleZone::BQ => CastleZone::WQ,
        }
    }
}

impl Reflectable for CastleZoneSet {
    open spec fn reflection(&self) -> CastleZoneSet {
        CastleZoneSet { wk: self.bk, wq: self.bq, bk: self.wk, bq: self.wq }
    }

    fn reflect(&self) -> (r: CastleZoneSet) {
        CastleZoneSet { wk: self.bk, wq: self.bq, bk: self.wk, bq: self.wq }
    }
}

impl<T: Reflectable> Reflectable for Option<T> {
    open spec fn reflection(&self) -> Option<T> {
        match self {
            Some(t) => Some(t.reflection()),
            None => None,
        }
    }

    fn reflect(&self) -> (r: Option<T>) {
        match self {
            Some(t) => Some(t.reflect()),
            None => None,
        }
    }
}

impl<T1: Reflectable, T2: Reflectable> Reflectable for (T1, T2) {
    open spec fn reflection(&self) -> (T1, T2) {
        (self.0.reflection(), self.1.reflection())
    }

    fn reflect(&self) -> (r: (T1, T2)) {
        (self.0.reflect(), self.1.reflect())
    }
}

impl<T1: Reflectable, T2: Reflectable, T3: Reflectable> Reflectable for (T1, T2, T3) {
    open spec fn reflection(&self) -> (T1, T2, T3) {
        (self.0.reflection(), self.1.reflection(), self.2.reflection())
    }

    fn reflect(&self) -> (r: (T1, T2, T3)) {
        (self.0.reflect(), self.1.reflect(), self.2.reflect())
    }
}

/// The mirrored set of square indices.
pub open spec fn reflect_set(s: Set<int>) -> Set<int> {
    Set::new(|j: int| 0 <= j < 64 && s.contains(reflect_idx(j)))
}

/// The board mirrored across its middle.
pub open spec fn mirror_board(b: BitBoard) -> BitBoard {
    BitBoard(mirror_word(b.0))
}

/// The word with its bytes, that is its ranks, in the reverse order.
pub open spec fn mirror_word(x: u64) -> u64 {
    ((x & 0xffu64) << 56u64) | (((x >> 8u64) & 0xffu64) << 48u64) | (((x >> 16u64) & 0xffu64)
        << 40u64) | (((x >> 24u64) & 0xffu64) << 32u64) | (((x >> 32u64) & 0xffu64) << 24u64) | (((x
        >> 40u64) & 0xffu64) << 16u64) | (((x >> 48u64) & 0xffu64) << 8u64) | (x >> 56u64)
}

proof fn lemma_mirror_raw(x: u64, i: u64)
    by (bit_vector)
    requires
        i < 64,
    ensures
        (mirror_word(x) >> i) & 1u64 == 1u64 <==> (x >> (8 * (7 - i / 8) + i % 8) as u64) & 1u64
            == 1u64,
        mirror_word(mirror_word(x)) == x,
{
}

/// Mirroring an index of the board twice gives it back.
pub proof fn lemma_reflect_idx(i: int)
    requires
        0 <= i < 64,
    ensures
        0 <= reflect_idx(i) < 64,
        reflect_idx(reflect_idx(i)) == i,
{
}

/// The mirrored word holds the mirrored squares.
pub proof fn lemma_mirror_bits(x: u64)
    ensures
        bits(mirror_word(x)) == reflect_set(bits(x)),
        mirror_word(mirror_word(x)) == x,
{
    assert forall|j: int| 0 <= j < 64 implies (#[trigger] bits(mirror_word(x)).contains(j)
        <==> bits(x).contains(reflect_idx(j))) by {
        lemma_mirror_raw(x, j as u64);
        lemma_reflect_idx(j);
    }
    lemma_mirror_raw(x, 0);
    assert(bits(mirror_word(x)) =~= reflect_set(bits(x)));
}

impl Reflectable for BitBoard {
    open spec fn reflection(&self) -> BitBoard {
        BitBoard(mirror_word(self.0))
    }

    fn reflect(&self) -> (r: BitBoard) {
        let sqs = self.iter();
        let mut out: Vec<Square> = Vec::new();
        let mut k: usize = 0;
        while k < sqs.len()
            invariant
                k <= sqs@.len(),
                out@.len() == k,
                forall|a: int| 0 <= a < k ==> (#[trigger] out@[a]).idx() == reflect_idx(
                    sqs@[a].idx(),
                ),
            decreases sqs@.len() - k,
        {
            out.push(sqs[k].reflect());
            k = k + 1;
        }
        let r = BitBoard::from_squares(&out);
        proof {
            assert forall|j: int| r@.contains(j) <==> reflect_set(self@).contains(j) by {
                if r@.contains(j) {
                    let a = choose|a: int| 0 <= a < out@.len() && #[trigger] idxs(out@)[a] == j;
                    let i = sqs@[a].idx();
                    assert(idxs(sqs@)[a] == i);
                    assert(idxs(sqs@).to_set().contains(i));
                    lemma_reflect_idx(i);
                }
                if reflect_set(self@).contains(j) {
                    let i = reflect_idx(j);
                    lemma_reflect_idx(j);
                    assert(idxs(sqs@).to_set().contains(i));
                    let a = choose|a: int| 0 <= a < sqs@.len() && #[trigger] idxs(sqs@)[a] == i;
                    assert(idxs(out@)[a] == j);
                }
            }
            assert(r@ =~= reflect_set(self@));
            lemma_mirror_bits(self.0);
            lemma_bits_ext(mirror_word(self.0), r.0);
        }
        r
    }
}

/// Reflection is an involution: reflecting twice gives back the same
/// square, direction, piece, zone, side or set of squares.
pub proof fn lemma_reflect_involution(
    s: Square,
    d: Dir,
    p: Piece,
    z: CastleZone,
    side: Side,
    b: BitBoard,
)
    ensures
        s.reflection().reflection() == s,
        d.reflection().reflection() == d,
        p.reflection().reflection() == p,
        z.reflection().reflection() == z,
        side.reflection().reflection() == side,
        b.reflection().reflection() == b,
{
    lemma_reflect_idx(s.idx());
    lemma_mirror_bits(b.0);
}

/// Reflecting a set of squares keeps its size.
pub proof fn lemma_reflect_size(b: BitBoard)
    ensures
        b.reflection()@.len() == b@.len(),
{
    lemma_mirror_bits(b.0);
    lemma_bits_finite(b.0);
    let f = |i: int| reflect_idx(i);
    let r1 = b.reflection();
    assert(r1@ =~= b@.map(f)) by {
        assert forall|j: int| r1@.contains(j) <==> b@.map(f).contains(j) by {
            if r1@.contains(j) {
                lemma_reflect_idx(j);
                assert(b@.contains(reflect_idx(j)));
                assert(f(reflect_idx(j)) == j);
            }
            if b@.map(f).contains(j) {
                let i = choose|i: int| b@.contains(i) && f(i) == j;
                lemma_reflect_idx(i);
            }
        }
    }
    assert(vstd::relations::injective_on(f, b@)) by {
        assert forall|x: int, y: int|
            b@.contains(x) && b@.contains(y) && #[trigger] f(x) == #[trigger] f(y) implies x
            == y by {
            lemma_reflect_idx(x);
            lemma_reflect_idx(y);
        }
    }
    vstd::set_lib::lemma_map_size(b@, r1@, f);
}

} // verus!
