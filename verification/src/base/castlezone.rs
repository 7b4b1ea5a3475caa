use vstd::prelude::*;

use crate::base::bitboard::{cord_dirs, cord_set, lemma_bits_ops, lemma_bits_single, take_until, BitBoard};
use crate::base::flip::{lemma_cord_dirs, lemma_cord_from_found};
use crate::base::pieces::{Class, Piece};
use crate::base::square::{Square, file_of, next_idx, rank_of, ray, lemma_square_idx};
use crate::base::types::{Corner, Dir, Flank, ParseError, Side};

verus! {

broadcast use lemma_square_idx;

/// Represents one of the four different areas on a chessboard where
/// the special castling move can take place (two for each side).
#[derive(Debug, Copy, Clone, PartialEq, Eq, Structural, Hash, PartialOrd, Ord)]
pub enum CastleZone {
    WK,
    WQ,
    BK,
    BQ,
}

/// The set of the squares of the given indices.
pub open spec fn squares_set(s: Seq<Square>) -> Set<int> {
    s.map_values(|q: Square| q.idx()).to_set()
}

impl CastleZone {
    /// The side of a zone.
    pub open spec fn side_of(self) -> Side {
        match self {
            CastleZone::WK | CastleZone::WQ => Side::W,
            CastleZone::BK | CastleZone::BQ => Side::B,
        }
    }

    /// The corner of the board of a zone.
    pub open spec fn corner_of(self) -> Corner {
        match self {
            CastleZone::WK => Corner(Side::W, Flank::K),
            CastleZone::WQ => Corner(Side::W, Flank::Q),
            CastleZone::BK => Corner(Side::B, Flank::K),
            CastleZone::BQ => Corner(Side::B, Flank::Q),
        }
    }

    /// The start squares of the king and the rook of a zone.
    pub open spec fn source_set(self) -> Set<int> {
        squares_set(
            match self {
                CastleZone::WK => seq![Square::E1, Square::H1],
                CastleZone::WQ => seq![Square::E1, Square::A1],
                CastleZone::BK => seq![Square::E8, Square::H8],
                CastleZone::BQ => seq![Square::E8, Square::A8],
            },
        )
    }

    /// The rook of a zone, its start square and its destination.
    pub open spec fn rook_spec(self) -> (Piece, Square, Square) {
        match self {
            CastleZone::WK => (Piece(Side::W, Class::R), Square::H1, Square::F1),
            CastleZone::BK => (Piece(Side::B, Class::R), Square::H8, Square::F8),
            CastleZone::WQ => (Piece(Side::W, Class::R), Square::A1, Square::D1),
            CastleZone::BQ => (Piece(Side::B, Class::R), Square::A8, Square::D8),
        }
    }

    /// The king of a zone, its start square and its destination.
    pub open spec fn king_spec(self) -> (Piece, Square, Square) {
        match self {
            CastleZone::WK => (Piece(Side::W, Class::K), Square::E1, Square::G1),
            CastleZone::BK => (Piece(Side::B, Class::K), Square::E8, Square::G8),
            CastleZone::WQ => (Piece(Side::W, Class::K), Square::E1, Square::C1),
            CastleZone::BQ => (Piece(Side::B, Class::K), Square::E8, Square::C8),
        }
    }

    /// The squares of a zone that must be empty to castle.
    pub open spec fn unoccupied_set(self) -> Set<int> {
        squares_set(
            match self {
                CastleZone::WK => seq![Square::F1, Square::G1],
                CastleZone::WQ => seq![Square::B1, Square::C1, Square::D1],
                CastleZone::BK => seq![Square::F8, Square::G8],
                CastleZone::BQ => seq![Square::B8, Square::C8, Square::D8],
            },
        )
    }

    /// The squares of a zone that the enemy must not control to castle.
    pub open spec fn uncontrolled_set(self) -> Set<int> {
        squares_set(
            match self {
                CastleZone::WK => seq![Square::E1, Square::F1, Square::G1],
                CastleZone::WQ => seq![Square::E1, Square::C1, Square::D1],
                CastleZone::BK => seq![Square::E8, Square::F8, Square::G8],
                CastleZone::BQ => seq![Square::E8, Square::C8, Square::D8],
            },
        )
    }

    /// Return the side which this zone belongs to.
    pub fn side(&self) -> (r: Side)
        ensures
            r == self.side_of(),
    {
        match self {
            CastleZone::WK | CastleZone::WQ => Side::W,
            CastleZone::BK | CastleZone::BQ => Side::B,
        }
    }

    /// The corner of the board of this zone.
    pub fn corner(self) -> (r: Corner)
        ensures
            r == self.corner_of(),
    {
        match self {
            CastleZone::WK => Corner(Side::W, Flank::K),
            CastleZone::WQ => Corner(Side::W, Flank::Q),
            CastleZone::BK => Corner(Side::B, Flank::K),
            CastleZone::BQ => Corner(Side::B, Flank::Q),
        }
    }

    /// Return the kingside zone for the given side.
    pub fn kingside(side: Side) -> (r: CastleZone)
        ensures
            r == (if side == Side::W {
                CastleZone::WK
            } else {
                CastleZone::BK
            }),
    {
        match side {
            Side::W => CastleZone::WK,
            Side::B => CastleZone::BK,
        }
    }

    /// Return the queenside zone for the given side.
    pub fn queenside(side: Side) -> (r: CastleZone)
        ensures
            r == (if side == Side::W {
                CastleZone::WQ
            } else {
                CastleZone::BQ
            }),
    {
        match side {
            Side::W => CastleZone::WQ,
            Side::B => CastleZone::BQ,
        }
    }

    /// All zones in order.
    pub fn iter() -> (r: Vec<CastleZone>)
        ensures
            r@ == seq![CastleZone::WK, CastleZone::WQ, CastleZone::BK, CastleZone::BQ],
    {
        vec![CastleZone::WK, CastleZone::WQ, CastleZone::BK, CastleZone::BQ]
    }

    /// Returns a set of exactly two squares which denote the required
    /// locations of the king and rook in order for the corresponding
    /// castle move to take place.
    pub fn source_squares(self) -> (r: BitBoard)
        ensures
            r@ == self.source_set(),
    {
        let v = match self {
            CastleZone::WK => vec![Square::E1, Square::H1],
            CastleZone::WQ => vec![Square::E1, Square::A1],
            CastleZone::BK => vec![Square::E8, Square::H8],
            CastleZone::BQ => vec![Square::E8, Square::A8],
        };
        BitBoard::from_squares(&v)
    }

    /// Returns a triple containing the rook which moves in the corresponding
    /// castle move along with it's required start square followed by the
    /// square it will finish on.
    pub fn rook_data(self) -> (r: (Piece, Square, Square))
        ensures
            r == self.rook_spec(),
    {
        match self {
            CastleZone::WK => (Piece(Side::W, Class::R), Square::H1, Square::F1),
            CastleZone::BK => (Piece(Side::B, Class::R), Square::H8, Square::F8),
            CastleZone::WQ => (Piece(Side::W, Class::R), Square::A1, Square::D1),
            CastleZone::BQ => (Piece(Side::B, Class::R), Square::A8, Square::D8),
        }
    }

    /// Returns a triple containing the king which moves in the corresponding
    /// castle move along with it's required start square followed by the
    /// square it will finish on.
    pub fn king_data(self) -> (r: (Piece, Square, Square))
        ensures
            r == self.king_spec(),
    {
        match self {
            CastleZone::WK => (Piece(Side::W, Class::K), Square::E1, Square::G1),
            CastleZone::BK => (Piece(Side::B, Class::K), Square::E8, Square::G8),
            CastleZone::WQ => (Piece(Side::W, Class::K), Square::E1, Square::C1),
            CastleZone::BQ => (Piece(Side::B, Class::K), Square::E8, Square::C8),
        }
    }

    /// Returns a set containing the squares which are required to be
    /// free of any other pieces in order for the corresponding castle
    /// move to be legal.
    pub fn unoccupied_requirement(self) -> (r: BitBoard)
        ensures
            r@ == self.unoccupied_set(),
    {
        let v = match self {
            CastleZone::WK => vec![Square::F1, Square::G1],
            CastleZone::WQ => vec![Square::B1, Square::C1, Square::D1],
            CastleZone::BK => vec![Square::F8, Square::G8],
            CastleZone::BQ => vec![Square::B8, Square::C8, Square::D8],
        };
        BitBoard::from_squares(&v)
    }

    /// Returns a set containing the squares which are required to be
    /// free of enemy control in order for the corresponding castle move
    /// to be legal.
    pub fn uncontrolled_requirement(self) -> (r: BitBoard)
        ensures
            r@ == self.uncontrolled_set(),
    {
        let v = match self {
            CastleZone::WK => vec![Square::E1, Square::F1, Square::G1],
            CastleZone::WQ => vec![Square::E1, Square::C1, Square::D1],
            CastleZone::BK => vec![Square::E8, Square::F8, Square::G8],
            CastleZone::BQ => vec![Square::E8, Square::C8, Square::D8],
        };
        BitBoard::from_squares(&v)
    }

    /// Lifts this zone to a set of one element.
    pub fn lift(self) -> (r: CastleZoneSet)
        ensures
            r@ == set![self],
    {
        let mut s = CastleZoneSet::empty();
        s.insert(self);
        s
    }

    /// The two letter lower case name of this zone, such as "wk".
    pub fn to_string(&self) -> (r: String)
        ensures
            r@ == zone_name(*self),
    {
        proof {
            reveal_strlit("wk");
            reveal_strlit("wq");
            reveal_strlit("bk");
            reveal_strlit("bq");
        }
        match self {
            CastleZone::WK => String::from_str("wk"),
            CastleZone::WQ => String::from_str("wq"),
            CastleZone::BK => String::from_str("bk"),
            CastleZone::BQ => String::from_str("bq"),
        }
    }

    /// Parse a zone from its name, all in lower case or all in upper case.
    pub fn parse(s: &str) -> (r: Result<CastleZone, ParseError>)
        ensures
            r matches Ok(z) ==> s@ == zone_name(z) || s@ == upper_zone_name(z),
            r is Err ==> forall|z: CastleZone| s@ != zone_name(z) && s@ != upper_zone_name(z),
    {
        if s.unicode_len() != 2 {
            return Err(ParseError::Unrecognised);
        }
        let a = s.get_char(0);
        let b = s.get_char(1);
        assert(s@ =~= seq![a, b]);
        if (a == 'w' && b == 'k') || (a == 'W' && b == 'K') {
            Ok(CastleZone::WK)
        } else if (a == 'w' && b == 'q') || (a == 'W' && b == 'Q') {
            Ok(CastleZone::WQ)
        } else if (a == 'b' && b == 'k') || (a == 'B' && b == 'K') {
            Ok(CastleZone::BK)
        } else if (a == 'b' && b == 'q') || (a == 'B' && b == 'Q') {
            Ok(CastleZone::BQ)
        } else {
            Err(ParseError::Unrecognised)
        }
    }
}

/// The lower case name of a zone.
pub open spec fn zone_name(z: CastleZone) -> Seq<char> {
    match z {
        CastleZone::WK => seq!['w', 'k'],
        CastleZone::WQ => seq!['w', 'q'],
        CastleZone::BK => seq!['b', 'k'],
        CastleZone::BQ => seq!['b', 'q'],
    }
}

/// The upper case name of a zone.
pub open spec fn upper_zone_name(z: CastleZone) -> Seq<char> {
    match z {
        CastleZone::WK => seq!['W', 'K'],
        CastleZone::WQ => seq!['W', 'Q'],
        CastleZone::BK => seq!['B', 'K'],
        CastleZone::BQ => seq!['B', 'Q'],
    }
}

impl std::str::FromStr for CastleZone {
    type Err = ParseError;

    fn from_str(s: &str) -> (r: Result<CastleZone, ParseError>)
        ensures
            r matches Ok(z) ==> s@ == zone_name(z) || s@ == upper_zone_name(z),
            r is Err ==> forall|z: CastleZone| s@ != zone_name(z) && s@ != upper_zone_name(z),
    {
        CastleZone::parse(s)
    }
}

/// A set of castle zones, such as the castling rights that remain.
#[derive(Debug, Copy, Clone, PartialEq, Eq, Structural, Hash)]
pub struct CastleZoneSet {
    pub wk: bool,
    pub wq: bool,
    pub bk: bool,
    pub bq: bool,
}

impl View for CastleZoneSet {
    type V = Set<CastleZone>;

    open spec fn view(&self) -> Set<CastleZone> {
        Set::new(
            |z: CastleZone|
                match z {
                    CastleZone::WK => self.wk,
                    CastleZone::WQ => self.wq,
                    CastleZone::BK => self.bk,
                    CastleZone::BQ => self.bq,
                },
        )
    }
}

impl CastleZoneSet {
    /// The empty set.
    pub fn empty() -> (r: CastleZoneSet)
        ensures
            r@ == Set::<CastleZone>::empty(),
    {
        let r = CastleZoneSet { wk: false, wq: false, bk: false, bq: false };
        assert(r@ =~= Set::<CastleZone>::empty());
        r
    }

    /// The set of all four zones.
    pub fn all() -> (r: CastleZoneSet)
        ensures
            r@ == Set::<CastleZone>::full(),
    {
        let r = CastleZoneSet { wk: true, wq: true, bk: true, bq: true };
        assert(r@ =~= Set::<CastleZone>::full());
        r
    }

    /// Whether the set holds the zone.
    pub fn contains(&self, z: CastleZone) -> (r: bool)
        ensures
            r == self@.contains(z),
    {
        match z {
            CastleZone::WK => self.wk,
            CastleZone::WQ => self.wq,
            CastleZone::BK => self.bk,
            CastleZone::BQ => self.bq,
        }
    }

    /// Add a zone to the set.
    pub fn insert(&mut self, z: CastleZone)
        ensures
            final(self)@ == old(self)@.insert(z),
    {
        match z {
            CastleZone::WK => self.wk = true,
            CastleZone::WQ => self.wq = true,
            CastleZone::BK => self.bk = true,
            CastleZone::BQ => self.bq = true,
        }
        assert(self@ =~= old(self)@.insert(z));
    }

    /// Remove a zone from the set.
    pub fn remove(&mut self, z: CastleZone)
        ensures
            final(self)@ == old(self)@.remove(z),
    {
        match z {
            CastleZone::WK => self.wk = false,
            CastleZone::WQ => self.wq = false,
            CastleZone::BK => self.bk = false,
            CastleZone::BQ => self.bq = false,
        }
        assert(self@ =~= old(self)@.remove(z));
    }

    /// The number of zones of the given side in the set.
    pub fn count_side(&self, side: Side) -> (r: i32)
        ensures
            r == (if side == Side::W {
                (if self.wk { 1int } else { 0int }) + (if self.wq { 1int } else { 0int })
            } else {
                (if self.bk { 1int } else { 0int }) + (if self.bq { 1int } else { 0int })
            }),
            0 <= r <= 2,
    {
        let (k, q) = match side {
            Side::W => (self.wk, self.wq),
            Side::B => (self.bk, self.bq),
        };
        (if k { 1i32 } else { 0i32 }) + (if q { 1i32 } else { 0i32 })
    }
}

/// The set of the squares of a sequence of two or three squares.
proof fn lemma_squares_set(q: Seq<Square>)
    requires
        q.len() == 2 || q.len() == 3,
    ensures
        q.len() == 2 ==> squares_set(q) == set![q[0].idx(), q[1].idx()],
        q.len() == 3 ==> squares_set(q) == set![q[0].idx(), q[1].idx(), q[2].idx()],
{
    let m = q.map_values(|x: Square| x.idx());
    assert forall|x: int| squares_set(q).contains(x) <==> (exists|k: int| 0 <= k < q.len() && q[k].idx() == x) by {
        if squares_set(q).contains(x) {
            let k = choose|k: int| 0 <= k < m.len() && m[k] == x;
            assert(q[k].idx() == x);
        }
        if exists|k: int| 0 <= k < q.len() && q[k].idx() == x {
            let k = choose|k: int| 0 <= k < q.len() && q[k].idx() == x;
            assert(m[k] == x);
        }
    }
    if q.len() == 2 {
        assert forall|x: int| squares_set(q).contains(x) <==> set![q[0].idx(), q[1].idx()].contains(x) by {
            if set![q[0].idx(), q[1].idx()].contains(x) {
                if x == q[0].idx() {
                    assert(0 <= 0 < q.len() && q[0].idx() == x);
                } else {
                    assert(0 <= 1 < q.len() && q[1].idx() == x);
                }
            }
        }
        assert(squares_set(q) =~= set![q[0].idx(), q[1].idx()]);
    } else {
        assert forall|x: int| squares_set(q).contains(x) <==> set![q[0].idx(), q[1].idx(), q[2].idx()].contains(x) by {
            if set![q[0].idx(), q[1].idx(), q[2].idx()].contains(x) {
                if x == q[0].idx() {
                    assert(0 <= 0 < q.len() && q[0].idx() == x);
                } else if x == q[1].idx() {
                    assert(0 <= 1 < q.len() && q[1].idx() == x);
                } else {
                    assert(0 <= 2 < q.len() && q[2].idx() == x);
                }
            }
        }
        assert(squares_set(q) =~= set![q[0].idx(), q[1].idx(), q[2].idx()]);
    }
}

/// Walking `k + 1` steps east or west along a rank stays on the rank.
proof fn lemma_ray_horizontal(i: int, d: Dir, k: int)
    requires
        0 <= i < 64,
        d == Dir::E || d == Dir::W,
        0 <= k,
        0 <= file_of(i) + (if d == Dir::W { k + 1 } else { -(k + 1) }) < 8,
    ensures
        k < ray(i, d).len(),
        ray(i, d)[k] == i + (if d == Dir::W { k + 1 } else { -(k + 1) }),
    decreases k,
{
    let step: int = if d == Dir::W { 1 } else { -1 };
    let j = i + step;
    assert(next_idx(i, d) == Some(j));
    assert(ray(i, d) == seq![j] + ray(j, d));
    if k > 0 {
        lemma_ray_horizontal(j, d, k - 1);
    }
}

/// The part of a sequence before the first occurrence of an element.
proof fn lemma_take_until_at(r: Seq<int>, t: int, k: int)
    requires
        0 <= k < r.len(),
        r[k] == t,
        forall|j: int| 0 <= j < k ==> r[j] != t,
    ensures
        take_until(r, t) == r.take(k),
    decreases k,
{
    if k == 0 {
        assert(r.take(0) =~= Seq::<int>::empty());
    } else {
        lemma_take_until_at(r.drop_first(), t, k - 1);
        assert(r.take(k) =~= seq![r[0]] + r.drop_first().take(k - 1));
    }
}

/// The cord between two squares of one rank is the squares between them,
/// both included.
proof fn lemma_cord_on_rank(s: int, t: int)
    requires
        0 <= s < 64,
        0 <= t < 64,
        rank_of(s) == rank_of(t),
        s != t,
    ensures
        cord_set(s, t) == Set::new(|x: int| (s <= x <= t) || (t <= x <= s)),
{
    let d = if s < t { Dir::W } else { Dir::E };
    let k = if s < t { t - s - 1 } else { s - t - 1 };
    lemma_ray_horizontal(s, d, k);
    let r = ray(s, d);
    assert forall|j: int| 0 <= j < k implies r[j] != t by {
        lemma_ray_horizontal(s, d, j);
    }
    lemma_take_until_at(r, t, k);
    lemma_cord_dirs();
    assert(cord_dirs()[2] == Dir::E && cord_dirs()[6] == Dir::W);
    assert(cord_dirs().contains(d));
    assert(r.contains(t));
    lemma_cord_from_found(s, t, cord_dirs(), d);
    let between = Set::new(|x: int| (s <= x <= t) || (t <= x <= s));
    assert forall|x: int| cord_set(s, t).contains(x) <==> between.contains(x) by {
        if r.take(k).contains(x) {
            let j = choose|j: int| 0 <= j < r.take(k).len() && r.take(k)[j] == x;
            lemma_ray_horizontal(s, d, j);
        }
        if between.contains(x) && x != s && x != t {
            let j = if s < t { x - s - 1 } else { s - x - 1 };
            lemma_ray_horizontal(s, d, j);
            assert(r.take(k)[j] == x);
        }
    }
    assert(cord_set(s, t) =~= between);
}

/// The geometry of castling. The source squares are the start squares of
/// the king and the rook of the zone, two of them. The king moves two
/// squares along its rank towards its rook, from E1 for white and E8 for
/// black; the squares it must not pass through controlled are the cord
/// from its start to its destination, three squares, and the rook lands
/// on the one the king crosses. The squares that must be empty are those
/// strictly between the king and the rook: they hold both destinations
/// and no source square. The king and the rook are those of the zone's
/// side.
pub proof fn lemma_castle_geometry(z: CastleZone)
    ensures
        ({
            let (k, ks, kd) = z.king_spec();
            let (r, rs, rd) = z.rook_spec();
            &&& k == Piece(z.side_of(), Class::K)
            &&& r == Piece(z.side_of(), Class::R)
            &&& ks == (if z.side_of() == Side::W {
                Square::E1
            } else {
                Square::E8
            })
            &&& z.source_set() == set![ks.idx(), rs.idx()]
            &&& z.source_set().len() == 2
            &&& rank_of(ks.idx()) == rank_of(kd.idx())
            &&& rank_of(rs.idx()) == rank_of(rd.idx())
            &&& z.uncontrolled_set() == cord_set(ks.idx(), kd.idx())
            &&& cord_set(ks.idx(), kd.idx()).len() == 3
            &&& cord_set(ks.idx(), rs.idx()).contains(kd.idx())
            &&& cord_set(ks.idx(), kd.idx()).remove(ks.idx()).remove(kd.idx()) == set![rd.idx()]
            &&& z.unoccupied_set() == cord_set(ks.idx(), rs.idx()).remove(ks.idx()).remove(rs.idx())
            &&& z.unoccupied_set().disjoint(z.source_set())
            &&& z.unoccupied_set().contains(kd.idx())
            &&& z.unoccupied_set().contains(rd.idx())
            &&& z.uncontrolled_set().contains(rd.idx())
            &&& !z.uncontrolled_set().contains(rs.idx())
        }),
{
    let (k, ks, kd) = z.king_spec();
    let (r, rs, rd) = z.rook_spec();
    lemma_cord_on_rank(ks.idx(), kd.idx());
    lemma_cord_on_rank(ks.idx(), rs.idx());
    let u = cord_set(ks.idx(), kd.idx());
    let c = cord_set(ks.idx(), rs.idx());
    match z {
        CastleZone::WK => {
            lemma_squares_set(seq![Square::E1, Square::H1]);
            lemma_squares_set(seq![Square::E1, Square::F1, Square::G1]);
            lemma_squares_set(seq![Square::F1, Square::G1]);
            assert(z.source_set() =~= set![3int, 0int]);
            assert(z.uncontrolled_set() =~= set![3int, 2int, 1int]);
            assert(z.unoccupied_set() =~= set![2int, 1int]);
            assert(u =~= set![3int, 2int, 1int]);
            assert(c.remove(3).remove(0) =~= set![2int, 1int]);
            assert(u.remove(3).remove(1) =~= set![2int]);
        },
        CastleZone::WQ => {
            lemma_squares_set(seq![Square::E1, Square::A1]);
            lemma_squares_set(seq![Square::E1, Square::C1, Square::D1]);
            lemma_squares_set(seq![Square::B1, Square::C1, Square::D1]);
            assert(z.source_set() =~= set![3int, 7int]);
            assert(z.uncontrolled_set() =~= set![3int, 5int, 4int]);
            assert(z.unoccupied_set() =~= set![6int, 5int, 4int]);
            assert(u =~= set![3int, 4int, 5int]);
            assert(c.remove(3).remove(7) =~= set![4int, 5int, 6int]);
            assert(u.remove(3).remove(5) =~= set![4int]);
        },
        CastleZone::BK => {
            lemma_squares_set(seq![Square::E8, Square::H8]);
            lemma_squares_set(seq![Square::E8, Square::F8, Square::G8]);
            lemma_squares_set(seq![Square::F8, Square::G8]);
            assert(z.source_set() =~= set![59int, 56int]);
            assert(z.uncontrolled_set() =~= set![59int, 58int, 57int]);
            assert(z.unoccupied_set() =~= set![58int, 57int]);
            assert(u =~= set![59int, 58int, 57int]);
            assert(c.remove(59).remove(56) =~= set![58int, 57int]);
            assert(u.remove(59).remove(57) =~= set![58int]);
        },
        CastleZone::BQ => {
            lemma_squares_set(seq![Square::E8, Square::A8]);
            lemma_squares_set(seq![Square::E8, Square::C8, Square::D8]);
            lemma_squares_set(seq![Square::B8, Square::C8, Square::D8]);
            assert(z.source_set() =~= set![59int, 63int]);
            assert(z.uncontrolled_set() =~= set![59int, 61int, 60int]);
            assert(z.unoccupied_set() =~= set![62int, 61int, 60int]);
            assert(u =~= set![59int, 60int, 61int]);
            assert(c.remove(59).remove(63) =~= set![60int, 61int, 62int]);
            assert(u.remove(59).remove(61) =~= set![60int]);
        },
    }
    assert(set![3int, 0int].len() == 2);
}

} // verus!
