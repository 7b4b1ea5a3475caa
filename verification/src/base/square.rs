use vstd::prelude::*;

use crate::base::bitboard::{bits, BitBoard, rank_set, file_set};
use crate::base::types::{Dir, ParseError};

verus! {

/// The squares of the board, ordered H1, G1, ..., A1, H2, ..., A8 so
/// that the index of a square is eight times its rank index plus its file
/// index (files indexed from H to A).
#[derive(Debug, Copy, Clone, PartialEq, Eq, Structural, Hash, PartialOrd, Ord)]
pub enum Square {
    H1, G1, F1, E1, D1, C1, B1, A1,
    H2, G2, F2, E2, D2, C2, B2, A2,
    H3, G3, F3, E3, D3, C3, B3, A3,
    H4, G4, F4, E4, D4, C4, B4, A4,
    H5, G5, F5, E5, D5, C5, B5, A5,
    H6, G6, F6, E6, D6, C6, B6, A6,
    H7, G7, F7, E7, D7, C7, B7, A7,
    H8, G8, F8, E8, D8, C8, B8, A8,
}

impl Square {
    /// The index of this square, from 0 (H1) to 63 (A8).
    pub open spec fn idx(self) -> int {
        match self {
            Square::H1 => 0,
            Square::G1 => 1,
            Square::F1 => 2,
            Square::E1 => 3,
            Square::D1 => 4,
            Square::C1 => 5,
            Square::B1 => 6,
            Square::A1 => 7,
            Square::H2 => 8,
            Square::G2 => 9,
            Square::F2 => 10,
            Square::E2 => 11,
            Square::D2 => 12,
            Square::C2 => 13,
            Square::B2 => 14,
            Square::A2 => 15,
            Square::H3 => 16,
            Square::G3 => 17,
            Square::F3 => 18,
            Square::E3 => 19,
            Square::D3 => 20,
            Square::C3 => 21,
            Square::B3 => 22,
            Square::A3 => 23,
            Square::H4 => 24,
            Square::G4 => 25,
            Square::F4 => 26,
            Square::E4 => 27,
            Square::D4 => 28,
            Square::C4 => 29,
            Square::B4 => 30,
            Square::A4 => 31,
            Square::H5 => 32,
            Square::G5 => 33,
            Square::F5 => 34,
            Square::E5 => 35,
            Square::D5 => 36,
            Square::C5 => 37,
            Square::B5 => 38,
            Square::A5 => 39,
            Square::H6 => 40,
            Square::G6 => 41,
            Square::F6 => 42,
            Square::E6 => 43,
            Square::D6 => 44,
            Square::C6 => 45,
            Square::B6 => 46,
            Square::A6 => 47,
            Square::H7 => 48,
            Square::G7 => 49,
            Square::F7 => 50,
            Square::E7 => 51,
            Square::D7 => 52,
            Square::C7 => 53,
            Square::B7 => 54,
            Square::A7 => 55,
            Square::H8 => 56,
            Square::G8 => 57,
            Square::F8 => 58,
            Square::E8 => 59,
            Square::D8 => 60,
            Square::C8 => 61,
            Square::B8 => 62,
            Square::A8 => 63,
        }
    }
}

/// The square of the given index.
pub open spec fn square_at(i: int) -> Square {
    if i == 0 {
        Square::H1
    } else if i == 1 {
        Square::G1
    } else if i == 2 {
        Square::F1
    } else if i == 3 {
        Square::E1
    } else if i == 4 {
        Square::D1
    } else if i == 5 {
        Square::C1
    } else if i == 6 {
        Square::B1
    } else if i == 7 {
        Square::A1
    } else if i == 8 {
        Square::H2
    } else if i == 9 {
        Square::G2
    } else if i == 10 {
        Square::F2
    } else if i == 11 {
        Square::E2
    } else if i == 12 {
        Square::D2
    } else if i == 13 {
        Square::C2
    } else if i == 14 {
        Square::B2
    } else if i == 15 {
        Square::A2
    } else if i == 16 {
        Square::H3
    } else if i == 17 {
        Square::G3
    } else if i == 18 {
        Square::F3
    } else if i == 19 {
        Square::E3
    } else if i == 20 {
        Square::D3
    } else if i == 21 {
        Square::C3
    } else if i == 22 {
        Square::B3
    } else if i == 23 {
        Square::A3
    } else if i == 24 {
        Square::H4
    } else if i == 25 {
        Square::G4
    } else if i == 26 {
        Square::F4
    } else if i == 27 {
        Square::E4
    } else if i == 28 {
        Square::D4
    } else if i == 29 {
        Square::C4
    } else if i == 30 {
        Square::B4
    } else if i == 31 {
        Square::A4
    } else if i == 32 {
        Square::H5
    } else if i == 33 {
        Square::G5
    } else if i == 34 {
        Square::F5
    } else if i == 35 {
        Square::E5
    } else if i == 36 {
        Square::D5
    } else if i == 37 {
        Square::C5
    } else if i == 38 {
        Square::B5
    } else if i == 39 {
        Square::A5
    } else if i == 40 {
        Square::H6
    } else if i == 41 {
        Square::G6
    } else if i == 42 {
        Square::F6
    } else if i == 43 {
        Square::E6
    } else if i == 44 {
        Square::D6
    } else if i == 45 {
        Square::C6
    } else if i == 46 {
        Square::B6
    } else if i == 47 {
        Square::A6
    } else if i == 48 {
        Square::H7
    } else if i == 49 {
        Square::G7
    } else if i == 50 {
        Square::F7
    } else if i == 51 {
        Square::E7
    } else if i == 52 {
        Square::D7
    } else if i == 53 {
        Square::C7
    } else if i == 54 {
        Square::B7
    } else if i == 55 {
        Square::A7
    } else if i == 56 {
        Square::H8
    } else if i == 57 {
        Square::G8
    } else if i == 58 {
        Square::F8
    } else if i == 59 {
        Square::E8
    } else if i == 60 {
        Square::D8
    } else if i == 61 {
        Square::C8
    } else if i == 62 {
        Square::B8
    } else {
        Square::A8
    }
}

/// Rank index (0 for the first rank) of a square index.
pub open spec fn rank_of(i: int) -> int {
    i / 8
}

/// File index (0 for the H file) of a square index.
pub open spec fn file_of(i: int) -> int {
    i % 8
}

/// The square index one step from index `i` in direction `d`, if it
/// lies on the board.
pub open spec fn next_idx(i: int, d: Dir) -> Option<int> {
    let r = rank_of(i) + d.dr();
    let f = file_of(i) + d.df();
    if 0 <= r < 8 && 0 <= f < 8 {
        Some(8 * r + f)
    } else {
        None
    }
}

/// An upper bound on the number of steps that can still be taken from `i`
/// in direction `d` before leaving the board.
pub open spec fn room(i: int, d: Dir) -> nat {
    if d.dr() > 0 {
        (7 - rank_of(i)) as nat
    } else if d.dr() < 0 {
        rank_of(i) as nat
    } else if d.df() > 0 {
        (7 - file_of(i)) as nat
    } else {
        file_of(i) as nat
    }
}

/// The squares met walking from `i` in direction `d` until the edge of
/// the board, nearest first (the start is not included).
pub open spec fn ray(i: int, d: Dir) -> Seq<int>
    decreases room(i, d),
{
    if 0 <= i < 64 {
        match next_idx(i, d) {
            Some(j) => seq![j] + ray(j, d),
            None => Seq::empty(),
        }
    } else {
        Seq::empty()
    }
}

/// The indices of a sequence of squares.
pub open spec fn idxs(s: Seq<Square>) -> Seq<int> {
    s.map_values(|q: Square| q.idx())
}

/// The union of the rays from `i` in each of the given directions.
pub open spec fn rays_union(i: int, dirs: Seq<Dir>) -> Set<int>
    decreases dirs.len(),
{
    if dirs.len() == 0 {
        Set::empty()
    } else {
        rays_union(i, dirs.drop_last()).union(ray(i, dirs.last()).to_set())
    }
}

/// The set of squares one step from `i` in each of the given directions.
pub open spec fn steps_union(i: int, dirs: Seq<Dir>) -> Set<int>
    decreases dirs.len(),
{
    if dirs.len() == 0 {
        Set::empty()
    } else {
        let rest = steps_union(i, dirs.drop_last());
        match next_idx(i, dirs.last()) {
            Some(j) => rest.insert(j),
            None => rest,
        }
    }
}

/// Every square has an index on the board and is the square at that index.
pub broadcast proof fn lemma_square_idx(s: Square)
    ensures
        0 <= #[trigger] s.idx() < 64,
        square_at(s.idx()) == s,
{
}

/// The square at an index of the board has that index.
pub broadcast proof fn lemma_square_at(i: int)
    requires
        0 <= i < 64,
    ensures
        #[trigger] square_at(i).idx() == i,
{
}

/// A ray never leaves the board.
pub proof fn lemma_ray_on_board(i: int, d: Dir)
    ensures
        forall|k: int| 0 <= k < ray(i, d).len() ==> 0 <= #[trigger] ray(i, d)[k] < 64,
    decreases room(i, d),
{
    if 0 <= i < 64 {
        match next_idx(i, d) {
            Some(j) => {
                lemma_ray_on_board(j, d);
                let r = ray(i, d);
                assert(r == seq![j] + ray(j, d));
                assert forall|k: int| 0 <= k < r.len() implies 0 <= #[trigger] r[k] < 64 by {
                    if k > 0 {
                        assert(r[k] == ray(j, d)[k - 1]);
                    }
                }
            },
            None => {},
        }
    }
}

impl Square {
    /// The index of this square, from 0 (H1) to 63 (A8).
    pub fn index(self) -> (r: usize)
        ensures
            r == self.idx(),
    {
        match self {
            Square::H1 => 0,
            Square::G1 => 1,
            Square::F1 => 2,
            Square::E1 => 3,
            Square::D1 => 4,
            Square::C1 => 5,
            Square::B1 => 6,
            Square::A1 => 7,
            Square::H2 => 8,
            Square::G2 => 9,
            Square::F2 => 10,
            Square::E2 => 11,
            Square::D2 => 12,
            Square::C2 => 13,
            Square::B2 => 14,
            Square::A2 => 15,
            Square::H3 => 16,
            Square::G3 => 17,
            Square::F3 => 18,
            Square::E3 => 19,
            Square::D3 => 20,
            Square::C3 => 21,
            Square::B3 => 22,
            Square::A3 => 23,
            Square::H4 => 24,
            Square::G4 => 25,
            Square::F4 => 26,
            Square::E4 => 27,
            Square::D4 => 28,
            Square::C4 => 29,
            Square::B4 => 30,
            Square::A4 => 31,
            Square::H5 => 32,
            Square::G5 => 33,
            Square::F5 => 34,
            Square::E5 => 35,
            Square::D5 => 36,
            Square::C5 => 37,
            Square::B5 => 38,
            Square::A5 => 39,
            Square::H6 => 40,
            Square::G6 => 41,
            Square::F6 => 42,
            Square::E6 => 43,
            Square::D6 => 44,
            Square::C6 => 45,
            Square::B6 => 46,
            Square::A6 => 47,
            Square::H7 => 48,
            Square::G7 => 49,
            Square::F7 => 50,
            Square::E7 => 51,
            Square::D7 => 52,
            Square::C7 => 53,
            Square::B7 => 54,
            Square::A7 => 55,
            Square::H8 => 56,
            Square::G8 => 57,
            Square::F8 => 58,
            Square::E8 => 59,
            Square::D8 => 60,
            Square::C8 => 61,
            Square::B8 => 62,
            Square::A8 => 63,
        }
    }

    /// The square with the given index.
    pub fn from_index(i: usize) -> (r: Square)
        requires
            i < 64,
        ensures
            r == square_at(i as int),
            r.idx() == i,
    {
        match i {
            0 => Square::H1,
            1 => Square::G1,
            2 => Square::F1,
            3 => Square::E1,
            4 => Square::D1,
            5 => Square::C1,
            6 => Square::B1,
            7 => Square::A1,
            8 => Square::H2,
            9 => Square::G2,
            10 => Square::F2,
            11 => Square::E2,
            12 => Square::D2,
            13 => Square::C2,
            14 => Square::B2,
            15 => Square::A2,
            16 => Square::H3,
            17 => Square::G3,
            18 => Square::F3,
            19 => Square::E3,
            20 => Square::D3,
            21 => Square::C3,
            22 => Square::B3,
            23 => Square::A3,
            24 => Square::H4,
            25 => Square::G4,
            26 => Square::F4,
            27 => Square::E4,
            28 => Square::D4,
            29 => Square::C4,
            30 => Square::B4,
            31 => Square::A4,
            32 => Square::H5,
            33 => Square::G5,
            34 => Square::F5,
            35 => Square::E5,
            36 => Square::D5,
            37 => Square::C5,
            38 => Square::B5,
            39 => Square::A5,
            40 => Square::H6,
            41 => Square::G6,
            42 => Square::F6,
            43 => Square::E6,
            44 => Square::D6,
            45 => Square::C6,
            46 => Square::B6,
            47 => Square::A6,
            48 => Square::H7,
            49 => Square::G7,
            50 => Square::F7,
            51 => Square::E7,
            52 => Square::D7,
            53 => Square::C7,
            54 => Square::B7,
            55 => Square::A7,
            56 => Square::H8,
            57 => Square::G8,
            58 => Square::F8,
            59 => Square::E8,
            60 => Square::D8,
            61 => Square::C8,
            62 => Square::B8,
            _ => Square::A8,
        }
    }

    /// The lower case name of this square, such as "a1".
    pub fn to_string(&self) -> (r: String)
        ensures
            r@ == square_name(self.idx()),
    {
        let i = self.index();
        let f = i % 8;
        let rk = i / 8;
        let mut s = match f {
            0 => String::from_str("h"),
            1 => String::from_str("g"),
            2 => String::from_str("f"),
            3 => String::from_str("e"),
            4 => String::from_str("d"),
            5 => String::from_str("c"),
            6 => String::from_str("b"),
            _ => String::from_str("a"),
        };
        let d = match rk {
            0 => "1",
            1 => "2",
            2 => "3",
            3 => "4",
            4 => "5",
            5 => "6",
            6 => "7",
            _ => "8",
        };
        proof {
            reveal_strlit("h");
            reveal_strlit("g");
            reveal_strlit("f");
            reveal_strlit("e");
            reveal_strlit("d");
            reveal_strlit("c");
            reveal_strlit("b");
            reveal_strlit("a");
            reveal_strlit("1");
            reveal_strlit("2");
            reveal_strlit("3");
            reveal_strlit("4");
            reveal_strlit("5");
            reveal_strlit("6");
            reveal_strlit("7");
            reveal_strlit("8");
        }
        s.append(d);
        assert(s@ =~= square_name(self.idx()));
        s
    }
}

/// The lower case letter of a file index (0 is the H file).
pub open spec fn file_char(f: int) -> char {
    if f == 0 {
        'h'
    } else if f == 1 {
        'g'
    } else if f == 2 {
        'f'
    } else if f == 3 {
        'e'
    } else if f == 4 {
        'd'
    } else if f == 5 {
        'c'
    } else if f == 6 {
        'b'
    } else {
        'a'
    }
}

/// The digit of a rank index (0 is the first rank).
pub open spec fn rank_char(r: int) -> char {
    if r == 0 {
        '1'
    } else if r == 1 {
        '2'
    } else if r == 2 {
        '3'
    } else if r == 3 {
        '4'
    } else if r == 4 {
        '5'
    } else if r == 5 {
        '6'
    } else if r == 6 {
        '7'
    } else {
        '8'
    }
}

/// The lower case name of the square with index `i`.
pub open spec fn square_name(i: int) -> Seq<char> {
    seq![file_char(file_of(i)), rank_char(rank_of(i))]
}

impl Square {
    /// The single square set of this square.
    pub fn lift(self) -> (r: BitBoard)
        ensures
            r.0 == 1u64 << (self.idx() as u64),
            r@ == set![self.idx()],
    {
        BitBoard(crate::base::bitboard::loc(self))
    }

    /// Return all squares in order.
    pub fn iter() -> (r: Vec<Square>)
        ensures
            r@.len() == 64,
            forall|k: int| 0 <= k < 64 ==> (#[trigger] r@[k]).idx() == k,
    {
        let mut v: Vec<Square> = Vec::new();
        let mut i: usize = 0;
        while i < 64
            invariant
                i <= 64,
                v@.len() == i,
                forall|k: int| 0 <= k < i ==> (#[trigger] v@[k]).idx() == k,
            decreases 64 - i,
        {
            v.push(Square::from_index(i));
            i = i + 1;
        }
        v
    }

    /// Return the index of the rank on which this square resides.
    pub fn rank_index(self) -> (r: usize)
        ensures
            r == rank_of(self.idx()),
            r < 8,
    {
        self.index() / 8
    }

    /// Return the index of the file on which this square resides.
    pub fn file_index(self) -> (r: usize)
        ensures
            r == file_of(self.idx()),
            r < 8,
    {
        self.index() % 8
    }

    /// Return a bitboard representing the rank on which this square
    /// resides.
    pub fn rank(self) -> (r: BitBoard)
        ensures
            r@ == rank_set(rank_of(self.idx())),
    {
        BitBoard::ranks(self.rank_index())
    }

    /// Return a bitboard representing the file on which this square
    /// resides.
    pub fn file(self) -> (r: BitBoard)
        ensures
            r@ == file_set(file_of(self.idx())),
    {
        BitBoard::files(self.file_index())
    }

    /// Finds the next square on a chessboard from this square in a
    /// given direction if it exists.
    pub fn next(self, dir: Dir) -> (r: Option<Square>)
        ensures
            match next_idx(self.idx(), dir) {
                Some(j) => r == Some(square_at(j)),
                None => r is None,
            },
            r matches Some(s) ==> next_idx(self.idx(), dir) == Some(s.idx()),
    {
        let (dr, df) = dir.dr_df();
        let new_rank = (self.rank_index() as i8) + dr;
        let new_file = (self.file_index() as i8) + df;
        if -1 < new_rank && new_rank < 8 && -1 < new_file && new_file < 8 {
            Some(Square::from_index((8 * new_rank + new_file) as usize))
        } else {
            None
        }
    }

    /// Find all squares in a given direction from this square and
    /// returns them as a vector where the squares are ordered in
    /// increasing distance from this square.
    pub fn search_vec(self, dir: Dir) -> (r: Vec<Square>)
        ensures
            idxs(r@) == ray(self.idx(), dir),
    {
        let mut res: Vec<Square> = Vec::new();
        let mut cur = self;
        loop
            invariant
                ray(self.idx(), dir) == idxs(res@) + ray(cur.idx(), dir),
            ensures
                ray(self.idx(), dir) == idxs(res@),
            decreases room(cur.idx(), dir),
        {
            match cur.next(dir) {
                None => {
                    assert(ray(cur.idx(), dir) =~= Seq::<int>::empty());
                    assert(idxs(res@) + Seq::<int>::empty() =~= idxs(res@));
                    break ;
                },
                Some(n) => {
                    let ghost old_res = res@;
                    res.push(n);
                    assert(ray(cur.idx(), dir) == seq![n.idx()] + ray(n.idx(), dir));
                    assert(idxs(res@) =~= idxs(old_res) + seq![n.idx()]);
                    assert(idxs(old_res) + (seq![n.idx()] + ray(n.idx(), dir)) =~= idxs(res@)
                        + ray(n.idx(), dir));
                    cur = n;
                },
            }
        }
        res
    }

    /// Find all squares in a given direction from this square and
    /// returns them as a set.
    pub fn search(self, dir: Dir) -> (r: BitBoard)
        ensures
            r@ == ray(self.idx(), dir).to_set(),
    {
        let v = self.search_vec(dir);
        BitBoard::from_squares(&v)
    }

    /// Find all squares in all directions in a given vector and
    /// returns them as a set.
    pub fn search_all(self, dirs: &Vec<Dir>) -> (r: BitBoard)
        ensures
            r@ == rays_union(self.idx(), dirs@),
    {
        let mut acc = BitBoard::empty();
        let mut k: usize = 0;
        while k < dirs.len()
            invariant
                k <= dirs@.len(),
                acc@ == rays_union(self.idx(), dirs@.take(k as int)),
            decreases dirs@.len() - k,
        {
            let part = self.search(dirs[k]);
            proof {
                crate::base::bitboard::lemma_bits_ops(acc.0, part.0);
                assert(dirs@.take(k + 1).drop_last() =~= dirs@.take(k as int));
            }
            acc = acc | part;
            k = k + 1;
        }
        assert(dirs@.take(dirs@.len() as int) =~= dirs@);
        acc
    }

    /// Find the squares adjacent to this square in all of the
    /// given directions and returns them as a set.
    pub fn search_one(self, dirs: &Vec<Dir>) -> (r: BitBoard)
        ensures
            r@ == steps_union(self.idx(), dirs@),
    {
        let mut acc = BitBoard::empty();
        let mut k: usize = 0;
        while k < dirs.len()
            invariant
                k <= dirs@.len(),
                acc@ == steps_union(self.idx(), dirs@.take(k as int)),
            decreases dirs@.len() - k,
        {
            proof {
                assert(dirs@.take(k + 1).drop_last() =~= dirs@.take(k as int));
            }
            match self.next(dirs[k]) {
                Some(n) => {
                    let l = n.lift();
                    proof {
                        crate::base::bitboard::lemma_bits_ops(acc.0, l.0);
                        assert(acc@.union(set![n.idx()]) =~= acc@.insert(n.idx()));
                    }
                    acc = acc | l;
                },
                None => {},
            }
            k = k + 1;
        }
        assert(dirs@.take(dirs@.len() as int) =~= dirs@);
        acc
    }

    /// Parse a square from its name, such as "a1" or "A1".
    pub fn parse(s: &str) -> (r: Result<Square, ParseError>)
        ensures
            r matches Ok(sq) ==> s@.len() == 2 && (s@[0] == file_char(file_of(sq.idx())) || s@[0]
                == upper_file_char(file_of(sq.idx()))) && s@[1] == rank_char(rank_of(sq.idx())),
            r is Err ==> forall|i: int|
                0 <= i < 64 ==> !(s@.len() == 2 && (s@[0] == file_char(file_of(i)) || s@[0]
                    == upper_file_char(file_of(i))) && s@[1] == rank_char(rank_of(i))),
    {
        if s.unicode_len() != 2 {
            return Err(ParseError::Unrecognised);
        }
        let c = s.get_char(0);
        let d = s.get_char(1);
        let f: usize = if c == 'h' || c == 'H' {
            0
        } else if c == 'g' || c == 'G' {
            1
        } else if c == 'f' || c == 'F' {
            2
        } else if c == 'e' || c == 'E' {
            3
        } else if c == 'd' || c == 'D' {
            4
        } else if c == 'c' || c == 'C' {
            5
        } else if c == 'b' || c == 'B' {
            6
        } else if c == 'a' || c == 'A' {
            7
        } else {
            return Err(ParseError::Unrecognised);
        };
        let rk: usize = if d == '1' {
            0
        } else if d == '2' {
            1
        } else if d == '3' {
            2
        } else if d == '4' {
            3
        } else if d == '5' {
            4
        } else if d == '6' {
            5
        } else if d == '7' {
            6
        } else if d == '8' {
            7
        } else {
            return Err(ParseError::Unrecognised);
        };
        Ok(Square::from_index(8 * rk + f))
    }
}

/// The upper case letter of a file index (0 is the H file).
pub open spec fn upper_file_char(f: int) -> char {
    if f == 0 {
        'H'
    } else if f == 1 {
        'G'
    } else if f == 2 {
        'F'
    } else if f == 3 {
        'E'
    } else if f == 4 {
        'D'
    } else if f == 5 {
        'C'
    } else if f == 6 {
        'B'
    } else {
        'A'
    }
}

impl std::str::FromStr for Square {
    type Err = ParseError;

    fn from_str(s: &str) -> (r: Result<Square, ParseError>)
        ensures
            r matches Ok(sq) ==> s@.len() == 2 && (s@[0] == file_char(file_of(sq.idx())) || s@[0]
                == upper_file_char(file_of(sq.idx()))) && s@[1] == rank_char(rank_of(sq.idx())),
            r is Err ==> forall|i: int|
                0 <= i < 64 ==> !(s@.len() == 2 && (s@[0] == file_char(file_of(i)) || s@[0]
                    == upper_file_char(file_of(i))) && s@[1] == rank_char(rank_of(i))),
    {
        Square::parse(s)
    }
}

impl std::ops::Shl<usize> for Square {
    type Output = Square;

    fn shl(self, rhs: usize) -> Square {
        Square::from_index(self.index() + rhs)
    }
}

impl vstd::std_specs::ops::ShlSpecImpl<usize> for Square {
    open spec fn obeys_shl_spec() -> bool {
        true
    }

    open spec fn shl_req(self, rhs: usize) -> bool {
        self.idx() + rhs < 64
    }

    open spec fn shl_spec(self, rhs: usize) -> Square {
        square_at(self.idx() + rhs)
    }
}

impl std::ops::Shr<usize> for Square {
    type Output = Square;

    fn shr(self, rhs: usize) -> Square {
        Square::from_index(self.index() - rhs)
    }
}

impl vstd::std_specs::ops::ShrSpecImpl<usize> for Square {
    open spec fn obeys_shr_spec() -> bool {
        true
    }

    open spec fn shr_req(self, rhs: usize) -> bool {
        rhs <= self.idx()
    }

    open spec fn shr_spec(self, rhs: usize) -> Square {
        square_at(self.idx() - rhs)
    }
}

impl std::ops::Not for Square {
    type Output = BitBoard;

    fn not(self) -> BitBoard {
        BitBoard(!crate::base::bitboard::loc(self))
    }
}

impl vstd::std_specs::ops::NotSpecImpl for Square {
    open spec fn obeys_not_spec() -> bool {
        true
    }

    open spec fn not_req(self) -> bool {
        true
    }

    open spec fn not_spec(self) -> BitBoard {
        BitBoard(!(1u64 << (self.idx() as u64)))
    }
}

impl std::ops::BitOr<Square> for Square {
    type Output = BitBoard;

    fn bitor(self, other: Square) -> BitBoard {
        self.lift() | other.lift()
    }
}

impl vstd::std_specs::ops::BitOrSpecImpl<Square> for Square {
    open spec fn obeys_bitor_spec() -> bool {
        true
    }

    open spec fn bitor_req(self, other: Square) -> bool {
        true
    }

    open spec fn bitor_spec(self, other: Square) -> BitBoard {
        BitBoard((1u64 << (self.idx() as u64)) | (1u64 << (other.idx() as u64)))
    }
}

impl std::ops::BitOr<BitBoard> for Square {
    type Output = BitBoard;

    fn bitor(self, other: BitBoard) -> BitBoard {
        self.lift() | other
    }
}

impl vstd::std_specs::ops::BitOrSpecImpl<BitBoard> for Square {
    open spec fn obeys_bitor_spec() -> bool {
        true
    }

    open spec fn bitor_req(self, other: BitBoard) -> bool {
        true
    }

    open spec fn bitor_spec(self, other: BitBoard) -> BitBoard {
        BitBoard((1u64 << (self.idx() as u64)) | other.0)
    }
}

impl std::ops::BitAnd<BitBoard> for Square {
    type Output = BitBoard;

    fn bitand(self, other: BitBoard) -> BitBoard {
        self.lift() & other
    }
}

impl vstd::std_specs::ops::BitAndSpecImpl<BitBoard> for Square {
    open spec fn obeys_bitand_spec() -> bool {
        true
    }

    open spec fn bitand_req(self, other: BitBoard) -> bool {
        true
    }

    open spec fn bitand_spec(self, other: BitBoard) -> BitBoard {
        BitBoard((1u64 << (self.idx() as u64)) & other.0)
    }
}

impl std::ops::Sub<BitBoard> for Square {
    type Output = BitBoard;

    fn sub(self, other: BitBoard) -> BitBoard {
        self.lift() - other
    }
}

impl vstd::std_specs::ops::SubSpecImpl<BitBoard> for Square {
    open spec fn obeys_sub_spec() -> bool {
        true
    }

    open spec fn sub_req(self, other: BitBoard) -> bool {
        true
    }

    open spec fn sub_spec(self, other: BitBoard) -> BitBoard {
        BitBoard((1u64 << (self.idx() as u64)) & !other.0)
    }
}

/// The ray north of a square is the rest of its file above it.
pub proof fn lemma_ray_north(i: int)
    requires
        0 <= i < 64,
    ensures
        ray(i, Dir::N).to_set() == Set::new(|j: int| 0 <= j < 64 && j > i && j % 8 == i % 8),
    decreases 64 - i,
{
    let target = Set::new(|j: int| 0 <= j < 64 && j > i && j % 8 == i % 8);
    if i + 8 < 64 {
        lemma_ray_north(i + 8);
        assert(next_idx(i, Dir::N) == Some(i + 8));
        assert(ray(i, Dir::N) == seq![i + 8] + ray(i + 8, Dir::N));
        assert forall|j: int| ray(i, Dir::N).to_set().contains(j) <==> target.contains(j) by {
            if ray(i, Dir::N).contains(j) {
                let k = choose|k: int| 0 <= k < ray(i, Dir::N).len() && #[trigger] ray(i, Dir::N)[k] == j;
                if k > 0 {
                    assert(ray(i + 8, Dir::N)[k - 1] == j);
                    assert(ray(i + 8, Dir::N).to_set().contains(j));
                }
            }
            if target.contains(j) {
                if j == i + 8 {
                    assert(ray(i, Dir::N)[0] == j);
                } else {
                    assert(ray(i + 8, Dir::N).to_set().contains(j));
                    let k = choose|k: int|
                        0 <= k < ray(i + 8, Dir::N).len() && #[trigger] ray(i + 8, Dir::N)[k] == j;
                    assert(ray(i, Dir::N)[k + 1] == j);
                }
            }
        }
        assert(ray(i, Dir::N).to_set() =~= target);
    } else {
        assert(next_idx(i, Dir::N) is None);
        assert(ray(i, Dir::N).to_set() =~= target);
    }
}

/// The ray west of a square is the rest of its rank towards the A file.
pub proof fn lemma_ray_west(i: int)
    requires
        0 <= i < 64,
    ensures
        ray(i, Dir::W).to_set() == Set::new(|j: int| 0 <= j < 64 && j > i && j / 8 == i / 8),
    decreases 8 - i % 8,
{
    let target = Set::new(|j: int| 0 <= j < 64 && j > i && j / 8 == i / 8);
    if i % 8 < 7 {
        lemma_ray_west(i + 1);
        assert(next_idx(i, Dir::W) == Some(i + 1));
        assert(ray(i, Dir::W) == seq![i + 1] + ray(i + 1, Dir::W));
        assert forall|j: int| ray(i, Dir::W).to_set().contains(j) <==> target.contains(j) by {
            if ray(i, Dir::W).contains(j) {
                let k = choose|k: int| 0 <= k < ray(i, Dir::W).len() && #[trigger] ray(i, Dir::W)[k] == j;
                if k > 0 {
                    assert(ray(i + 1, Dir::W)[k - 1] == j);
                    assert(ray(i + 1, Dir::W).to_set().contains(j));
                }
            }
            if target.contains(j) {
                if j == i + 1 {
                    assert(ray(i, Dir::W)[0] == j);
                } else {
                    assert(ray(i + 1, Dir::W).to_set().contains(j));
                    let k = choose|k: int|
                        0 <= k < ray(i + 1, Dir::W).len() && #[trigger] ray(i + 1, Dir::W)[k] == j;
                    assert(ray(i, Dir::W)[k + 1] == j);
                }
            }
        }
        assert(ray(i, Dir::W).to_set() =~= target);
    } else {
        assert(next_idx(i, Dir::W) is None);
        assert(ray(i, Dir::W).to_set() =~= target);
    }
}

} // verus!
