use vstd::prelude::*;
use vstd::std_specs::bits::{u64_trailing_zeros, u64_leading_zeros, axiom_u64_trailing_zeros, axiom_u64_leading_zeros};

use crate::base::square::{Square, idxs, ray, lemma_ray_north, lemma_ray_west, square_at, square_name, lemma_square_idx, lemma_square_at};
use crate::base::types::Dir;

verus! {

broadcast use lemma_square_idx, lemma_square_at;

/// A bitboard is a value type wrapping a 64 bit integer which represents
/// a set of squares on a chess board. Bit `i` stands for the square of
/// index `i`: 0 -> H1, 1 -> G1,..., 8 -> H2,..., 63 -> A8.
#[derive(Copy, Clone, PartialEq, Eq, Structural, Hash, Debug, PartialOrd, Ord)]
pub struct BitBoard(pub u64);

/// Whether bit `i` of `x` is set.
pub open spec fn bit(x: u64, i: int) -> bool {
    (x >> (i as u64)) & 1u64 == 1u64
}

/// The set of square indices whose bits are set in `x`.
pub open spec fn bits(x: u64) -> Set<int> {
    Set::new(|i: int| 0 <= i < 64 && bit(x, i))
}

/// The set of all square indices.
pub open spec fn board_indices() -> Set<int> {
    Set::new(|i: int| 0 <= i < 64)
}

impl View for BitBoard {
    type V = Set<int>;

    open spec fn view(&self) -> Set<int> {
        bits(self.0)
    }
}

proof fn lemma_bit_or_raw(x: u64, y: u64, i: u64)
    by (bit_vector)
    requires
        i < 64,
    ensures
        ((x | y) >> i) & 1u64 == 1u64 <==> ((x >> i) & 1u64 == 1u64 || (y >> i) & 1u64 == 1u64),
        ((x & y) >> i) & 1u64 == 1u64 <==> ((x >> i) & 1u64 == 1u64 && (y >> i) & 1u64 == 1u64),
        ((x ^ y) >> i) & 1u64 == 1u64 <==> ((x >> i) & 1u64 == 1u64) != ((y >> i) & 1u64 == 1u64),
        ((!x) >> i) & 1u64 == 1u64 <==> !((x >> i) & 1u64 == 1u64),
        ((x & !y) >> i) & 1u64 == 1u64 <==> ((x >> i) & 1u64 == 1u64 && !((y >> i) & 1u64 == 1u64)),
        (0u64 >> i) & 1u64 != 1u64,
        ((0xffff_ffff_ffff_ffffu64) >> i) & 1u64 == 1u64,
{
}

proof fn lemma_bit_single_raw(j: u64, i: u64)
    by (bit_vector)
    requires
        i < 64,
        j < 64,
    ensures
        ((1u64 << j) >> i) & 1u64 == 1u64 <==> i == j,
        (i & (1u64 << j)) != 0 <==> (i >> j) & 1u64 == 1u64,
{
}

proof fn lemma_bit_test_raw(x: u64, j: u64)
    by (bit_vector)
    requires
        j < 64,
    ensures
        (x & (1u64 << j)) != 0 <==> (x >> j) & 1u64 == 1u64,
{
}

/// The bitwise operators act on the sets of squares as union,
/// intersection, symmetric difference, difference and complement.
pub proof fn lemma_bits_ops(x: u64, y: u64)
    ensures
        bits(x | y) == bits(x).union(bits(y)),
        bits(x & y) == bits(x).intersect(bits(y)),
        bits(x & !y) == bits(x).difference(bits(y)),
        bits(x ^ y) == bits(x).difference(bits(y)).union(bits(y).difference(bits(x))),
        bits(!x) == board_indices().difference(bits(x)),
        bits(0u64) == Set::<int>::empty(),
        bits(0xffff_ffff_ffff_ffffu64) == board_indices(),
{
    assert forall|i: int| 0 <= i < 64 implies (bit(x | y, i) == (bit(x, i) || bit(y, i)))
        && (bit(x & y, i) == (bit(x, i) && bit(y, i)))
        && (bit(x & !y, i) == (bit(x, i) && !bit(y, i)))
        && (bit(x ^ y, i) == (bit(x, i) != bit(y, i)))
        && (bit(!x, i) == !bit(x, i))
        && !bit(0u64, i)
        && bit(0xffff_ffff_ffff_ffffu64, i) by {
        lemma_bit_or_raw(x, y, i as u64);
    }
    assert(bits(x | y) =~= bits(x).union(bits(y)));
    assert(bits(x & y) =~= bits(x).intersect(bits(y)));
    assert(bits(x & !y) =~= bits(x).difference(bits(y)));
    assert(bits(x ^ y) =~= bits(x).difference(bits(y)).union(bits(y).difference(bits(x))));
    assert(bits(!x) =~= board_indices().difference(bits(x)));
    assert(bits(0u64) =~= Set::<int>::empty());
    assert(bits(0xffff_ffff_ffff_ffffu64) =~= board_indices());
}

/// The word with the single bit `j` holds exactly the square index `j`.
pub proof fn lemma_bits_single(j: u64)
    requires
        j < 64,
    ensures
        bits(1u64 << j) == set![j as int],
{
    assert forall|i: int| 0 <= i < 64 implies bit(1u64 << j, i) == (i == j) by {
        lemma_bit_single_raw(j, i as u64);
    }
    assert(bits(1u64 << j) =~= set![j as int]);
}

/// The lowest set bit of a non-zero word is its number of trailing zeros.
pub proof fn lemma_bits_min(x: u64)
    ensures
        x == 0 <==> bits(x) == Set::<int>::empty(),
        x != 0 ==> bits(x).contains(u64_trailing_zeros(x) as int),
        forall|i: int| bits(x).contains(i) ==> u64_trailing_zeros(x) <= i,
{
    axiom_u64_trailing_zeros(x);
    lemma_bits_ops(x, x);
    let t = u64_trailing_zeros(x);
    if x != 0 {
        assert(bits(x).contains(t as int));
    }
    assert forall|i: int| bits(x).contains(i) implies t <= i by {
        if i < t {
            assert((x >> (i as u64)) & 1u64 == 0u64);
        }
    }
}

/// Two words holding the same squares are equal.
pub proof fn lemma_bits_ext(x: u64, y: u64)
    requires
        bits(x) == bits(y),
    ensures
        x == y,
{
    lemma_bits_ops(x, y);
    lemma_bits_min(x ^ y);
    assert(bits(x ^ y) =~= Set::<int>::empty());
    assert(x ^ y == 0);
    assert(x ^ y == 0 ==> x == y) by (bit_vector);
}

/// The set of a word is a finite subset of the board.
pub proof fn lemma_bits_finite(x: u64)
    ensures
        bits(x).finite(),
        bits(x).len() <= 64,
        bits(x).subset_of(board_indices()),
        board_indices().finite(),
        board_indices().len() == 64,
{
    assert(board_indices() =~= vstd::set_lib::set_int_range(0, 64));
    vstd::set_lib::lemma_int_range(0, 64);
    vstd::set_lib::lemma_len_subset(bits(x), board_indices());
}


proof fn lemma_lines_raw(i: u64)
    by (bit_vector)
    requires
        i < 64,
    ensures
        (255u64 >> i) & 1u64 == 1u64 <==> i / 8 == 0,
        (65280u64 >> i) & 1u64 == 1u64 <==> i / 8 == 1,
        (16711680u64 >> i) & 1u64 == 1u64 <==> i / 8 == 2,
        (4278190080u64 >> i) & 1u64 == 1u64 <==> i / 8 == 3,
        (1095216660480u64 >> i) & 1u64 == 1u64 <==> i / 8 == 4,
        (280375465082880u64 >> i) & 1u64 == 1u64 <==> i / 8 == 5,
        (71776119061217280u64 >> i) & 1u64 == 1u64 <==> i / 8 == 6,
        (18374686479671623680u64 >> i) & 1u64 == 1u64 <==> i / 8 == 7,
        (72340172838076673u64 >> i) & 1u64 == 1u64 <==> i % 8 == 0,
        (144680345676153346u64 >> i) & 1u64 == 1u64 <==> i % 8 == 1,
        (289360691352306692u64 >> i) & 1u64 == 1u64 <==> i % 8 == 2,
        (578721382704613384u64 >> i) & 1u64 == 1u64 <==> i % 8 == 3,
        (1157442765409226768u64 >> i) & 1u64 == 1u64 <==> i % 8 == 4,
        (2314885530818453536u64 >> i) & 1u64 == 1u64 <==> i % 8 == 5,
        (4629771061636907072u64 >> i) & 1u64 == 1u64 <==> i % 8 == 6,
        (9259542123273814144u64 >> i) & 1u64 == 1u64 <==> i % 8 == 7,
        (0xff818181818181ffu64 >> i) & 1u64 == 1u64 <==> (i / 8 == 0 || i / 8 == 7 || i % 8 == 0 || i % 8 == 7),
{
}

pub const RANK_BITS: [u64; 8] = [255, 65280, 16711680, 4278190080, 1095216660480, 280375465082880, 71776119061217280, 18374686479671623680];

pub const FILE_BITS: [u64; 8] = [72340172838076673, 144680345676153346, 289360691352306692, 578721382704613384, 1157442765409226768, 2314885530818453536, 4629771061636907072, 9259542123273814144];

/// The square indices of the rank with index `k` (0 for the first rank).
pub open spec fn rank_set(k: int) -> Set<int> {
    Set::new(|i: int| 0 <= i < 64 && i / 8 == k)
}

/// The square indices of the file with index `k` (0 for the H file).
pub open spec fn file_set(k: int) -> Set<int> {
    Set::new(|i: int| 0 <= i < 64 && i % 8 == k)
}

/// The word of each rank and file holds exactly its squares.
pub proof fn lemma_lines(k: int)
    requires
        0 <= k < 8,
    ensures
        bits(RANK_BITS@[k]) == rank_set(k),
        bits(FILE_BITS@[k]) == file_set(k),
        bits(0xff818181818181ffu64) == rank_set(0) + rank_set(7) + file_set(0) + file_set(7),
{
    assert forall|i: int| 0 <= i < 64 implies (#[trigger] bit(RANK_BITS@[k], i) <==> i / 8 == k) && (
    bit(FILE_BITS@[k], i) <==> i % 8 == k) && (bit(0xff818181818181ffu64, i) <==> (i / 8 == 0 || i
        / 8 == 7 || i % 8 == 0 || i % 8 == 7)) by {
        lemma_lines_raw(i as u64);
        if k == 0 {
            assert(RANK_BITS@[0] == 255u64 && FILE_BITS@[0] == 72340172838076673u64);
        } else if k == 1 {
            assert(RANK_BITS@[1] == 65280u64 && FILE_BITS@[1] == 144680345676153346u64);
        } else if k == 2 {
            assert(RANK_BITS@[2] == 16711680u64 && FILE_BITS@[2] == 289360691352306692u64);
        } else if k == 3 {
            assert(RANK_BITS@[3] == 4278190080u64 && FILE_BITS@[3] == 578721382704613384u64);
        } else if k == 4 {
            assert(RANK_BITS@[4] == 1095216660480u64 && FILE_BITS@[4] == 1157442765409226768u64);
        } else if k == 5 {
            assert(RANK_BITS@[5] == 280375465082880u64 && FILE_BITS@[5] == 2314885530818453536u64);
        } else if k == 6 {
            assert(RANK_BITS@[6] == 71776119061217280u64 && FILE_BITS@[6] == 4629771061636907072u64);
        } else {
            assert(RANK_BITS@[7] == 18374686479671623680u64 && FILE_BITS@[7] == 9259542123273814144u64);
        }
    }
    assert forall|i: int| 0 <= i < 64 implies (#[trigger] bit(FILE_BITS@[k], i) <==> i % 8 == k) by {
        assert(bit(RANK_BITS@[k], i) <==> i / 8 == k);
    }
    assert forall|i: int| 0 <= i < 64 implies (#[trigger] bit(0xff818181818181ffu64, i) <==> (i / 8
        == 0 || i / 8 == 7 || i % 8 == 0 || i % 8 == 7)) by {
        assert(bit(RANK_BITS@[k], i) <==> i / 8 == k);
    }
    assert(bits(RANK_BITS@[k]) =~= rank_set(k));
    assert(bits(FILE_BITS@[k]) =~= file_set(k));
    assert(bits(0xff818181818181ffu64) =~= rank_set(0) + rank_set(7) + file_set(0) + file_set(7));
}

/// Whether a sequence of indices is strictly increasing.
pub open spec fn increasing(s: Seq<int>) -> bool {
    forall|a: int, b: int| 0 <= a < b < s.len() ==> s[a] < s[b]
}

/// The set bits of `x` below index `n`.
pub open spec fn bits_below(x: u64, n: int) -> Set<int> {
    Set::new(|i: int| 0 <= i < n && bit(x, i))
}

/// The number of ones in the binary representation of `x`.
fn count_ones(x: u64) -> (r: u32)
    ensures
        r as int == bits(x).len(),
{
    let mut count: u32 = 0;
    let mut i: u64 = 0;
    assert(bits_below(x, 0) =~= Set::<int>::empty());
    while i < 64
        invariant
            i <= 64,
            count <= i,
            bits_below(x, i as int).finite(),
            count as int == bits_below(x, i as int).len(),
        decreases 64 - i,
    {
        let ghost before = bits_below(x, i as int);
        if (x >> i) & 1 == 1 {
            assert(bits_below(x, i + 1) =~= before.insert(i as int));
            count = count + 1;
        } else {
            assert(bits_below(x, i + 1) =~= before);
        }
        i = i + 1;
    }
    assert(bits_below(x, 64) =~= bits(x));
    count
}

/// The single bit word of a square.
pub fn loc(sq: Square) -> (r: u64)
    ensures
        r == 1u64 << (sq.idx() as u64),
        bits(r) == set![sq.idx()],
{
    proof {
        lemma_bits_single(sq.idx() as u64);
    }
    1u64 << (sq.index() as u64)
}

impl BitBoard {
    /// The empty bitboard (set of no squares).
    pub fn empty() -> (r: BitBoard)
        ensures
            r.0 == 0,
            r@ == Set::<int>::empty(),
    {
        proof {
            lemma_bits_ops(0, 0);
        }
        BitBoard(0)
    }

    /// The complete bitboard (set of all squares).
    pub fn all() -> (r: BitBoard)
        ensures
            r.0 == 0xffff_ffff_ffff_ffffu64,
            r@ == board_indices(),
    {
        proof {
            lemma_bits_ops(0, 0);
        }
        BitBoard(0xffff_ffff_ffff_ffffu64)
    }

    /// The rank with index `k`, ordered 1 to 8.
    pub fn ranks(k: usize) -> (r: BitBoard)
        requires
            k < 8,
        ensures
            r@ == rank_set(k as int),
            r.0 == RANK_BITS@[k as int],
    {
        proof {
            lemma_lines(k as int);
        }
        BitBoard(RANK_BITS[k])
    }

    /// The file with index `k`, ordered H to A.
    pub fn files(k: usize) -> (r: BitBoard)
        requires
            k < 8,
        ensures
            r@ == file_set(k as int),
            r.0 == FILE_BITS@[k as int],
    {
        proof {
            lemma_lines(k as int);
        }
        BitBoard(FILE_BITS[k])
    }

    /// The squares on the edge of the board.
    pub fn rim() -> (r: BitBoard)
        ensures
            r@ == rank_set(0) + rank_set(7) + file_set(0) + file_set(7),
    {
        proof {
            lemma_lines(0);
        }
        BitBoard(0xff818181818181ffu64)
    }

    /// Check if this bitboard contains a particular square.
    pub fn contains(self, square: Square) -> (r: bool)
        ensures
            r == self@.contains(square.idx()),
    {
        proof {
            lemma_bit_test_raw(self.0, square.idx() as u64);
        }
        self.0 & (1u64 << (square.index() as u64)) != 0
    }

    /// Check if this set is a superset of the other.
    pub fn subsumes(self, other: BitBoard) -> (r: bool)
        ensures
            r == other@.subset_of(self@),
    {
        let d = other - self;
        proof {
            lemma_bits_ops(other.0, self.0);
            lemma_bits_min(d.0);
            if other@.subset_of(self@) {
                assert(d@ =~= Set::<int>::empty());
            } else {
                let i = choose|i: int| other@.contains(i) && !self@.contains(i);
                assert(d@.contains(i));
            }
        }
        d.is_empty()
    }

    /// Check if this bitboard is empty, i.e contains no squares.
    pub fn is_empty(self) -> (r: bool)
        ensures
            r == (self@ == Set::<int>::empty()),
            r == (self.0 == 0),
    {
        proof {
            lemma_bits_min(self.0);
        }
        self.0 == 0
    }

    /// Check if this bitboard contains at least one square.
    pub fn is_populated(self) -> (r: bool)
        ensures
            r == (self@ != Set::<int>::empty()),
    {
        proof {
            lemma_bits_min(self.0);
        }
        self.0 != 0
    }

    /// Check if the intersection of this bitboard and the other is
    /// non-empty.
    pub fn intersects(self, other: BitBoard) -> (r: bool)
        ensures
            r == (self@.intersect(other@) != Set::<int>::empty()),
    {
        proof {
            lemma_bits_ops(self.0, other.0);
        }
        !(self & other).is_empty()
    }

    /// The number of squares in this bitboard.
    pub fn size(self) -> (r: usize)
        ensures
            r == self@.len(),
            r <= 64,
    {
        proof {
            lemma_bits_finite(self.0);
        }
        count_ones(self.0) as usize
    }

    /// Returns a bitboard with the least set bit of this bitboard
    /// or nothing if this bitboard is empty.
    pub fn least_set_bit(self) -> (r: BitBoard)
        ensures
            self@ == Set::<int>::empty() ==> r@ == Set::<int>::empty(),
            self@ != Set::<int>::empty() ==> r@ == set![u64_trailing_zeros(self.0) as int],
            forall|i: int| #[trigger] self@.contains(i) ==> u64_trailing_zeros(self.0) <= i,
    {
        proof {
            lemma_bits_min(self.0);
            axiom_u64_trailing_zeros(self.0);
        }
        let trailing = self.0.trailing_zeros();
        if trailing == 64 {
            BitBoard::empty()
        } else {
            proof {
                lemma_bits_single(trailing as u64);
            }
            BitBoard(1u64 << trailing)
        }
    }
}

impl BitBoard {
    /// The set of the given squares.
    pub fn from_squares(v: &Vec<Square>) -> (r: BitBoard)
        ensures
            r@ == idxs(v@).to_set(),
    {
        let mut acc = BitBoard::empty();
        let mut k: usize = 0;
        while k < v.len()
            invariant
                k <= v@.len(),
                acc@ == idxs(v@.take(k as int)).to_set(),
            decreases v@.len() - k,
        {
            let l = v[k].lift();
            proof {
                lemma_bits_ops(acc.0, l.0);
                assert(idxs(v@.take(k + 1)) =~= idxs(v@.take(k as int)).push(v@[k as int].idx()));
                let x = v@[k as int].idx();
                assert(l@ == set![x]);
                idxs(v@.take(k as int)).lemma_push_to_set_commute(x);
                assert(idxs(v@.take(k + 1)).to_set() =~= idxs(v@.take(k as int)).to_set().insert(x));
                assert(idxs(v@.take(k + 1)).to_set() =~= acc@.union(l@));
            }
            acc = acc | l;
            k = k + 1;
        }
        assert(v@.take(v@.len() as int) =~= v@);
        acc
    }
}


/// Multiplier of the de Bruijn forward bitscan.
pub const DEBRUIJN64: u64 = 0x03f79d71b4cb0a89u64;

/// Lookup table of the de Bruijn forward bitscan.
pub const BITSCAN: [usize; 64] = [
    0, 47, 1, 56, 48, 27, 2, 60, 57, 49, 41, 37, 28, 16, 3, 61, 54, 58, 35, 52, 50, 42, 21, 44, 38,
    32, 29, 23, 17, 11, 4, 62, 46, 55, 26, 59, 40, 36, 15, 53, 34, 51, 20, 43, 31, 22, 10, 45, 25,
    39, 14, 33, 19, 30, 9, 24, 13, 18, 8, 12, 7, 6, 5, 63,
];

proof fn lemma_low_mask_raw(x: u64, t: u64)
    by (bit_vector)
    requires
        x != 0,
        t < 64,
        (x >> t) & 1u64 == 1u64,
        x << ((64 - t) as u64) == 0,
    ensures
        x ^ ((x - 1) as u64) == !(0xffff_ffff_ffff_ffffu64 << t << 1u64),
{
}

proof fn lemma_low_mask_values_raw(t: u64)
    by (bit_vector)
    ensures
        t == 0u64 ==> !(0xffff_ffff_ffff_ffffu64 << t << 1u64) == 1u64,
        t == 1u64 ==> !(0xffff_ffff_ffff_ffffu64 << t << 1u64) == 3u64,
        t == 2u64 ==> !(0xffff_ffff_ffff_ffffu64 << t << 1u64) == 7u64,
        t == 3u64 ==> !(0xffff_ffff_ffff_ffffu64 << t << 1u64) == 15u64,
        t == 4u64 ==> !(0xffff_ffff_ffff_ffffu64 << t << 1u64) == 31u64,
        t == 5u64 ==> !(0xffff_ffff_ffff_ffffu64 << t << 1u64) == 63u64,
        t == 6u64 ==> !(0xffff_ffff_ffff_ffffu64 << t << 1u64) == 127u64,
        t == 7u64 ==> !(0xffff_ffff_ffff_ffffu64 << t << 1u64) == 255u64,
        t == 8u64 ==> !(0xffff_ffff_ffff_ffffu64 << t << 1u64) == 511u64,
        t == 9u64 ==> !(0xffff_ffff_ffff_ffffu64 << t << 1u64) == 1023u64,
        t == 10u64 ==> !(0xffff_ffff_ffff_ffffu64 << t << 1u64) == 2047u64,
        t == 11u64 ==> !(0xffff_ffff_ffff_ffffu64 << t << 1u64) == 4095u64,
        t == 12u64 ==> !(0xffff_ffff_ffff_ffffu64 << t << 1u64) == 8191u64,
        t == 13u64 ==> !(0xffff_ffff_ffff_ffffu64 << t << 1u64) == 16383u64,
        t == 14u64 ==> !(0xffff_ffff_ffff_ffffu64 << t << 1u64) == 32767u64,
        t == 15u64 ==> !(0xffff_ffff_ffff_ffffu64 << t << 1u64) == 65535u64,
        t == 16u64 ==> !(0xffff_ffff_ffff_ffffu64 << t << 1u64) == 131071u64,
        t == 17u64 ==> !(0xffff_ffff_ffff_ffffu64 << t << 1u64) == 262143u64,
        t == 18u64 ==> !(0xffff_ffff_ffff_ffffu64 << t << 1u64) == 524287u64,
        t == 19u64 ==> !(0xffff_ffff_ffff_ffffu64 << t << 1u64) == 1048575u64,
        t == 20u64 ==> !(0xffff_ffff_ffff_ffffu64 << t << 1u64) == 2097151u64,
        t == 21u64 ==> !(0xffff_ffff_ffff_ffffu64 << t << 1u64) == 4194303u64,
        t == 22u64 ==> !(0xffff_ffff_ffff_ffffu64 << t << 1u64) == 8388607u64,
        t == 23u64 ==> !(0xffff_ffff_ffff_ffffu64 << t << 1u64) == 16777215u64,
        t == 24u64 ==> !(0xffff_ffff_ffff_ffffu64 << t << 1u64) == 33554431u64,
        t == 25u64 ==> !(0xffff_ffff_ffff_ffffu64 << t << 1u64) == 67108863u64,
        t == 26u64 ==> !(0xffff_ffff_ffff_ffffu64 << t << 1u64) == 134217727u64,
        t == 27u64 ==> !(0xffff_ffff_ffff_ffffu64 << t << 1u64) == 268435455u64,
        t == 28u64 ==> !(0xffff_ffff_ffff_ffffu64 << t << 1u64) == 536870911u64,
        t == 29u64 ==> !(0xffff_ffff_ffff_ffffu64 << t << 1u64) == 1073741823u64,
        t == 30u64 ==> !(0xffff_ffff_ffff_ffffu64 << t << 1u64) == 2147483647u64,
        t == 31u64 ==> !(0xffff_ffff_ffff_ffffu64 << t << 1u64) == 4294967295u64,
        t == 32u64 ==> !(0xffff_ffff_ffff_ffffu64 << t << 1u64) == 8589934591u64,
        t == 33u64 ==> !(0xffff_ffff_ffff_ffffu64 << t << 1u64) == 17179869183u64,
        t == 34u64 ==> !(0xffff_ffff_ffff_ffffu64 << t << 1u64) == 34359738367u64,
        t == 35u64 ==> !(0xffff_ffff_ffff_ffffu64 << t << 1u64) == 68719476735u64,
        t == 36u64 ==> !(0xffff_ffff_ffff_ffffu64 << t << 1u64) == 137438953471u64,
        t == 37u64 ==> !(0xffff_ffff_ffff_ffffu64 << t << 1u64) == 274877906943u64,
        t == 38u64 ==> !(0xffff_ffff_ffff_ffffu64 << t << 1u64) == 549755813887u64,
        t == 39u64 ==> !(0xffff_ffff_ffff_ffffu64 << t << 1u64) == 1099511627775u64,
        t == 40u64 ==> !(0xffff_ffff_ffff_ffffu64 << t << 1u64) == 2199023255551u64,
        t == 41u64 ==> !(0xffff_ffff_ffff_ffffu64 << t << 1u64) == 4398046511103u64,
        t == 42u64 ==> !(0xffff_ffff_ffff_ffffu64 << t << 1u64) == 8796093022207u64,
        t == 43u64 ==> !(0xffff_ffff_ffff_ffffu64 << t << 1u64) == 17592186044415u64,
        t == 44u64 ==> !(0xffff_ffff_ffff_ffffu64 << t << 1u64) == 35184372088831u64,
        t == 45u64 ==> !(0xffff_ffff_ffff_ffffu64 << t << 1u64) == 70368744177663u64,
        t == 46u64 ==> !(0xffff_ffff_ffff_ffffu64 << t << 1u64) == 140737488355327u64,
        t == 47u64 ==> !(0xffff_ffff_ffff_ffffu64 << t << 1u64) == 281474976710655u64,
        t == 48u64 ==> !(0xffff_ffff_ffff_ffffu64 << t << 1u64) == 562949953421311u64,
        t == 49u64 ==> !(0xffff_ffff_ffff_ffffu64 << t << 1u64) == 1125899906842623u64,
        t == 50u64 ==> !(0xffff_ffff_ffff_ffffu64 << t << 1u64) == 2251799813685247u64,
        t == 51u64 ==> !(0xffff_ffff_ffff_ffffu64 << t << 1u64) == 4503599627370495u64,
        t == 52u64 ==> !(0xffff_ffff_ffff_ffffu64 << t << 1u64) == 9007199254740991u64,
        t == 53u64 ==> !(0xffff_ffff_ffff_ffffu64 << t << 1u64) == 18014398509481983u64,
        t == 54u64 ==> !(0xffff_ffff_ffff_ffffu64 << t << 1u64) == 36028797018963967u64,
        t == 55u64 ==> !(0xffff_ffff_ffff_ffffu64 << t << 1u64) == 72057594037927935u64,
        t == 56u64 ==> !(0xffff_ffff_ffff_ffffu64 << t << 1u64) == 144115188075855871u64,
        t == 57u64 ==> !(0xffff_ffff_ffff_ffffu64 << t << 1u64) == 288230376151711743u64,
        t == 58u64 ==> !(0xffff_ffff_ffff_ffffu64 << t << 1u64) == 576460752303423487u64,
        t == 59u64 ==> !(0xffff_ffff_ffff_ffffu64 << t << 1u64) == 1152921504606846975u64,
        t == 60u64 ==> !(0xffff_ffff_ffff_ffffu64 << t << 1u64) == 2305843009213693951u64,
        t == 61u64 ==> !(0xffff_ffff_ffff_ffffu64 << t << 1u64) == 4611686018427387903u64,
        t == 62u64 ==> !(0xffff_ffff_ffff_ffffu64 << t << 1u64) == 9223372036854775807u64,
        t == 63u64 ==> !(0xffff_ffff_ffff_ffffu64 << t << 1u64) == 18446744073709551615u64,
{
}

proof fn lemma_debruijn_keys_raw()
    by (bit_vector)
    ensures
        285870213051386505u64 >> 58u64 == 0u64,
        857610639154159515u64 >> 58u64 == 2u64,
        2001091491359705535u64 >> 58u64 == 6u64,
        4288053195770797575u64 >> 58u64 == 14u64,
        8861976604592981655u64 >> 58u64 == 30u64,
        18009823422237349815u64 >> 58u64 == 62u64,
        17858772983816534519u64 >> 58u64 == 61u64,
        17556672106974903927u64 >> 58u64 == 60u64,
        16952470353291642743u64 >> 58u64 == 58u64,
        15744066845925120375u64 >> 58u64 == 54u64,
        13327259831192075639u64 >> 58u64 == 46u64,
        8493645801725986167u64 >> 58u64 == 29u64,
        17273161816503358839u64 >> 58u64 == 59u64,
        16385449772348552567u64 >> 58u64 == 56u64,
        14610025684038940023u64 >> 58u64 == 50u64,
        11059177507419714935u64 >> 58u64 == 38u64,
        3957481154181264759u64 >> 58u64 == 13u64,
        8200832521413916023u64 >> 58u64 == 28u64,
        16687535255879218551u64 >> 58u64 == 57u64,
        15214196651100271991u64 >> 58u64 == 52u64,
        12267519441542378871u64 >> 58u64 == 42u64,
        6374165022426592631u64 >> 58u64 == 22u64,
        13034200257904571767u64 >> 58u64 == 45u64,
        7907526655150978423u64 >> 58u64 == 27u64,
        16100923523353343351u64 >> 58u64 == 55u64,
        14040973186048521591u64 >> 58u64 == 48u64,
        9921072511438878071u64 >> 58u64 == 34u64,
        1681271162219591031u64 >> 58u64 == 5u64,
        3648412537490568567u64 >> 58u64 == 12u64,
        7582695288032523639u64 >> 58u64 == 26u64,
        15451260789116433783u64 >> 58u64 == 53u64,
        12741647717574702455u64 >> 58u64 == 44u64,
        7322421574491239799u64 >> 58u64 == 25u64,
        14930713362033866103u64 >> 58u64 == 51u64,
        11700552863409567095u64 >> 58u64 == 40u64,
        5240231866160969079u64 >> 58u64 == 18u64,
        10766333945373324663u64 >> 58u64 == 37u64,
        3371794030088484215u64 >> 58u64 == 11u64,
        7029458273228354935u64 >> 58u64 == 24u64,
        14344786759508096375u64 >> 58u64 == 49u64,
        10528699658358027639u64 >> 58u64 == 36u64,
        2896525456057890167u64 >> 58u64 == 10u64,
        6078921125167166839u64 >> 58u64 == 21u64,
        12443712463385720183u64 >> 58u64 == 43u64,
        6726551066113275255u64 >> 58u64 == 23u64,
        13738972345277937015u64 >> 58u64 == 47u64,
        9317070829897708919u64 >> 58u64 == 32u64,
        473267799137252727u64 >> 58u64 == 1u64,
        1232405811325891959u64 >> 58u64 == 4u64,
        2750681835703170423u64 >> 58u64 == 9u64,
        5787233884457727351u64 >> 58u64 == 20u64,
        11860337981966841207u64 >> 58u64 == 41u64,
        5559802103275517303u64 >> 58u64 == 19u64,
        11405474419602421111u64 >> 58u64 == 39u64,
        4650074978546677111u64 >> 58u64 == 16u64,
        9586020170144740727u64 >> 58u64 == 33u64,
        1011166479631316343u64 >> 58u64 == 3u64,
        2308203172314019191u64 >> 58u64 == 8u64,
        4902276557679424887u64 >> 58u64 == 17u64,
        10090423328410236279u64 >> 58u64 == 35u64,
        2019972796162307447u64 >> 58u64 == 7u64,
        4325815805376001399u64 >> 58u64 == 15u64,
        8937501823803389303u64 >> 58u64 == 31u64,
        18160873860658165111u64 >> 58u64 == 63u64,
{
}

proof fn lemma_shr58_raw(y: u64)
    by (bit_vector)
    ensures
        y >> 58u64 < 64,
{
}

#[verifier::spinoff_prover]
#[verifier::rlimit(60)]
proof fn lemma_debruijn_key(m: u64, t: u64)
    requires
        t < 64,
        m == !(0xffff_ffff_ffff_ffffu64 << t << 1u64),
    ensures
        BITSCAN@[(vstd::wrapping::u64_specs::wrapping_mul(m, DEBRUIJN64) >> 58u64) as int] == t,
{
    lemma_low_mask_values_raw(t);
    lemma_debruijn_keys_raw();
    if t == 0u64 {
        assert(m == 1u64);
        assert(vstd::wrapping::u64_specs::wrapping_mul(m, DEBRUIJN64) == 285870213051386505u64);
        assert(BITSCAN@[0] == 0);
    } else if t == 1u64 {
        assert(m == 3u64);
        assert(vstd::wrapping::u64_specs::wrapping_mul(m, DEBRUIJN64) == 857610639154159515u64);
        assert(BITSCAN@[2] == 1);
    } else if t == 2u64 {
        assert(m == 7u64);
        assert(vstd::wrapping::u64_specs::wrapping_mul(m, DEBRUIJN64) == 2001091491359705535u64);
        assert(BITSCAN@[6] == 2);
    } else if t == 3u64 {
        assert(m == 15u64);
        assert(vstd::wrapping::u64_specs::wrapping_mul(m, DEBRUIJN64) == 4288053195770797575u64);
        assert(BITSCAN@[14] == 3);
    } else if t == 4u64 {
        assert(m == 31u64);
        assert(vstd::wrapping::u64_specs::wrapping_mul(m, DEBRUIJN64) == 8861976604592981655u64);
        assert(BITSCAN@[30] == 4);
    } else if t == 5u64 {
        assert(m == 63u64);
        assert(vstd::wrapping::u64_specs::wrapping_mul(m, DEBRUIJN64) == 18009823422237349815u64);
        assert(BITSCAN@[62] == 5);
    } else if t == 6u64 {
        assert(m == 127u64);
        assert(vstd::wrapping::u64_specs::wrapping_mul(m, DEBRUIJN64) == 17858772983816534519u64);
        assert(BITSCAN@[61] == 6);
    } else if t == 7u64 {
        assert(m == 255u64);
        assert(vstd::wrapping::u64_specs::wrapping_mul(m, DEBRUIJN64) == 17556672106974903927u64);
        assert(BITSCAN@[60] == 7);
    } else if t == 8u64 {
        assert(m == 511u64);
        assert(vstd::wrapping::u64_specs::wrapping_mul(m, DEBRUIJN64) == 16952470353291642743u64);
        assert(BITSCAN@[58] == 8);
    } else if t == 9u64 {
        assert(m == 1023u64);
        assert(vstd::wrapping::u64_specs::wrapping_mul(m, DEBRUIJN64) == 15744066845925120375u64);
        assert(BITSCAN@[54] == 9);
    } else if t == 10u64 {
        assert(m == 2047u64);
        assert(vstd::wrapping::u64_specs::wrapping_mul(m, DEBRUIJN64) == 13327259831192075639u64);
        assert(BITSCAN@[46] == 10);
    } else if t == 11u64 {
        assert(m == 4095u64);
        assert(vstd::wrapping::u64_specs::wrapping_mul(m, DEBRUIJN64) == 8493645801725986167u64);
        assert(BITSCAN@[29] == 11);
    } else if t == 12u64 {
        assert(m == 8191u64);
        assert(vstd::wrapping::u64_specs::wrapping_mul(m, DEBRUIJN64) == 17273161816503358839u64);
        assert(BITSCAN@[59] == 12);
    } else if t == 13u64 {
        assert(m == 16383u64);
        assert(vstd::wrapping::u64_specs::wrapping_mul(m, DEBRUIJN64) == 16385449772348552567u64);
        assert(BITSCAN@[56] == 13);
    } else if t == 14u64 {
        assert(m == 32767u64);
        assert(vstd::wrapping::u64_specs::wrapping_mul(m, DEBRUIJN64) == 14610025684038940023u64);
        assert(BITSCAN@[50] == 14);
    } else if t == 15u64 {
        assert(m == 65535u64);
        assert(vstd::wrapping::u64_specs::wrapping_mul(m, DEBRUIJN64) == 11059177507419714935u64);
        assert(BITSCAN@[38] == 15);
    } else if t == 16u64 {
        assert(m == 131071u64);
        assert(vstd::wrapping::u64_specs::wrapping_mul(m, DEBRUIJN64) == 3957481154181264759u64);
        assert(BITSCAN@[13] == 16);
    } else if t == 17u64 {
        assert(m == 262143u64);
        assert(vstd::wrapping::u64_specs::wrapping_mul(m, DEBRUIJN64) == 8200832521413916023u64);
        assert(BITSCAN@[28] == 17);
    } else if t == 18u64 {
        assert(m == 524287u64);
        assert(vstd::wrapping::u64_specs::wrapping_mul(m, DEBRUIJN64) == 16687535255879218551u64);
        assert(BITSCAN@[57] == 18);
    } else if t == 19u64 {
        assert(m == 1048575u64);
        assert(vstd::wrapping::u64_specs::wrapping_mul(m, DEBRUIJN64) == 15214196651100271991u64);
        assert(BITSCAN@[52] == 19);
    } else if t == 20u64 {
        assert(m == 2097151u64);
        assert(vstd::wrapping::u64_specs::wrapping_mul(m, DEBRUIJN64) == 12267519441542378871u64);
        assert(BITSCAN@[42] == 20);
    } else if t == 21u64 {
        assert(m == 4194303u64);
        assert(vstd::wrapping::u64_specs::wrapping_mul(m, DEBRUIJN64) == 6374165022426592631u64);
        assert(BITSCAN@[22] == 21);
    } else if t == 22u64 {
        assert(m == 8388607u64);
        assert(vstd::wrapping::u64_specs::wrapping_mul(m, DEBRUIJN64) == 13034200257904571767u64);
        assert(BITSCAN@[45] == 22);
    } else if t == 23u64 {
        assert(m == 16777215u64);
        assert(vstd::wrapping::u64_specs::wrapping_mul(m, DEBRUIJN64) == 7907526655150978423u64);
        assert(BITSCAN@[27] == 23);
    } else if t == 24u64 {
        assert(m == 33554431u64);
        assert(vstd::wrapping::u64_specs::wrapping_mul(m, DEBRUIJN64) == 16100923523353343351u64);
        assert(BITSCAN@[55] == 24);
    } else if t == 25u64 {
        assert(m == 67108863u64);
        assert(vstd::wrapping::u64_specs::wrapping_mul(m, DEBRUIJN64) == 14040973186048521591u64);
        assert(BITSCAN@[48] == 25);
    } else if t == 26u64 {
        assert(m == 134217727u64);
        assert(vstd::wrapping::u64_specs::wrapping_mul(m, DEBRUIJN64) == 9921072511438878071u64);
        assert(BITSCAN@[34] == 26);
    } else if t == 27u64 {
        assert(m == 268435455u64);
        assert(vstd::wrapping::u64_specs::wrapping_mul(m, DEBRUIJN64) == 1681271162219591031u64);
        assert(BITSCAN@[5] == 27);
    } else if t == 28u64 {
        assert(m == 536870911u64);
        assert(vstd::wrapping::u64_specs::wrapping_mul(m, DEBRUIJN64) == 3648412537490568567u64);
        assert(BITSCAN@[12] == 28);
    } else if t == 29u64 {
        assert(m == 1073741823u64);
        assert(vstd::wrapping::u64_specs::wrapping_mul(m, DEBRUIJN64) == 7582695288032523639u64);
        assert(BITSCAN@[26] == 29);
    } else if t == 30u64 {
        assert(m == 2147483647u64);
        assert(vstd::wrapping::u64_specs::wrapping_mul(m, DEBRUIJN64) == 15451260789116433783u64);
        assert(BITSCAN@[53] == 30);
    } else if t == 31u64 {
        assert(m == 4294967295u64);
        assert(vstd::wrapping::u64_specs::wrapping_mul(m, DEBRUIJN64) == 12741647717574702455u64);
        assert(BITSCAN@[44] == 31);
    } else if t == 32u64 {
        assert(m == 8589934591u64);
        assert(vstd::wrapping::u64_specs::wrapping_mul(m, DEBRUIJN64) == 7322421574491239799u64);
        assert(BITSCAN@[25] == 32);
    } else if t == 33u64 {
        assert(m == 17179869183u64);
        assert(vstd::wrapping::u64_specs::wrapping_mul(m, DEBRUIJN64) == 14930713362033866103u64);
        assert(BITSCAN@[51] == 33);
    } else if t == 34u64 {
        assert(m == 34359738367u64);
        assert(vstd::wrapping::u64_specs::wrapping_mul(m, DEBRUIJN64) == 11700552863409567095u64);
        assert(BITSCAN@[40] == 34);
    } else if t == 35u64 {
        assert(m == 68719476735u64);
        assert(vstd::wrapping::u64_specs::wrapping_mul(m, DEBRUIJN64) == 5240231866160969079u64);
        assert(BITSCAN@[18] == 35);
    } else if t == 36u64 {
        assert(m == 137438953471u64);
        assert(vstd::wrapping::u64_specs::wrapping_mul(m, DEBRUIJN64) == 10766333945373324663u64);
        assert(BITSCAN@[37] == 36);
    } else if t == 37u64 {
        assert(m == 274877906943u64);
        assert(vstd::wrapping::u64_specs::wrapping_mul(m, DEBRUIJN64) == 3371794030088484215u64);
        assert(BITSCAN@[11] == 37);
    } else if t == 38u64 {
        assert(m == 549755813887u64);
        assert(vstd::wrapping::u64_specs::wrapping_mul(m, DEBRUIJN64) == 7029458273228354935u64);
        assert(BITSCAN@[24] == 38);
    } else if t == 39u64 {
        assert(m == 1099511627775u64);
        assert(vstd::wrapping::u64_specs::wrapping_mul(m, DEBRUIJN64) == 14344786759508096375u64);
        assert(BITSCAN@[49] == 39);
    } else if t == 40u64 {
        assert(m == 2199023255551u64);
        assert(vstd::wrapping::u64_specs::wrapping_mul(m, DEBRUIJN64) == 10528699658358027639u64);
        assert(BITSCAN@[36] == 40);
    } else if t == 41u64 {
        assert(m == 4398046511103u64);
        assert(vstd::wrapping::u64_specs::wrapping_mul(m, DEBRUIJN64) == 2896525456057890167u64);
        assert(BITSCAN@[10] == 41);
    } else if t == 42u64 {
        assert(m == 8796093022207u64);
        assert(vstd::wrapping::u64_specs::wrapping_mul(m, DEBRUIJN64) == 6078921125167166839u64);
        assert(BITSCAN@[21] == 42);
    } else if t == 43u64 {
        assert(m == 17592186044415u64);
        assert(vstd::wrapping::u64_specs::wrapping_mul(m, DEBRUIJN64) == 12443712463385720183u64);
        assert(BITSCAN@[43] == 43);
    } else if t == 44u64 {
        assert(m == 35184372088831u64);
        assert(vstd::wrapping::u64_specs::wrapping_mul(m, DEBRUIJN64) == 6726551066113275255u64);
        assert(BITSCAN@[23] == 44);
    } else if t == 45u64 {
        assert(m == 70368744177663u64);
        assert(vstd::wrapping::u64_specs::wrapping_mul(m, DEBRUIJN64) == 13738972345277937015u64);
        assert(BITSCAN@[47] == 45);
    } else if t == 46u64 {
        assert(m == 140737488355327u64);
        assert(vstd::wrapping::u64_specs::wrapping_mul(m, DEBRUIJN64) == 9317070829897708919u64);
        assert(BITSCAN@[32] == 46);
    } else if t == 47u64 {
        assert(m == 281474976710655u64);
        assert(vstd::wrapping::u64_specs::wrapping_mul(m, DEBRUIJN64) == 473267799137252727u64);
        assert(BITSCAN@[1] == 47);
    } else if t == 48u64 {
        assert(m == 562949953421311u64);
        assert(vstd::wrapping::u64_specs::wrapping_mul(m, DEBRUIJN64) == 1232405811325891959u64);
        assert(BITSCAN@[4] == 48);
    } else if t == 49u64 {
        assert(m == 1125899906842623u64);
        assert(vstd::wrapping::u64_specs::wrapping_mul(m, DEBRUIJN64) == 2750681835703170423u64);
        assert(BITSCAN@[9] == 49);
    } else if t == 50u64 {
        assert(m == 2251799813685247u64);
        assert(vstd::wrapping::u64_specs::wrapping_mul(m, DEBRUIJN64) == 5787233884457727351u64);
        assert(BITSCAN@[20] == 50);
    } else if t == 51u64 {
        assert(m == 4503599627370495u64);
        assert(vstd::wrapping::u64_specs::wrapping_mul(m, DEBRUIJN64) == 11860337981966841207u64);
        assert(BITSCAN@[41] == 51);
    } else if t == 52u64 {
        assert(m == 9007199254740991u64);
        assert(vstd::wrapping::u64_specs::wrapping_mul(m, DEBRUIJN64) == 5559802103275517303u64);
        assert(BITSCAN@[19] == 52);
    } else if t == 53u64 {
        assert(m == 18014398509481983u64);
        assert(vstd::wrapping::u64_specs::wrapping_mul(m, DEBRUIJN64) == 11405474419602421111u64);
        assert(BITSCAN@[39] == 53);
    } else if t == 54u64 {
        assert(m == 36028797018963967u64);
        assert(vstd::wrapping::u64_specs::wrapping_mul(m, DEBRUIJN64) == 4650074978546677111u64);
        assert(BITSCAN@[16] == 54);
    } else if t == 55u64 {
        assert(m == 72057594037927935u64);
        assert(vstd::wrapping::u64_specs::wrapping_mul(m, DEBRUIJN64) == 9586020170144740727u64);
        assert(BITSCAN@[33] == 55);
    } else if t == 56u64 {
        assert(m == 144115188075855871u64);
        assert(vstd::wrapping::u64_specs::wrapping_mul(m, DEBRUIJN64) == 1011166479631316343u64);
        assert(BITSCAN@[3] == 56);
    } else if t == 57u64 {
        assert(m == 288230376151711743u64);
        assert(vstd::wrapping::u64_specs::wrapping_mul(m, DEBRUIJN64) == 2308203172314019191u64);
        assert(BITSCAN@[8] == 57);
    } else if t == 58u64 {
        assert(m == 576460752303423487u64);
        assert(vstd::wrapping::u64_specs::wrapping_mul(m, DEBRUIJN64) == 4902276557679424887u64);
        assert(BITSCAN@[17] == 58);
    } else if t == 59u64 {
        assert(m == 1152921504606846975u64);
        assert(vstd::wrapping::u64_specs::wrapping_mul(m, DEBRUIJN64) == 10090423328410236279u64);
        assert(BITSCAN@[35] == 59);
    } else if t == 60u64 {
        assert(m == 2305843009213693951u64);
        assert(vstd::wrapping::u64_specs::wrapping_mul(m, DEBRUIJN64) == 2019972796162307447u64);
        assert(BITSCAN@[7] == 60);
    } else if t == 61u64 {
        assert(m == 4611686018427387903u64);
        assert(vstd::wrapping::u64_specs::wrapping_mul(m, DEBRUIJN64) == 4325815805376001399u64);
        assert(BITSCAN@[15] == 61);
    } else if t == 62u64 {
        assert(m == 9223372036854775807u64);
        assert(vstd::wrapping::u64_specs::wrapping_mul(m, DEBRUIJN64) == 8937501823803389303u64);
        assert(BITSCAN@[31] == 62);
    } else {
        assert(m == 18446744073709551615u64);
        assert(vstd::wrapping::u64_specs::wrapping_mul(m, DEBRUIJN64) == 18160873860658165111u64);
        assert(BITSCAN@[63] == 63);
    }
}

/// The index of the least set bit of a non-zero word, found with the
/// de Bruijn multiplication method.
pub fn bitscan(x: u64) -> (r: usize)
    requires
        x != 0,
    ensures
        r == u64_trailing_zeros(x),
        bits(x).contains(r as int),
        forall|i: int| bits(x).contains(i) ==> r <= i,
{
    let m = x ^ (x - 1);
    let key = m.wrapping_mul(DEBRUIJN64).wrapping_shr(58);
    proof {
        axiom_u64_trailing_zeros(x);
        lemma_bits_min(x);
        let t = u64_trailing_zeros(x) as u64;
        assert(x << ((64 - t) as u64) == 0);
        lemma_low_mask_raw(x, t);
        lemma_debruijn_key(m, t);
        let p = vstd::wrapping::u64_specs::wrapping_mul(m, DEBRUIJN64);
        assert(key == p >> 58u64);
        lemma_shr58_raw(p);
    }
    BITSCAN[key as usize]
}


/// Removing a member of a word by toggling its bit.
pub proof fn lemma_bits_toggle_member(x: u64, j: int)
    requires
        bits(x).contains(j),
    ensures
        bits(x ^ (1u64 << (j as u64))) == bits(x).remove(j),
{
    lemma_bits_single(j as u64);
    lemma_bits_ops(x, 1u64 << (j as u64));
    assert(bits(x ^ (1u64 << (j as u64))) =~= bits(x).remove(j));
}

/// The iterator over the squares of a bitboard, in increasing index
/// order. It wraps the word of the squares that remain.
pub struct BitBoardIterator(pub u64);

impl View for BitBoardIterator {
    type V = Set<int>;

    open spec fn view(&self) -> Set<int> {
        bits(self.0)
    }
}

impl BitBoardIterator {
    /// Takes the square of least index that remains, if any.
    pub fn next(&mut self) -> (r: Option<Square>)
        ensures
            old(self)@ == Set::<int>::empty() ==> r is None && final(self)@ == old(self)@,
            old(self)@ != Set::<int>::empty() ==> (r matches Some(sq) && old(self)@.contains(sq.idx())
                && sq.idx() == u64_trailing_zeros(old(self).0) && final(self)@ == old(self)@.remove(
                sq.idx(),
            ) && forall|i: int| #[trigger] old(self)@.contains(i) ==> sq.idx() <= i),
    {
        proof {
            lemma_bits_min(self.0);
        }
        if self.0 == 0 {
            None
        } else {
            let lsb = bitscan(self.0);
            proof {
                lemma_bits_toggle_member(self.0, lsb as int);
            }
            self.0 = self.0 ^ (1u64 << (lsb as u64));
            Some(Square::from_index(lsb))
        }
    }
}

impl BitBoard {
    /// The squares of this bitboard in increasing index order.
    pub fn iter(self) -> (r: Vec<Square>)
        ensures
            increasing(idxs(r@)),
            idxs(r@).to_set() == self@,
    {
        let mut it = BitBoardIterator(self.0);
        let mut v: Vec<Square> = Vec::new();
        proof {
            lemma_bits_finite(it.0);
        }
        loop
            invariant
                it@.finite(),
                increasing(idxs(v@)),
                idxs(v@).to_set().union(it@) == self@,
                forall|a: int, j: int|
                    0 <= a < v@.len() && #[trigger] it@.contains(j) ==> (#[trigger] v@[a]).idx() < j,
            ensures
                increasing(idxs(v@)),
                idxs(v@).to_set() == self@,
            decreases it@.len(),
        {
            let ghost before = it@;
            let ghost old_v = v@;
            match it.next() {
                None => {
                    assert(idxs(v@).to_set().union(it@) =~= idxs(v@).to_set());
                    break ;
                },
                Some(sq) => {
                    v.push(sq);
                    proof {
                        assert(idxs(v@) =~= idxs(old_v).push(sq.idx()));
                        idxs(old_v).lemma_push_to_set_commute(sq.idx());
                        assert(idxs(v@).to_set().union(it@) =~= self@);
                        assert forall|a: int, j: int|
                            0 <= a < v@.len() && #[trigger] it@.contains(j) implies (
                            #[trigger] v@[a]).idx() < j by {
                            assert(before.contains(j));
                            assert(j != sq.idx());
                        }
                    }
                },
            }
        }
        v
    }

    /// Finds the first square in this set if it is non-empty.
    pub fn first(self) -> (r: Option<Square>)
        ensures
            self@ == Set::<int>::empty() ==> r is None,
            self@ != Set::<int>::empty() ==> (r matches Some(sq) && self@.contains(sq.idx())
                && forall|i: int| #[trigger] self@.contains(i) ==> sq.idx() <= i),
    {
        let mut it = BitBoardIterator(self.0);
        it.next()
    }

    /// The names of the squares of this set in increasing index order,
    /// such as "{a1, d5, h7}".
    pub fn to_string(&self) -> (r: String)
        ensures
            exists|s: Seq<int>|
                increasing(s) && s.to_set() == self@ && r@ == seq!['{'] + joined_names(s) + seq![
                    '}',
                ],
    {
        let squares = self.iter();
        let mut out = String::from_str("{");
        let mut k: usize = 0;
        proof {
            reveal_strlit("{");
            reveal_strlit("}");
            reveal_strlit(", ");
        }
        while k < squares.len()
            invariant
                k <= squares@.len(),
                out@ == seq!['{'] + joined_names(idxs(squares@.take(k as int))),
            decreases squares@.len() - k,
        {
            let ghost before = out@;
            if k > 0 {
                out.append(", ");
            }
            let name = squares[k].to_string();
            out.append(name.as_str());
            proof {
                reveal_strlit(", ");
                let t = idxs(squares@.take(k + 1));
                assert(t.drop_last() =~= idxs(squares@.take(k as int)));
                assert(t.last() == squares@[k as int].idx());
                if k == 0 {
                    assert(out@ =~= seq!['{'] + joined_names(t));
                } else {
                    assert(", "@ =~= seq![',', ' ']);
                    assert(out@ =~= before + seq![',', ' '] + square_name(t.last()));
                    assert(out@ =~= seq!['{'] + joined_names(t));
                }
            }
            k = k + 1;
        }
        out.append("}");
        assert(squares@.take(squares@.len() as int) =~= squares@);
        out
    }
}

/// The names of the squares of the given indices, separated by ", ".
pub open spec fn joined_names(s: Seq<int>) -> Seq<char>
    decreases s.len(),
{
    if s.len() == 0 {
        Seq::empty()
    } else if s.len() == 1 {
        square_name(s[0])
    } else {
        joined_names(s.drop_last()) + seq![',', ' '] + square_name(s.last())
    }
}


/// A strictly increasing sequence holding exactly `0..n` is `0, 1, .., n - 1`.
pub proof fn lemma_increasing_range(s: Seq<int>, n: int)
    requires
        0 <= n,
        increasing(s),
        s.to_set() == Set::new(|j: int| 0 <= j < n),
    ensures
        s.len() == n,
        forall|k: int| 0 <= k < n ==> #[trigger] s[k] == k,
{
    assert(s.no_duplicates()) by {
        assert forall|a: int, b: int| 0 <= a < s.len() && 0 <= b < s.len() && a != b implies s[a]
            != s[b] by {
            if a < b {
                assert(s[a] < s[b]);
            } else {
                assert(s[b] < s[a]);
            }
        }
    }
    s.unique_seq_to_set();
    assert forall|a: int| 0 <= a < s.len() implies 0 <= #[trigger] s[a] < n by {
        assert(s.to_set().contains(s[a]));
    }
    assert(Set::new(|j: int| 0 <= j < n) =~= vstd::set_lib::set_int_range(0, n));
    vstd::set_lib::lemma_int_range(0, n);
    assert forall|k: int| 0 <= k < s.len() implies #[trigger] s[k] >= k by {
        lemma_increasing_lower(s, k);
    }
    assert forall|k: int| 0 <= k < s.len() implies #[trigger] s[k] <= k by {
        lemma_increasing_upper(s, k, n);
    }
}

proof fn lemma_increasing_lower(s: Seq<int>, k: int)
    requires
        increasing(s),
        0 <= k < s.len(),
        forall|a: int| 0 <= a < s.len() ==> 0 <= #[trigger] s[a],
    ensures
        s[k] >= k,
    decreases k,
{
    if k > 0 {
        lemma_increasing_lower(s, k - 1);
    }
}

proof fn lemma_increasing_upper(s: Seq<int>, k: int, n: int)
    requires
        increasing(s),
        0 <= k < s.len(),
        s.len() == n,
        forall|a: int| 0 <= a < s.len() ==> #[trigger] s[a] < n,
    ensures
        s[k] <= k,
    decreases n - k,
{
    if k < n - 1 {
        lemma_increasing_upper(s, k + 1, n);
    }
}

/// The rays followed when looking for a cord, in the order they are tried.
pub open spec fn cord_dirs() -> Seq<Dir> {
    seq![Dir::N, Dir::NE, Dir::E, Dir::SE, Dir::S, Dir::SW, Dir::W, Dir::NW]
}

/// The elements of `r` before the first occurrence of `t`.
pub open spec fn take_until(r: Seq<int>, t: int) -> Seq<int>
    decreases r.len(),
{
    if r.len() == 0 {
        Seq::empty()
    } else if r[0] == t {
        Seq::empty()
    } else {
        seq![r[0]] + take_until(r.drop_first(), t)
    }
}

/// The cord from `s` to `t` trying the directions of `ds` in order.
pub open spec fn cord_from(s: int, t: int, ds: Seq<Dir>) -> Set<int>
    decreases ds.len(),
{
    if ds.len() == 0 {
        Set::empty()
    } else if ray(s, ds[0]).contains(t) {
        take_until(ray(s, ds[0]), t).to_set().insert(t).insert(s)
    } else {
        cord_from(s, t, ds.drop_first())
    }
}

/// The squares a queen on the empty board slides along from `s` to `t`,
/// both ends included, or nothing if it cannot reach `t`.
pub open spec fn cord_set(s: int, t: int) -> Set<int> {
    cord_from(s, t, cord_dirs())
}

/// The squares of the ray from `source` in direction `dir` before
/// `target`, together with `target`.
pub fn takewhile_inc(source: Square, target: Square, dir: Dir) -> (r: BitBoard)
    ensures
        r@ == take_until(ray(source.idx(), dir), target.idx()).to_set().insert(target.idx()),
{
    let v = source.search_vec(dir);
    let ghost rv = ray(source.idx(), dir);
    let mut acc = BitBoard::empty();
    let mut k: usize = 0;
    assert(rv.skip(0) =~= rv);
    assert(idxs(v@.take(0)) =~= Seq::<int>::empty());
    assert(idxs(v@.take(0)).to_set() =~= Set::<int>::empty());
    while k < v.len() && v[k] != target
        invariant
            k <= v@.len(),
            idxs(v@) == rv,
            forall|a: int| 0 <= a < k ==> v@[a] != target,
            take_until(rv, target.idx()) == idxs(v@.take(k as int)) + take_until(
                rv.skip(k as int),
                target.idx(),
            ),
            acc@ == idxs(v@.take(k as int)).to_set(),
        decreases v@.len() - k,
    {
        let l = v[k].lift();
        proof {
            let x = v@[k as int].idx();
            lemma_bits_ops(acc.0, l.0);
            assert(idxs(v@.take(k + 1)) =~= idxs(v@.take(k as int)).push(x));
            idxs(v@.take(k as int)).lemma_push_to_set_commute(x);
            assert(rv.skip(k as int)[0] == x);
            assert(x != target.idx());
            assert(rv.skip(k as int).drop_first() =~= rv.skip(k + 1));
            assert(take_until(rv.skip(k as int), target.idx()) == seq![x] + take_until(
                rv.skip(k + 1),
                target.idx(),
            ));
            assert(idxs(v@.take(k + 1)) + take_until(rv.skip(k + 1), target.idx()) =~= idxs(
                v@.take(k as int),
            ) + (seq![x] + take_until(rv.skip(k + 1), target.idx())));
            assert(idxs(v@.take(k + 1)).to_set() =~= acc@.union(l@));
        }
        acc = acc | l;
        k = k + 1;
    }
    proof {
        if k < v@.len() {
            assert(rv.skip(k as int)[0] == target.idx());
        }
        assert(take_until(rv.skip(k as int), target.idx()) =~= Seq::<int>::empty());
        assert(take_until(rv, target.idx()) =~= idxs(v@.take(k as int)));
    }
    let t = target.lift();
    proof {
        lemma_bits_ops(acc.0, t.0);
        assert(acc@.union(t@) =~= acc@.insert(target.idx()));
    }
    acc | t
}

/// Computes the cord between two squares.
#[verifier::rlimit(40)]
pub fn compute_cord(source: Square, target: Square) -> (r: BitBoard)
    ensures
        r@ == cord_set(source.idx(), target.idx()),
{
    let dirs = vec![Dir::N, Dir::NE, Dir::E, Dir::SE, Dir::S, Dir::SW, Dir::W, Dir::NW];
    let mut k: usize = 0;
    assert(dirs@ == cord_dirs());
    assert(cord_dirs().skip(0) =~= cord_dirs());
    while k < dirs.len()
        invariant
            k <= 8,
            dirs@ == cord_dirs(),
            cord_set(source.idx(), target.idx()) == cord_from(
                source.idx(),
                target.idx(),
                cord_dirs().skip(k as int),
            ),
        decreases 8 - k,
    {
        let d = dirs[k];
        let found = source.search(d).contains(target);
        let ghost rest = cord_dirs().skip(k as int);
        assert(rest[0] == d);
        assert(rest.drop_first() =~= cord_dirs().skip(k + 1));
        if found {
            let tw = takewhile_inc(source, target, d);
            let r = tw | source;
            proof {
                lemma_bits_single(source.idx() as u64);
                lemma_bits_ops(tw.0, 1u64 << (source.idx() as u64));
                assert(ray(source.idx(), d).to_set().contains(target.idx()));
                assert(r@ =~= tw@.insert(source.idx()));
            }
            return r;
        }
        k = k + 1;
    }
    assert(cord_dirs().skip(8) =~= Seq::<Dir>::empty());
    BitBoard::empty()
}


impl BitBoard {
    /// Computes the 'cord' between two squares. Imagine a queen sat
    /// on the source square on and empty board. If the queen can move
    /// to the target square then this method returns the set of
    /// squares which the queen slides along to get to this target
    /// square (inclusive of both ends) otherwise the empty bitboard
    /// is returned.
    pub fn cord(source: Square, target: Square) -> (r: BitBoard)
        ensures
            r@ == cord_set(source.idx(), target.idx()),
    {
        compute_cord(source, target)
    }
}

/// The eight files, ordered H to A, built by walking the board.
pub fn create_files() -> (r: Vec<BitBoard>)
    ensures
        r@.len() == 8,
        forall|k: int| 0 <= k < 8 ==> (#[trigger] r@[k])@ == file_set(k),
{
    let h1 = Square::H1;
    let west = h1.search(Dir::W);
    let base = west | h1;
    proof {
        lemma_ray_west(0);
        lemma_bits_single(0);
        lemma_bits_ops(west.0, 1u64 << 0u64);
        assert(base@ =~= Set::new(|j: int| 0 <= j < 8));
    }
    let sqs = base.iter();
    proof {
        lemma_increasing_range(idxs(sqs@), 8);
    }
    let mut out: Vec<BitBoard> = Vec::new();
    let mut k: usize = 0;
    while k < sqs.len()
        invariant
            k <= sqs@.len(),
            sqs@.len() == 8,
            forall|a: int| 0 <= a < 8 ==> #[trigger] idxs(sqs@)[a] == a,
            out@.len() == k,
            forall|a: int| 0 <= a < k ==> (#[trigger] out@[a])@ == file_set(a),
        decreases sqs@.len() - k,
    {
        let sq = sqs[k];
        let north = sq.search(Dir::N);
        let f = north | sq;
        proof {
            assert(idxs(sqs@)[k as int] == k);
            assert(sq.idx() == k);
            lemma_ray_north(k as int);
            lemma_bits_single(k as u64);
            lemma_bits_ops(north.0, 1u64 << (k as u64));
            assert(f@ =~= file_set(k as int));
        }
        out.push(f);
        k = k + 1;
    }
    out
}

/// The eight ranks, ordered 1 to 8, built by walking the board.
pub fn create_ranks() -> (r: Vec<BitBoard>)
    ensures
        r@.len() == 8,
        forall|k: int| 0 <= k < 8 ==> (#[trigger] r@[k])@ == rank_set(k),
{
    let h1 = Square::H1;
    let north = h1.search(Dir::N);
    let base = north | h1;
    proof {
        lemma_ray_north(0);
        lemma_bits_single(0);
        lemma_bits_ops(north.0, 1u64 << 0u64);
        assert(base@ =~= Set::new(|j: int| 0 <= j < 64 && j % 8 == 0));
    }
    let sqs = base.iter();
    proof {
        let s = idxs(sqs@);
        let q = s.map_values(|x: int| x / 8);
        assert forall|a: int| 0 <= a < s.len() implies #[trigger] s[a] % 8 == 0 && 0 <= s[a] < 64 by {
            assert(s.to_set().contains(s[a]));
        }
        assert(increasing(q));
        assert forall|j: int| q.to_set().contains(j) <==> 0 <= j < 8 by {
            if 0 <= j < 8 {
                assert(s.to_set().contains(8 * j));
                let a = choose|a: int| 0 <= a < s.len() && #[trigger] s[a] == 8 * j;
                assert(q[a] == j);
            }
            if q.to_set().contains(j) {
                let a = choose|a: int| 0 <= a < q.len() && #[trigger] q[a] == j;
                assert(s[a] / 8 == j);
            }
        }
        assert(q.to_set() =~= Set::new(|j: int| 0 <= j < 8));
        lemma_increasing_range(q, 8);
        assert forall|a: int| 0 <= a < 8 implies #[trigger] s[a] == 8 * a by {
            assert(q[a] == a);
        }
    }
    let mut out: Vec<BitBoard> = Vec::new();
    let mut k: usize = 0;
    while k < sqs.len()
        invariant
            k <= sqs@.len(),
            sqs@.len() == 8,
            forall|a: int| 0 <= a < 8 ==> #[trigger] idxs(sqs@)[a] == 8 * a,
            out@.len() == k,
            forall|a: int| 0 <= a < k ==> (#[trigger] out@[a])@ == rank_set(a),
        decreases sqs@.len() - k,
    {
        let sq = sqs[k];
        let west = sq.search(Dir::W);
        let f = west | sq;
        proof {
            assert(idxs(sqs@)[k as int] == 8 * k);
            assert(sq.idx() == 8 * k);
            lemma_ray_west(8 * k);
            lemma_bits_single((8 * k) as u64);
            lemma_bits_ops(west.0, 1u64 << ((8 * k) as u64));
            assert(f@ =~= rank_set(k as int));
        }
        out.push(f);
        k = k + 1;
    }
    out
}


/// The index of the highest set bit of a word.
pub open spec fn top_bit(x: u64) -> int {
    63 - u64_leading_zeros(x)
}

proof fn lemma_bit_nonzero_raw(y: u64)
    by (bit_vector)
    ensures
        y & 1u64 != 0u64 ==> y & 1u64 == 1u64,
{
}

/// The highest set bit of a non-zero word is the greatest member of its set.
pub proof fn lemma_bits_max(x: u64)
    requires
        x != 0,
    ensures
        bits(x).contains(top_bit(x)),
        forall|i: int| bits(x).contains(i) ==> i <= top_bit(x),
{
    axiom_u64_leading_zeros(x);
    let t = top_bit(x);
    let lz = u64_leading_zeros(x);
    assert(0 <= lz < 64);
    let tu = (63 - lz) as u64;
    assert((x >> tu) & 1u64 != 0u64);
    lemma_bit_nonzero_raw(x >> tu);
    assert(bits(x).contains(t));
    assert forall|i: int| bits(x).contains(i) implies i <= t by {
        if i > t {
            assert((x >> (i as u64)) & 1u64 == 0u64);
        }
    }
}

impl std::ops::Not for BitBoard {
    type Output = BitBoard;

    fn not(self) -> BitBoard {
        BitBoard(!self.0)
    }
}

impl vstd::std_specs::ops::NotSpecImpl for BitBoard {
    open spec fn obeys_not_spec() -> bool {
        true
    }

    open spec fn not_req(self) -> bool {
        true
    }

    open spec fn not_spec(self) -> BitBoard {
        BitBoard(!self.0)
    }
}

impl std::ops::Shr<u8> for BitBoard {
    type Output = BitBoard;

    fn shr(self, shift: u8) -> BitBoard {
        BitBoard(self.0 >> (shift as u64))
    }
}

impl vstd::std_specs::ops::ShrSpecImpl<u8> for BitBoard {
    open spec fn obeys_shr_spec() -> bool {
        true
    }

    open spec fn shr_req(self, shift: u8) -> bool {
        shift < 64
    }

    open spec fn shr_spec(self, shift: u8) -> BitBoard {
        BitBoard(self.0 >> (shift as u64))
    }
}

impl std::ops::Shl<u8> for BitBoard {
    type Output = BitBoard;

    fn shl(self, shift: u8) -> BitBoard {
        BitBoard(self.0 << (shift as u64))
    }
}

impl vstd::std_specs::ops::ShlSpecImpl<u8> for BitBoard {
    open spec fn obeys_shl_spec() -> bool {
        true
    }

    open spec fn shl_req(self, shift: u8) -> bool {
        shift < 64
    }

    open spec fn shl_spec(self, shift: u8) -> BitBoard {
        BitBoard(self.0 << (shift as u64))
    }
}

impl std::ops::Sub<BitBoard> for BitBoard {
    type Output = BitBoard;

    fn sub(self, other: BitBoard) -> BitBoard {
        BitBoard(self.0 & !other.0)
    }
}

impl vstd::std_specs::ops::SubSpecImpl<BitBoard> for BitBoard {
    open spec fn obeys_sub_spec() -> bool {
        true
    }

    open spec fn sub_req(self, other: BitBoard) -> bool {
        true
    }

    open spec fn sub_spec(self, other: BitBoard) -> BitBoard {
        BitBoard(self.0 & !other.0)
    }
}

impl std::ops::Sub<Square> for BitBoard {
    type Output = BitBoard;

    fn sub(self, other: Square) -> BitBoard {
        BitBoard(self.0 & !loc(other))
    }
}

impl vstd::std_specs::ops::SubSpecImpl<Square> for BitBoard {
    open spec fn obeys_sub_spec() -> bool {
        true
    }

    open spec fn sub_req(self, other: Square) -> bool {
        true
    }

    open spec fn sub_spec(self, other: Square) -> BitBoard {
        BitBoard(self.0 & !(1u64 << (other.idx() as u64)))
    }
}

impl std::ops::BitXor<BitBoard> for BitBoard {
    type Output = BitBoard;

    fn bitxor(self, other: BitBoard) -> BitBoard {
        BitBoard(self.0 ^ other.0)
    }
}

impl vstd::std_specs::ops::BitXorSpecImpl<BitBoard> for BitBoard {
    open spec fn obeys_bitxor_spec() -> bool {
        true
    }

    open spec fn bitxor_req(self, other: BitBoard) -> bool {
        true
    }

    open spec fn bitxor_spec(self, other: BitBoard) -> BitBoard {
        BitBoard(self.0 ^ other.0)
    }
}

impl std::ops::BitXor<Square> for BitBoard {
    type Output = BitBoard;

    fn bitxor(self, other: Square) -> BitBoard {
        BitBoard(self.0 ^ loc(other))
    }
}

impl vstd::std_specs::ops::BitXorSpecImpl<Square> for BitBoard {
    open spec fn obeys_bitxor_spec() -> bool {
        true
    }

    open spec fn bitxor_req(self, other: Square) -> bool {
        true
    }

    open spec fn bitxor_spec(self, other: Square) -> BitBoard {
        BitBoard(self.0 ^ (1u64 << (other.idx() as u64)))
    }
}

impl std::ops::BitOr<BitBoard> for BitBoard {
    type Output = BitBoard;

    fn bitor(self, other: BitBoard) -> BitBoard {
        BitBoard(self.0 | other.0)
    }
}

impl vstd::std_specs::ops::BitOrSpecImpl<BitBoard> for BitBoard {
    open spec fn obeys_bitor_spec() -> bool {
        true
    }

    open spec fn bitor_req(self, other: BitBoard) -> bool {
        true
    }

    open spec fn bitor_spec(self, other: BitBoard) -> BitBoard {
        BitBoard(self.0 | other.0)
    }
}

impl std::ops::BitOr<Square> for BitBoard {
    type Output = BitBoard;

    fn bitor(self, other: Square) -> BitBoard {
        BitBoard(self.0 | loc(other))
    }
}

impl vstd::std_specs::ops::BitOrSpecImpl<Square> for BitBoard {
    open spec fn obeys_bitor_spec() -> bool {
        true
    }

    open spec fn bitor_req(self, other: Square) -> bool {
        true
    }

    open spec fn bitor_spec(self, other: Square) -> BitBoard {
        BitBoard(self.0 | (1u64 << (other.idx() as u64)))
    }
}

impl std::ops::BitAnd<BitBoard> for BitBoard {
    type Output = BitBoard;

    fn bitand(self, other: BitBoard) -> BitBoard {
        BitBoard(self.0 & other.0)
    }
}

impl vstd::std_specs::ops::BitAndSpecImpl<BitBoard> for BitBoard {
    open spec fn obeys_bitand_spec() -> bool {
        true
    }

    open spec fn bitand_req(self, other: BitBoard) -> bool {
        true
    }

    open spec fn bitand_spec(self, other: BitBoard) -> BitBoard {
        BitBoard(self.0 & other.0)
    }
}

impl std::ops::BitAnd<Square> for BitBoard {
    type Output = BitBoard;

    fn bitand(self, other: Square) -> BitBoard {
        BitBoard(self.0 & loc(other))
    }
}

impl vstd::std_specs::ops::BitAndSpecImpl<Square> for BitBoard {
    open spec fn obeys_bitand_spec() -> bool {
        true
    }

    open spec fn bitand_req(self, other: Square) -> bool {
        true
    }

    open spec fn bitand_spec(self, other: Square) -> BitBoard {
        BitBoard(self.0 & (1u64 << (other.idx() as u64)))
    }
}

impl std::ops::BitXorAssign<BitBoard> for BitBoard {
    fn bitxor_assign(&mut self, rhs: BitBoard)
        ensures
            final(self).0 == old(self).0 ^ rhs.0,
    {
        self.0 = self.0 ^ rhs.0;
    }
}

impl std::ops::BitXorAssign<Square> for BitBoard {
    fn bitxor_assign(&mut self, rhs: Square)
        ensures
            final(self).0 == old(self).0 ^ (1u64 << (rhs.idx() as u64)),
    {
        self.0 = self.0 ^ loc(rhs);
    }
}

impl std::ops::BitOrAssign<BitBoard> for BitBoard {
    fn bitor_assign(&mut self, rhs: BitBoard)
        ensures
            final(self).0 == old(self).0 | rhs.0,
    {
        self.0 = self.0 | rhs.0;
    }
}

impl std::ops::BitOrAssign<Square> for BitBoard {
    fn bitor_assign(&mut self, rhs: Square)
        ensures
            final(self).0 == old(self).0 | (1u64 << (rhs.idx() as u64)),
    {
        self.0 = self.0 | loc(rhs);
    }
}

impl std::ops::BitAndAssign<BitBoard> for BitBoard {
    fn bitand_assign(&mut self, rhs: BitBoard)
        ensures
            final(self).0 == old(self).0 & rhs.0,
    {
        self.0 = self.0 & rhs.0;
    }
}

impl std::ops::BitAndAssign<Square> for BitBoard {
    fn bitand_assign(&mut self, rhs: Square)
        ensures
            final(self).0 == old(self).0 & (1u64 << (rhs.idx() as u64)),
    {
        self.0 = self.0 & loc(rhs);
    }
}

impl std::ops::SubAssign<BitBoard> for BitBoard {
    fn sub_assign(&mut self, rhs: BitBoard)
        ensures
            final(self).0 == old(self).0 & !rhs.0,
    {
        self.0 = self.0 & !rhs.0;
    }
}

impl std::ops::SubAssign<Square> for BitBoard {
    fn sub_assign(&mut self, rhs: Square)
        ensures
            final(self).0 == old(self).0 & !(1u64 << (rhs.idx() as u64)),
    {
        self.0 = self.0 & !loc(rhs);
    }
}

impl std::convert::From<Square> for BitBoard {
    fn from(value: Square) -> BitBoard {
        value.lift()
    }
}

impl vstd::std_specs::convert::FromSpecImpl<Square> for BitBoard {
    open spec fn obeys_from_spec() -> bool {
        true
    }

    open spec fn from_spec(value: Square) -> BitBoard {
        BitBoard(1u64 << (value.idx() as u64))
    }
}

impl std::default::Default for BitBoard {
    fn default() -> (r: BitBoard)
        ensures
            r.0 == 0,
    {
        BitBoard::empty()
    }
}

} // verus!
