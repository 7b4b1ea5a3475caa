use vstd::prelude::*;
use vstd::std_specs::bits::u64_trailing_zeros;

use crate::base::bitboard::{
    bit, bits, bits_below, file_set, lemma_bits_finite, lemma_bits_max, lemma_bits_min, lemma_bits_ops,
    lemma_lines, top_bit, BitBoard, FILE_BITS,
};
use crate::base::square::{Square, file_of, rank_of, square_at, lemma_square_idx, lemma_square_at};
use crate::brain::eval::Evaluation;

verus! {

broadcast use lemma_square_idx, lemma_square_at;

/// The files next to each file, ordered H to A.
pub const ADJACENT_FILE_BITS: [u64; 8] = [144680345676153346, 361700864190383365, 723401728380766730, 1446803456761533460, 2893606913523066920, 5787213827046133840, 11574427654092267680, 4629771061636907072];

/// The square indices on the files next to file `f`.
pub open spec fn adjacent_set(f: int) -> Set<int> {
    Set::new(|i: int| 0 <= i < 64 && (i % 8 == f - 1 || i % 8 == f + 1))
}

proof fn lemma_adjacent_raw(i: u64)
    by (bit_vector)
    requires
        i < 64,
    ensures
        (144680345676153346u64 >> i) & 1u64 == 1u64 <==> (i % 8 == -1 || i % 8 == 1),
        (361700864190383365u64 >> i) & 1u64 == 1u64 <==> (i % 8 == 0 || i % 8 == 2),
        (723401728380766730u64 >> i) & 1u64 == 1u64 <==> (i % 8 == 1 || i % 8 == 3),
        (1446803456761533460u64 >> i) & 1u64 == 1u64 <==> (i % 8 == 2 || i % 8 == 4),
        (2893606913523066920u64 >> i) & 1u64 == 1u64 <==> (i % 8 == 3 || i % 8 == 5),
        (5787213827046133840u64 >> i) & 1u64 == 1u64 <==> (i % 8 == 4 || i % 8 == 6),
        (11574427654092267680u64 >> i) & 1u64 == 1u64 <==> (i % 8 == 5 || i % 8 == 7),
        (4629771061636907072u64 >> i) & 1u64 == 1u64 <==> (i % 8 == 6 || i % 8 == 8),
{
}

/// The word of the files next to a file holds exactly their squares.
pub proof fn lemma_adjacent(k: int)
    requires
        0 <= k < 8,
    ensures
        bits(ADJACENT_FILE_BITS@[k]) == adjacent_set(k),
{
    assert forall|i: int| 0 <= i < 64 implies (#[trigger] bit(ADJACENT_FILE_BITS@[k], i) <==> (i
        % 8 == k - 1 || i % 8 == k + 1)) by {
        lemma_adjacent_raw(i as u64);
        if k == 0 {
            assert(ADJACENT_FILE_BITS@[0] == 144680345676153346u64);
        } else if k == 1 {
            assert(ADJACENT_FILE_BITS@[1] == 361700864190383365u64);
        } else if k == 2 {
            assert(ADJACENT_FILE_BITS@[2] == 723401728380766730u64);
        } else if k == 3 {
            assert(ADJACENT_FILE_BITS@[3] == 1446803456761533460u64);
        } else if k == 4 {
            assert(ADJACENT_FILE_BITS@[4] == 2893606913523066920u64);
        } else if k == 5 {
            assert(ADJACENT_FILE_BITS@[5] == 5787213827046133840u64);
        } else if k == 6 {
            assert(ADJACENT_FILE_BITS@[6] == 11574427654092267680u64);
        } else {
            assert(ADJACENT_FILE_BITS@[7] == 4629771061636907072u64);
        }
    }
    assert(bits(ADJACENT_FILE_BITS@[k]) =~= adjacent_set(k));
}

/// The number of square indices below `n` set in `x` whose rank is at
/// least `limit` (when `at_least`) or at most `limit` (otherwise).
pub open spec fn count_rank(x: u64, limit: int, at_least: bool, n: int) -> int
    decreases n,
{
    if n <= 0 {
        0
    } else {
        count_rank(x, limit, at_least, n - 1) + (if bit(x, n - 1) && (if at_least {
            rank_of(n - 1) >= limit
        } else {
            rank_of(n - 1) <= limit
        }) {
            1int
        } else {
            0int
        })
    }
}

/// The rank of the lowest square of `x`, or `default` if `x` is empty.
pub open spec fn bottom_rank(x: u64, default: int) -> int {
    if x == 0 {
        default
    } else {
        rank_of(u64_trailing_zeros(x) as int)
    }
}

/// The rank of the highest square of `x`, or `default` if `x` is empty.
pub open spec fn top_rank(x: u64, default: int) -> int {
    if x == 0 {
        default
    } else {
        rank_of(top_bit(x))
    }
}

/// The sum of `t(0) + .. + t(n - 1)`.
pub open spec fn sum_upto(t: spec_fn(int) -> int, n: int) -> int
    decreases n,
{
    if n <= 0 {
        0
    } else {
        sum_upto(t, n - 1) + t(n - 1)
    }
}

/// The sum of `t(lo) + .. + t(hi - 1)`.
pub open spec fn sum_range(t: spec_fn(int) -> int, lo: int, hi: int) -> int
    decreases hi - lo,
{
    if hi <= lo {
        0
    } else {
        sum_range(t, lo, hi - 1) + t(hi - 1)
    }
}

/// Passed pawn balance on file `f`: the white pawns of the file on or
/// beyond the highest rank of a black pawn on the files next to it, less
/// the black pawns of the file on or below the highest rank of a white pawn
/// on the files next to it.
pub open spec fn passed_term(w: u64, b: u64, f: int) -> int {
    let white_limit = top_rank(ADJACENT_FILE_BITS@[f] & b, 0);
    let black_limit = top_rank(ADJACENT_FILE_BITS@[f] & w, 10);
    count_rank(FILE_BITS@[f] & w, white_limit, true, 64) - count_rank(
        FILE_BITS@[f] & b,
        black_limit,
        false,
        64,
    )
}

/// The largest index below `n` set in `x`.
pub open spec fn prev_set(x: u64, n: int) -> Option<int>
    decreases n,
{
    if n <= 0 {
        None
    } else if bit(x, n - 1) {
        Some(n - 1)
    } else {
        prev_set(x, n - 1)
    }
}

/// Whether the square index `i` of `x` lies one file further than the
/// square of `x` that precedes it in index order.
pub open spec fn follows_on_next_file(x: u64, i: int) -> bool {
    match prev_set(x, i) {
        Some(a) => file_of(i) == file_of(a) + 1,
        None => false,
    }
}

/// The number of square indices below `n` of `x` that lie one file further
/// than the square of `x` preceding them in index order.
pub open spec fn doubling_upto(x: u64, n: int) -> int
    decreases n,
{
    if n <= 0 {
        0
    } else {
        doubling_upto(x, n - 1) + (if bit(x, n - 1) && follows_on_next_file(x, n - 1) {
            1int
        } else {
            0int
        })
    }
}

/// The number of consecutive pairs of squares of `x`, in index order,
/// whose second square is one file further than the first.
pub open spec fn doubling(x: u64) -> int {
    doubling_upto(x, 64)
}

/// Doubled pawn balance on file `f`.
pub open spec fn doubled_term(w: u64, b: u64, f: int) -> int {
    doubling(FILE_BITS@[f] & w) - doubling(FILE_BITS@[f] & b)
}

/// Isolated pawn balance on file `f`: one for a side with no pawn on the
/// files next to it and exactly one pawn on it.
pub open spec fn isolated_term(w: u64, b: u64, f: int) -> int {
    (if (ADJACENT_FILE_BITS@[f] & w) == 0 && bits(FILE_BITS@[f] & w).len() == 1 {
        1int
    } else {
        0int
    }) - (if (ADJACENT_FILE_BITS@[f] & b) == 0 && bits(FILE_BITS@[f] & b).len() == 1 {
        1int
    } else {
        0int
    })
}

/// Backward pawn balance on file `f`: white has a backward pawn when its
/// lowest pawn on the file is below every white pawn on the files next to
/// it, black when its highest pawn on the file is above every black pawn on
/// the files next to it.
pub open spec fn backward_term(w: u64, b: u64, f: int) -> int {
    (if (FILE_BITS@[f] & w) != 0 && bottom_rank(ADJACENT_FILE_BITS@[f] & w, 10) > bottom_rank(
        FILE_BITS@[f] & w,
        0,
    ) {
        1int
    } else {
        0int
    }) - (if (FILE_BITS@[f] & b) != 0 && top_rank(ADJACENT_FILE_BITS@[f] & b, 0) < top_rank(
        FILE_BITS@[f] & b,
        0,
    ) {
        1int
    } else {
        0int
    })
}

/// Counts the squares of a board whose rank is at least `limit` (when
/// `at_least`) or at most `limit` (otherwise).
fn count_ranks(board: BitBoard, limit: i32, at_least: bool) -> (r: i32)
    ensures
        r == count_rank(board.0, limit as int, at_least, 64),
        0 <= r <= 64,
{
    let mut count: i32 = 0;
    let mut k: usize = 0;
    while k < 64
        invariant
            k <= 64,
            count == count_rank(board.0, limit as int, at_least, k as int),
            0 <= count <= k,
        decreases 64 - k,
    {
        let sq = Square::from_index(k);
        let rank = sq.rank_index() as i32;
        let keep = if at_least {
            rank >= limit
        } else {
            rank <= limit
        };
        let present = board.contains(sq);
        assert(present == bit(board.0, k as int));
        if present && keep {
            count = count + 1;
        }
        k = k + 1;
    }
    count
}

/// The rank of the last square of the board in iteration order.
fn top_square_rank(board: BitBoard, default: i32) -> (r: i32)
    ensures
        r == top_rank(board.0, default as int),
{
    if board.0 == 0 {
        default
    } else {
        let lz = board.0.leading_zeros();
        proof {
            vstd::std_specs::bits::axiom_u64_leading_zeros(board.0);
        }
        let sq = Square::from_index(63 - lz as usize);
        sq.rank_index() as i32
    }
}

/// The rank of the first square of the board in iteration order.
fn bottom_square_rank(board: BitBoard, default: i32) -> (r: i32)
    ensures
        r == bottom_rank(board.0, default as int),
{
    proof {
        lemma_bits_min(board.0);
    }
    match board.first() {
        None => default,
        Some(sq) => {
            proof {
                vstd::std_specs::bits::axiom_u64_trailing_zeros(board.0);
                assert(sq.idx() <= u64_trailing_zeros(board.0));
            }
            sq.rank_index() as i32
        },
    }
}

/// Counts the passed pawns of white less those of black.
pub fn count_passed_pawns(whites: BitBoard, blacks: BitBoard) -> (r: i32)
    ensures
        r == sum_upto(|f: int| passed_term(whites.0, blacks.0, f), 8),
        files_apart(whites.0, blacks.0) ==> r == bits(whites.0).len() - bits(blacks.0).len(),
        -512 <= r <= 512,
{
    let ghost t = |f: int| passed_term(whites.0, blacks.0, f);
    let mut count: i32 = 0;
    let mut file_index: usize = 0;
    while file_index < 8
        invariant
            file_index <= 8,
            t == (|f: int| passed_term(whites.0, blacks.0, f)),
            count == sum_upto(t, file_index as int),
            -64 * file_index <= count <= 64 * file_index,
        decreases 8 - file_index,
    {
        let file = BitBoard::files(file_index);
        let adj_files = BitBoard(ADJACENT_FILE_BITS[file_index]);
        let last_black_def = top_square_rank(adj_files & blacks, 0);
        let up = count_ranks(file & whites, last_black_def, true);
        let last_white_def = top_square_rank(adj_files & whites, 10);
        let down = count_ranks(file & blacks, last_white_def, false);
        proof {
            let f = file_index as int;
            let wl = top_rank(ADJACENT_FILE_BITS@[f] & blacks.0, 0);
            let bl = top_rank(ADJACENT_FILE_BITS@[f] & whites.0, 10);
            assert(file.0 == FILE_BITS@[f]);
            assert(adj_files.0 == ADJACENT_FILE_BITS@[f]);
            assert(last_black_def == wl);
            assert(last_white_def == bl);
            assert(up - down == passed_term(whites.0, blacks.0, f));
            assert(up - down == t(f));
        }
        count = count + up - down;
        file_index = file_index + 1;
    }
    proof {
        if files_apart(whites.0, blacks.0) {
            lemma_passed_pawns_apart(whites.0, blacks.0);
        }
    }
    count
}


/// Counts the consecutive pairs of squares of the board, in index order,
/// whose second square is one file further than the first.
pub fn count_doubling(board: BitBoard) -> (r: i32)
    ensures
        r == doubling(board.0),
        0 <= r <= 64,
{
    let mut count: i32 = 0;
    let mut prev: Option<usize> = None;
    let mut k: usize = 0;
    while k < 64
        invariant
            k <= 64,
            count == doubling_upto(board.0, k as int),
            0 <= count <= k,
            match prev {
                Some(a) => prev_set(board.0, k as int) == Some(a as int) && a < 64,
                None => prev_set(board.0, k as int) is None,
            },
        decreases 64 - k,
    {
        let sq = Square::from_index(k);
        let present = board.contains(sq);
        assert(present == bit(board.0, k as int));
        if present {
            match prev {
                Some(a) => {
                    if sq.file_index() == Square::from_index(a).file_index() + 1 {
                        count = count + 1;
                    }
                },
                None => {},
            }
            prev = Some(k);
        }
        k = k + 1;
    }
    count
}

/// Counts the doubled pawns of white less those of black.
pub fn count_doubled_pawns(whites: BitBoard, blacks: BitBoard) -> (r: i32)
    ensures
        r == sum_upto(|f: int| doubled_term(whites.0, blacks.0, f), 8),
        -512 <= r <= 512,
{
    let ghost t = |f: int| doubled_term(whites.0, blacks.0, f);
    let mut count: i32 = 0;
    let mut file_index: usize = 0;
    while file_index < 8
        invariant
            file_index <= 8,
            t == (|f: int| doubled_term(whites.0, blacks.0, f)),
            count == sum_upto(t, file_index as int),
            -64 * file_index <= count <= 64 * file_index,
        decreases 8 - file_index,
    {
        let file = BitBoard::files(file_index);
        let w = count_doubling(file & whites);
        let b = count_doubling(file & blacks);
        count = count + w - b;
        file_index = file_index + 1;
    }
    count
}

/// Counts the isolated pawns of white less those of black.
pub fn count_isolated_pawns(whites: BitBoard, blacks: BitBoard) -> (r: i32)
    ensures
        r == sum_upto(|f: int| isolated_term(whites.0, blacks.0, f), 8),
        -8 <= r <= 8,
{
    let ghost t = |f: int| isolated_term(whites.0, blacks.0, f);
    let mut count: i32 = 0;
    let mut file_index: usize = 0;
    while file_index < 8
        invariant
            file_index <= 8,
            t == (|f: int| isolated_term(whites.0, blacks.0, f)),
            count == sum_upto(t, file_index as int),
            -(file_index as int) <= count <= file_index,
        decreases 8 - file_index,
    {
        let file = BitBoard::files(file_index);
        let adj_files = BitBoard(ADJACENT_FILE_BITS[file_index]);
        let white_alone = (adj_files & whites).first().is_none() && (file & whites).size() == 1;
        let black_alone = (adj_files & blacks).first().is_none() && (file & blacks).size() == 1;
        proof {
            lemma_bits_min(ADJACENT_FILE_BITS@[file_index as int] & whites.0);
            lemma_bits_min(ADJACENT_FILE_BITS@[file_index as int] & blacks.0);
        }
        if white_alone {
            count = count + 1;
        }
        if black_alone {
            count = count - 1;
        }
        file_index = file_index + 1;
    }
    count
}

/// Counts the backward pawns of white less those of black, looking at
/// the files B to G.
pub fn count_backward_pawns(whites: BitBoard, blacks: BitBoard) -> (r: i32)
    ensures
        r == sum_range(|f: int| backward_term(whites.0, blacks.0, f), 1, 7),
        -7 <= r <= 7,
{
    let ghost t = |f: int| backward_term(whites.0, blacks.0, f);
    let mut count: i32 = 0;
    let mut file_index: usize = 1;
    while file_index < 7
        invariant
            1 <= file_index <= 7,
            t == (|f: int| backward_term(whites.0, blacks.0, f)),
            count == sum_range(t, 1, file_index as int),
            -(file_index as int) <= count <= file_index,
        decreases 7 - file_index,
    {
        let file = BitBoard::files(file_index);
        let adj_files = BitBoard(ADJACENT_FILE_BITS[file_index]);
        let ghost f = file_index as int;
        let mut term: i32 = 0;
        proof {
            lemma_bits_min(FILE_BITS@[f] & whites.0);
            lemma_bits_min(FILE_BITS@[f] & blacks.0);
        }
        match (file & whites).first() {
            Some(candidate) => {
                let rank = candidate.rank_index() as i32;
                let adj_rank = bottom_square_rank(adj_files & whites, 10);
                proof {
                    vstd::std_specs::bits::axiom_u64_trailing_zeros(FILE_BITS@[f] & whites.0);
                    assert(candidate.idx() == u64_trailing_zeros(FILE_BITS@[f] & whites.0));
                }
                if adj_rank > rank {
                    term = term + 1;
                }
            },
            None => {},
        }
        if (file & blacks).0 != 0 {
            let rank = top_square_rank(file & blacks, 0);
            let adj_rank = top_square_rank(adj_files & blacks, 0);
            if adj_rank < rank {
                term = term - 1;
            }
        }
        assert(term == t(f));
        count = count + term;
        file_index = file_index + 1;
    }
    count
}

/// The (midgame, endgame) scores of a passed, a doubled, an isolated and a
/// backward pawn.
pub const PAWN_SCORES: [(i32, i32); 4] = [(80, 200), (-70, -75), (-60, -30), (-15, 0)];

/// The four pawn structure counts of a position, white less black: passed,
/// doubled, isolated and backward pawns.
pub open spec fn structure_counts(whites: u64, blacks: u64) -> Seq<int> {
    seq![
        sum_upto(|f: int| passed_term(whites, blacks, f), 8),
        sum_upto(|f: int| doubled_term(whites, blacks, f), 8),
        sum_upto(|f: int| isolated_term(whites, blacks, f), 8),
        sum_range(|f: int| backward_term(whites, blacks, f), 1, 7),
    ]
}

/// The score of the pawn structure, in the midgame (`mid`) or the endgame:
/// each count times its score.
pub open spec fn structure_score(whites: u64, blacks: u64, mid: bool) -> int {
    let c = structure_counts(whites, blacks);
    let s = |i: int|
        if mid {
            PAWN_SCORES@[i].0 as int
        } else {
            PAWN_SCORES@[i].1 as int
        };
    c[0] * s(0) + c[1] * s(1) + c[2] * s(2) + c[3] * s(3)
}

/// Scores the pawn structure: passed, doubled, isolated and backward pawns.
#[derive(Debug, Copy, Clone, PartialEq, Eq)]
pub struct PawnStructureFacet {
    scores: [(i32, i32); 4],
}

impl PawnStructureFacet {
    #[verifier::type_invariant]
    spec fn inv(self) -> bool {
        self.scores == PAWN_SCORES
    }

    /// The phased score of the pawns of white and of black.
    pub fn static_eval(&self, whites: BitBoard, blacks: BitBoard) -> (r: Evaluation)
        ensures
            r == (Evaluation::Phased {
                mid: structure_score(whites.0, blacks.0, true) as i32,
                end: structure_score(whites.0, blacks.0, false) as i32,
            }),
            -1_000_000 <= structure_score(whites.0, blacks.0, true) <= 1_000_000,
            -1_000_000 <= structure_score(whites.0, blacks.0, false) <= 1_000_000,
    {
        proof {
            use_type_invariant(self);
        }
        let counts = [
            count_passed_pawns(whites, blacks),
            count_doubled_pawns(whites, blacks),
            count_isolated_pawns(whites, blacks),
            count_backward_pawns(whites, blacks),
        ];
        let ghost c = structure_counts(whites.0, blacks.0);
        let (mut mid, mut end): (i32, i32) = (0, 0);
        let mut f: usize = 0;
        while f < 4
            invariant
                f <= 4,
                self.scores == PAWN_SCORES,
                c == structure_counts(whites.0, blacks.0),
                forall|i: int| 0 <= i < 4 ==> #[trigger] counts@[i] == c[i] && -512 <= c[i] <= 512,
                mid == partial_score(c, true, f as int),
                end == partial_score(c, false, f as int),
                -102400 * (f as int) <= mid <= 102400 * (f as int),
                -102400 * (f as int) <= end <= 102400 * (f as int),
            decreases 4 - f,
        {
            let count = counts[f];
            let (m, e) = self.scores[f];
            proof {
                assert(-200 <= m <= 200 && -200 <= e <= 200);
                assert(-102400 <= count * m <= 102400) by (nonlinear_arith)
                    requires
                        -512 <= count <= 512,
                        -200 <= m <= 200,
                ;
                assert(-102400 <= count * e <= 102400) by (nonlinear_arith)
                    requires
                        -512 <= count <= 512,
                        -200 <= e <= 200,
                ;
            }
            mid = mid + count * m;
            end = end + count * e;
            f = f + 1;
        }
        proof {
            reveal_with_fuel(partial_score, 5);
            assert(partial_score(c, true, 4) == structure_score(whites.0, blacks.0, true));
            assert(partial_score(c, false, 4) == structure_score(whites.0, blacks.0, false));
        }
        Evaluation::Phased { mid, end }
    }
}

/// The score of the first `k` of the counts.
pub open spec fn partial_score(c: Seq<int>, mid: bool, k: int) -> int
    decreases k,
{
    if k <= 0 {
        0
    } else {
        partial_score(c, mid, k - 1) + c[k - 1] * (if mid {
            PAWN_SCORES@[k - 1].0 as int
        } else {
            PAWN_SCORES@[k - 1].1 as int
        })
    }
}

impl std::default::Default for PawnStructureFacet {
    fn default() -> (r: PawnStructureFacet) {
        PawnStructureFacet { scores: PAWN_SCORES }
    }
}

/// A board whose squares lie on one file has no pair of consecutive
/// squares on neighbouring files, so it never counts as doubled: the
/// doubled pawn count of any position is zero.
pub proof fn lemma_single_file_doubling(x: u64, f: int, n: int)
    requires
        bits(x).subset_of(file_set(f)),
        0 <= n <= 64,
    ensures
        doubling_upto(x, n) == 0,
    decreases n,
{
    if n > 0 {
        lemma_single_file_doubling(x, f, n - 1);
        if bit(x, n - 1) {
            lemma_prev_set_member(x, n - 1);
            assert(bits(x).contains(n - 1));
            match prev_set(x, n - 1) {
                Some(a) => {
                    assert(bits(x).contains(a));
                    assert(file_of(a) == f && file_of(n - 1) == f);
                },
                None => {},
            }
            assert(!follows_on_next_file(x, n - 1));
        }
    }
}

/// The index found by `prev_set` is a member below the bound.
pub proof fn lemma_prev_set_member(x: u64, n: int)
    requires
        n <= 64,
    ensures
        prev_set(x, n) matches Some(a) ==> 0 <= a < n && bit(x, a),
    decreases n,
{
    if n > 0 {
        lemma_prev_set_member(x, n - 1);
    }
}

/// No position has a doubled pawn count other than zero.
pub proof fn lemma_no_doubled_pawns(whites: u64, blacks: u64, n: int)
    requires
        0 <= n <= 8,
    ensures
        sum_upto(|f: int| doubled_term(whites, blacks, f), n) == 0,
    decreases n,
{
    if n > 0 {
        lemma_no_doubled_pawns(whites, blacks, n - 1);
        let f = n - 1;
        crate::base::bitboard::lemma_lines(f);
        lemma_bits_ops(FILE_BITS@[f], whites);
        lemma_bits_ops(FILE_BITS@[f], blacks);
        lemma_single_file_doubling(FILE_BITS@[f] & whites, f, 64);
        lemma_single_file_doubling(FILE_BITS@[f] & blacks, f, 64);
    }
}

/// No pawn of one side stands on a file next to the file of a pawn of the
/// other side.
pub open spec fn files_apart(w: u64, b: u64) -> bool {
    forall|i: int, j: int|
        #![trigger bits(w).contains(i), bits(b).contains(j)]
        bits(w).contains(i) && bits(b).contains(j) ==> i % 8 - j % 8 != 1 && j % 8 - i % 8 != 1
}

/// When every square below `n` set in `x` meets the rank bound, the count
/// is the number of those squares.
proof fn lemma_count_rank_all(x: u64, limit: int, at_least: bool, n: int)
    requires
        0 <= n <= 64,
        forall|i: int|
            0 <= i < n && #[trigger] bit(x, i) ==> (if at_least {
                rank_of(i) >= limit
            } else {
                rank_of(i) <= limit
            }),
    ensures
        bits_below(x, n).finite(),
        count_rank(x, limit, at_least, n) == bits_below(x, n).len(),
    decreases n,
{
    if n == 0 {
        assert(bits_below(x, 0) =~= Set::<int>::empty());
    } else {
        lemma_count_rank_all(x, limit, at_least, n - 1);
        if bit(x, n - 1) {
            assert(bits_below(x, n) =~= bits_below(x, n - 1).insert(n - 1));
        } else {
            assert(bits_below(x, n) =~= bits_below(x, n - 1));
        }
    }
}

/// A file with no enemy pawn on the files next to it has all its pawns
/// passed: the balance of the file is its white pawns less its black ones.
proof fn lemma_passed_term_apart(w: u64, b: u64, f: int)
    requires
        0 <= f < 8,
        files_apart(w, b),
    ensures
        passed_term(w, b, f) == bits(FILE_BITS@[f] & w).len() - bits(FILE_BITS@[f] & b).len(),
{
    let fm = FILE_BITS@[f];
    let am = ADJACENT_FILE_BITS@[f];
    lemma_lines(f);
    lemma_adjacent(f);
    lemma_bits_ops(fm, w);
    lemma_bits_ops(fm, b);
    lemma_bits_ops(am, w);
    lemma_bits_ops(am, b);
    lemma_bits_min(am & b);
    lemma_bits_min(am & w);
    lemma_bits_min(fm & w);
    lemma_bits_min(fm & b);
    if fm & w != 0 {
        let i = u64_trailing_zeros(fm & w) as int;
        assert(bits(fm & w).contains(i));
        if am & b != 0 {
            let j = u64_trailing_zeros(am & b) as int;
            assert(bits(am & b).contains(j));
            assert(bits(w).contains(i) && bits(b).contains(j));
            assert(false);
        }
        assert(top_rank(am & b, 0) == 0);
    }
    if fm & b != 0 {
        let j = u64_trailing_zeros(fm & b) as int;
        assert(bits(fm & b).contains(j));
        if am & w != 0 {
            let i = u64_trailing_zeros(am & w) as int;
            assert(bits(am & w).contains(i));
            assert(bits(w).contains(i) && bits(b).contains(j));
            assert(false);
        }
        assert(top_rank(am & w, 10) == 10);
    }
    let wl = top_rank(am & b, 0);
    let bl = top_rank(am & w, 10);
    assert forall|i: int| 0 <= i < 64 && #[trigger] bit(fm & w, i) implies rank_of(i) >= wl by {
        assert(bits(fm & w).contains(i));
    }
    assert forall|i: int| 0 <= i < 64 && #[trigger] bit(fm & b, i) implies rank_of(i) <= bl by {
        assert(bits(fm & b).contains(i));
    }
    lemma_count_rank_all(fm & w, wl, true, 64);
    lemma_count_rank_all(fm & b, bl, false, 64);
    assert(bits_below(fm & w, 64) =~= bits(fm & w));
    assert(bits_below(fm & b, 64) =~= bits(fm & b));
}

/// The squares of `x` on the files below `n`.
pub open spec fn files_below(x: u64, n: int) -> Set<int> {
    Set::new(|i: int| bits(x).contains(i) && i % 8 < n)
}

/// Summing the squares of `x` file by file counts each square once.
proof fn lemma_sum_files(x: u64, n: int)
    requires
        0 <= n <= 8,
    ensures
        files_below(x, n).finite(),
        sum_upto(|f: int| bits(FILE_BITS@[f] & x).len() as int, n) == files_below(x, n).len(),
    decreases n,
{
    lemma_bits_finite(x);
    if n == 0 {
        assert(files_below(x, 0) =~= Set::<int>::empty());
    } else {
        lemma_sum_files(x, n - 1);
        let f = n - 1;
        lemma_lines(f);
        lemma_bits_ops(FILE_BITS@[f], x);
        let on = bits(FILE_BITS@[f] & x);
        assert(files_below(x, n) =~= files_below(x, n - 1) + on);
        assert(files_below(x, n - 1).disjoint(on));
        lemma_bits_finite(FILE_BITS@[f] & x);
        vstd::set_lib::lemma_set_disjoint_lens(files_below(x, n - 1), on);
    }
}

/// Sums of differences are differences of sums.
proof fn lemma_sum_upto_sub(t: spec_fn(int) -> int, a: spec_fn(int) -> int, c: spec_fn(int) -> int, n: int)
    requires
        forall|f: int| 0 <= f < n ==> #[trigger] t(f) == a(f) - c(f),
    ensures
        sum_upto(t, n) == sum_upto(a, n) - sum_upto(c, n),
    decreases n,
{
    if n > 0 {
        lemma_sum_upto_sub(t, a, c, n - 1);
    }
}

/// When no pawn of one side stands on a file next to the file of a pawn of
/// the other side, every pawn is passed: the passed pawn count is the
/// number of white pawns less the number of black pawns.
pub proof fn lemma_passed_pawns_apart(w: u64, b: u64)
    requires
        files_apart(w, b),
    ensures
        sum_upto(|f: int| passed_term(w, b, f), 8) == bits(w).len() - bits(b).len(),
{
    let t = |f: int| passed_term(w, b, f);
    let a = |f: int| bits(FILE_BITS@[f] & w).len() as int;
    let c = |f: int| bits(FILE_BITS@[f] & b).len() as int;
    assert forall|f: int| 0 <= f < 8 implies #[trigger] t(f) == a(f) - c(f) by {
        lemma_passed_term_apart(w, b, f);
    }
    lemma_sum_upto_sub(t, a, c, 8);
    lemma_sum_files(w, 8);
    lemma_sum_files(b, 8);
    lemma_bits_finite(w);
    lemma_bits_finite(b);
    assert(files_below(w, 8) =~= bits(w));
    assert(files_below(b, 8) =~= bits(b));
}

} // verus!
