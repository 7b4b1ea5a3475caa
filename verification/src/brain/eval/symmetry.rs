use vstd::prelude::*;
use vstd::std_specs::bits::u64_trailing_zeros;

use crate::base::bitboard::{
    bits, file_set, lemma_bits_ext, lemma_bits_max, lemma_bits_min, lemma_bits_ops, lemma_lines,
    top_bit, FILE_BITS,
};
use crate::base::reflect::{lemma_mirror_bits, lemma_reflect_idx, mirror_word, reflect_idx, reflect_set};
use crate::base::square::rank_of;
use crate::brain::eval::pawns::{
    adjacent_set, backward_term, bottom_rank, lemma_adjacent, sum_range, top_rank,
    ADJACENT_FILE_BITS,
};

verus! {

/// Mirroring keeps the file of a square and mirrors its rank.
proof fn lemma_reflect_file_rank(j: int)
    requires
        0 <= j < 64,
    ensures
        reflect_idx(j) % 8 == j % 8,
        rank_of(reflect_idx(j)) == 7 - rank_of(j),
{
}

/// The lowest rank of the mirror of a board is the mirror of its highest
/// rank, and the other way round.
proof fn lemma_mirror_ranks(x: u64)
    requires
        x != 0,
    ensures
        mirror_word(x) != 0,
        bottom_rank(mirror_word(x), 10) == 7 - top_rank(x, 0),
        top_rank(mirror_word(x), 0) == 7 - bottom_rank(x, 10),
{
    let y = mirror_word(x);
    lemma_mirror_bits(x);
    lemma_bits_min(x);
    lemma_bits_max(x);
    let t = top_bit(x);
    let b = u64_trailing_zeros(x) as int;
    lemma_reflect_idx(t);
    lemma_reflect_idx(b);
    assert(bits(y).contains(reflect_idx(t)));
    assert(bits(y).contains(reflect_idx(b)));
    lemma_bits_min(y);
    lemma_bits_max(y);
    let m = u64_trailing_zeros(y) as int;
    let n = top_bit(y);
    lemma_reflect_idx(m);
    lemma_reflect_idx(n);
    lemma_reflect_file_rank(m);
    lemma_reflect_file_rank(n);
    lemma_reflect_file_rank(t);
    lemma_reflect_file_rank(b);
    assert(bits(x).contains(reflect_idx(m)));
    assert(bits(x).contains(reflect_idx(n)));
    assert(m <= reflect_idx(t));
    assert(reflect_idx(m) <= t);
    assert(reflect_idx(b) <= n);
    assert(b <= reflect_idx(n));
}

/// A board within the files of a mask, mirrored, is the mirrored board
/// within the same files.
proof fn lemma_mirror_mask(mask: u64, s: Set<int>, x: u64)
    requires
        bits(mask) == s,
        forall|j: int| 0 <= j < 64 ==> (s.contains(j) <==> #[trigger] s.contains(reflect_idx(j))),
    ensures
        mask & mirror_word(x) == mirror_word(mask & x),
{
    lemma_bits_ops(mask, mirror_word(x));
    lemma_bits_ops(mask, x);
    lemma_mirror_bits(x);
    lemma_mirror_bits(mask & x);
    assert forall|j: int| 0 <= j < 64 implies (bits(mask & mirror_word(x)).contains(j) <==> bits(
        mirror_word(mask & x),
    ).contains(j)) by {
        lemma_reflect_idx(j);
    }
    assert(bits(mask & mirror_word(x)) =~= bits(mirror_word(mask & x)));
    lemma_bits_ext(mask & mirror_word(x), mirror_word(mask & x));
}

/// A board is empty exactly when its mirror is.
proof fn lemma_mirror_zero(x: u64)
    ensures
        (x == 0) == (mirror_word(x) == 0),
{
    lemma_mirror_bits(x);
    lemma_bits_min(x);
    lemma_bits_min(mirror_word(x));
    if x == 0 {
        assert(reflect_set(bits(x)) =~= Set::<int>::empty());
    }
    if mirror_word(x) == 0 {
        assert(bits(x) =~= Set::<int>::empty()) by {
            assert forall|j: int| bits(x).contains(j) implies false by {
                lemma_reflect_idx(j);
                assert(reflect_set(bits(x)).contains(reflect_idx(j)));
            }
        }
    }
}

/// On each file, mirroring the board and swapping the sides negates the
/// backward pawn balance, when no white pawn stands on the eighth rank and
/// no black pawn on the first.
proof fn lemma_backward_term_mirror(w: u64, b: u64, f: int)
    requires
        0 <= f < 8,
        forall|i: int| #[trigger] bits(w).contains(i) ==> rank_of(i) < 7,
        forall|i: int| #[trigger] bits(b).contains(i) ==> rank_of(i) > 0,
    ensures
        backward_term(mirror_word(b), mirror_word(w), f) == -backward_term(w, b, f),
{
    let fm = FILE_BITS@[f];
    let am = ADJACENT_FILE_BITS@[f];
    lemma_lines(f);
    lemma_adjacent(f);
    assert forall|j: int| 0 <= j < 64 implies (file_set(f).contains(j) <==> #[trigger] file_set(
        f,
    ).contains(reflect_idx(j))) by {
        lemma_reflect_file_rank(j);
        lemma_reflect_idx(j);
    }
    assert forall|j: int| 0 <= j < 64 implies (adjacent_set(f).contains(j) <==> #[trigger] adjacent_set(
        f,
    ).contains(reflect_idx(j))) by {
        lemma_reflect_file_rank(j);
        lemma_reflect_idx(j);
    }
    lemma_mirror_mask(fm, file_set(f), b);
    lemma_mirror_mask(fm, file_set(f), w);
    lemma_mirror_mask(am, adjacent_set(f), b);
    lemma_mirror_mask(am, adjacent_set(f), w);
    lemma_bits_ops(fm, b);
    lemma_bits_ops(fm, w);
    lemma_bits_min(fm & b);
    lemma_bits_min(fm & w);
    lemma_bits_min(am & b);
    lemma_bits_min(am & w);
    lemma_mirror_bits(fm & b);
    lemma_mirror_bits(fm & w);
    lemma_mirror_bits(am & b);
    lemma_mirror_bits(am & w);
    if fm & b != 0 {
        lemma_mirror_ranks(fm & b);
        lemma_bits_max(fm & b);
        assert(bits(b).contains(top_bit(fm & b)));
    }
    if fm & w != 0 {
        lemma_mirror_ranks(fm & w);
        assert(bits(w).contains(u64_trailing_zeros(fm & w) as int));
    }
    if am & b != 0 {
        lemma_mirror_ranks(am & b);
    }
    if am & w != 0 {
        lemma_mirror_ranks(am & w);
    }
    lemma_mirror_zero(fm & b);
    lemma_mirror_zero(fm & w);
    lemma_mirror_zero(am & b);
    lemma_mirror_zero(am & w);
    let p1 = (fm & mirror_word(b)) != 0 && bottom_rank(am & mirror_word(b), 10) > bottom_rank(
        fm & mirror_word(b),
        0,
    );
    let q2 = (fm & b) != 0 && top_rank(am & b, 0) < top_rank(fm & b, 0);
    let p2 = (fm & mirror_word(w)) != 0 && top_rank(am & mirror_word(w), 0) < top_rank(
        fm & mirror_word(w),
        0,
    );
    let q1 = (fm & w) != 0 && bottom_rank(am & w, 10) > bottom_rank(fm & w, 0);
    assert(p1 == q2);
    assert(p2 == q1);

}

/// Mirroring the board and swapping the sides negates the count of
/// backward pawns, for boards with no white pawn on the eighth rank and no
/// black pawn on the first.
pub proof fn lemma_backward_pawns_mirror(w: u64, b: u64)
    requires
        forall|i: int| #[trigger] bits(w).contains(i) ==> rank_of(i) < 7,
        forall|i: int| #[trigger] bits(b).contains(i) ==> rank_of(i) > 0,
    ensures
        sum_range(|f: int| backward_term(mirror_word(b), mirror_word(w), f), 1, 7) == -sum_range(
            |f: int| backward_term(w, b, f),
            1,
            7,
        ),
{
    let t1 = |f: int| backward_term(mirror_word(b), mirror_word(w), f);
    let t2 = |f: int| backward_term(w, b, f);
    assert forall|f: int| 1 <= f < 7 implies #[trigger] t1(f) == -t2(f) by {
        lemma_backward_term_mirror(w, b, f);
    }
    lemma_sum_range_negate(t1, t2, 1, 7);
}

proof fn lemma_sum_range_negate(t1: spec_fn(int) -> int, t2: spec_fn(int) -> int, lo: int, hi: int)
    requires
        forall|f: int| lo <= f < hi ==> #[trigger] t1(f) == -t2(f),
    ensures
        sum_range(t1, lo, hi) == -sum_range(t2, lo, hi),
    decreases hi - lo,
{
    if hi > lo {
        lemma_sum_range_negate(t1, t2, lo, hi - 1);
    }
}

} // verus!
