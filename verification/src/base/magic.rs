use vstd::prelude::*;

use crate::base::bitboard::{bits, increasing, lemma_bits_ext, lemma_bits_finite, lemma_bits_ops, BitBoard};
use crate::base::square::{Square, idxs, square_at, lemma_square_idx};

verus! {

broadcast use lemma_square_idx;

/// Applies the magic index mapping operation by multiplying the occupancy
/// and magic number together (allowing overflow) and then performing a right
/// shift on the result.
pub fn compute_index(occupancy: u64, magic: u64, shift: usize) -> (r: usize)
    requires
        shift < 64,
    ensures
        r == (vstd::wrapping::u64_specs::wrapping_mul(occupancy, magic) >> (shift as u64)) as usize,
{
    (occupancy.wrapping_mul(magic) >> (shift as u64)) as usize
}

/// Computes the magic bitshift values for all squares which is defined to
/// be the 1 count of the corresponding occupancy mask subtracted from 64.
pub fn compute_shifts(masks: &Vec<u64>) -> (r: Vec<usize>)
    ensures
        r@.len() == masks@.len(),
        forall|k: int| 0 <= k < masks@.len() ==> #[trigger] r@[k] == 64 - bits(masks@[k]).len(),
{
    let mut out: Vec<usize> = Vec::new();
    let mut k: usize = 0;
    while k < masks.len()
        invariant
            k <= masks@.len(),
            out@.len() == k,
            forall|a: int| 0 <= a < k ==> #[trigger] out@[a] == 64 - bits(masks@[a]).len(),
        decreases masks@.len() - k,
    {
        let size = BitBoard(masks[k]).size();
        out.push(64 - size);
        k = k + 1;
    }
    out
}

/// The subsets of the squares of `s` in the order in which they are
/// built: those of the tail, each followed by itself with the head added.
pub open spec fn powerset_seq(s: Seq<int>) -> Seq<Set<int>>
    decreases s.len(),
{
    if s.len() == 0 {
        seq![Set::<int>::empty()]
    } else {
        let rec = powerset_seq(s.drop_first());
        Seq::new(2 * rec.len(), |k: int| if k % 2 == 0 {
            rec[k / 2]
        } else {
            rec[k / 2].insert(s[0])
        })
    }
}

/// The sets of a bitboard sequence.
pub open spec fn views(v: Seq<BitBoard>) -> Seq<Set<int>> {
    v.map_values(|b: BitBoard| b@)
}

/// Computes the powerset of some set of squares with the resulting elements
/// of the powerset represented as bitboards.
pub fn compute_powerset(squares: &Vec<Square>) -> (r: Vec<BitBoard>)
    requires
        squares@.len() < 64,
    ensures
        views(r@) == powerset_seq(idxs(squares@)),
        r@.len() == vstd::arithmetic::power2::pow2(squares@.len() as nat),
    decreases squares@.len(),
{
    if squares.len() == 0 {
        let r = vec![BitBoard::empty()];
        assert(views(r@) =~= powerset_seq(idxs(squares@)));
        proof {
            vstd::arithmetic::power2::lemma2_to64();
        }
        r
    } else {
        let head = squares[0];
        let mut rest: Vec<Square> = Vec::new();
        let mut k: usize = 1;
        while k < squares.len()
            invariant
                1 <= k <= squares@.len(),
                rest@ == squares@.subrange(1, k as int),
            decreases squares@.len() - k,
        {
            rest.push(squares[k]);
            k = k + 1;
        }
        assert(rest@ =~= squares@.drop_first());
        let recursive = compute_powerset(&rest);
        let ghost rec = powerset_seq(idxs(rest@));
        assert(idxs(squares@).drop_first() =~= idxs(rest@));
        let mut res: Vec<BitBoard> = Vec::new();
        let mut j: usize = 0;
        proof {
            vstd::arithmetic::power2::lemma_pow2_unfold(squares@.len() as nat);
            vstd::arithmetic::power2::lemma_pow2_strictly_increases(rest@.len() as nat, 63);
            vstd::arithmetic::power2::lemma2_to64();
            vstd::arithmetic::power2::lemma2_to64_rest();
        }
        while j < recursive.len()
            invariant
                j <= recursive@.len(),
                views(recursive@) == rec,
                recursive@.len() < 0x8000_0000_0000_0000,
                res@.len() == 2 * j,
                forall|a: int| 0 <= a < 2 * j ==> (#[trigger] res@[a])@ == (if a % 2 == 0 {
                    rec[a / 2]
                } else {
                    rec[a / 2].insert(head.idx())
                }),
            decreases recursive@.len() - j,
        {
            let set = recursive[j];
            let with_head = set | head;
            proof {
                crate::base::bitboard::lemma_bits_single(head.idx() as u64);
                lemma_bits_ops(set.0, 1u64 << (head.idx() as u64));
                assert(views(recursive@)[j as int] == set@);
                assert(with_head@ =~= set@.insert(head.idx()));
            }
            res.push(set);
            res.push(with_head);
            j = j + 1;
        }
        assert(views(res@) =~= powerset_seq(idxs(squares@)));
        res
    }
}

/// Every set of the powerset sequence is a subset of the squares, and
/// every subset of the squares is in the sequence.
pub proof fn lemma_powerset_complete(s: Seq<int>)
    ensures
        forall|k: int| 0 <= k < powerset_seq(s).len() ==> (#[trigger] powerset_seq(s)[k]).subset_of(
            s.to_set(),
        ),
        forall|t: Set<int>| #[trigger] t.subset_of(s.to_set()) ==> powerset_seq(s).contains(t),
    decreases s.len(),
{
    if s.len() == 0 {
        assert forall|t: Set<int>| #[trigger] t.subset_of(s.to_set()) implies powerset_seq(s).contains(t) by {
            assert(t =~= Set::<int>::empty());
            assert(powerset_seq(s)[0] == t);
        }
    } else {
        let tail = s.drop_first();
        lemma_powerset_complete(tail);
        let rec = powerset_seq(tail);
        let ps = powerset_seq(s);
        assert(s.to_set() =~= tail.to_set().insert(s[0])) by {
            assert forall|x: int| s.to_set().contains(x) <==> tail.to_set().insert(s[0]).contains(x) by {
                if s.contains(x) && x != s[0] {
                    let i = choose|i: int| 0 <= i < s.len() && s[i] == x;
                    assert(tail[i - 1] == x);
                }
                if tail.contains(x) {
                    let i = choose|i: int| 0 <= i < tail.len() && tail[i] == x;
                    assert(s[i + 1] == x);
                }
                if x == s[0] {
                    assert(s[0] == x);
                }
            }
        }
        assert forall|k: int| 0 <= k < ps.len() implies (#[trigger] ps[k]).subset_of(s.to_set()) by {
            assert(rec[k / 2].subset_of(tail.to_set()));
        }
        assert forall|t: Set<int>| #[trigger] t.subset_of(s.to_set()) implies ps.contains(t) by {
            let t0 = t.remove(s[0]);
            assert(t0.subset_of(tail.to_set()));
            assert(rec.contains(t0));
            let i = choose|i: int| 0 <= i < rec.len() && rec[i] == t0;
            if t.contains(s[0]) {
                assert(ps[2 * i + 1] =~= t);
            } else {
                assert(ps[2 * i] =~= t);
            }
        }
    }
}

/// A uniformly random `u64`.
///
/// Calls `rand::random::<u64>()`, which draws from the thread-local
/// generator. Nothing is stated of the number: any value may come back.
/// The generator panics if the operating system's randomness source
/// cannot seed it; that case is not excluded here.
#[verifier::external_body]
fn random_u64() -> u64 {
    rand::random::<u64>()
}

/// Generates a random unsigned long with a sparse set of 1 bits.
fn gen_magic_candidate() -> u64 {
    random_u64() & random_u64() & random_u64()
}

/// The magic numbers `magics` belong, in order, to the squares of the
/// increasing indices `idx` (each below 64 and below the number of masks),
/// each valid for its square and mask.
pub open spec fn magic_squares<F: Fn(Square, BitBoard) -> BitBoard>(
    idx: Seq<int>,
    magics: Seq<u64>,
    masks: Seq<u64>,
    f: F,
) -> bool {
    &&& idx.len() == magics.len()
    &&& forall|a: int, b: int| 0 <= a < b < idx.len() ==> idx[a] < idx[b]
    &&& forall|j: int| 0 <= j < idx.len() ==> 0 <= #[trigger] idx[j] < masks.len() && idx[j] < 64
    &&& forall|j: int|
        0 <= j < idx.len() ==> magic_valid(f, square_at(#[trigger] idx[j]), masks[idx[j]], magics[j])
}


/// The number of tries to find a magic number for one square.
pub const MAGIC_TRIES: usize = 1_000_000;

/// A magic number is valid for a square and its occupancy mask under the
/// control function `f` when any two occupancies within the mask that the
/// number maps to one index have the same control set.
pub open spec fn magic_valid<F: Fn(Square, BitBoard) -> BitBoard>(
    f: F,
    sq: Square,
    mask: u64,
    magic: u64,
) -> bool {
    let shift = (64 - bits(mask).len()) as usize;
    forall|a: u64, b: u64, x: BitBoard, y: BitBoard|
        #![trigger f.ensures((sq, BitBoard(a)), x), f.ensures((sq, BitBoard(b)), y)]
        bits(a).subset_of(bits(mask)) && bits(b).subset_of(bits(mask)) && magic_index(a, magic, shift)
            == magic_index(b, magic, shift) && f.ensures((sq, BitBoard(a)), x) && f.ensures(
            (sq, BitBoard(b)),
            y,
        ) ==> x == y
}

/// The index a magic number maps an occupancy to.
pub open spec fn magic_index(occupancy: u64, magic: u64, shift: usize) -> int {
    (vstd::wrapping::u64_specs::wrapping_mul(occupancy, magic) >> (shift as u64)) as int
}

/// The index of an occupancy is below the size of the powerset of a mask
/// of `n` squares.
proof fn lemma_index_bound(x: u64, n: nat)
    requires
        1 <= n < 64,
    ensures
        (x >> ((64 - n) as u64)) < vstd::arithmetic::power2::pow2(n),
{
    vstd::bits::lemma_u64_shr_is_div(x, (64 - n) as u64);
    vstd::arithmetic::power2::lemma_pow2_adds((64 - n) as nat, n);
    vstd::arithmetic::power2::lemma2_to64();
    vstd::arithmetic::power2::lemma_pow2_pos((64 - n) as nat);
    vstd::arithmetic::div_mod::lemma_multiply_divide_lt(
        x as int,
        vstd::arithmetic::power2::pow2((64 - n) as nat) as int,
        vstd::arithmetic::power2::pow2(n) as int,
    );
}

/// Any two variations among the first `j` that a magic number maps to one
/// index have the same value.
pub open spec fn consistent_upto(
    variations: Seq<BitBoard>,
    values: Seq<BitBoard>,
    magic: u64,
    shift: usize,
    j: int,
) -> bool {
    forall|a: int, b: int|
        #![trigger magic_index(variations[a].0, magic, shift), magic_index(variations[b].0, magic, shift)]
        0 <= a < j && 0 <= b < j && magic_index(variations[a].0, magic, shift) == magic_index(
            variations[b].0,
            magic,
            shift,
        ) ==> values[a] == values[b]
}

/// Tests a magic candidate: whether any two occupancy variations that it
/// maps to one index have the same value, filling a cache indexed by the
/// mapping in order of the variations.
pub fn magic_consistent(variations: &Vec<BitBoard>, values: &Vec<BitBoard>, magic: u64, shift: usize) -> (r:
    bool)
    requires
        shift < 64,
        values@.len() == variations@.len(),
        forall|a: int|
            0 <= a < variations@.len() ==> magic_index(#[trigger] variations@[a].0, magic, shift)
                < variations@.len(),
    ensures
        r == consistent_upto(variations@, values@, magic, shift, variations@.len() as int),
{
    let mut cache: Vec<Option<BitBoard>> = Vec::new();
    let mut c: usize = 0;
    while c < variations.len()
        invariant
            c <= variations@.len(),
            cache@.len() == c,
            forall|i: int| 0 <= i < c ==> cache@[i] is None,
        decreases variations@.len() - c,
    {
        cache.push(None);
        c = c + 1;
    }
    let mut j: usize = 0;
    while j < variations.len()
        invariant
            j <= variations@.len(),
            shift < 64,
            cache@.len() == variations@.len(),
            values@.len() == variations@.len(),
            forall|a: int|
                0 <= a < variations@.len() ==> magic_index(#[trigger] variations@[a].0, magic, shift)
                    < variations@.len(),
            forall|a: int|
                0 <= a < j ==> cache@[magic_index(variations@[a].0, magic, shift)] == Some(
                    #[trigger] values@[a],
                ),
            forall|i: int|
                0 <= i < cache@.len() && #[trigger] cache@[i] is Some ==> exists|a: int|
                    0 <= a < j && magic_index(variations@[a].0, magic, shift) == i,
            consistent_upto(variations@, values@, magic, shift, j as int),
        decreases variations@.len() - j,
    {
        let index = compute_index(variations[j].0, magic, shift);
        let ghost before = cache@;
        let ghost ij = magic_index(variations@[j as int].0, magic, shift);
        assert(index as int == ij);
        assert(0 <= ij < variations@.len());
        match cache[index] {
            None => {
                cache.set(index, Some(values[j]));
                proof {
                    assert forall|a: int| 0 <= a < j + 1 implies cache@[magic_index(
                        variations@[a].0,
                        magic,
                        shift,
                    )] == Some(#[trigger] values@[a]) by {
                        if a < j {
                            assert(before[magic_index(variations@[a].0, magic, shift)] == Some(
                                values@[a],
                            ));
                        }
                    }
                    assert forall|i: int|
                        0 <= i < cache@.len() && #[trigger] cache@[i] is Some implies exists|a: int|
                        0 <= a < j + 1 && magic_index(variations@[a].0, magic, shift) == i by {
                        if i != ij {
                            assert(before[i] is Some);
                            let a = choose|a: int| 0 <= a < j && magic_index(variations@[a].0, magic, shift) == i;
                            assert(0 <= a < j + 1 && magic_index(variations@[a].0, magic, shift) == i);
                        } else {
                            assert(magic_index(variations@[j as int].0, magic, shift) == i);
                        }
                    }
                    assert forall|a: int, b: int|
                        0 <= a < j + 1 && 0 <= b < j + 1 && magic_index(variations@[a].0, magic, shift)
                            == magic_index(variations@[b].0, magic, shift) implies values@[a]
                        == values@[b] by {
                        if a < j && b == j {
                            assert(before[magic_index(variations@[a].0, magic, shift)] == Some(
                                values@[a],
                            ));
                        }
                        if b < j && a == j {
                            assert(before[magic_index(variations@[b].0, magic, shift)] == Some(
                                values@[b],
                            ));
                        }
                    }
                }
            },
            Some(existing_value) => {
                if existing_value != values[j] {
                    proof {
                        assert(before[ij] is Some);
                        let a = choose|a: int| 0 <= a < j && magic_index(variations@[a].0, magic, shift) == ij;
                        assert(cache@[magic_index(variations@[a].0, magic, shift)] == Some(values@[a]));
                        assert(values@[a] != values@[j as int]);
                        assert(!consistent_upto(variations@, values@, magic, shift, variations@.len() as int));
                    }
                    return false;
                }
                proof {
                    assert forall|a: int, b: int|
                        0 <= a < j + 1 && 0 <= b < j + 1 && magic_index(variations@[a].0, magic, shift)
                            == magic_index(variations@[b].0, magic, shift) implies values@[a]
                        == values@[b] by {
                        if a < j && b == j {
                            assert(before[magic_index(variations@[a].0, magic, shift)] == Some(
                                values@[a],
                            ));
                        }
                        if b < j && a == j {
                            assert(before[magic_index(variations@[b].0, magic, shift)] == Some(
                                values@[b],
                            ));
                        }
                    }
                }
            },
        }
        j = j + 1;
    }
    true
}

/// What the search for the magic number of a square did, given the
/// candidates it tried in order: every candidate before the last was not
/// valid; a number found before the last try, or only at the last try, is
/// the last candidate and is valid; and the search is exhausted when all
/// of the tries were made and none was valid.
pub open spec fn search_record<F: Fn(Square, BitBoard) -> BitBoard>(
    f: F,
    sq: Square,
    mask: u64,
    out: MagicSearch,
    tried: Seq<u64>,
) -> bool {
    &&& 1 <= tried.len() <= MAGIC_TRIES
    &&& forall|i: int| 0 <= i < tried.len() - 1 ==> !magic_valid(f, sq, mask, #[trigger] tried[i])
    &&& match out {
        MagicSearch::Found(m) => tried.len() < MAGIC_TRIES && tried.last() == m && magic_valid(
            f,
            sq,
            mask,
            m,
        ),
        MagicSearch::LastTry(m) => tried.len() == MAGIC_TRIES && tried.last() == m && magic_valid(
            f,
            sq,
            mask,
            m,
        ),
        MagicSearch::Exhausted => tried.len() == MAGIC_TRIES && !magic_valid(f, sq, mask, tried.last()),
    }
}

/// The outcome of the search for the magic number of one square.
#[derive(Copy, Clone)]
pub enum MagicSearch {
    /// A valid number, found before the last try.
    Found(u64),
    /// A valid number, found only at the last try.
    LastTry(u64),
    /// None of the tries gave a valid number.
    Exhausted,
}

/// Tries magic candidates for one square until one maps its occupancy
/// variations consistently.
#[verifier::spinoff_prover]
fn find_magic<F: Fn(Square, BitBoard) -> BitBoard>(
    f: &F,
    sq: Square,
    mask: u64,
) -> (r: (MagicSearch, Ghost<Seq<u64>>))
    requires
        1 <= bits(mask).len() < 64,
        forall|s: Square, b: BitBoard| f.requires((s, b)),
        forall|s: Square, b: BitBoard, x: BitBoard, y: BitBoard|
            #![trigger f.ensures((s, b), x), f.ensures((s, b), y)]
            f.ensures((s, b), x) && f.ensures((s, b), y) ==> x == y,
    ensures
        search_record(*f, sq, mask, r.0, r.1@),
{
    let squares = BitBoard(mask).iter();
    let ghost n = squares@.len();
    proof {
        lemma_iter_len(squares@, mask);
    }
    let variations = compute_powerset(&squares);
    let ghost ps = powerset_seq(idxs(squares@));
    let mut values: Vec<BitBoard> = Vec::new();
    let mut k: usize = 0;
    while k < variations.len()
        invariant
            k <= variations@.len(),
            values@.len() == k,
            forall|s: Square, b: BitBoard| f.requires((s, b)),
            forall|a: int| 0 <= a < k ==> f.ensures((sq, variations@[a]), #[trigger] values@[a]),
        decreases variations@.len() - k,
    {
        let v = f(sq, variations[k]);
        values.push(v);
        k = k + 1;
    }
    let size = BitBoard(mask).size();
    let shift: usize = 64 - size;
    let mut attempt: usize = 1;
    let ghost mut tried: Seq<u64> = Seq::empty();
    while attempt <= MAGIC_TRIES
        invariant
            1 <= attempt <= MAGIC_TRIES + 1,
            tried.len() == attempt - 1,
            forall|i: int| 0 <= i < tried.len() ==> !magic_valid(*f, sq, mask, #[trigger] tried[i]),
            values@.len() == variations@.len(),
            variations@.len() == vstd::arithmetic::power2::pow2(n),
            n == bits(mask).len(),
            1 <= n < 64,
            shift == 64 - n,
            views(variations@) == ps,
            ps == powerset_seq(idxs(squares@)),
            idxs(squares@).to_set() == bits(mask),
            forall|a: int|
                0 <= a < values@.len() ==> f.ensures((sq, variations@[a]), #[trigger] values@[a]),
            forall|s: Square, b: BitBoard, x: BitBoard, y: BitBoard|
                #![trigger f.ensures((s, b), x), f.ensures((s, b), y)]
                f.ensures((s, b), x) && f.ensures((s, b), y) ==> x == y,
        decreases MAGIC_TRIES + 1 - attempt,
    {
        let magic = gen_magic_candidate();
        proof {
            assert forall|a: int| 0 <= a < variations@.len() implies magic_index(
                #[trigger] variations@[a].0,
                magic,
                shift,
            ) < variations@.len() by {
                lemma_index_bound(vstd::wrapping::u64_specs::wrapping_mul(variations@[a].0, magic), n);
            }
        }
        let ghost before = tried;
        proof {
            tried = tried.push(magic);
        }
        if magic_consistent(&variations, &values, magic, shift) {
            proof {
                lemma_magic_from_consistency(f, sq, mask, magic, squares@, variations@, values@);
                assert(tried.drop_last() == before);
            }
            if attempt == MAGIC_TRIES {
                return (MagicSearch::LastTry(magic), Ghost(tried));
            }
            return (MagicSearch::Found(magic), Ghost(tried));
        }
        proof {
            lemma_magic_invalid_from_conflict(f, sq, mask, magic, squares@, variations@, values@);
        }
        attempt = attempt + 1;
    }
    (MagicSearch::Exhausted, Ghost(tried))
}

/// The squares of a bitboard, in increasing order, are as many as its bits.
proof fn lemma_iter_len(squares: Seq<Square>, mask: u64)
    requires
        increasing(idxs(squares)),
        idxs(squares).to_set() == bits(mask),
    ensures
        squares.len() == bits(mask).len(),
{
    let s = idxs(squares);
    assert(s.no_duplicates()) by {
        assert forall|a: int, b: int| 0 <= a < s.len() && 0 <= b < s.len() && a != b implies s[a]
            != s[b] by {
            if a < b {
                assert(s[a] < s[b]);
            } else {
                assert(s[b] < s[a]);
            }
        }
    }
    s.unique_seq_to_set();
}

/// A magic number that sends two variations with different values to one
/// index is not valid.
proof fn lemma_magic_invalid_from_conflict<F: Fn(Square, BitBoard) -> BitBoard>(
    f: &F,
    sq: Square,
    mask: u64,
    magic: u64,
    squares: Seq<Square>,
    variations: Seq<BitBoard>,
    values: Seq<BitBoard>,
)
    requires
        idxs(squares).to_set() == bits(mask),
        views(variations) == powerset_seq(idxs(squares)),
        values.len() == variations.len(),
        1 <= bits(mask).len() < 64,
        forall|a: int| 0 <= a < values.len() ==> f.ensures((sq, variations[a]), #[trigger] values[a]),
        !consistent_upto(
            variations,
            values,
            magic,
            (64 - bits(mask).len()) as usize,
            variations.len() as int,
        ),
    ensures
        !magic_valid(*f, sq, mask, magic),
{
    let shift = (64 - bits(mask).len()) as usize;
    lemma_powerset_complete(idxs(squares));
    let (a, b) = choose|a: int, b: int|
        0 <= a < variations.len() && 0 <= b < variations.len() && magic_index(
            variations[a].0,
            magic,
            shift,
        ) == magic_index(variations[b].0, magic, shift) && values[a] != values[b];
    let ps = powerset_seq(idxs(squares));
    assert(views(variations)[a] == variations[a]@);
    assert(views(variations)[b] == variations[b]@);
    assert(ps[a].subset_of(idxs(squares).to_set()));
    assert(ps[b].subset_of(idxs(squares).to_set()));
    assert(bits(variations[a].0).subset_of(bits(mask)));
    assert(bits(variations[b].0).subset_of(bits(mask)));
    assert(variations[a] == BitBoard(variations[a].0));
    assert(variations[b] == BitBoard(variations[b].0));
    assert(f.ensures((sq, BitBoard(variations[a].0)), values[a]));
    assert(f.ensures((sq, BitBoard(variations[b].0)), values[b]));
}

/// A magic number consistent over all variations is valid.
proof fn lemma_magic_from_consistency<F: Fn(Square, BitBoard) -> BitBoard>(
    f: &F,
    sq: Square,
    mask: u64,
    magic: u64,
    squares: Seq<Square>,
    variations: Seq<BitBoard>,
    values: Seq<BitBoard>,
)
    requires
        idxs(squares).to_set() == bits(mask),
        views(variations) == powerset_seq(idxs(squares)),
        values.len() == variations.len(),
        1 <= bits(mask).len() < 64,
        forall|a: int| 0 <= a < values.len() ==> f.ensures((sq, variations[a]), #[trigger] values[a]),
        consistent_upto(
            variations,
            values,
            magic,
            (64 - bits(mask).len()) as usize,
            variations.len() as int,
        ),
        forall|s: Square, b: BitBoard, x: BitBoard, y: BitBoard|
            #![trigger f.ensures((s, b), x), f.ensures((s, b), y)]
            f.ensures((s, b), x) && f.ensures((s, b), y) ==> x == y,
    ensures
        magic_valid(*f, sq, mask, magic),
{
    let shift = (64 - bits(mask).len()) as usize;
    lemma_powerset_complete(idxs(squares));
    assert forall|a: u64, b: u64, x: BitBoard, y: BitBoard|
        bits(a).subset_of(bits(mask)) && bits(b).subset_of(bits(mask)) && magic_index(a, magic, shift)
            == magic_index(b, magic, shift) && #[trigger] f.ensures((sq, BitBoard(a)), x)
            && #[trigger] f.ensures((sq, BitBoard(b)), y) implies x == y by {
        let ps = powerset_seq(idxs(squares));
        assert(ps.contains(bits(a)));
        assert(ps.contains(bits(b)));
        let i = choose|i: int| 0 <= i < ps.len() && ps[i] == bits(a);
        let j = choose|j: int| 0 <= j < ps.len() && ps[j] == bits(b);
        assert(views(variations)[i] == variations[i]@);
        assert(views(variations)[j] == variations[j]@);
        lemma_bits_ext(variations[i].0, a);
        lemma_bits_ext(variations[j].0, b);
        assert(variations[i] == BitBoard(a));
        assert(variations[j] == BitBoard(b));
        assert(f.ensures((sq, variations[i]), values[i]));
        assert(f.ensures((sq, variations[j]), values[j]));
        assert(magic_index(variations[i].0, magic, shift) == magic_index(variations[j].0, magic, shift));
    }
}

/// The numbers of the searches that found one before their last try, in
/// order of the squares.
pub open spec fn found_numbers(outs: Seq<MagicSearch>) -> Seq<u64>
    decreases outs.len(),
{
    if outs.len() == 0 {
        Seq::empty()
    } else {
        let rest = found_numbers(outs.drop_last());
        match outs.last() {
            MagicSearch::Found(m) => rest.push(m),
            _ => rest,
        }
    }
}

/// What the searches of the squares give together: nothing when a number
/// turned up only at the last try of some square, else the numbers found.
pub open spec fn assembled(outs: Seq<MagicSearch>) -> Option<Seq<u64>> {
    if exists|k: int| 0 <= k < outs.len() && #[trigger] outs[k] is LastTry {
        None
    } else {
        Some(found_numbers(outs))
    }
}

/// A vector of numbers, if any, by its view.
pub open spec fn opt_view(r: Option<Vec<u64>>) -> Option<Seq<u64>> {
    match r {
        Some(v) => Some(v@),
        None => None,
    }
}

/// Gathers the numbers found for the squares in order, skipping the
/// squares whose tries were all used up: nothing when the number of some
/// square turned up only at its last try.
pub fn assemble_magics(outs: &Vec<MagicSearch>) -> (r: Option<Vec<u64>>)
    ensures
        opt_view(r) == assembled(outs@),
{
    let mut v: Vec<u64> = Vec::new();
    let mut i: usize = 0;
    while i < outs.len()
        invariant
            i <= outs@.len(),
            v@ == found_numbers(outs@.take(i as int)),
            forall|k: int| 0 <= k < i ==> !(#[trigger] outs@[k] is LastTry),
        decreases outs@.len() - i,
    {
        proof {
            assert(outs@.take(i + 1).drop_last() =~= outs@.take(i as int));
            assert(outs@.take(i + 1).last() == outs@[i as int]);
        }
        match outs[i] {
            MagicSearch::Found(m) => v.push(m),
            MagicSearch::LastTry(_) => {
                proof {
                    assert(outs@[i as int] is LastTry);
                }
                return None;
            },
            MagicSearch::Exhausted => {},
        }
        i = i + 1;
    }
    proof {
        assert(outs@.take(outs@.len() as int) =~= outs@);
    }
    Some(v)
}

/// A run of the searches over the masks: one search for each square in
/// index order, as the record of its tries describes it, stopping early
/// only after a number that turned up at the last try; `res` is what the
/// searches give together.
pub open spec fn magic_run<F: Fn(Square, BitBoard) -> BitBoard>(
    f: F,
    masks: Seq<u64>,
    outs: Seq<MagicSearch>,
    tried: Seq<Seq<u64>>,
    res: Option<Seq<u64>>,
) -> bool {
    let n = if masks.len() < 64 {
        masks.len() as int
    } else {
        64
    };
    &&& outs.len() == tried.len()
    &&& outs.len() <= n
    &&& forall|j: int|
        0 <= j < outs.len() ==> search_record(f, square_at(j), masks[j], #[trigger] outs[j], tried[j])
    &&& forall|j: int| 0 <= j < outs.len() - 1 ==> !(#[trigger] outs[j] is LastTry)
    &&& outs.len() < n ==> outs.len() > 0 && outs.last() is LastTry
    &&& res == assembled(outs)
}

/// The squares whose searches found a number before their last try.
pub open spec fn found_squares(outs: Seq<MagicSearch>) -> Seq<int>
    decreases outs.len(),
{
    if outs.len() == 0 {
        Seq::empty()
    } else {
        let rest = found_squares(outs.drop_last());
        match outs.last() {
            MagicSearch::Found(_) => rest.push(outs.len() - 1),
            _ => rest,
        }
    }
}

/// The searches found their numbers for increasing squares, each valid
/// for its square and mask.
proof fn lemma_found_valid<F: Fn(Square, BitBoard) -> BitBoard>(
    f: F,
    masks: Seq<u64>,
    outs: Seq<MagicSearch>,
    tried: Seq<Seq<u64>>,
)
    requires
        outs.len() <= tried.len(),
        outs.len() <= masks.len(),
        outs.len() <= 64,
        forall|j: int|
            0 <= j < outs.len() ==> search_record(f, square_at(j), masks[j], #[trigger] outs[j], tried[j]),
    ensures
        magic_squares(found_squares(outs), found_numbers(outs), masks, f),
        forall|j: int| 0 <= j < found_squares(outs).len() ==> #[trigger] found_squares(outs)[j] < outs.len(),
    decreases outs.len(),
{
    if outs.len() > 0 {
        let d = outs.drop_last();
        assert forall|j: int| 0 <= j < d.len() implies search_record(
            f,
            square_at(j),
            masks[j],
            #[trigger] d[j],
            tried[j],
        ) by {
            assert(d[j] == outs[j]);
        }
        lemma_found_valid(f, masks, d, tried);
        let last = outs.len() - 1;
        assert(search_record(f, square_at(last), masks[last], outs[last], tried[last]));
    }
}

/// In every run of the searches that gives numbers, the numbers belong in
/// order to increasing squares, each valid for its square and mask.
pub proof fn lemma_run_valid<F: Fn(Square, BitBoard) -> BitBoard>(
    f: F,
    masks: Seq<u64>,
    outs: Seq<MagicSearch>,
    tried: Seq<Seq<u64>>,
    magics: Seq<u64>,
)
    requires
        magic_run(f, masks, outs, tried, Some(magics)),
    ensures
        magic_squares(found_squares(outs), magics, masks, f),
{
    lemma_found_valid(f, masks, outs, tried);
}

/// Use brute force trial and error to compute a valid set of magic numbers,
/// for the squares in index order with their occupancy masks. A magic
/// number for a square is valid if it causes no conflicting collisions
/// among the occupancy variations, that is no two variations which map to
/// the same index but have different control sets. Each square is given
/// up to `MAGIC_TRIES` random candidates: a square none of whose tries is
/// valid gets no number, and the numbers of the other squares follow in
/// order. `None` when a valid number turned up only at the very last try
/// of some square, which is treated as a failure to generate the numbers.
pub fn compute_magic_numbers<F: Fn(Square, BitBoard) -> BitBoard>(masks: Vec<u64>, f: F) -> (r:
    Option<Vec<u64>>)
    requires
        forall|k: int| 0 <= k < masks@.len() && k < 64 ==> 1 <= #[trigger] bits(masks@[k]).len() < 64,
        forall|s: Square, b: BitBoard| f.requires((s, b)),
        forall|s: Square, b: BitBoard, x: BitBoard, y: BitBoard|
            #![trigger f.ensures((s, b), x), f.ensures((s, b), y)]
            f.ensures((s, b), x) && f.ensures((s, b), y) ==> x == y,
    ensures
        exists|outs: Seq<MagicSearch>, tried: Seq<Seq<u64>>|
            #[trigger] magic_run(f, masks@, outs, tried, opt_view(r)),
{
    let n = if masks.len() < 64 {
        masks.len()
    } else {
        64
    };
    let mut outs: Vec<MagicSearch> = Vec::new();
    let ghost mut tried: Seq<Seq<u64>> = Seq::empty();
    let mut k: usize = 0;
    while k < n
        invariant_except_break
            forall|j: int| 0 <= j < outs@.len() ==> !(#[trigger] outs@[j] is LastTry),
        invariant
            k <= n,
            n <= 64,
            n == (if masks@.len() < 64 {
                masks@.len() as int
            } else {
                64
            }),
            outs@.len() == k,
            tried.len() == k,
            forall|j: int| 0 <= j < masks@.len() && j < 64 ==> 1 <= #[trigger] bits(masks@[j]).len() < 64,
            forall|s: Square, b: BitBoard| f.requires((s, b)),
            forall|s: Square, b: BitBoard, x: BitBoard, y: BitBoard|
                #![trigger f.ensures((s, b), x), f.ensures((s, b), y)]
                f.ensures((s, b), x) && f.ensures((s, b), y) ==> x == y,
            forall|j: int|
                0 <= j < k ==> search_record(f, square_at(j), masks@[j], #[trigger] outs@[j], tried[j]),
        ensures
            k <= n,
            outs@.len() == k,
            tried.len() == k,
            forall|j: int|
                0 <= j < k ==> search_record(f, square_at(j), masks@[j], #[trigger] outs@[j], tried[j]),
            forall|j: int| 0 <= j < outs@.len() - 1 ==> !(#[trigger] outs@[j] is LastTry),
            k < n ==> k > 0 && outs@.last() is LastTry,
        decreases n - k,
    {
        let sq = Square::from_index(k);
        let (o, Ghost(t)) = find_magic(&f, sq, masks[k]);
        let last = match o {
            MagicSearch::LastTry(_) => true,
            _ => false,
        };
        outs.push(o);
        proof {
            tried = tried.push(t);
        }
        k = k + 1;
        if last {
            break;
        }
    }
    let r = assemble_magics(&outs);
    assert(magic_run(f, masks@, outs@, tried, opt_view(r)));
    r
}

} // verus!
