use vstd::prelude::*;

use crate::base::bitboard::{bit, bits, lemma_bits_ops, lemma_bits_single, BitBoard};
use crate::base::square::{Square, next_idx, ray, room, square_at, lemma_square_idx, lemma_square_at};
use crate::base::types::Dir;

verus! {

broadcast use lemma_square_idx, lemma_square_at;

/// The squares a sliding piece on `i` reaches in direction `d` when the
/// squares of `occ` are occupied: the ray up to and including the first
/// occupied square.
pub open spec fn slide(i: int, d: Dir, occ: u64) -> Seq<int>
    decreases room(i, d),
{
    if 0 <= i < 64 {
        match next_idx(i, d) {
            Some(j) => if bit(occ, j) {
                seq![j]
            } else {
                seq![j] + slide(j, d, occ)
            },
            None => Seq::empty(),
        }
    } else {
        Seq::empty()
    }
}

/// The union of the slides from `i` in each of the given directions.
pub open spec fn slides_union(i: int, dirs: Seq<Dir>, occ: u64) -> Set<int>
    decreases dirs.len(),
{
    if dirs.len() == 0 {
        Set::empty()
    } else {
        slides_union(i, dirs.drop_last(), occ).union(slide(i, dirs.last(), occ).to_set())
    }
}

/// The directions of a bishop.
pub open spec fn bishop_dirs() -> Seq<Dir> {
    seq![Dir::NE, Dir::SE, Dir::SW, Dir::NW]
}

/// The directions of a rook.
pub open spec fn rook_dirs() -> Seq<Dir> {
    seq![Dir::N, Dir::E, Dir::S, Dir::W]
}

/// The squares reached sliding from `loc` in direction `dir` over the
/// occupied squares `occupied`.
pub fn slide_dir(loc: Square, dir: Dir, occupied: BitBoard) -> (r: BitBoard)
    ensures
        r@ == slide(loc.idx(), dir, occupied.0).to_set(),
{
    let mut acc = BitBoard::empty();
    let mut cur = loc;
    let ghost mut done: Seq<int> = Seq::empty();
    assert(acc@ =~= done.to_set());
    assert(slide(loc.idx(), dir, occupied.0) =~= done + slide(cur.idx(), dir, occupied.0));
    loop
        invariant_except_break
            slide(loc.idx(), dir, occupied.0) == done + slide(cur.idx(), dir, occupied.0),
            acc@ == done.to_set(),
        ensures
            acc@ == slide(loc.idx(), dir, occupied.0).to_set(),
        decreases room(cur.idx(), dir),
    {
        match cur.next(dir) {
            None => {
                assert(slide(cur.idx(), dir, occupied.0) =~= Seq::<int>::empty());
                assert(done + Seq::<int>::empty() =~= done);
                break ;
            },
            Some(n) => {
                let l = n.lift();
                proof {
                    lemma_bits_ops(acc.0, l.0);
                    done.lemma_push_to_set_commute(n.idx());
                }
                acc = acc | l;
                assert(acc@ =~= done.push(n.idx()).to_set());
                if occupied.contains(n) {
                    assert(slide(cur.idx(), dir, occupied.0) == seq![n.idx()]);
                    assert(done + seq![n.idx()] =~= done.push(n.idx()));
                    break ;
                }
                assert(slide(cur.idx(), dir, occupied.0) == seq![n.idx()] + slide(
                    n.idx(),
                    dir,
                    occupied.0,
                ));
                assert(done + (seq![n.idx()] + slide(n.idx(), dir, occupied.0)) =~= done.push(
                    n.idx(),
                ) + slide(n.idx(), dir, occupied.0));
                proof {
                    done = done.push(n.idx());
                }
                cur = n;
            },
        }
    }
    acc
}

/// The union of the slides from `loc` in each of the given directions.
pub fn sliding_control(loc: Square, dirs: &Vec<Dir>, occupied: BitBoard) -> (r: BitBoard)
    ensures
        r@ == slides_union(loc.idx(), dirs@, occupied.0),
{
    let mut acc = BitBoard::empty();
    let mut k: usize = 0;
    while k < dirs.len()
        invariant
            k <= dirs@.len(),
            acc@ == slides_union(loc.idx(), dirs@.take(k as int), occupied.0),
        decreases dirs@.len() - k,
    {
        let part = slide_dir(loc, dirs[k], occupied);
        proof {
            lemma_bits_ops(acc.0, part.0);
            assert(dirs@.take(k + 1).drop_last() =~= dirs@.take(k as int));
        }
        acc = acc | part;
        k = k + 1;
    }
    assert(dirs@.take(dirs@.len() as int) =~= dirs@);
    acc
}

/// The control set of a rook on `loc` given the occupied squares.
pub fn rook_control(loc: Square, occupied: BitBoard) -> (r: BitBoard)
    ensures
        r@ == slides_union(loc.idx(), rook_dirs(), occupied.0),
{
    let dirs = vec![Dir::N, Dir::E, Dir::S, Dir::W];
    assert(dirs@ == rook_dirs());
    sliding_control(loc, &dirs, occupied)
}

/// A slide over an empty board is the whole ray.
pub proof fn lemma_slide_empty(i: int, d: Dir)
    ensures
        slide(i, d, 0) == ray(i, d),
    decreases room(i, d),
{
    if 0 <= i < 64 {
        if let Some(j) = next_idx(i, d) {
            lemma_bits_ops(0, 0);
            assert(!bits(0u64).contains(j));
            lemma_slide_empty(j, d);
        }
    }
}

/// A slide only reaches squares of its ray.
pub proof fn lemma_slide_within(i: int, d: Dir, occ: u64)
    ensures
        slide(i, d, occ).to_set().subset_of(ray(i, d).to_set()),
    decreases room(i, d),
{
    if 0 <= i < 64 {
        if let Some(j) = next_idx(i, d) {
            lemma_slide_within(j, d, occ);
            let r = ray(i, d);
            assert(r == seq![j] + ray(j, d));
            assert forall|x: int| slide(i, d, occ).to_set().contains(x) implies r.to_set().contains(x) by {
                if x == j {
                    assert(r[0] == j);
                } else {
                    assert(!bit(occ, j));
                    let sl = slide(j, d, occ);
                    assert(slide(i, d, occ) == seq![j] + sl);
                    let k = choose|k: int| 0 <= k < slide(i, d, occ).len() && slide(i, d, occ)[k] == x;
                    assert(sl[k - 1] == x);
                    assert(sl.to_set().contains(x));
                    assert(ray(j, d).to_set().contains(x));
                    let m = choose|m: int| 0 <= m < ray(j, d).len() && ray(j, d)[m] == x;
                    assert(r[m + 1] == x);
                }
            }
        }
    }
}

/// A slide depends only on which squares of its ray are occupied.
pub proof fn lemma_slide_agree(i: int, d: Dir, occ1: u64, occ2: u64)
    requires
        forall|j: int| ray(i, d).contains(j) ==> bit(occ1, j) == bit(occ2, j),
    ensures
        slide(i, d, occ1) == slide(i, d, occ2),
    decreases room(i, d),
{
    if 0 <= i < 64 {
        if let Some(j) = next_idx(i, d) {
            let r = ray(i, d);
            assert(r == seq![j] + ray(j, d));
            assert(r[0] == j);
            assert forall|x: int| ray(j, d).contains(x) implies bit(occ1, x) == bit(occ2, x) by {
                let m = choose|m: int| 0 <= m < ray(j, d).len() && ray(j, d)[m] == x;
                assert(r[m + 1] == x);
            }
            lemma_slide_agree(j, d, occ1, occ2);
        }
    }
}

/// The squares reached sliding over blockers are among those reached on
/// an empty board.
pub proof fn lemma_slides_union_within(i: int, dirs: Seq<Dir>, occ: u64)
    ensures
        slides_union(i, dirs, occ).subset_of(slides_union(i, dirs, 0)),
    decreases dirs.len(),
{
    if dirs.len() > 0 {
        lemma_slides_union_within(i, dirs.drop_last(), occ);
        lemma_slide_within(i, dirs.last(), occ);
        lemma_slide_empty(i, dirs.last());
    }
}

/// Sliding depends only on which squares reached on an empty board are
/// occupied.
pub proof fn lemma_slides_union_agree(i: int, dirs: Seq<Dir>, occ1: u64, occ2: u64)
    requires
        forall|j: int| slides_union(i, dirs, 0).contains(j) ==> bit(occ1, j) == bit(occ2, j),
    ensures
        slides_union(i, dirs, occ1) == slides_union(i, dirs, occ2),
    decreases dirs.len(),
{
    if dirs.len() > 0 {
        lemma_slide_empty(i, dirs.last());
        lemma_slides_union_agree(i, dirs.drop_last(), occ1, occ2);
        lemma_slide_agree(i, dirs.last(), occ1, occ2);
    }
}

} // verus!
