use vstd::prelude::*;

use crate::base::bitboard::{bit, cord_dirs, cord_set, take_until};
use crate::base::flip::{lemma_cord_dirs, lemma_cord_from_found, line_dir};
use crate::base::pieces::{control_set, lemma_ray_excludes, Piece};
use crate::base::sliding::{
    bishop_dirs, lemma_slide_within, rook_dirs, slide, slides_union,
};
use crate::base::square::{next_idx, ray, room};
use crate::base::types::Dir;
use crate::brain::see::can_xray;

verus! {

/// The squares strictly between two squares of one line.
pub open spec fn between(s: int, t: int) -> Set<int> {
    cord_set(s, t).remove(s).remove(t)
}

/// The part of a sequence before an element lies in the sequence and does
/// not hold that element.
proof fn lemma_take_until_within(r: Seq<int>, t: int)
    ensures
        forall|q: int| #[trigger] take_until(r, t).contains(q) ==> r.contains(q) && q != t,
    decreases r.len(),
{
    if r.len() > 0 && r[0] != t {
        lemma_take_until_within(r.drop_first(), t);
        let tu = take_until(r, t);
        assert(tu == seq![r[0]] + take_until(r.drop_first(), t));
        assert forall|q: int| #[trigger] tu.contains(q) implies r.contains(q) && q != t by {
            let k = choose|k: int| 0 <= k < tu.len() && tu[k] == q;
            if k > 0 {
                assert(take_until(r.drop_first(), t)[k - 1] == q);
                assert(take_until(r.drop_first(), t).contains(q));
                let m = choose|m: int| 0 <= m < r.drop_first().len() && r.drop_first()[m] == q;
                assert(r[m + 1] == q);
            } else {
                assert(r[0] == q);
            }
        }
    }
}

/// A slide reaches a square of its ray exactly when no square before it
/// on the ray is occupied.
proof fn lemma_slide_reaches(i: int, d: Dir, t: int, w: u64)
    requires
        ray(i, d).contains(t),
    ensures
        slide(i, d, w).contains(t) <==> (forall|q: int| #[trigger] take_until(ray(i, d), t).contains(q)
            ==> !bit(w, q)),
    decreases room(i, d),
{
    let r = ray(i, d);
    assert(0 <= i < 64) by {
        if !(0 <= i < 64) {
            assert(r.len() == 0);
        }
    }
    let j = next_idx(i, d)->0;
    assert(next_idx(i, d) is Some) by {
        if next_idx(i, d) is None {
            assert(r.len() == 0);
        }
    }
    assert(r == seq![j] + ray(j, d));
    let tu = take_until(r, t);
    if j == t {
        assert(r[0] == t);
        assert(tu =~= Seq::<int>::empty());
        if bit(w, j) {
            assert(slide(i, d, w) == seq![j]);
            assert(slide(i, d, w)[0] == t);
        } else {
            assert(slide(i, d, w) == seq![j] + slide(j, d, w));
            assert(slide(i, d, w)[0] == t);
        }
    } else {
        assert(ray(j, d).contains(t)) by {
            let k = choose|k: int| 0 <= k < r.len() && r[k] == t;
            assert(k > 0);
            assert(ray(j, d)[k - 1] == t);
        }
        assert(r.drop_first() =~= ray(j, d));
        assert(tu == seq![j] + take_until(ray(j, d), t));
        assert(tu.contains(j)) by {
            assert(tu[0] == j);
        }
        lemma_slide_reaches(j, d, t, w);
        if bit(w, j) {
            assert(slide(i, d, w) == seq![j]);
            assert(!slide(i, d, w).contains(t)) by {
                if slide(i, d, w).contains(t) {
                    let k = choose|k: int| 0 <= k < slide(i, d, w).len() && slide(i, d, w)[k] == t;
                    assert(k == 0);
                }
            }
        } else {
            let sj = slide(j, d, w);
            assert(slide(i, d, w) == seq![j] + sj);
            assert(slide(i, d, w).contains(t) <==> sj.contains(t)) by {
                if slide(i, d, w).contains(t) {
                    let k = choose|k: int| 0 <= k < slide(i, d, w).len() && slide(i, d, w)[k] == t;
                    assert(k > 0);
                    assert(sj[k - 1] == t);
                }
                if sj.contains(t) {
                    let k = choose|k: int| 0 <= k < sj.len() && sj[k] == t;
                    assert(slide(i, d, w)[k + 1] == t);
                }
            }
            assert((forall|q: int| #[trigger] tu.contains(q) ==> !bit(w, q)) <==> (forall|q: int|
                #[trigger] take_until(ray(j, d), t).contains(q) ==> !bit(w, q))) by {
                if forall|q: int| #[trigger] take_until(ray(j, d), t).contains(q) ==> !bit(w, q) {
                    assert forall|q: int| #[trigger] tu.contains(q) implies !bit(w, q) by {
                        let k = choose|k: int| 0 <= k < tu.len() && tu[k] == q;
                        if k > 0 {
                            assert(take_until(ray(j, d), t)[k - 1] == q);
                            assert(take_until(ray(j, d), t).contains(q));
                        }
                    }
                }
                if forall|q: int| #[trigger] tu.contains(q) ==> !bit(w, q) {
                    assert forall|q: int| #[trigger] take_until(ray(j, d), t).contains(q) implies !bit(
                        w,
                        q,
                    ) by {
                        let k = choose|k: int|
                            0 <= k < take_until(ray(j, d), t).len() && take_until(ray(j, d), t)[k] == q;
                        assert(tu[k + 1] == q);
                        assert(tu.contains(q));
                    }
                }
            }
        }
    }
}

/// A union of slides holds a square exactly when one of the slides does.
proof fn lemma_slides_union_contains(i: int, dirs: Seq<Dir>, w: u64, t: int)
    ensures
        slides_union(i, dirs, w).contains(t) <==> exists|k: int|
            0 <= k < dirs.len() && #[trigger] slide(i, dirs[k], w).contains(t),
    decreases dirs.len(),
{
    if dirs.len() > 0 {
        let d = dirs.drop_last();
        lemma_slides_union_contains(i, d, w, t);
        if exists|k: int| 0 <= k < d.len() && #[trigger] slide(i, d[k], w).contains(t) {
            let k = choose|k: int| 0 <= k < d.len() && #[trigger] slide(i, d[k], w).contains(t);
            assert(dirs[k] == d[k]);
        }
        if exists|k: int| 0 <= k < dirs.len() && #[trigger] slide(i, dirs[k], w).contains(t) {
            let k = choose|k: int| 0 <= k < dirs.len() && #[trigger] slide(i, dirs[k], w).contains(t);
            if k < dirs.len() - 1 {
                assert(d[k] == dirs[k]);
            } else {
                assert(slide(i, dirs.last(), w).to_set().contains(t));
            }
        }
    }
}

/// Whether the slides along some lines reach a square depends only on
/// the squares strictly between.
proof fn lemma_slides_reach_between(s: int, dirs: Seq<Dir>, t: int, w1: u64, w2: u64)
    requires
        0 <= s < 64,
        forall|k: int| 0 <= k < dirs.len() ==> line_dir(#[trigger] dirs[k]),
        forall|q: int| #[trigger] between(s, t).contains(q) ==> bit(w1, q) == bit(w2, q),
    ensures
        slides_union(s, dirs, w1).contains(t) == slides_union(s, dirs, w2).contains(t),
{
    lemma_slides_union_contains(s, dirs, w1, t);
    lemma_slides_union_contains(s, dirs, w2, t);
    lemma_cord_dirs();
    assert forall|k: int| 0 <= k < dirs.len() && #[trigger] slide(s, dirs[k], w1).contains(t) implies slide(
        s,
        dirs[k],
        w2,
    ).contains(t) by {
        lemma_reach_one(s, dirs[k], t, w1, w2);
    }
    assert forall|k: int| 0 <= k < dirs.len() && #[trigger] slide(s, dirs[k], w2).contains(t) implies slide(
        s,
        dirs[k],
        w1,
    ).contains(t) by {
        lemma_reach_one(s, dirs[k], t, w2, w1);
    }
}

/// One slide along a line reaches a square the same way over two boards
/// that agree strictly between.
proof fn lemma_reach_one(s: int, d: Dir, t: int, w1: u64, w2: u64)
    requires
        0 <= s < 64,
        line_dir(d),
        forall|q: int| #[trigger] between(s, t).contains(q) ==> bit(w1, q) == bit(w2, q),
        slide(s, d, w1).contains(t),
    ensures
        slide(s, d, w2).contains(t),
{
    lemma_slide_within(s, d, w1);
    assert(slide(s, d, w1).to_set().contains(t));
    assert(ray(s, d).contains(t));
    lemma_cord_dirs();
    assert(cord_dirs().contains(d)) by {
        let cd = cord_dirs();
        if d == Dir::N { assert(cd[0] == d); }
        else if d == Dir::NE { assert(cd[1] == d); }
        else if d == Dir::E { assert(cd[2] == d); }
        else if d == Dir::SE { assert(cd[3] == d); }
        else if d == Dir::S { assert(cd[4] == d); }
        else if d == Dir::SW { assert(cd[5] == d); }
        else if d == Dir::W { assert(cd[6] == d); }
        else { assert(cd[7] == d); }
    }
    lemma_cord_from_found(s, t, cord_dirs(), d);
    let tu = take_until(ray(s, d), t);
    lemma_take_until_within(ray(s, d), t);
    lemma_ray_excludes(s, d);
    lemma_slide_reaches(s, d, t, w1);
    lemma_slide_reaches(s, d, t, w2);
    assert forall|q: int| #[trigger] tu.contains(q) implies !bit(w2, q) by {
        assert(q != t);
        assert(ray(s, d).contains(q));
        assert(q != s);
        assert(tu.to_set().contains(q));
        assert(between(s, t).contains(q));
    }
}

/// Whether a slider reaches a square it would reach on an empty board
/// depends only on which squares strictly between are occupied.
pub proof fn lemma_reach_between(p: Piece, s: int, t: int, w1: u64, w2: u64)
    requires
        0 <= s < 64,
        can_xray(p.1),
        forall|q: int| #[trigger] between(s, t).contains(q) ==> bit(w1, q) == bit(w2, q),
    ensures
        control_set(p, s, w1).contains(t) == control_set(p, s, w2).contains(t),
{
    assert forall|k: int| 0 <= k < bishop_dirs().len() implies line_dir(#[trigger] bishop_dirs()[k]) by {
    }
    assert forall|k: int| 0 <= k < rook_dirs().len() implies line_dir(#[trigger] rook_dirs()[k]) by {
    }
    lemma_slides_reach_between(s, bishop_dirs(), t, w1, w2);
    lemma_slides_reach_between(s, rook_dirs(), t, w1, w2);
}

} // verus!
