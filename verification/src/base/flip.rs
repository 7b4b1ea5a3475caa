use vstd::prelude::*;

use crate::base::bitboard::{bit, bits, cord_dirs, cord_from, cord_set, lemma_bits_ops, take_until};
use crate::base::reflect::{lemma_mirror_bits, lemma_reflect_idx, mirror_word, reflect_idx, reflect_set};
use crate::base::pieces::{control_set, king_dirs, knight_dirs, pawn_attack_dirs, Class, Piece};
use crate::base::sliding::{bishop_dirs, rook_dirs, slide, slides_union};
use crate::base::square::{file_of, lemma_ray_on_board, next_idx, rank_of, ray, room, steps_union};
use crate::base::types::{Dir, Side};

verus! {

/// The direction seen in the mirror across the middle of the board:
/// north and south swap, east and west stay.
pub open spec fn vflip(d: Dir) -> Dir {
    match d {
        Dir::N => Dir::S,
        Dir::E => Dir::E,
        Dir::S => Dir::N,
        Dir::W => Dir::W,
        Dir::NE => Dir::SE,
        Dir::SE => Dir::NE,
        Dir::SW => Dir::NW,
        Dir::NW => Dir::SW,
        Dir::NNE => Dir::SSE,
        Dir::NEE => Dir::SEE,
        Dir::SEE => Dir::NEE,
        Dir::SSE => Dir::NNE,
        Dir::SSW => Dir::NNW,
        Dir::SWW => Dir::NWW,
        Dir::NWW => Dir::SWW,
        Dir::NNW => Dir::SSW,
    }
}

/// Flipping a direction negates its rank step, keeps its file step, and
/// flipping twice gives it back.
pub proof fn lemma_vflip(d: Dir)
    ensures
        vflip(d).dr() == -d.dr(),
        vflip(d).df() == d.df(),
        vflip(vflip(d)) == d,
{
}

/// Mirroring keeps the file of a square and mirrors its rank.
pub proof fn lemma_reflect_coords(i: int)
    requires
        0 <= i < 64,
    ensures
        file_of(reflect_idx(i)) == file_of(i),
        rank_of(reflect_idx(i)) == 7 - rank_of(i),
        0 <= reflect_idx(i) < 64,
        reflect_idx(reflect_idx(i)) == i,
{
    lemma_reflect_idx(i);
}

/// One step in the flipped direction from the mirrored square lands on the
/// mirror of the square one step away.
pub proof fn lemma_next_mirror(i: int, d: Dir)
    requires
        0 <= i < 64,
    ensures
        next_idx(reflect_idx(i), vflip(d)) == (match next_idx(i, d) {
            Some(j) => Some(reflect_idx(j)),
            None => None::<int>,
        }),
        room(reflect_idx(i), vflip(d)) == room(i, d),
{
    lemma_vflip(d);
    lemma_reflect_coords(i);
}

/// The ray in the flipped direction from the mirrored square is the
/// mirror of the ray.
pub proof fn lemma_ray_mirror(i: int, d: Dir)
    requires
        0 <= i < 64,
    ensures
        ray(reflect_idx(i), vflip(d)) == ray(i, d).map_values(|j: int| reflect_idx(j)),
    decreases room(i, d),
{
    lemma_next_mirror(i, d);
    lemma_reflect_coords(i);
    match next_idx(i, d) {
        Some(j) => {
            lemma_ray_mirror(j, d);
            assert(ray(reflect_idx(i), vflip(d)) == seq![reflect_idx(j)] + ray(reflect_idx(j), vflip(d)));
            assert(ray(i, d) == seq![j] + ray(j, d));
            assert(ray(reflect_idx(i), vflip(d)) =~= ray(i, d).map_values(|j: int| reflect_idx(j)));
        },
        None => {
            assert(ray(i, d).map_values(|j: int| reflect_idx(j)) =~= Seq::<int>::empty());
        },
    }
}

/// Sliding in the flipped direction from the mirrored square over the
/// mirrored board reaches the mirrors of the squares reached.
pub proof fn lemma_slide_mirror(i: int, d: Dir, occ: u64)
    requires
        0 <= i < 64,
    ensures
        slide(reflect_idx(i), vflip(d), mirror_word(occ)) == slide(i, d, occ).map_values(
            |j: int| reflect_idx(j),
        ),
    decreases room(i, d),
{
    lemma_next_mirror(i, d);
    lemma_reflect_coords(i);
    lemma_mirror_bits(occ);
    match next_idx(i, d) {
        Some(j) => {
            lemma_reflect_coords(j);
            assert(bits(mirror_word(occ)).contains(reflect_idx(j)) == bits(occ).contains(j));
            assert(bit(mirror_word(occ), reflect_idx(j)) == bit(occ, j));
            if bit(occ, j) {
                assert(slide(i, d, occ).map_values(|j: int| reflect_idx(j)) =~= seq![reflect_idx(j)]);
            } else {
                lemma_slide_mirror(j, d, occ);
                assert(slide(reflect_idx(i), vflip(d), mirror_word(occ)) =~= slide(
                    i,
                    d,
                    occ,
                ).map_values(|j: int| reflect_idx(j)));
            }
        },
        None => {
            assert(slide(i, d, occ).map_values(|j: int| reflect_idx(j)) =~= Seq::<int>::empty());
        },
    }
}

/// A square lies in a union of slides exactly when it lies in the slide of
/// one of the directions.
pub proof fn lemma_slides_union_member(i: int, dirs: Seq<Dir>, occ: u64, x: int)
    ensures
        slides_union(i, dirs, occ).contains(x) <==> exists|k: int|
            0 <= k < dirs.len() && #[trigger] slide(i, dirs[k], occ).contains(x),
    decreases dirs.len(),
{
    if dirs.len() > 0 {
        lemma_slides_union_member(i, dirs.drop_last(), occ, x);
        if slides_union(i, dirs, occ).contains(x) {
            if slides_union(i, dirs.drop_last(), occ).contains(x) {
                let k = choose|k: int|
                    0 <= k < dirs.drop_last().len() && #[trigger] slide(
                        i,
                        dirs.drop_last()[k],
                        occ,
                    ).contains(x);
                assert(dirs[k] == dirs.drop_last()[k]);
            } else {
                assert(slide(i, dirs[dirs.len() - 1], occ).contains(x));
            }
        }
        if exists|k: int| 0 <= k < dirs.len() && #[trigger] slide(i, dirs[k], occ).contains(x) {
            let k = choose|k: int| 0 <= k < dirs.len() && #[trigger] slide(i, dirs[k], occ).contains(x);
            if k < dirs.len() - 1 {
                assert(dirs.drop_last()[k] == dirs[k]);
            }
        }
    }
}

/// A square lies in a union of steps exactly when it is one step away in
/// one of the directions.
pub proof fn lemma_steps_union_member(i: int, dirs: Seq<Dir>, x: int)
    ensures
        steps_union(i, dirs).contains(x) <==> exists|k: int|
            0 <= k < dirs.len() && #[trigger] next_idx(i, dirs[k]) == Some(x),
    decreases dirs.len(),
{
    if dirs.len() > 0 {
        lemma_steps_union_member(i, dirs.drop_last(), x);
        if steps_union(i, dirs).contains(x) {
            if steps_union(i, dirs.drop_last()).contains(x) {
                let k = choose|k: int|
                    0 <= k < dirs.drop_last().len() && #[trigger] next_idx(i, dirs.drop_last()[k])
                        == Some(x);
                assert(dirs[k] == dirs.drop_last()[k]);
            } else {
                assert(next_idx(i, dirs[dirs.len() - 1]) == Some(x));
            }
        }
        if exists|k: int| 0 <= k < dirs.len() && #[trigger] next_idx(i, dirs[k]) == Some(x) {
            let k = choose|k: int| 0 <= k < dirs.len() && #[trigger] next_idx(i, dirs[k]) == Some(x);
            if k < dirs.len() - 1 {
                assert(dirs.drop_last()[k] == dirs[k]);
            }
        }
    }
}

/// Every square a slide reaches lies on the board.
pub proof fn lemma_slide_on_board(i: int, d: Dir, occ: u64)
    ensures
        forall|k: int| 0 <= k < slide(i, d, occ).len() ==> 0 <= #[trigger] slide(i, d, occ)[k] < 64,
    decreases room(i, d),
{
    if 0 <= i < 64 {
        match next_idx(i, d) {
            Some(j) => {
                if !bit(occ, j) {
                    lemma_slide_on_board(j, d, occ);
                    assert forall|k: int| 0 <= k < slide(i, d, occ).len() implies 0 <= #[trigger] slide(
                        i,
                        d,
                        occ,
                    )[k] < 64 by {
                        if k > 0 {
                            assert(slide(i, d, occ)[k] == slide(j, d, occ)[k - 1]);
                        }
                    }
                }
            },
            None => {},
        }
    }
}

/// Whether the flips of the directions of `d1` are the directions of `d2`.
pub open spec fn flip_matched(d1: Seq<Dir>, d2: Seq<Dir>) -> bool {
    &&& forall|k: int| 0 <= k < d1.len() ==> d2.contains(vflip(#[trigger] d1[k]))
    &&& forall|k: int| 0 <= k < d2.len() ==> d1.contains(vflip(#[trigger] d2[k]))
}

/// The slides in the flipped directions from the mirrored square over the
/// mirrored board reach the mirrored squares.
pub proof fn lemma_slides_union_mirror(i: int, d1: Seq<Dir>, d2: Seq<Dir>, occ: u64)
    requires
        0 <= i < 64,
        flip_matched(d1, d2),
    ensures
        slides_union(reflect_idx(i), d2, mirror_word(occ)) == reflect_set(slides_union(i, d1, occ)),
{
    let ri = reflect_idx(i);
    let mocc = mirror_word(occ);
    lemma_reflect_coords(i);
    assert forall|x: int|
        slides_union(ri, d2, mocc).contains(x) <==> reflect_set(slides_union(i, d1, occ)).contains(
            x,
        ) by {
        lemma_slides_union_member(ri, d2, mocc, x);
        if slides_union(ri, d2, mocc).contains(x) {
            let k2 = choose|k: int| 0 <= k < d2.len() && #[trigger] slide(ri, d2[k], mocc).contains(x);
            let e = d2[k2];
            assert(d1.contains(vflip(e)));
            let k = choose|k: int| 0 <= k < d1.len() && #[trigger] d1[k] == vflip(e);
            lemma_vflip(e);
            lemma_slide_mirror(i, d1[k], occ);
            lemma_slide_on_board(i, d1[k], occ);
            let s = slide(i, d1[k], occ);
            let ms = s.map_values(|j: int| reflect_idx(j));
            assert(ms.contains(x));
            let m = choose|m: int| 0 <= m < ms.len() && #[trigger] ms[m] == x;
            assert(0 <= s[m] < 64);
            lemma_reflect_coords(s[m]);
            assert(s.contains(reflect_idx(x)));
            lemma_slides_union_member(i, d1, occ, reflect_idx(x));
        }
        if reflect_set(slides_union(i, d1, occ)).contains(x) {
            let y = reflect_idx(x);
            lemma_reflect_coords(x);
            lemma_slides_union_member(i, d1, occ, y);
            let k = choose|k: int| 0 <= k < d1.len() && #[trigger] slide(i, d1[k], occ).contains(y);
            let s = slide(i, d1[k], occ);
            let m = choose|m: int| 0 <= m < s.len() && #[trigger] s[m] == y;
            assert(d2.contains(vflip(d1[k])));
            let k2 = choose|k2: int| 0 <= k2 < d2.len() && #[trigger] d2[k2] == vflip(d1[k]);
            lemma_slide_mirror(i, d1[k], occ);
            assert(slide(ri, d2[k2], mocc)[m] == x);
            assert(slide(ri, d2[k2], mocc).contains(x));
        }
    }
    assert(slides_union(ri, d2, mocc) =~= reflect_set(slides_union(i, d1, occ)));
}

/// The steps in the flipped directions from the mirrored square reach the
/// mirrored squares.
pub proof fn lemma_steps_union_mirror(i: int, d1: Seq<Dir>, d2: Seq<Dir>)
    requires
        0 <= i < 64,
        flip_matched(d1, d2),
    ensures
        steps_union(reflect_idx(i), d2) == reflect_set(steps_union(i, d1)),
{
    let ri = reflect_idx(i);
    lemma_reflect_coords(i);
    assert forall|x: int|
        steps_union(ri, d2).contains(x) <==> reflect_set(steps_union(i, d1)).contains(x) by {
        lemma_steps_union_member(ri, d2, x);
        if steps_union(ri, d2).contains(x) {
            let k2 = choose|k: int| 0 <= k < d2.len() && #[trigger] next_idx(ri, d2[k]) == Some(x);
            let e = d2[k2];
            assert(d1.contains(vflip(e)));
            let k = choose|k: int| 0 <= k < d1.len() && #[trigger] d1[k] == vflip(e);
            lemma_vflip(e);
            lemma_next_mirror(i, d1[k]);
            let y = next_idx(i, d1[k])->0;
            lemma_reflect_coords(y);
            assert(reflect_idx(x) == y);
            lemma_steps_union_member(i, d1, y);
        }
        if reflect_set(steps_union(i, d1)).contains(x) {
            let y = reflect_idx(x);
            lemma_reflect_coords(x);
            lemma_steps_union_member(i, d1, y);
            let k = choose|k: int| 0 <= k < d1.len() && #[trigger] next_idx(i, d1[k]) == Some(y);
            assert(d2.contains(vflip(d1[k])));
            let k2 = choose|k2: int| 0 <= k2 < d2.len() && #[trigger] d2[k2] == vflip(d1[k]);
            lemma_next_mirror(i, d1[k]);
            assert(next_idx(ri, d2[k2]) == Some(x));
        }
    }
    assert(steps_union(ri, d2) =~= reflect_set(steps_union(i, d1)));
}

/// The direction sets of the pieces are closed under flipping, and the
/// flipped pawn captures are those of the other side.
pub proof fn lemma_dirs_flip_matched()
    ensures
        flip_matched(knight_dirs(), knight_dirs()),
        flip_matched(king_dirs(), king_dirs()),
        flip_matched(bishop_dirs(), bishop_dirs()),
        flip_matched(rook_dirs(), rook_dirs()),
        flip_matched(pawn_attack_dirs(Side::W), pawn_attack_dirs(Side::B)),
        flip_matched(pawn_attack_dirs(Side::B), pawn_attack_dirs(Side::W)),
{
    let n = knight_dirs();
    assert(n[0] == Dir::NNE && n[1] == Dir::NEE && n[2] == Dir::SEE && n[3] == Dir::SSE);
    assert(n[4] == Dir::SSW && n[5] == Dir::SWW && n[6] == Dir::NWW && n[7] == Dir::NNW);
    let k = king_dirs();
    assert(k[0] == Dir::N && k[1] == Dir::NE && k[2] == Dir::E && k[3] == Dir::SE);
    assert(k[4] == Dir::S && k[5] == Dir::SW && k[6] == Dir::W && k[7] == Dir::NW);
    let b = bishop_dirs();
    assert(b[0] == Dir::NE && b[1] == Dir::SE && b[2] == Dir::SW && b[3] == Dir::NW);
    let r = rook_dirs();
    assert(r[0] == Dir::N && r[1] == Dir::E && r[2] == Dir::S && r[3] == Dir::W);
    let w = pawn_attack_dirs(Side::W);
    let bl = pawn_attack_dirs(Side::B);
    assert(w[0] == Dir::NE && w[1] == Dir::NW && bl[0] == Dir::SE && bl[1] == Dir::SW);
}

/// A piece of the other side on the mirrored square, over the mirrored
/// board, controls the mirrored squares.
pub proof fn lemma_control_mirror(p: Piece, i: int, occ: u64)
    requires
        0 <= i < 64,
    ensures
        control_set(Piece(p.0.other(), p.1), reflect_idx(i), mirror_word(occ)) == reflect_set(
            control_set(p, i, occ),
        ),
{
    lemma_dirs_flip_matched();
    let ri = reflect_idx(i);
    let mocc = mirror_word(occ);
    match p.1 {
        Class::N => lemma_steps_union_mirror(i, knight_dirs(), knight_dirs()),
        Class::K => lemma_steps_union_mirror(i, king_dirs(), king_dirs()),
        Class::B => lemma_slides_union_mirror(i, bishop_dirs(), bishop_dirs(), occ),
        Class::R => lemma_slides_union_mirror(i, rook_dirs(), rook_dirs(), occ),
        Class::Q => {
            lemma_slides_union_mirror(i, bishop_dirs(), bishop_dirs(), occ);
            lemma_slides_union_mirror(i, rook_dirs(), rook_dirs(), occ);
            assert(reflect_set(slides_union(i, bishop_dirs(), occ).union(slides_union(i, rook_dirs(), occ)))
                =~= reflect_set(slides_union(i, bishop_dirs(), occ)).union(reflect_set(slides_union(i, rook_dirs(), occ))));
        },
        Class::P => lemma_steps_union_mirror(i, pawn_attack_dirs(p.0), pawn_attack_dirs(p.0.other())),
    }
}

/// Whether a direction is one a queen slides along.
pub open spec fn line_dir(d: Dir) -> bool {
    d == Dir::N || d == Dir::NE || d == Dir::E || d == Dir::SE || d == Dir::S || d == Dir::SW || d
        == Dir::W || d == Dir::NW
}

/// The square reached after `k + 1` steps along a ray is that many steps
/// away in rank and in file.
pub proof fn lemma_ray_coords(i: int, d: Dir, k: int)
    requires
        0 <= i < 64,
        0 <= k < ray(i, d).len(),
    ensures
        rank_of(ray(i, d)[k]) == rank_of(i) + (k + 1) * d.dr(),
        file_of(ray(i, d)[k]) == file_of(i) + (k + 1) * d.df(),
    decreases room(i, d),
{
    let j = next_idx(i, d)->0;
    assert(ray(i, d) == seq![j] + ray(j, d));
    if k > 0 {
        lemma_ray_coords(j, d, k - 1);
        assert(ray(i, d)[k] == ray(j, d)[k - 1]);
        let dr = d.dr();
        let df = d.df();
        assert((k + 1) * dr == k * dr + dr) by (nonlinear_arith);
        assert((k + 1) * df == k * df + df) by (nonlinear_arith);
    }
}

/// Rays from one square along two different lines never meet.
pub proof fn lemma_rays_disjoint(i: int, d1: Dir, d2: Dir, t: int)
    requires
        0 <= i < 64,
        line_dir(d1),
        line_dir(d2),
        ray(i, d1).contains(t),
        ray(i, d2).contains(t),
    ensures
        d1 == d2,
{
    let k1 = choose|k: int| 0 <= k < ray(i, d1).len() && #[trigger] ray(i, d1)[k] == t;
    let k2 = choose|k: int| 0 <= k < ray(i, d2).len() && #[trigger] ray(i, d2)[k] == t;
    lemma_ray_coords(i, d1, k1);
    lemma_ray_coords(i, d2, k2);
    let a = k1 + 1;
    let b = k2 + 1;
    let (r1, f1, r2, f2) = (d1.dr(), d1.df(), d2.dr(), d2.df());
    assert(a * r1 == b * r2);
    assert(a * f1 == b * f2);
    assert(d1 == d2) by (nonlinear_arith)
        requires
            a >= 1,
            b >= 1,
            a * r1 == b * r2,
            a * f1 == b * f2,
            -1 <= r1 <= 1,
            -1 <= f1 <= 1,
            -1 <= r2 <= 1,
            -1 <= f2 <= 1,
            r1 != 0 || f1 != 0,
            (r1 == r2 && f1 == f2) ==> d1 == d2,
    {
        if r1 != r2 {
            if r1 == 0 {
                assert(b * r2 == 0);
            } else if r2 == 0 {
                assert(a * r1 == 0);
            }
        }
        if f1 != f2 {
            if f1 == 0 {
                assert(b * f2 == 0);
            } else if f2 == 0 {
                assert(a * f1 == 0);
            }
        }
    }
}

/// Taking the mirrored ray up to the mirrored square gives the mirror of
/// the squares taken.
pub proof fn lemma_take_until_mirror(r: Seq<int>, t: int)
    requires
        forall|k: int| 0 <= k < r.len() ==> 0 <= #[trigger] r[k] < 64,
        0 <= t < 64,
    ensures
        take_until(r.map_values(|j: int| reflect_idx(j)), reflect_idx(t)) == take_until(r, t).map_values(
            |j: int| reflect_idx(j),
        ),
        forall|k: int| 0 <= k < take_until(r, t).len() ==> 0 <= #[trigger] take_until(r, t)[k] < 64,
    decreases r.len(),
{
    let rm = r.map_values(|j: int| reflect_idx(j));
    if r.len() > 0 {
        lemma_reflect_coords(r[0]);
        lemma_reflect_coords(t);
        assert(rm[0] == reflect_idx(r[0]));
        assert(rm.drop_first() =~= r.drop_first().map_values(|j: int| reflect_idx(j)));
        lemma_take_until_mirror(r.drop_first(), t);
        if r[0] == t {
            assert(take_until(r, t).map_values(|j: int| reflect_idx(j)) =~= Seq::<int>::empty());
        } else {
            assert(rm[0] != reflect_idx(t));
            let rest = take_until(r.drop_first(), t);
            assert(take_until(r, t) == seq![r[0]] + rest);
            assert(take_until(rm, reflect_idx(t)) == seq![rm[0]] + take_until(rm.drop_first(), reflect_idx(t)));
            assert(take_until(rm, reflect_idx(t)) =~= take_until(r, t).map_values(|j: int| reflect_idx(j)));
            assert forall|k: int| 0 <= k < take_until(r, t).len() implies 0 <= #[trigger] take_until(r, t)[k] < 64 by {
                if k > 0 {
                    assert(take_until(r, t)[k] == rest[k - 1]);
                }
            }
        }
    } else {
        assert(rm =~= Seq::<int>::empty());
        assert(take_until(r, t).map_values(|j: int| reflect_idx(j)) =~= Seq::<int>::empty());
    }
}

/// The mirror of a sequence of board squares holds the mirrored squares.
pub proof fn lemma_mirror_seq_set(r: Seq<int>)
    requires
        forall|k: int| 0 <= k < r.len() ==> 0 <= #[trigger] r[k] < 64,
    ensures
        r.map_values(|j: int| reflect_idx(j)).to_set() == reflect_set(r.to_set()),
{
    let rm = r.map_values(|j: int| reflect_idx(j));
    assert forall|x: int| rm.to_set().contains(x) <==> reflect_set(r.to_set()).contains(x) by {
        if rm.to_set().contains(x) {
            let k = choose|k: int| 0 <= k < rm.len() && #[trigger] rm[k] == x;
            lemma_reflect_coords(r[k]);
            assert(r.contains(reflect_idx(x)));
        }
        if reflect_set(r.to_set()).contains(x) {
            lemma_reflect_coords(x);
            let k = choose|k: int| 0 <= k < r.len() && #[trigger] r[k] == reflect_idx(x);
            assert(rm[k] == x);
        }
    }
    assert(rm.to_set() =~= reflect_set(r.to_set()));
}

/// Looking along lines for a square that lies on one of them gives the
/// cord along that line.
pub proof fn lemma_cord_from_found(s: int, t: int, ds: Seq<Dir>, d: Dir)
    requires
        0 <= s < 64,
        forall|k: int| 0 <= k < ds.len() ==> line_dir(#[trigger] ds[k]),
        line_dir(d),
        ds.contains(d),
        ray(s, d).contains(t),
    ensures
        cord_from(s, t, ds) == take_until(ray(s, d), t).to_set().insert(t).insert(s),
    decreases ds.len(),
{
    if ray(s, ds[0]).contains(t) {
        lemma_rays_disjoint(s, ds[0], d, t);
    } else {
        let k = choose|k: int| 0 <= k < ds.len() && ds[k] == d;
        assert(ds.drop_first()[k - 1] == d);
        lemma_cord_from_found(s, t, ds.drop_first(), d);
    }
}

/// Looking along lines none of which holds the square gives nothing.
pub proof fn lemma_cord_from_none(s: int, t: int, ds: Seq<Dir>)
    requires
        forall|k: int| 0 <= k < ds.len() ==> !(#[trigger] ray(s, ds[k])).contains(t),
    ensures
        cord_from(s, t, ds) == Set::<int>::empty(),
    decreases ds.len(),
{
    if ds.len() > 0 {
        assert(!ray(s, ds[0]).contains(t));
        assert forall|k: int| 0 <= k < ds.drop_first().len() implies !(#[trigger] ray(s, ds.drop_first()[k])).contains(t) by {
            assert(ds.drop_first()[k] == ds[k + 1]);
        }
        lemma_cord_from_none(s, t, ds.drop_first());
    }
}

/// Mirroring a set with one more board square adds the mirrored square.
pub proof fn lemma_reflect_set_insert(a: Set<int>, x: int)
    requires
        0 <= x < 64,
    ensures
        reflect_set(a.insert(x)) == reflect_set(a).insert(reflect_idx(x)),
{
    lemma_reflect_coords(x);
    assert forall|y: int| #[trigger] reflect_set(a.insert(x)).contains(y) <==> reflect_set(a).insert(
        reflect_idx(x),
    ).contains(y) by {
        if 0 <= y < 64 {
            lemma_reflect_coords(y);
        }
    }
    assert(reflect_set(a.insert(x)) =~= reflect_set(a).insert(reflect_idx(x)));
}

/// The queen lines, and the facts about them that the cords need.
pub proof fn lemma_cord_dirs()
    ensures
        flip_matched(cord_dirs(), cord_dirs()),
        forall|k: int| 0 <= k < cord_dirs().len() ==> line_dir(#[trigger] cord_dirs()[k]),
{
    let cd = cord_dirs();
    assert(cd =~= king_dirs());
    lemma_dirs_flip_matched();
    assert(cd[0] == Dir::N && cd[1] == Dir::NE && cd[2] == Dir::E && cd[3] == Dir::SE);
    assert(cd[4] == Dir::S && cd[5] == Dir::SW && cd[6] == Dir::W && cd[7] == Dir::NW);
}

/// The cord along a line is mirrored to the cord along the flipped line.
proof fn lemma_cord_mirror_found(s: int, t: int, d: Dir)
    requires
        0 <= s < 64,
        0 <= t < 64,
        cord_dirs().contains(d),
        ray(s, d).contains(t),
    ensures
        cord_set(reflect_idx(s), reflect_idx(t)) == reflect_set(cord_set(s, t)),
{
    let cd = cord_dirs();
    lemma_cord_dirs();
    let rs = reflect_idx(s);
    let rt = reflect_idx(t);
    lemma_reflect_coords(s);
    lemma_reflect_coords(t);
    let kd = choose|k: int| 0 <= k < cd.len() && cd[k] == d;
    assert(line_dir(cd[kd]));
    assert(cd.contains(vflip(d)));
    let kf = choose|k: int| 0 <= k < cd.len() && cd[k] == vflip(d);
    assert(line_dir(cd[kf]));
    lemma_vflip(d);
    lemma_ray_mirror(s, d);
    lemma_ray_on_board(s, d);
    let r = ray(s, d);
    let rm = r.map_values(|j: int| reflect_idx(j));
    let m = choose|m: int| 0 <= m < r.len() && #[trigger] r[m] == t;
    assert(rm[m] == rt);
    assert(ray(rs, vflip(d)).contains(rt));
    lemma_cord_from_found(s, t, cd, d);
    lemma_cord_from_found(rs, rt, cd, vflip(d));
    lemma_take_until_mirror(r, t);
    let a = take_until(r, t);
    lemma_mirror_seq_set(a);
    assert(cord_set(rs, rt) == reflect_set(a.to_set()).insert(rt).insert(rs));
    lemma_reflect_set_insert(a.to_set(), t);
    lemma_reflect_set_insert(a.to_set().insert(t), s);
}

/// The cord between the mirrored squares is the mirror of the cord.
pub proof fn lemma_cord_mirror(s: int, t: int)
    requires
        0 <= s < 64,
        0 <= t < 64,
    ensures
        cord_set(reflect_idx(s), reflect_idx(t)) == reflect_set(cord_set(s, t)),
{
    let cd = cord_dirs();
    lemma_cord_dirs();
    let rs = reflect_idx(s);
    let rt = reflect_idx(t);
    lemma_reflect_coords(s);
    lemma_reflect_coords(t);
    if exists|k: int| 0 <= k < cd.len() && (#[trigger] ray(s, cd[k])).contains(t) {
        let k = choose|k: int| 0 <= k < cd.len() && (#[trigger] ray(s, cd[k])).contains(t);
        lemma_cord_mirror_found(s, t, cd[k]);
    } else if exists|k: int| 0 <= k < cd.len() && (#[trigger] ray(rs, cd[k])).contains(rt) {
        let k = choose|k: int| 0 <= k < cd.len() && (#[trigger] ray(rs, cd[k])).contains(rt);
        lemma_cord_mirror_found(rs, rt, cd[k]);
        lemma_cord_from_none(s, t, cd);
        assert(reflect_set(cord_set(rs, rt)) =~= Set::<int>::empty());
        let k2 = choose|k2: int| 0 <= k2 < cd.len() && cd[k2] == vflip(cd[k]);
        lemma_vflip(cd[k]);
        lemma_ray_mirror(rs, cd[k]);
        lemma_ray_on_board(rs, cd[k]);
        let r = ray(rs, cd[k]);
        let m = choose|m: int| 0 <= m < r.len() && #[trigger] r[m] == rt;
        assert(r.map_values(|j: int| reflect_idx(j))[m] == t);
        assert(ray(s, cd[k2]).contains(t));
    } else {
        lemma_cord_from_none(s, t, cd);
        lemma_cord_from_none(rs, rt, cd);
        assert(reflect_set(Set::<int>::empty()) =~= Set::<int>::empty());
    }
}

/// The empty board mirrors to itself.
pub proof fn lemma_mirror_empty()
    ensures
        mirror_word(0u64) == 0u64,
{
    lemma_mirror_bits(0u64);
    lemma_bits_ops(0u64, 0u64);
    assert(reflect_set(Set::<int>::empty()) =~= Set::<int>::empty());
    crate::base::bitboard::lemma_bits_ext(mirror_word(0u64), 0u64);
}

/// Mirroring keeps the number of squares of a set of board squares.
pub proof fn lemma_reflect_set_len(a: Set<int>)
    requires
        a.finite(),
        forall|x: int| #[trigger] a.contains(x) ==> 0 <= x < 64,
    ensures
        reflect_set(a).finite(),
        reflect_set(a).len() == a.len(),
{
    let f = |i: int| reflect_idx(i);
    assert(reflect_set(a) =~= a.map(f)) by {
        assert forall|j: int| reflect_set(a).contains(j) <==> a.map(f).contains(j) by {
            if reflect_set(a).contains(j) {
                lemma_reflect_coords(j);
                assert(f(reflect_idx(j)) == j);
            }
            if a.map(f).contains(j) {
                let i = choose|i: int| a.contains(i) && f(i) == j;
                lemma_reflect_coords(i);
            }
        }
    }
    assert(vstd::relations::injective_on(f, a)) by {
        assert forall|x: int, y: int|
            a.contains(x) && a.contains(y) && #[trigger] f(x) == #[trigger] f(y) implies x == y by {
            lemma_reflect_coords(x);
            lemma_reflect_coords(y);
        }
    }
    vstd::set_lib::lemma_map_size(a, reflect_set(a), f);
}

/// The steps from a square form a finite set of board squares.
pub proof fn lemma_steps_union_on_board(i: int, dirs: Seq<Dir>)
    ensures
        steps_union(i, dirs).finite(),
        forall|x: int| #[trigger] steps_union(i, dirs).contains(x) ==> 0 <= x < 64,
    decreases dirs.len(),
{
    if dirs.len() > 0 {
        lemma_steps_union_on_board(i, dirs.drop_last());
    }
}

} // verus!
