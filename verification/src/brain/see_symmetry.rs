use vstd::prelude::*;

use crate::base::bitboard::{bit, bits, lemma_bits_ext, lemma_bits_finite, lemma_bits_ops, lemma_bits_single};
use crate::base::flip::lemma_cord_mirror;
use crate::brain::see_reach::{between, lemma_reach_between};
use crate::base::flip::{lemma_control_mirror, lemma_mirror_empty, lemma_reflect_coords, lemma_reflect_set_len};
use crate::base::pieces::{control_set, Class, Piece};
use crate::base::reflect::{lemma_mirror_bits, mirror_board, mirror_word, reflect_idx, reflect_set};
use crate::base::types::Side;
use crate::base::square::rank_of;
use crate::base::square::{lemma_square_at, lemma_square_idx, Square};
use crate::base::reflect::reflect_square;
use crate::brain::see::{
    attack_constraints, attacker_values, attacks_behind, attacks_directly, class_at,
    direct_attadef, exchange_attackers, exchange_gains, least_valuable_from,
    lemma_set_has_min, lemma_see_step, reaches, see_attackers, see_next,
    see_value,
    set_min, unlocked, xray_attadef, BoardPieces,
};

verus! {

broadcast use lemma_square_idx, lemma_square_at;

/// The piece of the other side, if there is one.
pub open spec fn mirror_piece(o: Option<Piece>) -> Option<Piece> {
    match o {
        Some(p) => Some(Piece(p.0.other(), p.1)),
        None => None,
    }
}

/// Whether `m` is the board `b` seen from the other side: every piece on
/// the mirrored square and handed to the other side.
pub open spec fn mirrored_pieces(b: BoardPieces, m: BoardPieces) -> bool {
    &&& forall|i: int| 0 <= i < 64 ==> #[trigger] m.piece_locs@[i] == mirror_piece(b.piece_locs@[reflect_idx(i)])
    &&& forall|k: int|
        0 <= k < 12 ==> #[trigger] m.piece_boards@[k] == mirror_board(b.piece_boards@[(k + 6) % 12])
    &&& m.side_boards@[0] == mirror_board(b.side_boards@[1])
    &&& m.side_boards@[1] == mirror_board(b.side_boards@[0])
}

/// The squares a piece could attack the mirrored target from are the
/// mirrored squares.
proof fn lemma_constraints_mirror(t: int)
    requires
        0 <= t < 64,
    ensures
        attack_constraints(reflect_idx(t)) == reflect_set(attack_constraints(t)),
{
    lemma_mirror_empty();
    lemma_control_mirror(Piece(Side::B, Class::Q), t, 0);
    lemma_control_mirror(Piece(Side::B, Class::N), t, 0);
    assert(control_set(Piece(Side::W, Class::Q), reflect_idx(t), 0) == control_set(
        Piece(Side::B, Class::Q),
        reflect_idx(t),
        0,
    ));
    assert(control_set(Piece(Side::W, Class::N), reflect_idx(t), 0) == control_set(
        Piece(Side::B, Class::N),
        reflect_idx(t),
        0,
    ));
    assert(control_set(Piece(Side::B, Class::Q), t, 0) == control_set(Piece(Side::W, Class::Q), t, 0));
    assert(control_set(Piece(Side::B, Class::N), t, 0) == control_set(Piece(Side::W, Class::N), t, 0));
    assert(reflect_set(control_set(Piece(Side::W, Class::Q), t, 0).union(
        control_set(Piece(Side::W, Class::N), t, 0),
    )) =~= reflect_set(control_set(Piece(Side::W, Class::Q), t, 0)).union(
        reflect_set(control_set(Piece(Side::W, Class::N), t, 0)),
    ));
}

/// The occupied squares of the mirrored board are the mirrored squares.
proof fn lemma_occupied_mirror(b: BoardPieces, m: BoardPieces)
    requires
        mirrored_pieces(b, m),
    ensures
        m.occupied() == mirror_word(b.occupied()),
{
    let w = b.side_boards@[0].0;
    let k = b.side_boards@[1].0;
    lemma_mirror_bits(w);
    lemma_mirror_bits(k);
    lemma_mirror_bits(w | k);
    lemma_bits_ops(w, k);
    lemma_bits_ops(mirror_word(k), mirror_word(w));
    assert(bits(m.occupied()) =~= bits(mirror_word(b.occupied())));
    lemma_bits_ext(m.occupied(), mirror_word(b.occupied()));
}

/// A piece of the mirrored board attacks the mirrored target directly, or
/// from behind, exactly when the piece it mirrors does.
proof fn lemma_attacks_mirror(b: BoardPieces, m: BoardPieces, i: int, t: int)
    requires
        mirrored_pieces(b, m),
        0 <= i < 64,
        0 <= t < 64,
    ensures
        attacks_directly(m, reflect_idx(i), reflect_idx(t)) == attacks_directly(b, i, t),
        attacks_behind(m, reflect_idx(i), reflect_idx(t)) == attacks_behind(b, i, t),
{
    lemma_reflect_coords(i);
    lemma_reflect_coords(t);
    let ri = reflect_idx(i);
    assert(m.piece_locs@[ri] == mirror_piece(b.piece_locs@[i]));
    lemma_occupied_mirror(b, m);
    lemma_mirror_empty();
    if let Some(p) = b.piece_locs@[i] {
        lemma_control_mirror(p, i, 0);
        lemma_control_mirror(p, i, b.occupied());
        assert(reflect_set(control_set(p, i, 0)).contains(reflect_idx(t)) == control_set(p, i, 0).contains(t));
        assert(reflect_set(control_set(p, i, b.occupied())).contains(reflect_idx(t)) == control_set(
            p,
            i,
            b.occupied(),
        ).contains(t));
    }
}

/// The pieces that attack or defend the mirrored target, directly or from
/// behind, stand on the mirrored squares.
pub proof fn lemma_attadef_mirror(b: BoardPieces, m: BoardPieces, t: int)
    requires
        mirrored_pieces(b, m),
        0 <= t < 64,
    ensures
        direct_attadef(m, reflect_idx(t)) == reflect_set(direct_attadef(b, t)),
        xray_attadef(m, reflect_idx(t)) == reflect_set(xray_attadef(b, t)),
{
    lemma_constraints_mirror(t);
    assert forall|x: int| #[trigger] direct_attadef(m, reflect_idx(t)).contains(x) <==> reflect_set(
        direct_attadef(b, t),
    ).contains(x) by {
        if 0 <= x < 64 {
            lemma_reflect_coords(x);
            lemma_attacks_mirror(b, m, reflect_idx(x), t);
        }
    }
    assert forall|x: int| #[trigger] xray_attadef(m, reflect_idx(t)).contains(x) <==> reflect_set(
        xray_attadef(b, t),
    ).contains(x) by {
        if 0 <= x < 64 {
            lemma_reflect_coords(x);
            lemma_attacks_mirror(b, m, reflect_idx(x), t);
        }
    }
    assert(direct_attadef(m, reflect_idx(t)) =~= reflect_set(direct_attadef(b, t)));
    assert(xray_attadef(m, reflect_idx(t)) =~= reflect_set(xray_attadef(b, t)));
}

/// The pieces of each side and class that stand on squares from which they
/// could take part in an exchange on the target all stand on one rank, so
/// that the lowest square among them is the lowest on the mirrored board
/// too.
pub open spec fn ties_on_one_rank(b: BoardPieces, t: int) -> bool {
    forall|k: int, i: int, j: int|
        0 <= k < 12 && #[trigger] bits(b.piece_boards@[k].0).contains(i) && #[trigger] bits(
            b.piece_boards@[k].0,
        ).contains(j) && attack_constraints(t).contains(i) && attack_constraints(t).contains(j)
            ==> rank_of(i) == rank_of(j)
}

/// The pieces handed to the other side.
pub open spec fn mirror_seq(s: Seq<Piece>) -> Seq<Piece> {
    s.map_values(|p: Piece| Piece(p.0.other(), p.1))
}

/// The pieces that attack or defend the target directly and those behind
/// them are distinct squares of the board, from which a piece could attack.
pub proof fn lemma_attadef_facts(b: BoardPieces, t: int)
    ensures
        direct_attadef(b, t).disjoint(xray_attadef(b, t)),
        direct_attadef(b, t).union(xray_attadef(b, t)).finite(),
        forall|x: int|
            #[trigger] direct_attadef(b, t).union(xray_attadef(b, t)).contains(x) ==> 0 <= x < 64
                && attack_constraints(t).contains(x),
{
    let u = direct_attadef(b, t).union(xray_attadef(b, t));
    lemma_bits_finite(0xffff_ffff_ffff_ffffu64);
    lemma_bits_ops(0u64, 0u64);
    assert(u.subset_of(crate::base::bitboard::board_indices()));
    vstd::set_lib::lemma_set_subset_finite(crate::base::bitboard::board_indices(), u);
}

/// The number of pieces `p` on the squares `a`.
pub open spec fn kind_count(b: BoardPieces, a: Set<int>, p: Piece) -> nat {
    bits(b.piece_boards@[p.idx()].0).intersect(a).len()
}

/// The squares `a` of board `b` and `a2` of board `m` hold as many pieces
/// of each kind, those of `m` handed to the other side.
pub open spec fn counts_mirrored(b: BoardPieces, a: Set<int>, m: BoardPieces, a2: Set<int>) -> bool {
    forall|p: Piece| #[trigger] kind_count(b, a, p) == kind_count(m, a2, Piece(p.0.other(), p.1))
}

/// With as many pieces of each kind on both sides, the least valuable
/// piece is found on both or on neither, and is of the same kind.
proof fn lemma_least_valuable_counts(
    b: BoardPieces,
    m: BoardPieces,
    a: Set<int>,
    a2: Set<int>,
    side: Side,
    k: int,
)
    requires
        b.consistent(),
        m.consistent(),
        a.finite(),
        a2.finite(),
        counts_mirrored(b, a, m, a2),
    ensures
        least_valuable_from(b, a, side, k) is None <==> least_valuable_from(m, a2, side.other(), k) is None,
        least_valuable_from(b, a, side, k) matches Some(x) ==> (least_valuable_from(
            m,
            a2,
            side.other(),
            k,
        ) matches Some(y) && 0 <= x < 64 && 0 <= y < 64 && a.contains(x) && a2.contains(y)
            && b.piece_locs@[x] is Some && m.piece_locs@[y] == mirror_piece(b.piece_locs@[x])),
    decreases 6 - k,
{
    if 0 <= k < 6 {
        let p = Piece(side, class_at(k));
        let p2 = Piece(side.other(), class_at(k));
        let w = b.piece_boards@[p.idx()].0;
        let w2 = m.piece_boards@[p2.idx()].0;
        let s = bits(w).intersect(a);
        let s2 = bits(w2).intersect(a2);
        assert(kind_count(b, a, p) == kind_count(m, a2, p2));
        assert(s.len() == s2.len());
        if s != Set::<int>::empty() {
            let x0 = choose|x: int| s.contains(x);
            if !s.contains(x0) {
                assert(s =~= Set::<int>::empty());
            }
            lemma_set_has_min(s, x0);
            let x = set_min(s);
            assert(s.contains(x));
            assert(s2.len() > 0);
            assert(s2 != Set::<int>::empty()) by {
                if s2 == Set::<int>::empty() {
                    assert(s2.len() == 0);
                }
            }
            let y0 = choose|y: int| s2.contains(y);
            if !s2.contains(y0) {
                assert(s2 =~= Set::<int>::empty());
            }
            lemma_set_has_min(s2, y0);
            let y = set_min(s2);
            assert(s2.contains(y));
            assert(bits(w).contains(x));
            assert(bits(w2).contains(y));
            assert(b.piece_locs@[x] == Some(p));
            assert(m.piece_locs@[y] == Some(p2));
        } else {
            assert(s2 =~= Set::<int>::empty()) by {
                assert(s.len() == 0);
                assert(s2.len() == 0);
            }
            lemma_least_valuable_counts(b, m, a, a2, side, k + 1);
        }
    }
}

/// Taking one piece of a kind from both sides keeps the counts matched.
proof fn lemma_counts_remove(b: BoardPieces, m: BoardPieces, a: Set<int>, a2: Set<int>, x: int, y: int)
    requires
        b.consistent(),
        m.consistent(),
        a.finite(),
        a2.finite(),
        counts_mirrored(b, a, m, a2),
        0 <= x < 64,
        0 <= y < 64,
        a.contains(x),
        a2.contains(y),
        b.piece_locs@[x] is Some,
        m.piece_locs@[y] == mirror_piece(b.piece_locs@[x]),
    ensures
        counts_mirrored(b, a.remove(x), m, a2.remove(y)),
{
    let px = b.piece_locs@[x]->Some_0;
    assert forall|q: Piece| #[trigger] kind_count(b, a.remove(x), q) == kind_count(
        m,
        a2.remove(y),
        Piece(q.0.other(), q.1),
    ) by {
        let q2 = Piece(q.0.other(), q.1);
        let s = bits(b.piece_boards@[q.idx()].0).intersect(a);
        let s2 = bits(m.piece_boards@[q2.idx()].0).intersect(a2);
        assert(kind_count(b, a, q) == kind_count(m, a2, q2));
        assert(bits(b.piece_boards@[q.idx()].0).intersect(a.remove(x)) =~= s.remove(x));
        assert(bits(m.piece_boards@[q2.idx()].0).intersect(a2.remove(y)) =~= s2.remove(y));
        assert(q.0.other().other() == q.0);
        if q == px {
            assert(s.contains(x));
            assert(m.piece_locs@[y] == Some(q2));
            assert(s2.contains(y));
        } else {
            assert(!s.contains(x));
            assert(m.piece_locs@[y] != Some(q2));
            assert(!s2.contains(y));
        }
    }
}

/// The mirrored squares of the mirrored board hold as many pieces of each
/// kind, handed to the other side.
proof fn lemma_counts_of_mirror(b: BoardPieces, m: BoardPieces, a: Set<int>)
    requires
        mirrored_pieces(b, m),
        a.finite(),
        forall|x: int| #[trigger] a.contains(x) ==> 0 <= x < 64,
    ensures
        counts_mirrored(b, a, m, reflect_set(a)),
{
    assert forall|p: Piece| #[trigger] kind_count(b, a, p) == kind_count(
        m,
        reflect_set(a),
        Piece(p.0.other(), p.1),
    ) by {
        let p2 = Piece(p.0.other(), p.1);
        assert((p2.idx() + 6) % 12 == p.idx());
        assert(m.piece_boards@[p2.idx()] == mirror_board(b.piece_boards@[(p2.idx() + 6) % 12]));
        let w = b.piece_boards@[p.idx()].0;
        lemma_mirror_bits(w);
        let s = bits(w).intersect(a);
        let s2 = bits(m.piece_boards@[p2.idx()].0).intersect(reflect_set(a));
        assert forall|x: int| #[trigger] s2.contains(x) <==> reflect_set(s).contains(x) by {
            if 0 <= x < 64 {
                lemma_reflect_coords(x);
            }
        }
        assert(s2 =~= reflect_set(s));
        lemma_reflect_set_len(s);
    }
}

/// The pieces of side and class `k` that could take part in an exchange
/// on the target stand on more than one rank, so that the lowest square
/// among them may not be the lowest on the mirrored board.
pub open spec fn mixed_kind(b: BoardPieces, t: int, k: int) -> bool {
    exists|i: int, j: int|
        #![trigger bits(b.piece_boards@[k].0).contains(i), bits(b.piece_boards@[k].0).contains(j)]
        bits(b.piece_boards@[k].0).contains(i) && bits(b.piece_boards@[k].0).contains(j)
            && attack_constraints(t).contains(i) && attack_constraints(t).contains(j) && rank_of(i)
            != rank_of(j)
}

/// The square holds a piece of a mixed kind.
pub open spec fn mixed_square(b: BoardPieces, t: int, q: int) -> bool {
    b.piece_locs@[q] matches Some(p) && mixed_kind(b, t, p.idx())
}

/// No piece of a mixed kind stands between a piece behind and the target:
/// which of the pieces of a mixed kind captures first then never decides
/// when a piece behind joins.
pub open spec fn no_mixed_behind(b: BoardPieces, t: int) -> bool {
    forall|s: int, q: int|
        #![trigger xray_attadef(b, t).contains(s), between(s, t).contains(q)]
        xray_attadef(b, t).contains(s) && between(s, t).contains(q) ==> !mixed_square(b, t, q)
}

/// The squares strictly between two squares, mirrored, are those strictly
/// between the mirrored squares.
proof fn lemma_between_mirror(s: int, t: int)
    requires
        0 <= s < 64,
        0 <= t < 64,
    ensures
        between(reflect_idx(s), reflect_idx(t)) == reflect_set(between(s, t)),
{
    lemma_cord_mirror(s, t);
    lemma_reflect_coords(s);
    lemma_reflect_coords(t);
    assert forall|x: int| #[trigger] between(reflect_idx(s), reflect_idx(t)).contains(x) <==> reflect_set(
        between(s, t),
    ).contains(x) by {
        if 0 <= x < 64 {
            lemma_reflect_coords(x);
        }
    }
    assert(between(reflect_idx(s), reflect_idx(t)) =~= reflect_set(between(s, t)));
}

/// The sliders behind that the removals unlock on the mirrored board are
/// the mirrored ones, when the removals agree on every square but those of
/// mixed kinds, none of which stands between a piece behind and the target.
proof fn lemma_unlocked_hybrid(
    b: BoardPieces,
    m: BoardPieces,
    t: int,
    removed: u64,
    removed2: u64,
    xray: Set<int>,
)
    requires
        mirrored_pieces(b, m),
        0 <= t < 64,
        no_mixed_behind(b, t),
        forall|x: int| #[trigger] xray.contains(x) ==> xray_attadef(b, t).contains(x),
        forall|q: int|
            0 <= q < 64 && !mixed_square(b, t, q) ==> (bits(removed2).contains(#[trigger] reflect_idx(q))
                <==> bits(removed).contains(q)),
    ensures
        unlocked(m, reflect_idx(t), removed2, reflect_set(xray)) == reflect_set(unlocked(b, t, removed, xray)),
{
    lemma_occupied_mirror(b, m);
    let occ = b.occupied() & !removed;
    let occ2 = m.occupied() & !removed2;
    lemma_bits_ops(b.occupied(), removed);
    lemma_bits_ops(m.occupied(), removed2);
    lemma_mirror_bits(b.occupied());
    lemma_mirror_bits(occ);
    lemma_reflect_coords(t);
    let rt = reflect_idx(t);
    assert forall|x: int| #[trigger] unlocked(m, rt, removed2, reflect_set(xray)).contains(x)
        <==> reflect_set(unlocked(b, t, removed, xray)).contains(x) by {
        if 0 <= x < 64 {
            lemma_reflect_coords(x);
            let s = reflect_idx(x);
            assert(m.piece_locs@[x] == mirror_piece(b.piece_locs@[s]));
            if xray.contains(s) {
                assert(xray_attadef(b, t).contains(s));
                let p = b.piece_locs@[s]->Some_0;
                let mp = Piece(p.0.other(), p.1);
                lemma_control_mirror(p, s, occ);
                assert(reflect_set(control_set(p, s, occ)).contains(rt) == control_set(p, s, occ).contains(t));
                lemma_between_mirror(s, t);
                assert forall|q2: int| #[trigger] between(x, rt).contains(q2) implies bit(mirror_word(occ), q2)
                    == bit(occ2, q2) by {
                    assert(reflect_set(between(s, t)).contains(q2));
                    let q = reflect_idx(q2);
                    lemma_reflect_coords(q2);
                    assert(between(s, t).contains(q));
                    assert(!mixed_square(b, t, q));
                    assert(bits(removed2).contains(reflect_idx(q)) <==> bits(removed).contains(q));
                    assert(bits(mirror_word(occ)).contains(q2) == bits(occ).contains(q));
                    assert(bits(m.occupied()).contains(q2) == bits(b.occupied()).contains(q));
                    assert(reflect_idx(q) == q2);
                    assert(bits(occ) == bits(b.occupied()).difference(bits(removed)));
                    assert(bits(occ2) == bits(m.occupied()).difference(bits(removed2)));
                    assert(bits(occ2).contains(q2) == bits(occ).contains(q));
                    assert(bits(occ2).contains(q2) == bit(occ2, q2));
                    assert(bits(mirror_word(occ)).contains(q2) == bit(mirror_word(occ), q2));
                }
                lemma_reach_between(mp, x, rt, mirror_word(occ), occ2);
                assert(reaches(m, x, rt, removed2) == reaches(b, s, t, removed));
            }
        }
    }
    assert(unlocked(m, rt, removed2, reflect_set(xray)) =~= reflect_set(unlocked(b, t, removed, xray)));
}

/// The pieces of a kind that is not mixed stand on the mirrored squares of
/// the mirrored board.
pub open spec fn unmixed_mirrored(b: BoardPieces, m: BoardPieces, t: int, a: Set<int>, a2: Set<int>) -> bool {
    forall|k: int|
        #![trigger mixed_kind(b, t, k)]
        0 <= k < 12 && !mixed_kind(b, t, k) ==> bits(m.piece_boards@[(k + 6) % 12].0).intersect(a2)
            == reflect_set(bits(b.piece_boards@[k].0).intersect(a))
}

/// The state of the exchange on the board and the state on the mirrored
/// board correspond: the pieces behind are mirrored, the pieces of each
/// kind that can capture are as many, and those of kinds that are not
/// mixed stand on the mirrored squares, and the removed pieces agree but on
/// the squares of mixed kinds.
pub open spec fn hybrid(
    b: BoardPieces,
    m: BoardPieces,
    t: int,
    a: Set<int>,
    x: Set<int>,
    rem: u64,
    a2: Set<int>,
    rem2: u64,
) -> bool {
    &&& a.finite()
    &&& x.finite()
    &&& a2.finite()
    &&& a.disjoint(x)
    &&& forall|y: int| #[trigger] a.union(x).contains(y) ==> 0 <= y < 64 && attack_constraints(t).contains(y)
    &&& forall|y: int| #[trigger] x.contains(y) ==> xray_attadef(b, t).contains(y)
    &&& forall|y: int| #[trigger] a2.contains(y) ==> 0 <= y < 64 && !reflect_set(x).contains(y)
    &&& counts_mirrored(b, a, m, a2)
    &&& unmixed_mirrored(b, m, t, a, a2)
    &&& forall|q: int|
        0 <= q < 64 && !mixed_square(b, t, q) ==> (bits(rem2).contains(#[trigger] reflect_idx(q))
            <==> bits(rem).contains(q))
}

/// The mirrored kind of a piece is at the index six away.
proof fn lemma_mirror_kind(p: Piece)
    ensures
        Piece(p.0.other(), p.1).idx() == (p.idx() + 6) % 12,
        0 <= p.idx() < 12,
{
}

/// The least valuable piece is found on both boards or on neither, is of
/// the same kind, and stands on the mirrored square when its kind is not
/// mixed.
#[verifier::spinoff_prover]
#[verifier::rlimit(50)]
proof fn lemma_least_valuable_hybrid(
    b: BoardPieces,
    m: BoardPieces,
    t: int,
    a: Set<int>,
    a2: Set<int>,
    side: Side,
    k: int,
)
    requires
        b.consistent(),
        m.consistent(),
        a.finite(),
        a2.finite(),
        counts_mirrored(b, a, m, a2),
        unmixed_mirrored(b, m, t, a, a2),
        forall|y: int| #[trigger] a.contains(y) ==> 0 <= y < 64 && attack_constraints(t).contains(y),
    ensures
        least_valuable_from(b, a, side, k) is None <==> least_valuable_from(m, a2, side.other(), k) is None,
        least_valuable_from(b, a, side, k) matches Some(x) ==> (least_valuable_from(
            m,
            a2,
            side.other(),
            k,
        ) matches Some(y) && 0 <= x < 64 && 0 <= y < 64 && a.contains(x) && a2.contains(y)
            && b.piece_locs@[x] is Some && m.piece_locs@[y] == mirror_piece(b.piece_locs@[x]) && (
        !mixed_square(b, t, x) ==> y == reflect_idx(x))),
    decreases 6 - k,
{
    lemma_least_valuable_counts(b, m, a, a2, side, k);
    if 0 <= k < 6 {
        let p = Piece(side, class_at(k));
        let p2 = Piece(side.other(), class_at(k));
        let w = b.piece_boards@[p.idx()].0;
        let s = bits(w).intersect(a);
        if s != Set::<int>::empty() {
            let x = set_min(s);
            let s2 = bits(m.piece_boards@[p2.idx()].0).intersect(a2);
            if !mixed_kind(b, t, p.idx()) {
                lemma_mirror_kind(p);
                assert(s2 == reflect_set(s));
                let x0 = choose|x: int| s.contains(x);
                if !s.contains(x0) {
                    assert(s =~= Set::<int>::empty());
                }
                lemma_bits_finite(w);
                lemma_set_has_min(s, x0);
                assert(s.contains(x) && forall|i: int| s.contains(i) ==> x <= i);
                lemma_reflect_coords(x);
                let rx = reflect_idx(x);
                assert(s2.contains(rx));
                assert forall|y: int| s2.contains(y) implies rx <= y by {
                    lemma_reflect_coords(y);
                    let z = reflect_idx(y);
                    assert(s.contains(z));
                    assert(bits(b.piece_boards@[p.idx()].0).contains(z));
                    assert(bits(b.piece_boards@[p.idx()].0).contains(x));
                    assert(rank_of(z) == rank_of(x));
                    lemma_reflect_coords(z);
                }
                let m2 = set_min(s2);
                assert(s2.contains(m2) && forall|i: int| s2.contains(i) ==> m2 <= i);
                assert(m2 == rx) by {
                    assert(m2 <= rx);
                    assert(rx <= m2);
                }
                assert(s2 != Set::<int>::empty());
                assert(least_valuable_from(b, a, side, k) == Some(x));
                assert(least_valuable_from(m, a2, side.other(), k) == Some(set_min(s2)));
                assert(least_valuable_from(m, a2, side.other(), k) == Some(rx));
            } else {
                assert(least_valuable_from(b, a, side, k) == Some(x));
                let x0 = choose|x: int| s.contains(x);
                if !s.contains(x0) {
                    assert(s =~= Set::<int>::empty());
                }
                lemma_bits_finite(w);
                lemma_set_has_min(s, x0);
                assert(s.contains(x));
                assert(b.piece_locs@[x] == Some(p));
                assert(b.piece_locs@[x]->Some_0.idx() == p.idx());
                assert(mixed_kind(b, t, p.idx()));
                assert(mixed_square(b, t, x));
            }
        } else {
            let s2 = bits(m.piece_boards@[p2.idx()].0).intersect(a2);
            assert(kind_count(b, a, p) == kind_count(m, a2, p2));
            assert(s2 =~= Set::<int>::empty()) by {
                assert(s.len() == 0);
                assert(s2.len() == 0);
            }
            lemma_least_valuable_hybrid(b, m, t, a, a2, side, k + 1);
            assert(least_valuable_from(b, a, side, k) == least_valuable_from(b, a, side, k + 1));
            assert(least_valuable_from(m, a2, side.other(), k) == least_valuable_from(
                m,
                a2,
                side.other(),
                k + 1,
            ));
        }
    }
}

/// The piece of a kind index.
pub open spec fn kind_at(k: int) -> Piece {
    Piece(if k < 6 { Side::W } else { Side::B }, class_at(k % 6))
}

proof fn lemma_kind_at(k: int)
    requires
        0 <= k < 12,
    ensures
        kind_at(k).idx() == k,
{
}

/// Counts matched on two disjoint pairs of sets stay matched on their
/// unions.
proof fn lemma_counts_union(
    b: BoardPieces,
    m: BoardPieces,
    a: Set<int>,
    a2: Set<int>,
    u: Set<int>,
    u2: Set<int>,
)
    requires
        a.finite(),
        a2.finite(),
        u.finite(),
        u2.finite(),
        a.disjoint(u),
        a2.disjoint(u2),
        counts_mirrored(b, a, m, a2),
        counts_mirrored(b, u, m, u2),
    ensures
        counts_mirrored(b, a.union(u), m, a2.union(u2)),
{
    assert forall|p: Piece| #[trigger] kind_count(b, a.union(u), p) == kind_count(
        m,
        a2.union(u2),
        Piece(p.0.other(), p.1),
    ) by {
        let p2 = Piece(p.0.other(), p.1);
        let w = bits(b.piece_boards@[p.idx()].0);
        let w2 = bits(m.piece_boards@[p2.idx()].0);
        assert(kind_count(b, a, p) == kind_count(m, a2, p2));
        assert(kind_count(b, u, p) == kind_count(m, u2, p2));
        assert(w.intersect(a.union(u)) =~= w.intersect(a) + w.intersect(u));
        assert(w2.intersect(a2.union(u2)) =~= w2.intersect(a2) + w2.intersect(u2));
        vstd::set_lib::lemma_set_disjoint_lens(w.intersect(a), w.intersect(u));
        vstd::set_lib::lemma_set_disjoint_lens(w2.intersect(a2), w2.intersect(u2));
        assert(w.intersect(a).disjoint(w.intersect(u)));
        assert(w2.intersect(a2).disjoint(w2.intersect(u2)));
    }
}

/// Taking a piece from both sides, the mirrored square when its kind is
/// not mixed, and adding mirrored pieces keeps the pieces of the kinds that
/// are not mixed on mirrored squares.
proof fn lemma_unmixed_step(
    b: BoardPieces,
    m: BoardPieces,
    t: int,
    a: Set<int>,
    a2: Set<int>,
    src: int,
    src2: int,
    u: Set<int>,
)
    requires
        b.consistent(),
        m.consistent(),
        mirrored_pieces(b, m),
        unmixed_mirrored(b, m, t, a, a2),
        0 <= src < 64,
        0 <= src2 < 64,
        b.piece_locs@[src] is Some,
        m.piece_locs@[src2] == mirror_piece(b.piece_locs@[src]),
        !mixed_square(b, t, src) ==> src2 == reflect_idx(src),
        forall|y: int| #[trigger] u.contains(y) ==> 0 <= y < 64,
    ensures
        unmixed_mirrored(b, m, t, a.remove(src).union(u), a2.remove(src2).union(reflect_set(u))),
{
    let ps = b.piece_locs@[src]->Some_0;
    lemma_mirror_kind(ps);
    lemma_reflect_coords(src);
    assert forall|k: int|
        0 <= k < 12 && !mixed_kind(b, t, k) implies #[trigger] bits(m.piece_boards@[(k + 6) % 12].0).intersect(
        a2.remove(src2).union(reflect_set(u)),
    ) == reflect_set(bits(b.piece_boards@[k].0).intersect(a.remove(src).union(u))) by {
        let w = bits(b.piece_boards@[k].0);
        let w2 = bits(m.piece_boards@[(k + 6) % 12].0);
        assert(w2.intersect(a2) == reflect_set(w.intersect(a)));
        assert(m.piece_boards@[(k + 6) % 12] == mirror_board(b.piece_boards@[((k + 6) % 12 + 6) % 12]));
        assert(((k + 6) % 12 + 6) % 12 == k);
        lemma_mirror_bits(b.piece_boards@[k].0);
        assert(w2 == reflect_set(w));
        assert forall|y: int| #[trigger] w2.intersect(a2.remove(src2).union(reflect_set(u))).contains(y)
            <==> reflect_set(w.intersect(a.remove(src).union(u))).contains(y) by {
            if 0 <= y < 64 {
                lemma_reflect_coords(y);
                let z = reflect_idx(y);
                assert(w2.intersect(a2).contains(y) <==> w.intersect(a).contains(z));
                if k == ps.idx() {
                    assert(!mixed_square(b, t, src));
                    assert(src2 == reflect_idx(src));
                } else {
                    lemma_kind_at(k);
                    lemma_kind_at((k + 6) % 12);
                    assert(!w.contains(src)) by {
                        if w.contains(src) {
                            assert(bits(b.piece_boards@[kind_at(k).idx()].0).contains(src));
                            assert(b.piece_locs@[src] == Some(kind_at(k)));
                        }
                    }
                    assert(!w2.contains(src2)) by {
                        if w2.contains(src2) {
                            assert(bits(m.piece_boards@[kind_at((k + 6) % 12).idx()].0).contains(src2));
                            assert(m.piece_locs@[src2] == Some(kind_at((k + 6) % 12)));
                            assert(Piece(ps.0.other(), ps.1).idx() == (k + 6) % 12);
                        }
                    }
                }
            }
        }
        assert(w2.intersect(a2.remove(src2).union(reflect_set(u))) =~= reflect_set(
            w.intersect(a.remove(src).union(u)),
        ));
    }
}

/// The pieces that capture in turn on the mirrored target, from a state
/// that corresponds to the state on the board, are the pieces that capture
/// on the target handed to the other side, when no piece of a mixed kind
/// stands between a piece behind and the target.
#[verifier::rlimit(100)]
#[verifier::spinoff_prover]
proof fn lemma_see_attackers_hybrid(
    b: BoardPieces,
    m: BoardPieces,
    t: int,
    a: Set<int>,
    x: Set<int>,
    rem: u64,
    a2: Set<int>,
    rem2: u64,
    active: Side,
    src: int,
    src2: int,
    attacker: Piece,
)
    requires
        b.consistent(),
        m.consistent(),
        mirrored_pieces(b, m),
        0 <= t < 64,
        no_mixed_behind(b, t),
        hybrid(b, m, t, a, x, rem, a2, rem2),
        a.contains(src),
        a2.contains(src2),
        b.piece_locs@[src] == Some(attacker),
        m.piece_locs@[src2] == mirror_piece(Some(attacker)),
        !mixed_square(b, t, src) ==> src2 == reflect_idx(src),
    ensures
        see_attackers(
            m,
            reflect_idx(t),
            a2,
            reflect_set(x),
            rem2,
            active.other(),
            src2,
            Piece(attacker.0.other(), attacker.1),
        ) == mirror_seq(see_attackers(b, t, a, x, rem, active, src, attacker)),
    decreases a.union(x).len(),
{
    let t2 = reflect_idx(t);
    let x2 = reflect_set(x);
    let att2 = Piece(attacker.0.other(), attacker.1);
    let act2 = active.other();
    lemma_reflect_coords(t);
    assert(a.union(x).contains(src));
    assert(0 <= src < 64);
    assert(0 <= src2 < 64);
    lemma_reflect_coords(src);
    assert forall|y: int| #[trigger] x.contains(y) implies 0 <= y < 64 by {
        assert(a.union(x).contains(y));
    }
    lemma_reflect_set_len(x);
    assert(a2.disjoint(x2));
    lemma_see_step(b, t, a, x, rem, active, src, attacker);
    lemma_see_step(m, t2, a2, x2, rem2, act2, src2, att2);
    let (na, nx, nr, nact, nxt) = see_next(b, t, a, x, rem, active, src, attacker);
    let (na2, nx2, nr2, nact2, nxt2) = see_next(m, t2, a2, x2, rem2, act2, src2, att2);
    // The removed squares agree but on squares of mixed kinds.
    let bt = 1u64 << (src as u64);
    let bt2 = 1u64 << (src2 as u64);
    lemma_bits_single(src as u64);
    lemma_bits_single(src2 as u64);
    lemma_bits_ops(rem, bt);
    lemma_bits_ops(rem2, bt2);
    assert forall|q: int| 0 <= q < 64 && !mixed_square(b, t, q) implies (bits(nr2).contains(
        #[trigger] reflect_idx(q),
    ) <==> bits(nr).contains(q)) by {
        lemma_reflect_coords(q);
        assert(bits(rem2).contains(reflect_idx(q)) <==> bits(rem).contains(q));
        if reflect_idx(q) == src2 {
            lemma_reflect_coords(src2);
            assert(m.piece_locs@[src2] == mirror_piece(b.piece_locs@[reflect_idx(src2)]));
            assert(reflect_idx(src2) == q);
            assert(b.piece_locs@[q] == Some(attacker));
            if q != src {
                assert(mixed_square(b, t, src)) by {
                    if !mixed_square(b, t, src) {
                        assert(src2 == reflect_idx(src));
                        assert(reflect_idx(src2) == src);
                    }
                }
                assert(mixed_square(b, t, q));
            }
        }
        if q == src {
            assert(!mixed_square(b, t, src));
            assert(reflect_idx(q) == src2);
        }
    }
    // The pieces left and the pieces behind.
    let a1 = a.remove(src);
    let a1_2 = a2.remove(src2);
    lemma_counts_remove(b, m, a, a2, src, src2);
    assert(x == Set::<int>::empty() <==> x2 == Set::<int>::empty()) by {
        if x != Set::<int>::empty() {
            let y = choose|y: int| x.contains(y);
            if !x.contains(y) {
                assert(x =~= Set::<int>::empty());
            }
            lemma_reflect_coords(y);
            assert(x2.contains(reflect_idx(y)));
        }
        if x2 != Set::<int>::empty() {
            let y = choose|y: int| x2.contains(y);
            if !x2.contains(y) {
                assert(x2 =~= Set::<int>::empty());
            }
            assert(x.contains(reflect_idx(y)));
        }
    }
    let u = if x == Set::<int>::empty() || attacker.1 == Class::N {
        Set::<int>::empty()
    } else {
        unlocked(b, t, nr, x)
    };
    assert(u.subset_of(x));
    assert(forall|y: int| #[trigger] u.contains(y) ==> 0 <= y < 64);
    vstd::set_lib::lemma_set_subset_finite(x, u);
    if x == Set::<int>::empty() || attacker.1 == Class::N {
        assert(reflect_set(u) =~= Set::<int>::empty());
        assert(na =~= a1.union(u));
        assert(na2 =~= a1_2.union(reflect_set(u)));
        assert(nx =~= x.difference(u));
        assert(nx2 =~= reflect_set(x.difference(u)));
    } else {
        assert forall|y: int| #[trigger] x.contains(y) implies xray_attadef(b, t).contains(y) by {}
        lemma_unlocked_hybrid(b, m, t, nr, nr2, x);
        assert(na == a1.union(u));
        assert(na2 == a1_2.union(reflect_set(u)));
        assert(nx == x.difference(u));
        assert(nx2 =~= reflect_set(x.difference(u))) by {
            assert forall|y: int| #[trigger] nx2.contains(y) <==> reflect_set(x.difference(u)).contains(y) by {
                if 0 <= y < 64 {
                    lemma_reflect_coords(y);
                }
            }
        }
    }
    lemma_counts_of_mirror(b, m, u);
    assert(a1.disjoint(u));
    assert(a1_2.disjoint(reflect_set(u))) by {
        assert forall|y: int| a1_2.contains(y) implies !reflect_set(u).contains(y) by {
            assert(a2.contains(y));
            assert(!x2.contains(y));
        }
    }
    lemma_reflect_set_len(u);
    lemma_counts_union(b, m, a1, a1_2, u, reflect_set(u));
    lemma_unmixed_step(b, m, t, a, a2, src, src2, u);
    assert(hybrid(b, m, t, na, nx, nr, na2, nr2)) by {
        assert(na.union(nx).subset_of(a.union(x)));
        assert forall|y: int| #[trigger] na2.contains(y) implies 0 <= y < 64 && !reflect_set(nx).contains(y) by {
            if a1_2.contains(y) {
                assert(a2.contains(y));
                assert(!x2.contains(y));
            } else {
                assert(reflect_set(u).contains(y));
            }
        }
    }
    assert(nact2 == nact.other());
    assert forall|y: int| #[trigger] na.contains(y) implies 0 <= y < 64 && attack_constraints(t).contains(y) by {
        assert(na.union(nx).contains(y));
    }
    lemma_least_valuable_hybrid(b, m, t, na, na2, nact, 0);
    match nxt {
        None => {
            assert(nxt2 is None);
            assert(seq![att2] =~= mirror_seq(seq![attacker]));
        },
        Some(sq) => {
            let sq2 = nxt2->Some_0;
            let next = b.piece_locs@[sq]->Some_0;
            assert(m.piece_locs@[sq2] == mirror_piece(Some(next)));
            assert(m.piece_locs@[sq2]->Some_0 == Piece(next.0.other(), next.1));
            assert(na.union(nx) =~= a.union(x).remove(src));
            lemma_see_attackers_hybrid(b, m, t, na, nx, nr, na2, nr2, nact, sq, sq2, next);
            let rest = see_attackers(b, t, na, nx, nr, nact, sq, next);
            assert(seq![att2] + mirror_seq(rest) =~= mirror_seq(seq![attacker] + rest));
        },
    }
}

/// Boards whose pieces of each kind that could take part stand on one
/// rank, and boards with no piece behind another on a line to the target,
/// have no piece of a mixed kind between a piece behind and the target.
pub proof fn lemma_no_mixed_behind_cases(b: BoardPieces, t: int)
    requires
        ties_on_one_rank(b, t) || xray_attadef(b, t) == Set::<int>::empty(),
    ensures
        no_mixed_behind(b, t),
{
    assert forall|s: int, q: int|
        xray_attadef(b, t).contains(s) && #[trigger] between(s, t).contains(q) implies !mixed_square(
        b,
        t,
        q,
    ) by {
        if ties_on_one_rank(b, t) {
            if let Some(p) = b.piece_locs@[q] {
                assert(!mixed_kind(b, t, p.idx()));
            }
        }
    }
}

/// Static exchange evaluation is the same on the mirrored board, from the
/// mirrored squares, whenever the choice among pieces of one side and
/// class cannot decide the exchange under mirroring: the lowest square
/// among them is taken first, which mirroring changes only for pieces of a
/// kind that stand on more than one rank, and which of those captures
/// first changes nothing unless one of them stands between a piece behind
/// and the target. So the law holds on every board where no piece of such
/// a mixed kind stands between a piece behind and the target.
pub proof fn lemma_see_mirror(
    b: BoardPieces,
    m: BoardPieces,
    source: Square,
    target: Square,
    values: Seq<i32>,
)
    requires
        b.consistent(),
        m.consistent(),
        mirrored_pieces(b, m),
        no_mixed_behind(b, target.idx()),
        b.piece_locs@[source.idx()] is Some,
        b.piece_locs@[target.idx()] is Some,
        direct_attadef(b, target.idx()).contains(source.idx()),
    ensures
        see_value(m, reflect_square(source), reflect_square(target), values) == see_value(
            b,
            source,
            target,
            values,
        ),
{
    let s = source.idx();
    let t = target.idx();
    lemma_reflect_coords(s);
    lemma_reflect_coords(t);
    let s2 = reflect_square(source);
    let t2 = reflect_square(target);
    assert(s2.idx() == reflect_idx(s));
    assert(t2.idx() == reflect_idx(t));
    let a = b.piece_locs@[s]->Some_0;
    assert(m.piece_locs@[s2.idx()] == mirror_piece(b.piece_locs@[s]));
    assert(m.piece_locs@[t2.idx()] == mirror_piece(b.piece_locs@[t]));
    lemma_attadef_mirror(b, m, t);
    lemma_attadef_facts(b, t);
    lemma_bits_ops(0u64, 0u64);
    let d = direct_attadef(b, t);
    let x = xray_attadef(b, t);
    assert forall|y: int| #[trigger] d.contains(y) implies 0 <= y < 64 by {
        assert(d.union(x).contains(y));
    }
    vstd::set_lib::lemma_set_subset_finite(d.union(x), d);
    vstd::set_lib::lemma_set_subset_finite(d.union(x), x);
    lemma_reflect_set_len(d);
    lemma_counts_of_mirror(b, m, d);
    assert(unmixed_mirrored(b, m, t, d, reflect_set(d))) by {
        assert forall|k: int| 0 <= k < 12 && !mixed_kind(b, t, k) implies #[trigger] bits(
            m.piece_boards@[(k + 6) % 12].0,
        ).intersect(reflect_set(d)) == reflect_set(bits(b.piece_boards@[k].0).intersect(d)) by {
            assert(m.piece_boards@[(k + 6) % 12] == mirror_board(b.piece_boards@[((k + 6) % 12 + 6) % 12]));
            assert(((k + 6) % 12 + 6) % 12 == k);
            lemma_mirror_bits(b.piece_boards@[k].0);
            assert forall|y: int| #[trigger] bits(m.piece_boards@[(k + 6) % 12].0).intersect(
                reflect_set(d),
            ).contains(y) <==> reflect_set(bits(b.piece_boards@[k].0).intersect(d)).contains(y) by {
                if 0 <= y < 64 {
                    lemma_reflect_coords(y);
                }
            }
            assert(bits(m.piece_boards@[(k + 6) % 12].0).intersect(reflect_set(d)) =~= reflect_set(
                bits(b.piece_boards@[k].0).intersect(d),
            ));
        }
    }
    assert(hybrid(b, m, t, d, x, 0, reflect_set(d), 0)) by {
        assert forall|y: int| #[trigger] reflect_set(d).contains(y) implies 0 <= y < 64 && !reflect_set(
            x,
        ).contains(y) by {
            lemma_reflect_coords(y);
        }
    }
    lemma_see_attackers_hybrid(b, m, t, d, x, 0, reflect_set(d), 0, a.0, s, reflect_idx(s), a);
    let atts = exchange_attackers(b, source, target);
    assert(exchange_attackers(m, s2, t2) == mirror_seq(atts));
    assert(attacker_values(values, mirror_seq(atts)) =~= attacker_values(values, atts));
    assert(exchange_gains(m, s2, t2, values) == exchange_gains(b, source, target, values));
}

} // verus!
