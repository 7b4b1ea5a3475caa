use vstd::prelude::*;

use crate::base::bitboard::{bits, increasing, lemma_bits_ops, lemma_bits_finite, lemma_bits_min, loc, BitBoard};
use crate::base::pieces::{control_set, Class, Piece};
use crate::base::square::{idxs, square_at, lemma_square_at, lemma_square_idx, Square};
use crate::base::reflect::Reflectable;
use crate::base::types::Side;

verus! {

broadcast use lemma_square_idx, lemma_square_at;

/// The pieces of a board, on each square and as one board per piece
/// (indexed by `Piece::idx`) and per side (white first).
#[derive(Debug, Copy, Clone, PartialEq, Eq)]
pub struct BoardPieces {
    pub piece_locs: [Option<Piece>; 64],
    pub piece_boards: [BitBoard; 12],
    pub side_boards: [BitBoard; 2],
}

impl BoardPieces {
    /// The boards agree with the pieces on the squares.
    pub open spec fn consistent(&self) -> bool {
        &&& forall|i: int, p: Piece|
            0 <= i < 64 ==> (#[trigger] bits(self.piece_boards@[p.idx()].0).contains(i) <==> self.piece_locs@[i]
                == Some(p))
        &&& forall|i: int|
            0 <= i < 64 ==> (#[trigger] bits(self.side_boards@[0].0).contains(i) <==> (
            self.piece_locs@[i] matches Some(p) && p.0 == Side::W))
        &&& forall|i: int|
            0 <= i < 64 ==> (#[trigger] bits(self.side_boards@[1].0).contains(i) <==> (
            self.piece_locs@[i] matches Some(p) && p.0 == Side::B))
    }

    /// The occupied squares, as a word.
    pub open spec fn occupied(&self) -> u64 {
        self.side_boards@[0].0 | self.side_boards@[1].0
    }
}

/// Whether a class of piece slides, and so can attack through a piece
/// that moves out of its way.
pub open spec fn can_xray(class: Class) -> bool {
    class == Class::B || class == Class::R || class == Class::Q
}

/// The squares from which a piece could attack the target: those a queen
/// or a knight on the target would control on an empty board.
pub open spec fn attack_constraints(target: int) -> Set<int> {
    control_set(Piece(Side::W, Class::Q), target, 0).union(
        control_set(Piece(Side::W, Class::N), target, 0),
    )
}

/// Whether the piece on square `i` attacks the target directly.
pub open spec fn attacks_directly(b: BoardPieces, i: int, target: int) -> bool {
    match b.piece_locs@[i] {
        Some(p) => (!can_xray(p.1) || control_set(p, i, 0).contains(target)) && control_set(
            p,
            i,
            b.occupied(),
        ).contains(target),
        None => false,
    }
}

/// Whether the piece on square `i` is a slider that would attack the
/// target once the pieces in its way move.
pub open spec fn attacks_behind(b: BoardPieces, i: int, target: int) -> bool {
    match b.piece_locs@[i] {
        Some(p) => can_xray(p.1) && control_set(p, i, 0).contains(target) && !control_set(
            p,
            i,
            b.occupied(),
        ).contains(target),
        None => false,
    }
}

/// The pieces that attack or defend the target directly.
pub open spec fn direct_attadef(b: BoardPieces, target: int) -> Set<int> {
    Set::new(
        |i: int|
            0 <= i < 64 && attack_constraints(target).contains(i) && attacks_directly(b, i, target),
    )
}

/// The sliders that would attack or defend the target once the pieces in
/// their way move.
pub open spec fn xray_attadef(b: BoardPieces, target: int) -> Set<int> {
    Set::new(
        |i: int|
            0 <= i < 64 && attack_constraints(target).contains(i) && attacks_behind(b, i, target),
    )
}

/// Whether the piece on square `s` reaches the target once the removed
/// pieces are off the board.
pub open spec fn reaches(b: BoardPieces, s: int, target: int, removed: u64) -> bool {
    match b.piece_locs@[s] {
        Some(p) => control_set(p, s, b.occupied() & !removed).contains(target),
        None => false,
    }
}

/// The sliders behind that now reach the target, once the removed pieces
/// are off the board.
pub open spec fn unlocked(b: BoardPieces, target: int, removed: u64, xray: Set<int>) -> Set<int> {
    Set::new(|s: int| xray.contains(s) && reaches(b, s, target, removed))
}

/// The class at a position in the order P, N, B, R, Q, K.
pub open spec fn class_at(k: int) -> Class {
    if k == 0 {
        Class::P
    } else if k == 1 {
        Class::N
    } else if k == 2 {
        Class::B
    } else if k == 3 {
        Class::R
    } else if k == 4 {
        Class::Q
    } else {
        Class::K
    }
}

/// The least element of a set of indices.
pub open spec fn set_min(s: Set<int>) -> int {
    choose|m: int| s.contains(m) && forall|i: int| s.contains(i) ==> m <= i
}

/// The square of the least valuable piece of a side among the options,
/// looking from the class at position `k` on: the least index among the
/// pieces of the first class that has any.
pub open spec fn least_valuable_from(b: BoardPieces, options: Set<int>, side: Side, k: int) -> Option<
    int,
>
    decreases 6 - k,
{
    if k >= 6 || k < 0 {
        None
    } else {
        let s = bits(b.piece_boards@[Piece(side, class_at(k)).idx()].0).intersect(options);
        if s != Set::<int>::empty() {
            Some(set_min(s))
        } else {
            least_valuable_from(b, options, side, k + 1)
        }
    }
}

/// Whether a class can attack through others.
fn can_xray_class(class: Class) -> (r: bool)
    ensures
        r == can_xray(class),
{
    match class {
        Class::B | Class::R | Class::Q => true,
        Class::P | Class::N | Class::K => false,
    }
}

/// The squares from which a piece could attack the target.
pub fn compute_attack_location_constraints(target: Square) -> (r: BitBoard)
    ensures
        r@ == attack_constraints(target.idx()),
{
    let q = Piece(Side::W, Class::Q).empty_control(target);
    let n = Piece(Side::W, Class::N).empty_control(target);
    proof {
        lemma_bits_ops(q.0, n.0);
    }
    q | n
}

/// The square of the least valuable piece of a side among the options, as
/// a board of that one square; empty if the side has none there.
fn least_valuable_piece(b: &BoardPieces, options: BitBoard, side: Side) -> (r: BitBoard)
    ensures
        match least_valuable_from(*b, options@, side, 0) {
            Some(m) => r@ == set![m],
            None => r@ == Set::<int>::empty(),
        },
{
    let classes = [Class::P, Class::N, Class::B, Class::R, Class::Q, Class::K];
    let mut k: usize = 0;
    while k < 6
        invariant
            k <= 6,
            classes@ == seq![Class::P, Class::N, Class::B, Class::R, Class::Q, Class::K],
            least_valuable_from(*b, options@, side, 0) == least_valuable_from(
                *b,
                options@,
                side,
                k as int,
            ),
        decreases 6 - k,
    {
        let locs = b.piece_boards[Piece(side, classes[k]).index()];
        assert(classes@[k as int] == class_at(k as int));
        let both = locs & options;
        proof {
            lemma_bits_ops(locs.0, options.0);
        }
        if let Some(sq) = both.first() {
            proof {
                let s = both@;
                assert(s.contains(sq.idx()) && forall|i: int| s.contains(i) ==> sq.idx() <= i);
                assert(set_min(s) == sq.idx()) by {
                    let m = set_min(s);
                    assert(s.contains(m) && forall|i: int| s.contains(i) ==> m <= i);
                }
                lemma_bits_ops(0, 0);
            }
            return BitBoard(loc(sq));
        }
        k = k + 1;
    }
    proof {
        lemma_bits_ops(0, 0);
    }
    BitBoard(0)
}

/// The pieces that attack or defend the target directly, and the sliders
/// behind that would once the pieces in their way move.
#[verifier::spinoff_prover]
fn pieces_involved(b: &BoardPieces, target: Square) -> (r: (BitBoard, BitBoard))
    ensures
        r.0@ == direct_attadef(*b, target.idx()),
        r.1@ == xray_attadef(*b, target.idx()),
{
    let occupied = b.side_boards[0] | b.side_boards[1];
    let constraints = compute_attack_location_constraints(target);
    let ghost t = target.idx();
    let mut attadef: u64 = 0;
    let mut xray: u64 = 0;
    proof {
        lemma_bits_ops(0, 0);
        assert(bits(0) =~= Set::new(
            |j: int| 0 <= j < 0 && attack_constraints(t).contains(j) && attacks_directly(*b, j, t),
        ));
        assert(bits(0) =~= Set::new(
            |j: int| 0 <= j < 0 && attack_constraints(t).contains(j) && attacks_behind(*b, j, t),
        ));
    }
    let mut i: usize = 0;
    while i < 64
        invariant
            i <= 64,
            t == target.idx(),
            occupied.0 == b.occupied(),
            constraints@ == attack_constraints(t),
            bits(attadef) == Set::new(
                |j: int|
                    0 <= j < i && attack_constraints(t).contains(j) && attacks_directly(*b, j, t),
            ),
            bits(xray) == Set::new(
                |j: int| 0 <= j < i && attack_constraints(t).contains(j) && attacks_behind(*b, j, t),
            ),
        decreases 64 - i,
    {
        let sq = Square::from_index(i);
        let ghost old_a = bits(attadef);
        let ghost old_x = bits(xray);
        let mut add_a = false;
        let mut add_x = false;
        if constraints.contains(sq) {
            if let Some(p) = b.piece_locs[i] {
                let direct = p.control(sq, occupied).contains(target);
                if can_xray_class(p.1) {
                    if p.empty_control(sq).contains(target) {
                        if direct {
                            add_a = true;
                        } else {
                            add_x = true;
                        }
                    }
                } else if direct {
                    add_a = true;
                }
            }
        }
        assert(add_a == (attack_constraints(t).contains(i as int) && attacks_directly(*b, i as int, t)));
        assert(add_x == (attack_constraints(t).contains(i as int) && attacks_behind(*b, i as int, t)));
        let bit = loc(sq);
        if add_a {
            proof {
                lemma_bits_ops(attadef, bit);
            }
            attadef = attadef | bit;
        }
        if add_x {
            proof {
                lemma_bits_ops(xray, bit);
            }
            xray = xray | bit;
        }
        proof {
            assert(bits(attadef) =~= Set::new(
                |j: int|
                    0 <= j < i + 1 && attack_constraints(t).contains(j) && attacks_directly(*b, j, t),
            ));
            assert(bits(xray) =~= Set::new(
                |j: int|
                    0 <= j < i + 1 && attack_constraints(t).contains(j) && attacks_behind(*b, j, t),
            ));
        }
        i = i + 1;
    }
    proof {
        assert(bits(attadef) =~= direct_attadef(*b, t));
        assert(bits(xray) =~= xray_attadef(*b, t));
    }
    (BitBoard(attadef), BitBoard(xray))
}

/// After the pieces of `all_removed` left the board, the last of them
/// being `last_removed`: the sliders behind that now reach the target move
/// from the x-ray set to the attackers and defenders. A knight leaving
/// cannot open a line.
#[verifier::spinoff_prover]
fn update_xray(
    b: &BoardPieces,
    target: Square,
    all_removed: u64,
    last_removed: Piece,
    attadef: u64,
    xray: u64,
) -> (r: (u64, u64))
    requires
        forall|s: int| #[trigger] bits(xray).contains(s) ==> b.piece_locs@[s] is Some,
        bits(attadef).disjoint(bits(xray)),
    ensures
        xray == 0 || last_removed.1 == Class::N ==> r == (attadef, xray),
        !(xray == 0 || last_removed.1 == Class::N) ==> bits(r.0) == bits(attadef).union(
            unlocked(*b, target.idx(), all_removed, bits(xray)),
        ) && bits(r.1) == bits(xray).difference(unlocked(*b, target.idx(), all_removed, bits(xray))),
{
    if xray == 0 || last_removed.1 == Class::N {
        return (attadef, xray);
    }
    let occupied = BitBoard((b.side_boards[0].0 | b.side_boards[1].0) & !all_removed);
    let squares = BitBoard(xray).iter();
    let ghost t = target.idx();
    let ghost un = unlocked(*b, t, all_removed, bits(xray));
    let mut new_attadef = attadef;
    let mut new_xray = xray;
    let mut k: usize = 0;
    while k < squares.len()
        invariant
            k <= squares@.len(),
            t == target.idx(),
            occupied.0 == b.occupied() & !all_removed,
            increasing(idxs(squares@)),
            idxs(squares@).to_set() == bits(xray),
            forall|s: int| #[trigger] bits(xray).contains(s) ==> b.piece_locs@[s] is Some,
            bits(attadef).disjoint(bits(xray)),
            un == unlocked(*b, t, all_removed, bits(xray)),
            bits(new_attadef) == bits(attadef).union(
                Set::new(|s: int| un.contains(s) && exists|q: int| 0 <= q < k && squares@[q].idx() == s),
            ),
            bits(new_xray) == bits(xray).difference(
                Set::new(|s: int| un.contains(s) && exists|q: int| 0 <= q < k && squares@[q].idx() == s),
            ),
        decreases squares@.len() - k,
    {
        let square = squares[k];
        proof {
            assert(idxs(squares@)[k as int] == square.idx());
            assert(idxs(squares@).to_set().contains(square.idx()));
        }
        let p = b.piece_locs[square.index()].unwrap();
        let ghost old_a = bits(new_attadef);
        let ghost old_x = bits(new_xray);
        if p.control(square, occupied).contains(target) {
            let bit = loc(square);
            proof {
                lemma_bits_ops(new_attadef, bit);
                lemma_bits_ops(new_xray, bit);
                assert(un.contains(square.idx()));
                assert(!old_a.contains(square.idx())) by {
                    assert forall|q: int| 0 <= q < k implies squares@[q].idx() != square.idx() by {
                        assert(idxs(squares@)[q] < idxs(squares@)[k as int]);
                    }
                }
                assert(old_x.contains(square.idx())) by {
                    assert forall|q: int| 0 <= q < k implies squares@[q].idx() != square.idx() by {
                        assert(idxs(squares@)[q] < idxs(squares@)[k as int]);
                    }
                }
            }
            new_attadef = new_attadef ^ bit;
            new_xray = new_xray ^ bit;
            proof {
                assert(bits(new_attadef) =~= bits(attadef).union(
                    Set::new(
                        |s: int| un.contains(s) && exists|q: int| 0 <= q < k + 1 && squares@[q].idx() == s,
                    ),
                )) by {
                    assert(squares@[k as int].idx() == square.idx());
                }
                assert(bits(new_xray) =~= bits(xray).difference(
                    Set::new(
                        |s: int| un.contains(s) && exists|q: int| 0 <= q < k + 1 && squares@[q].idx() == s,
                    ),
                )) by {
                    assert(squares@[k as int].idx() == square.idx());
                }
            }
        } else {
            proof {
                assert(!un.contains(square.idx()));
                assert(bits(new_attadef) =~= bits(attadef).union(
                    Set::new(
                        |s: int| un.contains(s) && exists|q: int| 0 <= q < k + 1 && squares@[q].idx() == s,
                    ),
                ));
                assert(bits(new_xray) =~= bits(xray).difference(
                    Set::new(
                        |s: int| un.contains(s) && exists|q: int| 0 <= q < k + 1 && squares@[q].idx() == s,
                    ),
                ));
            }
        }
        k = k + 1;
    }
    proof {
        let done = Set::new(
            |s: int| un.contains(s) && exists|q: int| 0 <= q < squares@.len() && squares@[q].idx() == s,
        );
        assert(done =~= un) by {
            assert forall|s: int| un.contains(s) implies done.contains(s) by {
                assert(idxs(squares@).contains(s));
                let q = choose|q: int| 0 <= q < idxs(squares@).len() && idxs(squares@)[q] == s;
                assert(squares@[q].idx() == s);
            }
        }
    }
    (new_attadef, new_xray)
}

/// One capture of the exchange on the target: the piece on `src` captures,
/// leaves the attackers and defenders and is added to the removed pieces;
/// the sliders it uncovers join; then the other side answers with its
/// least valuable piece, if it has one.
pub open spec fn see_next(
    b: BoardPieces,
    target: int,
    attadef: Set<int>,
    xray: Set<int>,
    removed: u64,
    active: Side,
    src: int,
    attacker: Piece,
) -> (Set<int>, Set<int>, u64, Side, Option<int>) {
    let a1 = attadef.remove(src);
    let r1 = removed ^ (1u64 << (src as u64));
    let (a2, x2) = if xray == Set::<int>::empty() || attacker.1 == Class::N {
        (a1, xray)
    } else {
        let u = unlocked(b, target, r1, xray);
        (a1.union(u), xray.difference(u))
    };
    let act = active.other();
    (a2, x2, r1, act, least_valuable_from(b, a2, act, 0))
}

/// The pieces that capture on the target in turn, starting with the
/// attacker on `src`, each side answering with its least valuable piece
/// that reaches the target until one side has none left.
pub open spec fn see_attackers(
    b: BoardPieces,
    target: int,
    attadef: Set<int>,
    xray: Set<int>,
    removed: u64,
    active: Side,
    src: int,
    attacker: Piece,
) -> Seq<Piece>
    decreases attadef.union(xray).len(),
    when attadef.contains(src) && attadef.disjoint(xray) && attadef.union(xray).finite()
    via see_attackers_decreases
{
    let (a2, x2, r1, act, nxt) = see_next(b, target, attadef, xray, removed, active, src, attacker);
    match nxt {
        None => seq![attacker],
        Some(s) => seq![attacker] + see_attackers(
            b,
            target,
            a2,
            x2,
            r1,
            act,
            s,
            b.piece_locs@[s]->Some_0,
        ),
    }
}

#[via_fn]
proof fn see_attackers_decreases(
    b: BoardPieces,
    target: int,
    attadef: Set<int>,
    xray: Set<int>,
    removed: u64,
    active: Side,
    src: int,
    attacker: Piece,
) {
    let (a2, x2, r1, act, nxt) = see_next(b, target, attadef, xray, removed, active, src, attacker);
    assert(a2.union(x2) =~= attadef.union(xray).remove(src));
}

/// The least valuable piece is one of the options, and a piece of the side
/// stands on its square.
pub proof fn lemma_least_valuable_member(b: BoardPieces, options: Set<int>, side: Side, k: int)
    requires
        b.consistent(),
    ensures
        least_valuable_from(b, options, side, k) matches Some(m) ==> options.contains(m) && 0 <= m
            < 64 && b.piece_locs@[m] is Some,
    decreases 6 - k,
{
    if 0 <= k < 6 {
        let p = Piece(side, class_at(k));
        let w = b.piece_boards@[p.idx()].0;
        let s = bits(w).intersect(options);
        if s != Set::<int>::empty() {
            lemma_bits_finite(w);
            if !(exists|x: int| s.contains(x)) {
                assert(s =~= Set::<int>::empty());
            }
            let x = s.choose();
            assert(s.contains(x));
            let m = set_min(s);
            assert(exists|m: int| s.contains(m) && forall|i: int| s.contains(i) ==> m <= i) by {
                lemma_set_has_min(s, x);
            }
            assert(s.contains(m));
            assert(bits(w).contains(m));
            assert(0 <= m < 64);
            assert(b.piece_locs@[m] == Some(p));
        } else {
            lemma_least_valuable_member(b, options, side, k + 1);
        }
    }
}

/// A finite nonempty set of indices has a least element.
pub proof fn lemma_set_has_min(s: Set<int>, x: int)
    requires
        s.finite(),
        s.contains(x),
    ensures
        exists|m: int| s.contains(m) && forall|i: int| s.contains(i) ==> m <= i,
    decreases s.len(),
{
    let rest = s.remove(x);
    if rest.len() == 0 {
        assert forall|i: int| s.contains(i) implies x <= i by {
            if i != x {
                assert(rest.contains(i));
            }
        }
    } else {
        let y = rest.choose();
        assert(rest.contains(y));
        lemma_set_has_min(rest, y);
        let m = choose|m: int| rest.contains(m) && forall|i: int| rest.contains(i) ==> m <= i;
        if x < m {
            assert forall|i: int| s.contains(i) implies x <= i by {
                if i != x {
                    assert(rest.contains(i));
                }
            }
        } else {
            assert forall|i: int| s.contains(i) implies m <= i by {
                if i != x {
                    assert(rest.contains(i));
                }
            }
        }
    }
}

/// One capture unfolds the exchange: the capturing piece, then the rest
/// from the state after it.
pub proof fn lemma_see_step(
    b: BoardPieces,
    target: int,
    attadef: Set<int>,
    xray: Set<int>,
    removed: u64,
    active: Side,
    src: int,
    attacker: Piece,
)
    requires
        b.consistent(),
        attadef.contains(src),
        attadef.disjoint(xray),
        attadef.union(xray).finite(),
    ensures
        see_next(b, target, attadef, xray, removed, active, src, attacker).0.union(
            see_next(b, target, attadef, xray, removed, active, src, attacker).1,
        ) =~= attadef.union(xray).remove(src),
        see_next(b, target, attadef, xray, removed, active, src, attacker).0.disjoint(
            see_next(b, target, attadef, xray, removed, active, src, attacker).1,
        ),
        see_next(b, target, attadef, xray, removed, active, src, attacker).1.subset_of(xray),
        see_attackers(b, target, attadef, xray, removed, active, src, attacker) == match see_next(
            b,
            target,
            attadef,
            xray,
            removed,
            active,
            src,
            attacker,
        ).4 {
            None => seq![attacker],
            Some(s) => seq![attacker] + see_attackers(
                b,
                target,
                see_next(b, target, attadef, xray, removed, active, src, attacker).0,
                see_next(b, target, attadef, xray, removed, active, src, attacker).1,
                see_next(b, target, attadef, xray, removed, active, src, attacker).2,
                see_next(b, target, attadef, xray, removed, active, src, attacker).3,
                s,
                b.piece_locs@[s]->Some_0,
            ),
        },
{
    let sn = see_next(b, target, attadef, xray, removed, active, src, attacker);
    let (a2, x2, r1, act, nxt) = sn;
    assert(a2.union(x2) =~= attadef.union(xray).remove(src));
    assert(a2.disjoint(x2));
    match nxt {
        None => {
            assert(see_attackers(b, target, attadef, xray, removed, active, src, attacker) == seq![
                attacker,
            ]);
        },
        Some(s) => {
            lemma_least_valuable_member(b, a2, act, 0);
            assert(a2.contains(s));
            assert(a2.union(x2).finite());
            assert(see_attackers(b, target, attadef, xray, removed, active, src, attacker) == seq![
                attacker,
            ] + see_attackers(b, target, a2, x2, r1, act, s, b.piece_locs@[s]->Some_0));
        },
    }
}

/// A board of one square is the word with that one bit.
proof fn lemma_single_word(x: u64, m: int)
    requires
        0 <= m < 64,
        bits(x) == set![m],
    ensures
        x == 1u64 << (m as u64),
{
    crate::base::bitboard::lemma_bits_single(m as u64);
    crate::base::bitboard::lemma_bits_ext(x, 1u64 << (m as u64));
}

/// The gains of the exchange: first the value of the victim, then for each
/// capture the value of the capturing piece less the gain before.
pub open spec fn gain_seq(victim: int, vals: Seq<int>) -> Seq<int>
    decreases vals.len(),
{
    if vals.len() == 0 {
        seq![victim]
    } else {
        let p = gain_seq(victim, vals.drop_last());
        p.push(vals.last() - p.last())
    }
}

/// The value of the exchange from the gains, each side stopping when going
/// on would lose: from the last gain back to the first.
pub open spec fn settle(g: Seq<int>) -> int
    decreases g.len(),
{
    if g.len() <= 1 {
        g[0]
    } else {
        let rest = settle(g.drop_first());
        -(if -g[0] < rest {
            rest
        } else {
            -g[0]
        })
    }
}

/// The values of the capturing pieces.
pub open spec fn attacker_values(values: Seq<i32>, atts: Seq<Piece>) -> Seq<int> {
    atts.map_values(|p: Piece| values[p.1.idx()] as int)
}

/// The pieces that capture in turn on the target, from the one on the
/// source square.
pub open spec fn exchange_attackers(b: BoardPieces, source: Square, target: Square) -> Seq<Piece> {
    let a = b.piece_locs@[source.idx()]->Some_0;
    see_attackers(
        b,
        target.idx(),
        direct_attadef(b, target.idx()),
        xray_attadef(b, target.idx()),
        0,
        a.0,
        source.idx(),
        a,
    )
}

/// The gains of the exchange on the target started from the source.
pub open spec fn exchange_gains(b: BoardPieces, source: Square, target: Square, values: Seq<i32>) -> Seq<
    int,
> {
    gain_seq(
        values[(b.piece_locs@[target.idx()]->Some_0).1.idx()] as int,
        attacker_values(values, exchange_attackers(b, source, target)),
    )
}

/// The static exchange value of capturing on the target from the source:
/// positive when the exchange wins material for the attacker.
pub open spec fn see_value(b: BoardPieces, source: Square, target: Square, values: Seq<i32>) -> int {
    settle(exchange_gains(b, source, target, values).drop_last())
}

proof fn lemma_gain_seq_len(victim: int, vals: Seq<int>)
    ensures
        gain_seq(victim, vals).len() == vals.len() + 1,
        gain_seq(victim, vals)[0] == victim,
    decreases vals.len(),
{
    if vals.len() > 0 {
        lemma_gain_seq_len(victim, vals.drop_last());
    }
}

proof fn lemma_gain_seq_prefix(victim: int, vals: Seq<int>, k: int)
    requires
        0 <= k <= vals.len(),
    ensures
        gain_seq(victim, vals.take(k)) == gain_seq(victim, vals).take(k + 1),
    decreases vals.len(),
{
    lemma_gain_seq_len(victim, vals);
    lemma_gain_seq_len(victim, vals.take(k));
    if k < vals.len() {
        lemma_gain_seq_prefix(victim, vals.drop_last(), k);
        assert(vals.drop_last().take(k) =~= vals.take(k));
        lemma_gain_seq_len(victim, vals.drop_last());
        assert(gain_seq(victim, vals).take(k + 1) =~= gain_seq(victim, vals.drop_last()).take(
            k + 1,
        ));
    } else {
        assert(vals.take(k) =~= vals);
        assert(gain_seq(victim, vals).take(k + 1) =~= gain_seq(victim, vals));
    }
}

proof fn lemma_settle_bounded(g: Seq<int>)
    requires
        g.len() >= 1,
        forall|i: int| 0 <= i < g.len() ==> -i32::MAX <= #[trigger] g[i] <= i32::MAX,
    ensures
        -i32::MAX <= settle(g) <= i32::MAX,
    decreases g.len(),
{
    if g.len() > 1 {
        lemma_settle_bounded(g.drop_first());
    }
}

/// The value of an exchange is never more than its first gain.
proof fn lemma_settle_at_most_first(g: Seq<int>)
    requires
        g.len() >= 1,
    ensures
        settle(g) <= g[0],
    decreases g.len(),
{
}

/// Each gain after the first is the value of the capturing piece less the
/// gain before.
proof fn lemma_gain_seq_step(victim: int, vals: Seq<int>, k: int)
    requires
        0 <= k < vals.len(),
    ensures
        gain_seq(victim, vals)[k + 1] == vals[k] - gain_seq(victim, vals)[k],
    decreases vals.len(),
{
    lemma_gain_seq_len(victim, vals);
    lemma_gain_seq_len(victim, vals.drop_last());
    if k < vals.len() - 1 {
        lemma_gain_seq_step(victim, vals.drop_last(), k);
        assert(gain_seq(victim, vals).take(vals.len() as int) == gain_seq(victim, vals.drop_last()));
    }
}

/// With piece values that are not negative, the static exchange value lies
/// between the value of the victim less that of the piece that captures
/// first, and the value of the victim: the attacker can always stop after
/// its first capture, and never wins more than the victim.
pub proof fn lemma_see_bounds(b: BoardPieces, source: Square, target: Square, values: Seq<i32>)
    requires
        b.piece_locs@[source.idx()] is Some,
        b.piece_locs@[target.idx()] is Some,
        direct_attadef(b, target.idx()).contains(source.idx()),
        values.len() == 6,
        forall|k: int| 0 <= k < 6 ==> #[trigger] values[k] >= 0,
    ensures
        values[(b.piece_locs@[target.idx()]->Some_0).1.idx()] - values[(b.piece_locs@[
            source.idx()
        ]->Some_0).1.idx()] <= see_value(b, source, target, values) <= values[(
        b.piece_locs@[target.idx()]->Some_0).1.idx()],
{
    let t = target.idx();
    let a = b.piece_locs@[source.idx()]->Some_0;
    let x = b.piece_locs@[t]->Some_0;
    crate::brain::see_symmetry::lemma_attadef_facts(b, t);
    let atts = exchange_attackers(b, source, target);
    assert(atts.len() >= 1 && atts[0] == a);
    let vals = attacker_values(values, atts);
    let victim = values[x.1.idx()] as int;
    let gs = gain_seq(victim, vals);
    lemma_gain_seq_len(victim, vals);
    let g = gs.drop_last();
    assert(g[0] == victim);
    lemma_settle_at_most_first(g);
    if g.len() >= 2 {
        lemma_gain_seq_step(victim, vals, 0);
        assert(vals[0] == values[a.1.idx()] as int);
        assert(g[1] == values[a.1.idx()] - victim);
        lemma_settle_at_most_first(g.drop_first());
        assert(g.drop_first()[0] == g[1]);
    }
}

/// Every gain of the exchange fits in `i32` with its negation.
pub open spec fn see_fits(b: BoardPieces, source: Square, target: Square, values: Seq<i32>) -> bool {
    forall|i: int|
        0 <= i < exchange_gains(b, source, target, values).len() ==> -i32::MAX <= #[trigger] exchange_gains(
            b,
            source,
            target,
            values,
        )[i] <= i32::MAX
}

/// Determines whether an exchange is good on the given board: the piece on
/// the source square captures the piece on the target square and the sides
/// then take turns recapturing with their least valuable piece, each side
/// free to stop. The value is from the point of view of the attacker,
/// higher is better: positive means a good exchange, negative a bad one.
/// Both squares must hold a piece, the source piece must attack the target
/// directly, and the pieces should be on opposing sides (the value is
/// meaningless otherwise).
#[verifier::rlimit(50)]
#[verifier::spinoff_prover]
pub fn exchange_value(b: &BoardPieces, source: Square, target: Square, values: &[i32; 6]) -> (r: i32)
    requires
        b.consistent(),
        b.piece_locs@[source.idx()] is Some,
        b.piece_locs@[target.idx()] is Some,
        direct_attadef(*b, target.idx()).contains(source.idx()),
        see_fits(*b, source, target, values@),
    ensures
        r == see_value(*b, source, target, values@),
{
    let first_attacker = b.piece_locs[source.index()].unwrap();
    let first_victim = b.piece_locs[target.index()].unwrap();
    let ghost t = target.idx();
    let ghost atts = exchange_attackers(*b, source, target);
    let ghost vals = attacker_values(values@, atts);
    let ghost victim = values@[first_victim.1.idx()] as int;
    let ghost gs = gain_seq(victim, vals);
    let mut gain: Vec<i32> = vec![values[first_victim.1.index()]];
    let mut attacker = first_attacker;
    let mut active = first_attacker.0;
    let mut src = BitBoard(loc(source));
    let ghost mut src_idx = source.idx();
    let mut removed: u64 = 0;
    let (attadef0, xray0) = pieces_involved(b, target);
    let mut attadef = attadef0.0;
    let mut xray = xray0.0;
    let ghost mut done: Seq<Piece> = Seq::empty();
    proof {
        lemma_bits_finite(attadef);
        lemma_bits_finite(xray);
        lemma_gain_seq_len(victim, vals);
        assert(vals.take(0) =~= Seq::<int>::empty());
        lemma_gain_seq_prefix(victim, vals, 0);
        assert(gain@ =~= gs.take(1).map_values(|x: int| x as i32));
        assert(atts =~= done + see_attackers(
            *b,
            t,
            bits(attadef),
            bits(xray),
            removed,
            active,
            src_idx,
            attacker,
        ));
    }
    loop
        invariant_except_break
            bits(attadef).contains(src_idx),
            src@ == set![src_idx],
            src.0 == 1u64 << (src_idx as u64),
            0 <= src_idx < 64,
            atts == done + see_attackers(
                *b,
                t,
                bits(attadef),
                bits(xray),
                removed,
                active,
                src_idx,
                attacker,
            ),
        invariant
            b.consistent(),
            t == target.idx(),
            atts == exchange_attackers(*b, source, target),
            vals == attacker_values(values@, atts),
            gs == gain_seq(victim, vals),
            gs.len() == vals.len() + 1,
            see_fits(*b, source, target, values@),
            gs == exchange_gains(*b, source, target, values@),
            bits(attadef).disjoint(bits(xray)),
            bits(xray).subset_of(xray_attadef(*b, t)),
            gain@.len() == done.len() + 1,
            forall|i: int| 0 <= i < gain@.len() ==> gain@[i] as int == #[trigger] gs[i],
            done.len() <= atts.len(),
            done == atts.take(done.len() as int),
        ensures
            done == atts,
            gain@.len() == atts.len() + 1,
        decreases bits(attadef).union(bits(xray)).len(),
    {
        proof {
            lemma_bits_finite(attadef);
            lemma_bits_finite(xray);
            let rest = see_attackers(*b, t, bits(attadef), bits(xray), removed, active, src_idx, attacker);
            assert(rest.len() >= 1 && rest[0] == attacker);
            assert(atts[done.len() as int] == attacker);
            assert(vals[done.len() as int] == values@[attacker.1.idx()] as int);
            lemma_gain_seq_len(victim, vals);
            lemma_gain_seq_prefix(victim, vals, done.len() as int + 1);
            lemma_gain_seq_prefix(victim, vals, done.len() as int);
            let k = done.len() as int;
            assert(vals.take(k + 1).drop_last() =~= vals.take(k));
            assert(gain_seq(victim, vals.take(k + 1)) == gain_seq(victim, vals.take(k)).push(
                vals[k] - gain_seq(victim, vals.take(k)).last(),
            ));
            assert(gain_seq(victim, vals.take(k + 1)) == gs.take(k + 2));
            assert(gain_seq(victim, vals.take(k)) == gs.take(k + 1));
            assert(gain_seq(victim, vals.take(k)).last() == gs[k]);
            assert(gs.take(k + 2)[k + 1] == gs[k + 1]);
            assert(gs[k + 1] == vals[k] - gs[k]);
            assert(-i32::MAX <= gs[done.len() as int + 1] <= i32::MAX);
        }
        let last = gain[gain.len() - 1];
        gain.push(values[attacker.1.index()] - last);
        let ghost old_a = bits(attadef);
        let ghost old_x = bits(xray);
        let ghost old_removed = removed;
        let ghost old_active = active;
        let ghost old_src = src_idx;
        let ghost old_attacker = attacker;
        proof {
            lemma_bits_ops(attadef, src.0);
            lemma_bits_ops(removed, src.0);
        }
        attadef = attadef ^ src.0;
        removed = removed ^ src.0;
        assert(bits(attadef) =~= old_a.remove(old_src));
        proof {
            assert forall|s: int| #[trigger] bits(xray).contains(s) implies b.piece_locs@[s] is Some by {
                assert(xray_attadef(*b, t).contains(s));
            }
            lemma_bits_min(xray);
        }
        let (new_attadef, new_xray) = update_xray(b, target, removed, attacker, attadef, xray);
        attadef = new_attadef;
        xray = new_xray;
        active = active.reflect();
        let next = least_valuable_piece(b, BitBoard(attadef), active);
        proof {
            done = done.push(old_attacker);
            let (a2, x2, r1, act, nxt) = see_next(
                *b,
                t,
                old_a,
                old_x,
                old_removed,
                old_active,
                old_src,
                old_attacker,
            );
            assert(bits(attadef) == a2);
            assert(bits(xray) == x2);
            assert(removed == r1);
            assert(active == act);
        }
        proof {
            assert(old_a.finite() && old_x.finite());
            lemma_least_valuable_member(*b, bits(attadef), active, 0);
            lemma_see_step(*b, t, old_a, old_x, old_removed, old_active, old_src, old_attacker);
            lemma_bits_ops(attadef, xray);
        }
        match next.first() {
            None => {
                proof {
                    assert(least_valuable_from(*b, bits(attadef), active, 0) is None);
                    assert(atts =~= done);
                }
                break;
            },
            Some(sq) => {
                proof {
                    src_idx = sq.idx();
                    assert(least_valuable_from(*b, bits(attadef), active, 0) == Some(sq.idx()));
                }
                src = next;
                attacker = b.piece_locs[sq.index()].unwrap();
                proof {
                    lemma_single_word(src.0, src_idx);
                    assert(atts =~= done + see_attackers(
                        *b,
                        t,
                        bits(attadef),
                        bits(xray),
                        removed,
                        active,
                        src_idx,
                        attacker,
                    ));
                }
            },
        }
    }
    let mut d: usize = gain.len() - 2;
    proof {
        lemma_gain_seq_len(victim, vals);
        assert(gain@.len() == gs.len());
        let s = gs.drop_last();
        assert(s.subrange(d as int, s.len() as int) =~= seq![s[d as int]]);
    }
    while d > 0
        invariant
            d < gain@.len() - 1,
            gain@.len() == gs.len(),
            gs.len() >= 2,
            see_fits(*b, source, target, values@),
            gs == exchange_gains(*b, source, target, values@),
            forall|i: int| 0 <= i < d ==> gain@[i] as int == #[trigger] gs[i],
            gain@[d as int] as int == settle(gs.drop_last().subrange(d as int, gs.len() - 1)),
        decreases d,
    {
        let ghost s = gs.drop_last();
        proof {
            assert(-i32::MAX <= gs[d - 1] <= i32::MAX);
            assert forall|i: int| 0 <= i < s.subrange(d as int, s.len() as int).len() implies -i32::MAX
                <= #[trigger] s.subrange(d as int, s.len() as int)[i] <= i32::MAX by {
                assert(s.subrange(d as int, s.len() as int)[i] == gs[d + i]);
            }
            lemma_settle_bounded(s.subrange(d as int, s.len() as int));
        }
        let a = -gain[d - 1];
        let b_ = gain[d];
        let m = if a < b_ {
            b_
        } else {
            a
        };
        gain.set(d - 1, -m);
        proof {
            assert(s.subrange(d - 1, s.len() as int).drop_first() =~= s.subrange(d as int, s.len() as int));
        }
        d = d - 1;
    }
    proof {
        assert(gs.drop_last().subrange(0, gs.len() - 1) =~= gs.drop_last());
    }
    gain[0]
}

} // verus!
