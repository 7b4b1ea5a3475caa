use vstd::prelude::*;

use crate::base::pieces::{Class, Piece};
use crate::base::reflect::Reflectable;
use crate::base::types::Side;
use crate::brain::eval::values::signed_value;
use crate::brain::eval::Evaluation;
use crate::base::square::{lemma_square_at, lemma_square_idx};
use crate::base::types::{king_line, rook_line};
use crate::brain::moves::{move_fits, moved, Move};

verus! {

broadcast use lemma_square_idx, lemma_square_at;

/// Midgame material values of the classes P, N, B, R, Q, K.
pub const MATERIAL_MIDGAME: [i32; 6] = [200, 782, 830, 1289, 2529, 100_000];

/// Endgame material values of the classes P, N, B, R, Q, K.
pub const MATERIAL_ENDGAME: [i32; 6] = [293, 865, 918, 1378, 2687, 100_000];

/// The material value of a piece, positive for white, in the midgame
/// (`mid`) or in the endgame.
pub open spec fn material_value(p: Piece, mid: bool) -> int {
    if mid {
        signed_value(p.0, MATERIAL_MIDGAME@[p.1.idx()])
    } else {
        signed_value(p.0, MATERIAL_ENDGAME@[p.1.idx()])
    }
}

/// The pieces that a move puts on the board (`true`) or takes off it.
pub open spec fn material_steps(mv: Move) -> Seq<(bool, Piece)> {
    match mv {
        Move::Castle { .. } | Move::Null => seq![],
        Move::Standard { capture, .. } => match capture {
            Some(p) => seq![(false, p)],
            None => seq![],
        },
        Move::Enpassant { side, .. } => seq![(false, Piece(side.other(), Class::P))],
        Move::Promotion { promoted, capture, .. } => {
            let base = seq![(false, Piece(promoted.0, Class::P)), (true, promoted)];
            match capture {
                Some(p) => base.push((false, p)),
                None => base,
            }
        },
    }
}

/// The sum of the values of the first `k` steps, made (`forward`) or
/// unmade.
pub open spec fn material_sum(steps: Seq<(bool, Piece)>, forward: bool, mid: bool, k: int) -> int
    decreases k,
{
    if k <= 0 {
        0
    } else {
        material_sum(steps, forward, mid, k - 1) + (if steps[k - 1].0 == forward {
            material_value(steps[k - 1].1, mid)
        } else {
            -material_value(steps[k - 1].1, mid)
        })
    }
}

/// The change of the material value when a move is made (`forward`) or
/// unmade.
pub open spec fn material_delta(mv: Move, forward: bool, mid: bool) -> int {
    material_sum(material_steps(mv), forward, mid, material_steps(mv).len() as int)
}

/// Starting from `start`, no running total of the move's steps leaves `i32`.
pub open spec fn material_fits(start: int, mv: Move, forward: bool, mid: bool) -> bool {
    forall|k: int|
        0 <= k <= material_steps(mv).len() ==> i32::MIN <= start + #[trigger] material_sum(
            material_steps(mv),
            forward,
            mid,
            k,
        ) <= i32::MAX
}

/// The material of the pieces on the first `n` squares of a board.
pub open spec fn locs_material(locs: Seq<Option<Piece>>, mid: bool, n: int) -> int
    decreases n,
{
    if n <= 0 {
        0
    } else {
        locs_material(locs, mid, n - 1) + match locs[n - 1] {
            Some(p) => material_value(p, mid),
            None => 0,
        }
    }
}

/// Evaluates the material on the board, in the midgame and in the endgame,
/// updating the values as moves are made and unmade.
#[derive(Debug, Copy, Clone, PartialEq, Eq)]
pub struct MaterialFacet {
    mid_values: [i32; 6],
    end_values: [i32; 6],
    mid_eval: i32,
    end_eval: i32,
}

impl MaterialFacet {
    #[verifier::type_invariant]
    spec fn inv(self) -> bool {
        self.mid_values == MATERIAL_MIDGAME && self.end_values == MATERIAL_ENDGAME
    }

    /// The midgame value held by the facet.
    pub closed spec fn mid_of(self) -> i32 {
        self.mid_eval
    }

    /// The endgame value held by the facet.
    pub closed spec fn end_of(self) -> i32 {
        self.end_eval
    }

    /// The facet of an empty board.
    pub fn new() -> (r: MaterialFacet)
        ensures
            r.mid_of() == 0,
            r.end_of() == 0,
    {
        MaterialFacet {
            mid_values: MATERIAL_MIDGAME,
            end_values: MATERIAL_ENDGAME,
            mid_eval: 0,
            end_eval: 0,
        }
    }

    /// The facet of the board whose square of index `i` holds `locs[i]`.
    pub fn from_locs(locs: &[Option<Piece>; 64]) -> (r: MaterialFacet)
        ensures
            r.mid_of() == locs_material(locs@, true, 64),
            r.end_of() == locs_material(locs@, false, 64),
    {
        let empty = MaterialFacet::new();
        let mid = empty.compute_midgame_eval(locs);
        let end = empty.compute_endgame_eval(locs);
        MaterialFacet {
            mid_values: MATERIAL_MIDGAME,
            end_values: MATERIAL_ENDGAME,
            mid_eval: mid,
            end_eval: end,
        }
    }

    /// The midgame values of the classes P, N, B, R, Q, K.
    pub fn mid_values(&self) -> (r: [i32; 6])
        ensures
            r == MATERIAL_MIDGAME,
    {
        proof {
            use_type_invariant(self);
        }
        self.mid_values
    }

    /// The value of a piece, positive for white.
    fn value(&self, p: Piece, mid: bool) -> (r: i32)
        ensures
            r == material_value(p, mid),
            -100_000 <= r <= 100_000,
    {
        proof {
            use_type_invariant(self);
        }
        let v = if mid {
            self.mid_values[p.1.index()]
        } else {
            self.end_values[p.1.index()]
        };
        p.0.parity() * v
    }

    /// The material of the pieces of a board.
    fn compute_eval(&self, locs: &[Option<Piece>; 64], mid: bool) -> (r: i32)
        ensures
            r == locs_material(locs@, mid, 64),
    {
        let mut sum: i32 = 0;
        let mut i: usize = 0;
        while i < 64
            invariant
                i <= 64,
                sum == locs_material(locs@, mid, i as int),
                -100_000 * i <= sum <= 100_000 * i,
            decreases 64 - i,
        {
            if let Some(p) = locs[i] {
                sum = sum + self.value(p, mid);
            }
            i = i + 1;
        }
        sum
    }

    /// The midgame material of the pieces of a board.
    pub fn compute_midgame_eval(&self, locs: &[Option<Piece>; 64]) -> (r: i32)
        ensures
            r == locs_material(locs@, true, 64),
    {
        self.compute_eval(locs, true)
    }

    /// The endgame material of the pieces of a board.
    pub fn compute_endgame_eval(&self, locs: &[Option<Piece>; 64]) -> (r: i32)
        ensures
            r == locs_material(locs@, false, 64),
    {
        self.compute_eval(locs, false)
    }

    /// Adds (`add`) or removes the value of a piece.
    fn update(&mut self, add: bool, piece: Piece)
        requires
            i32::MIN <= old(self).mid_eval + (if add {
                material_value(piece, true)
            } else {
                -material_value(piece, true)
            }) <= i32::MAX,
            i32::MIN <= old(self).end_eval + (if add {
                material_value(piece, false)
            } else {
                -material_value(piece, false)
            }) <= i32::MAX,
        ensures
            final(self).mid_eval == old(self).mid_eval + (if add {
                material_value(piece, true)
            } else {
                -material_value(piece, true)
            }),
            final(self).end_eval == old(self).end_eval + (if add {
                material_value(piece, false)
            } else {
                -material_value(piece, false)
            }),
    {
        proof {
            use_type_invariant(&*self);
        }
        let m = self.value(piece, true);
        let e = self.value(piece, false);
        if add {
            self.mid_eval = self.mid_eval + m;
            self.end_eval = self.end_eval + e;
        } else {
            self.mid_eval = self.mid_eval - m;
            self.end_eval = self.end_eval - e;
        }
    }

    /// Applies the steps of a move, made (`forward`) or unmade.
    fn make_impl(&mut self, mv: &Move, forward: bool)
        requires
            material_fits(old(self).mid_eval as int, *mv, forward, true),
            material_fits(old(self).end_eval as int, *mv, forward, false),
        ensures
            final(self).mid_eval == old(self).mid_eval + material_delta(*mv, forward, true),
            final(self).end_eval == old(self).end_eval + material_delta(*mv, forward, false),
    {
        let steps = material_steps_of(mv);
        let ghost st = material_steps(*mv);
        let ghost mid0 = self.mid_eval as int;
        let ghost end0 = self.end_eval as int;
        let mut i: usize = 0;
        while i < steps.len()
            invariant
                steps@ == st,
                st == material_steps(*mv),
                i <= st.len(),
                material_fits(mid0, *mv, forward, true),
                material_fits(end0, *mv, forward, false),
                self.mid_eval == mid0 + material_sum(st, forward, true, i as int),
                self.end_eval == end0 + material_sum(st, forward, false, i as int),
            decreases st.len() - i,
        {
            let (arrives, piece) = steps[i];
            proof {
                assert(i32::MIN <= mid0 + material_sum(st, forward, true, i + 1) <= i32::MAX);
                assert(i32::MIN <= end0 + material_sum(st, forward, false, i + 1) <= i32::MAX);
            }
            self.update(arrives == forward, piece);
            i = i + 1;
        }
    }

    /// The evaluation held by the facet.
    pub fn static_eval(&self) -> (r: Evaluation)
        ensures
            r == (Evaluation::Phased { mid: self.mid_of(), end: self.end_of() }),
    {
        Evaluation::Phased { mid: self.mid_eval, end: self.end_eval }
    }

    /// Updates the material by making the given move.
    pub fn make(&mut self, mv: &Move)
        requires
            material_fits(old(self).mid_of() as int, *mv, true, true),
            material_fits(old(self).end_of() as int, *mv, true, false),
        ensures
            final(self).mid_of() == old(self).mid_of() + material_delta(*mv, true, true),
            final(self).end_of() == old(self).end_of() + material_delta(*mv, true, false),
    {
        self.make_impl(mv, true);
    }

    /// Updates the material by unmaking the given move.
    pub fn unmake(&mut self, mv: &Move)
        requires
            material_fits(old(self).mid_of() as int, *mv, false, true),
            material_fits(old(self).end_of() as int, *mv, false, false),
        ensures
            final(self).mid_of() == old(self).mid_of() + material_delta(*mv, false, true),
            final(self).end_of() == old(self).end_of() + material_delta(*mv, false, false),
    {
        self.make_impl(mv, false);
    }
}

impl std::default::Default for MaterialFacet {
    fn default() -> (r: MaterialFacet)
        ensures
            r.mid_of() == 0,
            r.end_of() == 0,
    {
        MaterialFacet::new()
    }
}

/// The steps of a move, as `material_steps` describes them.
fn material_steps_of(mv: &Move) -> (r: Vec<(bool, Piece)>)
    ensures
        r@ == material_steps(*mv),
{
    match *mv {
        Move::Castle { .. } | Move::Null => Vec::new(),
        Move::Standard { capture, .. } => match capture {
            Some(p) => vec![(false, p)],
            None => Vec::new(),
        },
        Move::Enpassant { side, .. } => vec![(false, Piece(side.reflect(), Class::P))],
        Move::Promotion { promoted, capture, .. } => {
            let mut v = vec![(false, Piece(promoted.0, Class::P)), (true, promoted)];
            if let Some(p) = capture {
                v.push((false, p));
            }
            v
        },
    }
}

/// The material of what stands on one square.
pub open spec fn square_material(o: Option<Piece>, mid: bool) -> int {
    match o {
        Some(p) => material_value(p, mid),
        None => 0,
    }
}

proof fn lemma_material_update(s: Seq<Option<Piece>>, i: int, v: Option<Piece>, mid: bool, n: int)
    requires
        0 <= i < s.len(),
        n <= s.len(),
    ensures
        locs_material(s.update(i, v), mid, n) == locs_material(s, mid, n) + (if 0 <= i < n {
            square_material(v, mid) - square_material(s[i], mid)
        } else {
            0
        }),
    decreases n,
{
    if n > 0 {
        lemma_material_update(s, i, v, mid, n - 1);
    }
}

/// The material that the facet tracks is the material on the board: the
/// change that making a move adds is the change of the material of a board
/// on which the move is made.
pub proof fn lemma_material_tracks_board(locs: Seq<Option<Piece>>, mv: Move, mid: bool)
    requires
        locs.len() == 64,
        move_fits(locs, mv),
    ensures
        locs_material(moved(locs, mv), mid, 64) == locs_material(locs, mid, 64) + material_delta(
            mv,
            true,
            mid,
        ),
{
    match mv {
        Move::Standard { .. } => lemma_standard_material(locs, mv, mid),
        Move::Enpassant { .. } => lemma_enpassant_material(locs, mv, mid),
        Move::Promotion { .. } => lemma_promotion_material(locs, mv, mid),
        Move::Castle { .. } => lemma_castle_material(locs, mv, mid),
        Move::Null => {},
    }
}

proof fn lemma_standard_material(locs: Seq<Option<Piece>>, mv: Move, mid: bool)
    requires
        locs.len() == 64,
        move_fits(locs, mv),
        mv is Standard,
    ensures
        locs_material(moved(locs, mv), mid, 64) == locs_material(locs, mid, 64) + material_delta(
            mv,
            true,
            mid,
        ),
{
    if let Move::Standard { moving, from, dest, capture } = mv {
        let st = material_steps(mv);
        let s1 = locs.update(from.idx(), None);
        lemma_material_update(locs, from.idx(), None, mid, 64);
        lemma_material_update(s1, dest.idx(), Some(moving), mid, 64);
        match capture {
            Some(p) => {
                assert(st =~= seq![(false, p)]);
                assert(material_sum(st, true, mid, 1) == material_sum(st, true, mid, 0)
                    - material_value(p, mid));
            },
            None => assert(st.len() == 0),
        }
    }
}

proof fn lemma_enpassant_material(locs: Seq<Option<Piece>>, mv: Move, mid: bool)
    requires
        locs.len() == 64,
        move_fits(locs, mv),
        mv is Enpassant,
    ensures
        locs_material(moved(locs, mv), mid, 64) == locs_material(locs, mid, 64) + material_delta(
            mv,
            true,
            mid,
        ),
{
    if let Move::Enpassant { side, from, dest, capture } = mv {
        let st = material_steps(mv);
        let s1 = locs.update(from.idx(), None);
        let s2 = s1.update(capture.idx(), None);
        lemma_material_update(locs, from.idx(), None, mid, 64);
        lemma_material_update(s1, capture.idx(), None, mid, 64);
        lemma_material_update(s2, dest.idx(), Some(Piece(side, Class::P)), mid, 64);
        assert(st =~= seq![(false, Piece(side.other(), Class::P))]);
        assert(material_sum(st, true, mid, 1) == material_sum(st, true, mid, 0) - material_value(
            Piece(side.other(), Class::P),
            mid,
        ));
    }
}

proof fn lemma_promotion_material(locs: Seq<Option<Piece>>, mv: Move, mid: bool)
    requires
        locs.len() == 64,
        move_fits(locs, mv),
        mv is Promotion,
    ensures
        locs_material(moved(locs, mv), mid, 64) == locs_material(locs, mid, 64) + material_delta(
            mv,
            true,
            mid,
        ),
{
    if let Move::Promotion { from, dest, promoted, capture } = mv {
        let st = material_steps(mv);
        let s1 = locs.update(from.idx(), None);
        lemma_material_update(locs, from.idx(), None, mid, 64);
        lemma_material_update(s1, dest.idx(), Some(promoted), mid, 64);
        let pawn = Piece(promoted.0, Class::P);
        assert(material_sum(st, true, mid, 1) == material_sum(st, true, mid, 0) - material_value(
            pawn,
            mid,
        ));
        assert(material_sum(st, true, mid, 2) == material_sum(st, true, mid, 1) + material_value(
            promoted,
            mid,
        ));
        match capture {
            Some(p) => {
                assert(st.len() == 3);
                assert(material_sum(st, true, mid, 3) == material_sum(st, true, mid, 2)
                    - material_value(p, mid));
            },
            None => assert(st.len() == 2),
        }
    }
}

proof fn lemma_castle_material(locs: Seq<Option<Piece>>, mv: Move, mid: bool)
    requires
        locs.len() == 64,
        move_fits(locs, mv),
        mv is Castle,
    ensures
        locs_material(moved(locs, mv), mid, 64) == locs_material(locs, mid, 64) + material_delta(
            mv,
            true,
            mid,
        ),
{
    if let Move::Castle { corner } = mv {
        let c = corner.corner_of();
        let k = king_line(c);
        let r = rook_line(c);
        let s1 = locs.update(k.0.idx(), None);
        let s2 = s1.update(r.0.idx(), None);
        let s3 = s2.update(k.1.idx(), Some(Piece(c.0, Class::K)));
        lemma_material_update(locs, k.0.idx(), None, mid, 64);
        lemma_material_update(s1, r.0.idx(), None, mid, 64);
        lemma_material_update(s2, k.1.idx(), Some(Piece(c.0, Class::K)), mid, 64);
        lemma_material_update(s3, r.1.idx(), Some(Piece(c.0, Class::R)), mid, 64);
    }
}

/// Unmaking a move takes back exactly the material that making it added.
pub proof fn lemma_material_unmake_undoes_make(mv: Move, mid: bool)
    ensures
        material_delta(mv, false, mid) == -material_delta(mv, true, mid),
{
    lemma_material_sum_negate(material_steps(mv), mid, material_steps(mv).len() as int);
}

proof fn lemma_material_sum_negate(steps: Seq<(bool, Piece)>, mid: bool, k: int)
    ensures
        material_sum(steps, false, mid, k) == -material_sum(steps, true, mid, k),
    decreases k,
{
    if k > 0 {
        lemma_material_sum_negate(steps, mid, k - 1);
    }
}

} // verus!
