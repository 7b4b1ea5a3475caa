use vstd::prelude::*;

use crate::base::pieces::{Class, Piece};
use crate::brain::eval::Evaluation;
use crate::brain::moves::Move;

verus! {

/// The phase of a game with no material left but kings.
pub const MAX_PHASE: i32 = 256;

/// How much a piece of each class counts towards the opening, indexed in
/// the order P, N, B, R, Q, K.
pub const PHASE_VALUES: [i32; 6] = [0, 1, 1, 2, 6, 0];

/// How much a piece of a class counts towards the opening.
pub open spec fn class_phase(c: Class) -> int {
    PHASE_VALUES@[c.idx()] as int
}

/// The phase count of the full set of pieces of both sides.
pub open spec fn total_phase() -> int {
    16 * class_phase(Class::P) + 4 * (class_phase(Class::N) + class_phase(Class::B) + class_phase(
        Class::R,
    )) + 2 * class_phase(Class::Q)
}

/// Division that rounds towards zero, as integer division of `i32` does.
pub open spec fn trunc_div(a: int, b: int) -> int {
    if a >= 0 {
        a / b
    } else {
        -((-a) / b)
    }
}

/// The phase, from 0 in the opening to 256 when all is traded, of a count
/// of the material that has left the board: rounded to the nearest.
pub open spec fn phase_of(counter: int) -> int {
    trunc_div(counter * MAX_PHASE + total_phase() / 2, total_phase())
}

/// The computation of the phase from the counter stays within `i32`.
pub open spec fn counter_fits(counter: int) -> bool {
    i32::MIN <= counter * MAX_PHASE && counter * MAX_PHASE + total_phase() / 2 <= i32::MAX
}

/// How much a move changes the count of material that left the board.
pub open spec fn phase_delta(mv: Move) -> int {
    match mv {
        Move::Null | Move::Castle { .. } => 0,
        Move::Enpassant { .. } => class_phase(Class::P),
        Move::Standard { capture, .. } => match capture {
            Some(p) => class_phase(p.1),
            None => 0,
        },
        Move::Promotion { promoted, .. } => class_phase(Class::P) - class_phase(promoted.1),
    }
}

/// The count of material of the pieces on the first `n` squares.
pub open spec fn locs_phase(locs: Seq<Option<Piece>>, n: int) -> int
    decreases n,
{
    if n <= 0 {
        0
    } else {
        locs_phase(locs, n - 1) + match locs[n - 1] {
            Some(p) => class_phase(p.1),
            None => 0,
        }
    }
}

/// Tracks how far the game has moved from the opening towards the
/// endgame, by the material that has left the board.
#[derive(Debug, Copy, Clone, PartialEq, Eq)]
pub struct Phase {
    phase_values: [i32; 6],
    phase_counter: i32,
    total_phase: i32,
    phase: i32,
}

impl Phase {
    #[verifier::type_invariant]
    spec fn inv(self) -> bool {
        &&& self.phase_values == PHASE_VALUES
        &&& self.total_phase == total_phase()
        &&& counter_fits(self.phase_counter as int)
        &&& self.phase == phase_of(self.phase_counter as int)
    }

    /// The count of the material that has left the board.
    pub closed spec fn counter(self) -> int {
        self.phase_counter as int
    }

    /// The phase held.
    pub closed spec fn phase_value(self) -> int {
        self.phase as int
    }

    /// The phase held: 0 in the opening, 256 once all material but the
    /// kings and pawns is traded.
    pub fn phase(&self) -> (r: i32)
        ensures
            r == self.phase_value(),
    {
        self.phase
    }

    /// The count of the material that has left the board.
    pub fn phase_counter(&self) -> (r: i32)
        ensures
            r == self.counter(),
    {
        self.phase_counter
    }

    /// The phase of a counter.
    fn with_counter(counter: i32) -> (r: Phase)
        requires
            counter_fits(counter as int),
        ensures
            r.counter() == counter,
            r.phase_value() == phase_of(counter as int),
    {
        let total: i32 = 16 * PHASE_VALUES[0] + 4 * (PHASE_VALUES[1] + PHASE_VALUES[2]
            + PHASE_VALUES[3]) + 2 * PHASE_VALUES[4];
        let numerator = counter * MAX_PHASE + total / 2i32;
        let phase = numerator / total;
        Phase { phase_values: PHASE_VALUES, phase_counter: counter, total_phase: total, phase }
    }

    /// The phase of a board whose square of index `i` holds `locs[i]`.
    pub fn from_locs(locs: &[Option<Piece>; 64]) -> (r: Phase)
        ensures
            r.counter() == total_phase() - locs_phase(locs@, 64),
            r.phase_value() == phase_of(r.counter()),
    {
        let mut sum: i32 = 0;
        let mut i: usize = 0;
        while i < 64
            invariant
                i <= 64,
                sum == locs_phase(locs@, i as int),
                0 <= sum <= 6 * i,
            decreases 64 - i,
        {
            if let Some(p) = locs[i] {
                sum = sum + PHASE_VALUES[p.1.index()];
            }
            i = i + 1;
        }
        let start = Phase::default();
        proof {
            use_type_invariant(&start);
        }
        Phase::with_counter(start.total_phase - sum)
    }

    /// The single value of an evaluation at this phase.
    pub fn unwrap(&self, eval: Evaluation) -> (r: i32)
        requires
            eval matches Evaluation::Phased { mid, end } ==> self.interpolate_fits(
                mid as int,
                end as int,
            ),
        ensures
            r == (match eval {
                Evaluation::Single(e) => e as int,
                Evaluation::Phased { mid, end } => self.interpolation(mid as int, end as int),
            }),
    {
        match eval {
            Evaluation::Single(eval) => eval,
            Evaluation::Phased { mid, end } => self.interpolate(mid, end),
        }
    }

    /// The interpolation of a midgame and an endgame value at this phase,
    /// rounded towards zero.
    pub open spec fn interpolation(self, mid: int, end: int) -> int {
        trunc_div(mid * (MAX_PHASE - self.phase_value()) + end * self.phase_value(), MAX_PHASE as int)
    }

    /// The interpolation of the two values stays within `i32`.
    pub open spec fn interpolate_fits(self, mid: int, end: int) -> bool {
        &&& i32::MIN <= mid * (MAX_PHASE - self.phase_value()) <= i32::MAX
        &&& i32::MIN <= end * self.phase_value() <= i32::MAX
        &&& i32::MIN <= mid * (MAX_PHASE - self.phase_value()) + end * self.phase_value()
            <= i32::MAX
    }

    /// Interpolate linearly between a midgame and an endgame value by the
    /// phase.
    pub fn interpolate(&self, mid: i32, end: i32) -> (r: i32)
        requires
            self.interpolate_fits(mid as int, end as int),
        ensures
            r == self.interpolation(mid as int, end as int),
    {
        proof {
            use_type_invariant(self);
            lemma_phase_bounds(self.phase_counter as int);
        }
        let a = mid * (MAX_PHASE - self.phase);
        let b = end * self.phase;
        (a + b) / MAX_PHASE
    }

    /// Updates the phase by making the given move.
    pub fn make(&mut self, mv: &Move)
        requires
            counter_fits(old(self).counter() + phase_delta(*mv)),
        ensures
            final(self).counter() == old(self).counter() + phase_delta(*mv),
            final(self).phase_value() == phase_of(final(self).counter()),
    {
        proof {
            use_type_invariant(&*self);
        }
        let counter_start = self.phase_counter;
        let mut counter = counter_start;
        match mv {
            Move::Null | Move::Castle { .. } => {},
            Move::Enpassant { .. } => counter = counter + self.phase_values[0],
            Move::Standard { capture, .. } => {
                if let Some(Piece(_, class)) = capture {
                    counter = counter + self.phase_values[class.index()];
                }
            },
            Move::Promotion { promoted, .. } => {
                counter = counter + self.phase_values[0];
                counter = counter - self.phase_values[promoted.1.index()];
            },
        }
        if counter != counter_start {
            *self = Phase::with_counter(counter);
        }
    }

    /// Updates the phase by unmaking the given move.
    pub fn unmake(&mut self, mv: &Move)
        requires
            counter_fits(old(self).counter() - phase_delta(*mv)),
        ensures
            final(self).counter() == old(self).counter() - phase_delta(*mv),
            final(self).phase_value() == phase_of(final(self).counter()),
    {
        proof {
            use_type_invariant(&*self);
        }
        let counter_start = self.phase_counter;
        let mut counter = counter_start;
        match mv {
            Move::Null | Move::Castle { .. } => {},
            Move::Enpassant { .. } => counter = counter - self.phase_values[0],
            Move::Standard { capture, .. } => {
                if let Some(Piece(_, class)) = capture {
                    counter = counter - self.phase_values[class.index()];
                }
            },
            Move::Promotion { promoted, .. } => {
                counter = counter - self.phase_values[0];
                counter = counter + self.phase_values[promoted.1.index()];
            },
        }
        if counter != counter_start {
            *self = Phase::with_counter(counter);
        }
    }
}

impl std::default::Default for Phase {
    fn default() -> (r: Phase)
        ensures
            r.counter() == 0,
            r.phase_value() == 0,
    {
        proof {
            lemma_total_phase();
        }
        Phase::with_counter(0)
    }
}

/// The full set of pieces counts 28.
pub proof fn lemma_total_phase()
    ensures
        total_phase() == 28,
{
    assert(class_phase(Class::P) == 0);
    assert(class_phase(Class::N) == 1);
    assert(class_phase(Class::B) == 1);
    assert(class_phase(Class::R) == 2);
    assert(class_phase(Class::Q) == 6);
}

/// The phase of a counter that fits is far within `i32`.
proof fn lemma_phase_bounds(c: int)
    requires
        counter_fits(c),
    ensures
        -80_000_000 <= phase_of(c) <= 80_000_000,
{
    lemma_total_phase();
    let x = c * 256 + 14;
    if x >= 0 {
        assert(x / 28 <= 80_000_000) by (nonlinear_arith)
            requires
                0 <= x <= 2147483647,
        ;
    } else {
        assert((-x) / 28 <= 80_000_000) by (nonlinear_arith)
            requires
                0 < -x <= 2147483648,
        ;
    }
}

/// Unmaking a move brings the phase back to what it was before the move
/// was made.
pub proof fn lemma_phase_unmake_undoes_make(counter: int, mv: Move)
    ensures
        (counter + phase_delta(mv)) - phase_delta(mv) == counter,
        phase_of((counter + phase_delta(mv)) - phase_delta(mv)) == phase_of(counter),
{
}

/// At phase 0 the interpolation is the midgame value, at the full phase it
/// is the endgame value.
pub proof fn lemma_interpolation_ends(mid: int, end: int)
    ensures
        trunc_div(mid * (MAX_PHASE - 0) + end * 0, MAX_PHASE as int) == mid,
        trunc_div(mid * (MAX_PHASE - MAX_PHASE) + end * MAX_PHASE, MAX_PHASE as int) == end,
{
    assert(mid * 256 / 256 == mid) by (nonlinear_arith);
    assert(end * 256 / 256 == end) by (nonlinear_arith);
    assert((-mid) * 256 / 256 == -mid) by (nonlinear_arith);
    assert((-end) * 256 / 256 == -end) by (nonlinear_arith);
}

} // verus!
