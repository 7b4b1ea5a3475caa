use vstd::prelude::*;

use crate::base::pieces::{Class, Piece};
use crate::base::square::{Square, file_of, lemma_square_idx};
use crate::base::types::{Corner, Flank, Side};

verus! {

broadcast use lemma_square_idx;

/// The seed of the generator of the hash features.
pub open spec fn seed() -> u64 {
    1070372u64
}

/// The multiplier applied to the state to produce an output.
pub open spec fn multiplier() -> u64 {
    2685821657736338717u64
}

/// One xorshift step of the generator state.
pub open spec fn xorshift(s: u64) -> u64 {
    let a = s ^ (s >> 12u64);
    let b = a ^ (a << 25u64);
    b ^ (b >> 27u64)
}

/// The state of the generator after `n` draws.
pub open spec fn prng_state(n: nat) -> u64
    decreases n,
{
    if n == 0 {
        seed()
    } else {
        xorshift(prng_state((n - 1) as nat))
    }
}

/// The value of draw number `n` (counting from zero).
pub open spec fn prng_output(n: nat) -> u64 {
    vstd::wrapping::u64_specs::wrapping_mul(prng_state(n + 1), multiplier())
}

/// The position of a class in the order P, N, B, R, Q, K.
pub open spec fn class_idx(c: Class) -> int {
    match c {
        Class::P => 0,
        Class::N => 1,
        Class::B => 2,
        Class::R => 3,
        Class::Q => 4,
        Class::K => 5,
    }
}

/// The number of the draw that gives the feature of a piece on a square:
/// the draws are made side by side, class by class, square by square.
pub open spec fn piece_draw(p: Piece, sq: Square) -> nat {
    (384 * p.0.idx() + 64 * class_idx(p.1) + sq.idx()) as nat
}

/// The number of the draw giving the feature of black to move.
pub open spec fn side_draw() -> nat {
    768
}

/// The number of the draw giving the feature of enpassant on the file of
/// a square: one draw per file, that of the file's square on the first rank.
pub open spec fn enpassant_draw(sq: Square) -> nat {
    (769 + file_of(sq.idx())) as nat
}

/// The number of the draw giving the feature of a corner.
pub open spec fn corner_draw(c: Corner) -> nat {
    (833 + 2 * c.0.idx() + (if c.1 == Flank::K {
        0int
    } else {
        1int
    })) as nat
}

/// The xorshift pseudo random generator used for the hash features.
pub struct PRNG {
    pub s: u64,
}

impl PRNG {
    /// Advance the state and return the next value.
    pub fn rand64(&mut self) -> (r: u64)
        ensures
            final(self).s == xorshift(old(self).s),
            r == vstd::wrapping::u64_specs::wrapping_mul(final(self).s, multiplier()),
    {
        self.s = self.s ^ self.s.wrapping_shr(12);
        self.s = self.s ^ self.s.wrapping_shl(25);
        self.s = self.s ^ self.s.wrapping_shr(27);
        self.s.wrapping_mul(2685821657736338717u64)
    }
}

/// The value of draw number `n` of the generator started from the seed.
fn draw(n: u32) -> (r: u64)
    ensures
        r == prng_output(n as nat),
{
    let mut prng = PRNG { s: 1070372 };
    let mut k: u32 = 0;
    while k < n
        invariant
            k <= n,
            prng.s == prng_state(k as nat),
        decreases n - k,
    {
        prng.rand64();
        k = k + 1;
    }
    prng.rand64()
}

fn class_index(c: Class) -> (r: u32)
    ensures
        r == class_idx(c),
{
    match c {
        Class::P => 0,
        Class::N => 1,
        Class::B => 2,
        Class::R => 3,
        Class::Q => 4,
        Class::K => 5,
    }
}

fn side_index(s: Side) -> (r: u32)
    ensures
        r == s.idx(),
{
    match s {
        Side::W => 0,
        Side::B => 1,
    }
}

/// Get the hash of the given piece sat on the given square
pub fn piece(p: Piece, square: Square) -> (r: u64)
    ensures
        r == prng_output(piece_draw(p, square)),
{
    draw(384 * side_index(p.0) + 64 * class_index(p.1) + square.index() as u32)
}

/// Get the hash of the given side to move
pub fn side(s: Side) -> (r: u64)
    ensures
        r == (if s == Side::W {
            0
        } else {
            prng_output(side_draw())
        }),
{
    match s {
        Side::W => 0,
        Side::B => draw(768),
    }
}

/// Get the hash of enpassant on the file of the given square
pub fn enpassant(square: Square) -> (r: u64)
    ensures
        r == prng_output(enpassant_draw(square)),
{
    draw(769 + square.file_index() as u32)
}

/// The enpassant hash depends on the file of the square alone: two squares
/// on one file have the same hash, and squares on different files read
/// different draws.
pub proof fn lemma_enpassant_by_file(a: Square, b: Square)
    ensures
        file_of(a.idx()) == file_of(b.idx()) ==> prng_output(enpassant_draw(a)) == prng_output(
            enpassant_draw(b),
        ),
        file_of(a.idx()) != file_of(b.idx()) ==> enpassant_draw(a) != enpassant_draw(b),
{
}

/// Get the hash of the given castling zone
pub fn zone(corner: Corner) -> (r: u64)
    ensures
        r == prng_output(corner_draw(corner)),
{
    let f: u32 = match corner.1 {
        Flank::K => 0,
        Flank::Q => 1,
    };
    draw(833 + 2 * side_index(corner.0) + f)
}

/// The features are drawn in a fixed order, so that two different
/// (piece, square) pairs, the side to move, the enpassant squares and the
/// corners each read a different draw of the generator.
pub proof fn lemma_draws_distinct(p1: Piece, s1: Square, p2: Piece, s2: Square, e: Square, c: Corner)
    ensures
        (p1, s1) != (p2, s2) ==> piece_draw(p1, s1) != piece_draw(p2, s2),
        piece_draw(p1, s1) < side_draw(),
        side_draw() < enpassant_draw(e),
        enpassant_draw(e) < corner_draw(c),
        corner_draw(c) < 837,
{
    if (p1, s1) != (p2, s2) && piece_draw(p1, s1) == piece_draw(p2, s2) {
        assert(p1.0.idx() == p2.0.idx());
        assert(class_idx(p1.1) == class_idx(p2.1));
        assert(s1.idx() == s2.idx());
        lemma_square_idx(s1);
        lemma_square_idx(s2);
    }
}

} // verus!
