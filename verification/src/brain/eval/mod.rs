use vstd::prelude::*;

pub mod pawns;
pub mod tables;
pub mod values;
pub mod phase;
pub mod material;
pub mod castling;
pub mod antipattern;
pub mod development;
pub mod symmetry;

verus! {

/// The evaluation upper/lower bound definition
pub const INFTY: i32 = 500_000i32;

/// The evaluation assigned to a won position.
pub const WIN_VALUE: i32 = 499_999i32;

/// The evaluation assigned to a lost position.
pub const LOSS_VALUE: i32 = -499_999i32;

/// The evaluation assigned to a drawn position.
pub const DRAW_VALUE: i32 = 0i32;

/// The evaluation of a facet: either one value, or a midgame and an
/// endgame value to be interpolated by the phase of the game.
#[derive(Debug, Copy, Clone, PartialEq, Eq, Structural)]
pub enum Evaluation {
    Single(i32),
    Phased { mid: i32, end: i32 },
}

} // verus!
