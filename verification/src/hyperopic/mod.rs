use vstd::prelude::*;

use crate::base::reflect::Reflectable;
use crate::brain::moves::Move;

pub mod eval;
pub mod search;

verus! {

/// A component of the game that has a mirror image with the sides swapped.
pub trait Symmetric: Sized {
    /// The mirror image.
    spec fn mirror(&self) -> Self;

    fn reflect(&self) -> (r: Self)
        ensures
            r == self.mirror(),
    ;
}

impl Symmetric for Move {
    open spec fn mirror(&self) -> Move {
        match *self {
            Move::Standard { moving, from, dest, capture } => Move::Standard {
                moving: moving.reflection(),
                from: from.reflection(),
                dest: dest.reflection(),
                capture: capture.reflection(),
            },
            Move::Enpassant { side, from, dest, capture } => Move::Enpassant {
                side: side.reflection(),
                from: from.reflection(),
                dest: dest.reflection(),
                capture: capture.reflection(),
            },
            Move::Promotion { from, dest, promoted, capture } => Move::Promotion {
                from: from.reflection(),
                dest: dest.reflection(),
                promoted: promoted.reflection(),
                capture: capture.reflection(),
            },
            Move::Castle { corner } => Move::Castle { corner: corner.reflection() },
            Move::Null => Move::Null,
        }
    }

    fn reflect(&self) -> (r: Move) {
        match self {
            Move::Standard { moving, from, dest, capture } => Move::Standard {
                moving: moving.reflect(),
                from: from.reflect(),
                dest: dest.reflect(),
                capture: capture.reflect(),
            },
            Move::Enpassant { side, from, dest, capture } => Move::Enpassant {
                side: side.reflect(),
                from: from.reflect(),
                dest: dest.reflect(),
                capture: capture.reflect(),
            },
            Move::Promotion { from, dest, promoted, capture } => Move::Promotion {
                from: from.reflect(),
                dest: dest.reflect(),
                promoted: promoted.reflect(),
                capture: capture.reflect(),
            },
            Move::Castle { corner } => Move::Castle { corner: corner.reflect() },
            Move::Null => Move::Null,
        }
    }
}

} // verus!
