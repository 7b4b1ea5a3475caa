use vstd::prelude::*;

use crate::brain::search::transpositions::TranspositionTable;

pub mod interactive;
pub mod moves;
pub mod negascout;
pub mod quiescent;
pub mod transpositions;

verus! {

/// What a search runs with: when to stop, and the table to learn into.
pub struct SearchParameters<'a, T> {
    pub terminator: T,
    pub table: &'a mut TranspositionTable,
}

} // verus!
