use vstd::prelude::*;

use crate::brain::eval::WIN_VALUE;
use crate::brain::moves::Move;
use crate::hyperopic::search::table::Transpositions;

pub mod debug;
pub mod moves;
pub mod negascout;
pub mod pv;
pub mod search;
pub mod symmetry;

pub mod table;
pub mod transpositions;

verus! {

/// The deepest iteration of the iterative deepening.
pub const DEPTH_UPPER_BOUND: usize = 20;

/// What a search runs with: when to end, and the table to learn into.
pub struct SearchParameters<'a, E, T: Transpositions> {
    pub end: E,
    pub table: &'a mut T,
}

/// The result of one iteration of the deepening: the evaluation, the best
/// move, the line of best play from it, and the depth searched.
pub struct BestMoveResponse {
    pub eval: i32,
    pub best_move: Move,
    pub path: Vec<Move>,
    pub depth: u8,
}

/// The response of an iteration from the evaluation and line the search
/// found: none when the line is empty, as happens when there is no legal
/// move.
pub fn best_move_response(eval: i32, path: Vec<Move>, depth: u8) -> (r: Option<BestMoveResponse>)
    ensures
        path@.len() == 0 <==> r is None,
        r matches Some(resp) ==> resp.eval == eval && resp.best_move == path@[0] && resp.path@
            == path@ && resp.depth == depth,
{
    if path.len() == 0 {
        None
    } else {
        let best_move = path[0];
        Some(BestMoveResponse { eval, best_move, path, depth })
    }
}

/// Whether to search one level deeper after an iteration with this
/// evaluation: not once a forced mate, either way, was found.
pub fn should_deepen(eval: i32) -> (r: bool)
    ensures
        r == (eval != WIN_VALUE && eval != -WIN_VALUE),
{
    eval != WIN_VALUE && eval != -WIN_VALUE
}

} // verus!
