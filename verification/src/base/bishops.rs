use vstd::prelude::*;

use crate::base::bitboard::BitBoard;
use crate::base::sliding::{bishop_dirs, sliding_control, slides_union};
use crate::base::square::Square;
use crate::base::types::Dir;

verus! {

/// The control set of a bishop on `loc` given the occupied squares: the
/// four diagonals up to and including the first occupied square of each.
pub fn control(loc: Square, occupied: BitBoard) -> (r: BitBoard)
    ensures
        r@ == slides_union(loc.idx(), bishop_dirs(), occupied.0),
{
    let dirs = vec![Dir::NE, Dir::SE, Dir::SW, Dir::NW];
    assert(dirs@ == bishop_dirs());
    sliding_control(loc, &dirs, occupied)
}

} // verus!
