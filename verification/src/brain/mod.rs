pub mod eval;
pub mod moves;
pub mod search;
pub mod see;
pub mod see_reach;
pub mod see_symmetry;
