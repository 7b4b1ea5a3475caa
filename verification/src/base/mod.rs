pub mod bishops;
pub mod bitboard;
pub mod castlezone;
pub mod flip;
pub mod hash;
pub mod magic;
pub mod pieces;
pub mod reflect;
pub mod sliding;
pub mod square;
pub mod types;
