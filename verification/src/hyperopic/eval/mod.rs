pub mod castling;
pub mod development;
pub mod safety;
pub mod symmetry;
