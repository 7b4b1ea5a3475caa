pub mod events;
pub mod opponents;
pub mod tracker;
