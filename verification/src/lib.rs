pub mod base;
pub mod brain;
pub mod hyperopic;
pub mod matchmaking;
