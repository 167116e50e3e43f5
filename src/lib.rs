//! A commit-reveal prediction market: topics move through a fixed lifecycle,
//! participants stake on sealed predictions, and settlement splits forfeited
//! stake by a consensus-deviation score.
pub mod commit_reveal;
pub mod errors;
pub mod fixed_point;
pub mod lifecycle;
pub mod settlement;
pub mod state;
