//! Scoring and standings for a five-driver race prediction game, together
//! with the record store that keeps the predictions.

pub mod collection;
pub mod leaderboard;
pub mod lifecycle;
pub mod models;
pub mod queries;
pub mod ranking;
pub mod scoring;
pub mod secrets;
pub mod store;
pub mod text;
