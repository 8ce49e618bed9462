//! Core of a word-chain chat game: a word normalizer, similarity queries
//! over a channel's vocabulary, a registry of game channels, the set of
//! admission votes in flight, and the decision logic that turns gateway
//! events into game moves and replies.
pub mod distance;
pub mod event;
pub mod game;
pub mod gateway;
pub mod utility;
pub mod vote;
pub mod words;
