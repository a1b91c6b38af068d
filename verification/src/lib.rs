//! Authoritative round engine for four-handed Belote: the deck, the trump
//! auction, trick legality and resolution, round scoring and the match loop,
//! with every rule stated as a contract and proved.

pub mod auction;
pub mod card;
pub mod deck;
pub mod error;
pub mod game;
pub mod hand;
pub mod piles;
pub mod player;
pub mod round;
pub mod scoring;
pub mod trick;
