//! A five-card poker hand analyzer: deck construction, a deterministic
//! shuffle, dealing, hand classification and ranking of hands by strength.
pub mod card;
pub mod hand;
pub mod shuffle;
pub mod deck;
pub mod deal;
pub mod ranking;
pub mod display;
