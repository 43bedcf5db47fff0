//! Playing cards and sets of cards, with a set of cards held as a 52-bit mask.
pub mod card;
pub mod cardset;

pub use card::{Card, Rank, Suit, ALL_RANKS, ALL_SUITS, NUM_CARDS};
pub use cardset::{CardSet, CardSetIterator};
