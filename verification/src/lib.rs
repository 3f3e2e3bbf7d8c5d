//! A trick-taking, bid-estimation card game engine.
//!
//! A game runs a fixed schedule of rounds over a persistent roster of
//! players. Each round deals shrinking hands from a fresh 52-card deck,
//! collects one bid per player, plays out one trick per card in hand with
//! suit- and trump-based winner determination, and scores each player by
//! tricks won plus a bonus for an exact bid.

use vstd::prelude::*;

pub mod cards;
pub mod game;
pub mod hand;
pub mod player;
mod rng;
pub mod round;
pub mod strategy;

verus! {

/// One roster entry, as the configuration layer hands it over: a player's
/// name and the identifiers of the two strategies to bind. Resolving the
/// identifiers to strategies is the configuration layer's job; the engine
/// only ever sees players with strategies already bound.
#[derive(Debug)]
pub struct PlayerConfig {
    pub name: String,
    pub play_strategy: String,
    pub bid_strategy: String,
}

/// The errors of the engine. Every one of them signals a logic bug in the
/// caller or in a strategy plug-in, never a transient condition: a game run
/// that meets one is aborted.
#[derive(Debug, Clone, Copy, PartialEq, Eq, Structural)]
pub enum GameError {
    /// A draw was requested on an exhausted deck.
    EmptyDeck,
    /// A deal was requested for a player who still holds cards.
    NonEmptyHand,
    /// A deal was requested for more cards than the deck holds.
    InsufficientCards,
    /// A play strategy returned a card absent from the acting player's hand.
    InvalidCard,
    /// A bid strategy returned a bid above the hand size.
    InvalidBid,
}

} // verus!
