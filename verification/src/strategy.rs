//! The two decision points a player plugs in: choosing a card to play and
//! choosing a bid. The engine validates every decision at run time, so a
//! misbehaving plug-in is caught (`InvalidCard`, `InvalidBid`); the
//! reference implementations below are proved to decide within bounds.

use vstd::prelude::*;
use crate::cards::Card;
use crate::hand::Hand;
use crate::rng::random_below;

verus! {

/// The capability to choose a card to play, given the acting player's own
/// hand and every card played so far this round (across all tricks).
///
/// The engine removes the chosen card from the hand itself, and rejects a
/// choice that is not in the hand.
pub trait PlayStrategy: Sized {
    /// Choose a card from `hand`. `played_cards` lists every card played
    /// so far this round, in play order.
    fn choose_card(&self, hand: &Hand, played_cards: &Vec<Card>) -> Card
        requires
            hand.cards@.len() > 0,
    ;
}

/// The capability to choose a bid, given the acting player's own hand, the
/// round's hand size and the bids made so far this round (in seating
/// order, so later bidders see earlier bids).
///
/// The engine rejects a bid above `num_cards`.
pub trait BidStrategy: Sized {
    /// Choose a bid for a round of `num_cards` tricks.
    fn choose_bid(&self, hand: &Hand, num_cards: usize, prior_bids: &Vec<usize>) -> usize
        requires
            num_cards < usize::MAX,
    ;
}

/// The reference play strategy: pick uniformly at random from the hand.
/// No suit-following constraint is enforced anywhere in the engine, so
/// every card of the hand is legal.
#[derive(Debug, Clone, Copy, PartialEq, Eq, Structural)]
pub struct RandomPlay;

/// The reference bid strategy: a uniform random bid in `[0, num_cards]`.
#[derive(Debug, Clone, Copy, PartialEq, Eq, Structural)]
pub struct RandomBid;

impl PlayStrategy for RandomPlay {
    /// The chosen card is always a member of the hand.
    fn choose_card(&self, hand: &Hand, played_cards: &Vec<Card>) -> (c: Card)
        ensures
            hand.cards@.contains(c),
    {
        let i = random_below(hand.cards.len());
        let c = hand.cards[i];
        proof {
            assert(hand.cards@[i as int] == c);
        }
        c
    }
}

impl BidStrategy for RandomBid {
    /// The chosen bid never leaves `[0, num_cards]`.
    fn choose_bid(&self, hand: &Hand, num_cards: usize, prior_bids: &Vec<usize>) -> (b: usize)
        ensures
            b <= num_cards,
    {
        random_below(num_cards + 1)
    }
}

} // verus!
