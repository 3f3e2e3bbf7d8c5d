//! A player's hand: an owned card collection annotated with the round's
//! trump suit.

use vstd::prelude::*;
use crate::cards::{Card, CardSuit, removed_first, removed_one};
use crate::rng::random_below;

verus! {

/// One player's cards for the current round, together with a copy of the
/// round's trump suit so that strategies can see it when deciding.
#[derive(Debug)]
pub struct Hand {
    pub cards: Vec<Card>,
    pub trumps: CardSuit,
}

impl Hand {
    /// Build a hand over the given cards, for a round where `trumps` is the
    /// trump suit.
    pub fn new(cards: Vec<Card>, trumps: CardSuit) -> (h: Hand)
        ensures
            h.cards == cards,
            h.trumps == trumps,
    {
        Hand { cards, trumps }
    }

    /// Put `card` into the hand.
    pub fn add_card(&mut self, card: Card)
        ensures
            final(self).cards@ == old(self).cards@.push(card),
            final(self).trumps == old(self).trumps,
    {
        self.cards.push(card);
    }

    /// Take the first occurrence of `card` out of the hand. The card must
    /// be in the hand.
    pub fn remove_card(&mut self, card: Card)
        requires
            old(self).cards@.contains(card),
        ensures
            removed_first(old(self).cards@, final(self).cards@, card),
            removed_one(old(self).cards@, final(self).cards@, card),
            final(self).trumps == old(self).trumps,
    {
        let mut i: usize = 0;
        while i < self.cards.len()
            invariant
                i <= self.cards@.len(),
                *self == *old(self),
                self.cards@.contains(card),
                forall|k: int| 0 <= k < i ==> self.cards@[k] != card,
            decreases self.cards@.len() - i,
        {
            if self.cards[i] == card {
                self.cards.remove(i);
                proof {
                    assert(old(self).cards@[i as int] == card);
                    assert(forall|k: int| 0 <= k < i ==> old(self).cards@[k] != card);
                }
                return ;
            }
            i += 1;
        }
        proof {
            assert(false);
        }
    }

    /// Take one card out of the hand, uniformly at random. The hand must
    /// not be empty.
    pub fn select_random(&mut self) -> (c: Card)
        requires
            old(self).cards@.len() > 0,
        ensures
            old(self).cards@.contains(c),
            removed_one(old(self).cards@, final(self).cards@, c),
            final(self).trumps == old(self).trumps,
    {
        let i = random_below(self.cards.len());
        let card = self.cards[i];
        self.cards.remove(i);
        card
    }
}

} // verus!
