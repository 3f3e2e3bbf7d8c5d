//! A player: a hand, the round's bid estimate and tricks-won counters, and
//! the two strategies bound at construction time.

use vstd::prelude::*;
use vstd::multiset::Multiset;
use crate::GameError;
use crate::cards::{Card, removed_one};
use crate::hand::Hand;
use crate::strategy::{BidStrategy, PlayStrategy};

verus! {

/// All cards held in the players' hands, as one multiset.
pub open spec fn hands_multiset<P, B>(players: Seq<Player<P, B>>) -> Multiset<Card>
    decreases players.len(),
{
    if players.len() == 0 {
        Multiset::empty()
    } else {
        hands_multiset(players.drop_last()).add(players.last().hand.cards@.to_multiset())
    }
}

/// The held cards depend only on the hands: players that differ in
/// counters, trump annotations or strategies hold the same multiset.
pub proof fn lemma_hands_multiset_same_cards<P, B>(s1: Seq<Player<P, B>>, s2: Seq<Player<P, B>>)
    requires
        s1.len() == s2.len(),
        forall|q: int| 0 <= q < s1.len() ==> s1[q].hand.cards@ == s2[q].hand.cards@,
    ensures
        hands_multiset(s1) == hands_multiset(s2),
    decreases s1.len(),
{
    if s1.len() > 0 {
        lemma_hands_multiset_same_cards(s1.drop_last(), s2.drop_last());
    }
}

/// Conservation of the deal, counted: a hand of `k` cards for each of the
/// players makes `players.len() * k` cards in all.
pub proof fn lemma_hands_multiset_len<P, B>(players: Seq<Player<P, B>>, k: int)
    requires
        forall|j: int| 0 <= j < players.len() ==> players[j].hand.cards@.len() == k,
    ensures
        hands_multiset(players).len() == players.len() * k,
    decreases players.len(),
{
    broadcast use vstd::seq_lib::group_to_multiset_ensures;

    if players.len() == 0 {
    } else {
        lemma_hands_multiset_len(players.drop_last(), k);
        assert(players.last().hand.cards@.to_multiset().len() == k);
        assert((players.len() - 1) * k + k == players.len() * k) by (nonlinear_arith);
    }
}

/// The total number of tricks won across all players.
pub open spec fn tricks_total<P, B>(players: Seq<Player<P, B>>) -> int
    decreases players.len(),
{
    if players.len() == 0 {
        0
    } else {
        tricks_total(players.drop_last()) + players.last().tricks
    }
}

/// The total depends only on the tricks counters.
pub proof fn lemma_tricks_total_same<P, B>(s1: Seq<Player<P, B>>, s2: Seq<Player<P, B>>)
    requires
        s1.len() == s2.len(),
        forall|q: int| 0 <= q < s1.len() ==> s1[q].tricks == s2[q].tricks,
    ensures
        tricks_total(s1) == tricks_total(s2),
    decreases s1.len(),
{
    if s1.len() > 0 {
        lemma_tricks_total_same(s1.drop_last(), s2.drop_last());
    }
}

/// Raising one player's tricks counter by one raises the total by one.
pub proof fn lemma_tricks_total_bump<P, B>(s1: Seq<Player<P, B>>, s2: Seq<Player<P, B>>, w: int)
    requires
        s1.len() == s2.len(),
        0 <= w < s1.len(),
        s2[w].tricks == s1[w].tricks + 1,
        forall|q: int| 0 <= q < s1.len() && q != w ==> s2[q].tricks == s1[q].tricks,
    ensures
        tricks_total(s2) == tricks_total(s1) + 1,
    decreases s1.len(),
{
    if w == s1.len() - 1 {
        lemma_tricks_total_same(s1.drop_last(), s2.drop_last());
    } else {
        lemma_tricks_total_bump(s1.drop_last(), s2.drop_last(), w);
    }
}

/// With every counter at zero the total is zero.
pub proof fn lemma_tricks_total_zero<P, B>(players: Seq<Player<P, B>>)
    requires
        forall|q: int| 0 <= q < players.len() ==> players[q].tricks == 0,
    ensures
        tricks_total(players) == 0,
    decreases players.len(),
{
    if players.len() > 0 {
        lemma_tricks_total_zero(players.drop_last());
    }
}

/// One player of the game. The strategies are bound once, at construction,
/// and stay fixed for the player's lifetime; the hand and the counters are
/// reset at the start of every round.
#[derive(Debug)]
pub struct Player<P, B> {
    pub hand: Hand,
    pub estimate: usize,
    pub tricks: usize,
    pub play_strategy: P,
    pub bid_strategy: B,
}

impl<P: PlayStrategy, B: BidStrategy> Player<P, B> {
    /// Build a player from its parts.
    pub fn new(hand: Hand, estimate: usize, tricks: usize, play_strategy: P, bid_strategy: B) -> (p:
        Player<P, B>)
        ensures
            p.hand == hand,
            p.estimate == estimate,
            p.tricks == tricks,
            p.play_strategy == play_strategy,
            p.bid_strategy == bid_strategy,
    {
        Player { hand, estimate, tricks, play_strategy, bid_strategy }
    }

    /// Whether `card` is a legal play for this player: it must be a member
    /// of the player's own hand. No suit-following rule is enforced.
    pub fn is_valid_play(&self, card: Card) -> (r: bool)
        ensures
            r == self.hand.cards@.contains(card),
    {
        let mut i: usize = 0;
        while i < self.hand.cards.len()
            invariant
                i <= self.hand.cards@.len(),
                forall|k: int| 0 <= k < i ==> self.hand.cards@[k] != card,
            decreases self.hand.cards@.len() - i,
        {
            if self.hand.cards[i] == card {
                return true;
            }
            i += 1;
        }
        false
    }

    /// Whether `estimate` is a legal bid for this player: at most the size
    /// of the hand just dealt.
    pub fn is_valid_estimate(&self, estimate: usize) -> (r: bool)
        ensures
            r == (estimate <= self.hand.cards@.len()),
    {
        estimate <= self.hand.cards.len()
    }

    /// Let the play strategy choose a card, check the choice against the
    /// hand, and take the chosen card out of the hand.
    ///
    /// A choice outside the hand is a misbehaving plug-in: the player is
    /// left unchanged and the play fails with `InvalidCard`.
    pub fn play(&mut self, played_cards: &Vec<Card>) -> (r: Result<Card, GameError>)
        requires
            old(self).hand.cards@.len() > 0,
        ensures
            match r {
                Ok(c) => {
                    &&& old(self).hand.cards@.contains(c)
                    &&& removed_one(old(self).hand.cards@, final(self).hand.cards@, c)
                    &&& final(self).hand.trumps == old(self).hand.trumps
                    &&& final(self).estimate == old(self).estimate
                    &&& final(self).tricks == old(self).tricks
                    &&& final(self).play_strategy == old(self).play_strategy
                    &&& final(self).bid_strategy == old(self).bid_strategy
                },
                Err(e) => {
                    &&& e == GameError::InvalidCard
                    &&& *final(self) == *old(self)
                },
            },
    {
        let card = self.play_strategy.choose_card(&self.hand, played_cards);
        if self.is_valid_play(card) {
            self.hand.remove_card(card);
            Ok(card)
        } else {
            Err(GameError::InvalidCard)
        }
    }

    /// Let the bid strategy choose a bid. The caller records and validates
    /// the bid; nothing is promised of the choice itself.
    pub fn estimate(&self, num_cards: usize, estimates: &Vec<usize>) -> usize
        requires
            num_cards < usize::MAX,
    {
        self.bid_strategy.choose_bid(&self.hand, num_cards, estimates)
    }
}

} // verus!
