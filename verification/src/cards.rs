//! Card identity, the full deck, and uniform draw-without-replacement.

use vstd::prelude::*;
use vstd::multiset::Multiset;
use crate::player::{Player, hands_multiset};
use crate::rng::random_below;
use crate::GameError;

verus! {

/// The thirteen card values. Their order, `Two` lowest through `Ace`
/// highest, decides trick-winning comparisons (see [`value_rank`]).
#[derive(Debug, Clone, Copy, PartialEq, Eq, Structural)]
pub enum CardValue {
    Two,
    Three,
    Four,
    Five,
    Six,
    Seven,
    Eight,
    Nine,
    Ten,
    Jack,
    Queen,
    King,
    Ace,
}

/// The four suits. No intrinsic order: trump status is assigned per round.
#[derive(Debug, Clone, Copy, PartialEq, Eq, Structural)]
pub enum CardSuit {
    Clubs,
    Diamonds,
    Hearts,
    Spades,
}

/// An immutable card identity: a (value, suit) pair.
#[derive(Debug, Clone, Copy, PartialEq, Eq, Structural)]
pub struct Card {
    pub value: CardValue,
    pub suit: CardSuit,
}

/// The rank of a card value: `Two` is 0, `Ace` is 12. A higher rank wins
/// against a lower one when both cards compete for a trick.
pub open spec fn value_rank(v: CardValue) -> int {
    match v {
        CardValue::Two => 0,
        CardValue::Three => 1,
        CardValue::Four => 2,
        CardValue::Five => 3,
        CardValue::Six => 4,
        CardValue::Seven => 5,
        CardValue::Eight => 6,
        CardValue::Nine => 7,
        CardValue::Ten => 8,
        CardValue::Jack => 9,
        CardValue::Queen => 10,
        CardValue::King => 11,
        CardValue::Ace => 12,
    }
}

/// The card value of a rank; inverse of [`value_rank`] on `0..13`.
pub open spec fn value_of(r: int) -> CardValue {
    if r == 0 {
        CardValue::Two
    } else if r == 1 {
        CardValue::Three
    } else if r == 2 {
        CardValue::Four
    } else if r == 3 {
        CardValue::Five
    } else if r == 4 {
        CardValue::Six
    } else if r == 5 {
        CardValue::Seven
    } else if r == 6 {
        CardValue::Eight
    } else if r == 7 {
        CardValue::Nine
    } else if r == 8 {
        CardValue::Ten
    } else if r == 9 {
        CardValue::Jack
    } else if r == 10 {
        CardValue::Queen
    } else if r == 11 {
        CardValue::King
    } else {
        CardValue::Ace
    }
}

impl Card {
    /// Build the card with the given value and suit.
    pub fn new(value: CardValue, suit: CardSuit) -> (c: Card)
        ensures
            c == (Card { value, suit }),
    {
        Card { value, suit }
    }

    /// The rank of this card's value, as an executable number.
    pub fn rank(&self) -> (r: u8)
        ensures
            r as int == value_rank(self.value),
    {
        match self.value {
            CardValue::Two => 0,
            CardValue::Three => 1,
            CardValue::Four => 2,
            CardValue::Five => 3,
            CardValue::Six => 4,
            CardValue::Seven => 5,
            CardValue::Eight => 6,
            CardValue::Nine => 7,
            CardValue::Ten => 8,
            CardValue::Jack => 9,
            CardValue::Queen => 10,
            CardValue::King => 11,
            CardValue::Ace => 12,
        }
    }
}

/// The thirteen cards of one suit, ordered by rank.
pub open spec fn suit_run(s: CardSuit) -> Seq<Card> {
    Seq::new(13, |j: int| Card { value: value_of(j), suit: s })
}

/// The 52 cards of a fresh deck: one card for every (value, suit) pair.
pub open spec fn full_deck() -> Seq<Card> {
    suit_run(CardSuit::Clubs) + suit_run(CardSuit::Diamonds) + suit_run(CardSuit::Hearts)
        + suit_run(CardSuit::Spades)
}

/// `after` is `before` with one occurrence of `c` taken out.
pub open spec fn removed_one(before: Seq<Card>, after: Seq<Card>, c: Card) -> bool {
    exists|i: int| 0 <= i < before.len() && before[i] == c && after == before.remove(i)
}

/// `after` is `before` with the first occurrence of `c` taken out: every
/// card before the removed one differs from `c`, and the rest keep their
/// relative order.
pub open spec fn removed_first(before: Seq<Card>, after: Seq<Card>, c: Card) -> bool {
    exists|i: int|
        {
            &&& 0 <= i < before.len()
            &&& before[i] == c
            &&& (forall|k: int| 0 <= k < i ==> before[k] != c)
            &&& after == before.remove(i)
        }
}

/// No card appears twice in a fresh deck.
pub proof fn lemma_full_deck_no_duplicates()
    ensures
        full_deck().no_duplicates(),
{
    assert forall|i: int, j: int| 0 <= i < j < 52 implies full_deck()[i] != full_deck()[j] by {
        assert(full_deck().len() == 52);
        if full_deck()[i].suit == full_deck()[j].suit {
            assert(value_rank(full_deck()[i].value) != value_rank(full_deck()[j].value));
        }
    }
}

/// A fresh deck holds every (value, suit) combination.
pub proof fn lemma_full_deck_complete(v: CardValue, s: CardSuit)
    ensures
        full_deck().contains(Card { value: v, suit: s }),
{
    let base: int = match s {
        CardSuit::Clubs => 0,
        CardSuit::Diamonds => 13,
        CardSuit::Hearts => 26,
        CardSuit::Spades => 39,
    };
    assert(full_deck()[base + value_rank(v)] == Card { value: v, suit: s });
}

/// A deck of cards. It starts out full and shrinks as cards are drawn; its
/// view is the sequence of cards it still holds.
#[derive(Debug)]
pub struct Deck {
    cards: Vec<Card>,
}

impl View for Deck {
    type V = Seq<Card>;

    closed spec fn view(&self) -> Seq<Card> {
        self.cards@
    }
}

/// The card value of rank `r`, as executable code; agrees with [`value_of`].
fn value_from_rank(r: usize) -> (v: CardValue)
    requires
        r < 13,
    ensures
        v == value_of(r as int),
{
    match r {
        0 => CardValue::Two,
        1 => CardValue::Three,
        2 => CardValue::Four,
        3 => CardValue::Five,
        4 => CardValue::Six,
        5 => CardValue::Seven,
        6 => CardValue::Eight,
        7 => CardValue::Nine,
        8 => CardValue::Ten,
        9 => CardValue::Jack,
        10 => CardValue::Queen,
        11 => CardValue::King,
        _ => CardValue::Ace,
    }
}

/// Push the thirteen cards of `suit` onto `cards`, in rank order.
fn push_suit(cards: &mut Vec<Card>, suit: CardSuit)
    ensures
        final(cards)@ == old(cards)@ + suit_run(suit),
{
    let mut j: usize = 0;
    while j < 13
        invariant
            j <= 13,
            cards@ =~= old(cards)@ + suit_run(suit).take(j as int),
        decreases 13 - j,
    {
        cards.push(Card { value: value_from_rank(j), suit });
        proof {
            assert(suit_run(suit).take(j + 1) =~= suit_run(suit).take(j as int).push(
                suit_run(suit)[j as int],
            ));
        }
        j += 1;
    }
    assert(suit_run(suit).take(13) =~= suit_run(suit));
}

impl Deck {
    /// A fresh deck: all 52 (value, suit) combinations, exactly once each.
    pub fn new() -> (d: Deck)
        ensures
            d@ == full_deck(),
            d@.len() == 52,
    {
        let mut cards: Vec<Card> = Vec::new();
        push_suit(&mut cards, CardSuit::Clubs);
        push_suit(&mut cards, CardSuit::Diamonds);
        push_suit(&mut cards, CardSuit::Hearts);
        push_suit(&mut cards, CardSuit::Spades);
        proof {
            assert(cards@ =~= full_deck());
        }
        Deck { cards }
    }

    /// Put `card` back on the deck.
    pub fn add_card(&mut self, card: Card)
        ensures
            final(self)@ == old(self)@.push(card),
    {
        self.cards.push(card);
    }

    /// Put every card of `cards` back on the deck, in order.
    pub fn add_all(&mut self, cards: Vec<Card>)
        ensures
            final(self)@ == old(self)@ + cards@,
    {
        let mut i: usize = 0;
        while i < cards.len()
            invariant
                i <= cards@.len(),
                self@ =~= old(self)@ + cards@.take(i as int),
            decreases cards@.len() - i,
        {
            proof {
                assert(cards@.take(i + 1) =~= cards@.take(i as int).push(cards@[i as int]));
            }
            self.cards.push(cards[i]);
            i += 1;
        }
        assert(cards@.take(cards@.len() as int) =~= cards@);
    }

    /// Take the first occurrence of `card` out of the deck. The card must be
    /// in the deck.
    pub fn remove_card(&mut self, card: Card)
        requires
            old(self)@.contains(card),
        ensures
            removed_first(old(self)@, final(self)@, card),
            removed_one(old(self)@, final(self)@, card),
            final(self)@.to_multiset() == old(self)@.to_multiset().remove(card),
    {
        let mut i: usize = 0;
        while i < self.cards.len()
            invariant
                i <= self@.len(),
                self@ == old(self)@,
                self@.contains(card),
                forall|k: int| 0 <= k < i ==> self@[k] != card,
            decreases self@.len() - i,
        {
            if self.cards[i] == card {
                self.cards.remove(i);
                proof {
                    broadcast use vstd::seq_lib::group_to_multiset_ensures;

                    assert(old(self)@[i as int] == card);
                    assert(self@ == old(self)@.remove(i as int));
                    assert(forall|k: int| 0 <= k < i ==> old(self)@[k] != card);
                }
                return ;
            }
            i += 1;
        }
        proof {
            assert(false);
        }
    }

    /// Draw one card, uniformly at random among the remaining cards, and
    /// take it out of the deck. An exhausted deck gives `EmptyDeck`.
    pub fn select_random(&mut self) -> (r: Result<Card, GameError>)
        ensures
            match r {
                Ok(c) => {
                    &&& old(self)@.len() > 0
                    &&& removed_one(old(self)@, final(self)@, c)
                    &&& final(self)@.to_multiset() == old(self)@.to_multiset().remove(c)
                    &&& old(self)@.contains(c)
                },
                Err(e) => {
                    &&& e == GameError::EmptyDeck
                    &&& old(self)@.len() == 0
                    &&& final(self)@ == old(self)@
                },
            },
            (r is Ok) <==> old(self)@.len() > 0,
    {
        broadcast use vstd::seq_lib::group_to_multiset_ensures;

        if self.cards.len() == 0 {
            return Err(GameError::EmptyDeck);
        }
        let i = random_below(self.cards.len());
        let card = self.cards[i];
        self.cards.remove(i);
        Ok(card)
    }

    /// How many cards the deck still holds.
    pub fn len(&self) -> (n: usize)
        ensures
            n == self@.len(),
    {
        self.cards.len()
    }

    /// Deal `num_cards` random cards to each player in turn.
    ///
    /// The deal is refused with `NonEmptyHand` when a player still holds
    /// cards, and with `InsufficientCards` when more cards are requested
    /// than the deck holds; a refused deal changes nothing. A successful
    /// deal conserves cards: the dealt hands and the remaining deck
    /// together are exactly the old deck, and nothing of a player but their
    /// hand's cards changes.
    pub fn deal<P, B>(&mut self, players: &mut Vec<Player<P, B>>, num_cards: usize) -> (r: Result<
        (),
        GameError,
    >)
        ensures
            match r {
                Ok(()) => {
                    &&& forall|q: int|
                        0 <= q < old(players)@.len() ==> old(players)@[q].hand.cards@.len() == 0
                    &&& old(players)@.len() * num_cards <= old(self)@.len()
                    &&& final(players)@.len() == old(players)@.len()
                    &&& forall|q: int|
                        0 <= q < old(players)@.len() ==> {
                            &&& final(players)@[q].hand.cards@.len() == num_cards
                            &&& final(players)@[q].hand.trumps == old(players)@[q].hand.trumps
                            &&& final(players)@[q].estimate == old(players)@[q].estimate
                            &&& final(players)@[q].tricks == old(players)@[q].tricks
                            &&& final(players)@[q].play_strategy == old(players)@[q].play_strategy
                            &&& final(players)@[q].bid_strategy == old(players)@[q].bid_strategy
                        }
                    &&& final(self)@.len() + old(players)@.len() * num_cards == old(self)@.len()
                    &&& final(self)@.to_multiset().add(hands_multiset(final(players)@)) == old(
                        self,
                    )@.to_multiset()
                },
                Err(e) => {
                    &&& *final(self) == *old(self)
                    &&& *final(players) == *old(players)
                    &&& (e == GameError::NonEmptyHand <==> exists|q: int|
                        0 <= q < old(players)@.len() && old(players)@[q].hand.cards@.len() > 0)
                    &&& (e == GameError::InsufficientCards ==> old(players)@.len() * num_cards
                        > old(self)@.len())
                    &&& (e == GameError::NonEmptyHand || e == GameError::InsufficientCards)
                },
            },
            (r is Ok) <==> ((forall|q: int|
                0 <= q < old(players)@.len() ==> old(players)@[q].hand.cards@.len() == 0) && old(
                players,
            )@.len() * num_cards <= old(self)@.len()),
    {
        let n_players = players.len();
        let deck_len = self.cards.len();

        // a player who still holds cards from a prior round is a
        // round-lifecycle bug
        let mut j: usize = 0;
        while j < n_players
            invariant
                j <= n_players,
                n_players == players@.len(),
                *players == *old(players),
                *self == *old(self),
                forall|k: int| 0 <= k < j ==> players@[k].hand.cards@.len() == 0,
            decreases n_players - j,
        {
            if players[j].hand.cards.len() > 0 {
                return Err(GameError::NonEmptyHand);
            }
            j += 1;
        }

        // more cards requested than the deck holds
        let enough = match n_players.checked_mul(num_cards) {
            Some(total) => total <= deck_len,
            None => false,
        };
        if !enough {
            return Err(GameError::InsufficientCards);
        }

        proof {
            assert(players@.take(0) =~= Seq::<Player<P, B>>::empty());
            assert(self@.to_multiset().add(hands_multiset(players@.take(0)))
                =~= self@.to_multiset());
        }
        let mut i: usize = 0;
        while i < n_players
            invariant
                i <= n_players,
                n_players == players@.len(),
                n_players == old(players)@.len(),
                n_players * num_cards <= old(self)@.len(),
                forall|q: int|
                    0 <= q < old(players)@.len() ==> old(players)@[q].hand.cards@.len() == 0,
                forall|q: int| i <= q < n_players ==> players@[q] == old(players)@[q],
                forall|q: int|
                    0 <= q < i ==> {
                        &&& players@[q].hand.cards@.len() == num_cards
                        &&& players@[q].hand.trumps == old(players)@[q].hand.trumps
                        &&& players@[q].estimate == old(players)@[q].estimate
                        &&& players@[q].tricks == old(players)@[q].tricks
                        &&& players@[q].play_strategy == old(players)@[q].play_strategy
                        &&& players@[q].bid_strategy == old(players)@[q].bid_strategy
                    },
                self@.len() + i * num_cards == old(self)@.len(),
                self@.to_multiset().add(hands_multiset(players@.take(i as int))) == old(
                    self,
                )@.to_multiset(),
            decreases n_players - i,
        {
            let ghost prefix = players@.take(i as int);
            let mut p = players.remove(i);
            proof {
                broadcast use vstd::seq_lib::group_to_multiset_ensures;

                assert(players@.take(i as int) =~= prefix);
                assert(p.hand.cards@.to_multiset().len() == 0);
                assert(p.hand.cards@.to_multiset() =~= Multiset::<Card>::empty());
                assert(self@.to_multiset().add(hands_multiset(prefix)).add(
                    p.hand.cards@.to_multiset(),
                ) =~= old(self)@.to_multiset());
            }
            let mut c: usize = 0;
            while c < num_cards
                invariant
                    c <= num_cards,
                    i < n_players,
                    n_players == old(players)@.len(),
                    players@.len() == n_players - 1,
                    n_players * num_cards <= old(self)@.len(),
                    players@.take(i as int) == prefix,
                    p.hand.cards@.len() == c,
                    p.hand.trumps == old(players)@[i as int].hand.trumps,
                    p.estimate == old(players)@[i as int].estimate,
                    p.tricks == old(players)@[i as int].tricks,
                    p.play_strategy == old(players)@[i as int].play_strategy,
                    p.bid_strategy == old(players)@[i as int].bid_strategy,
                    self@.len() + i * num_cards + c == old(self)@.len(),
                    self@.to_multiset().add(hands_multiset(prefix)).add(
                        p.hand.cards@.to_multiset(),
                    ) == old(self)@.to_multiset(),
                decreases num_cards - c,
            {
                proof {
                    assert((i + 1) * num_cards <= n_players * num_cards) by (nonlinear_arith)
                        requires
                            i + 1 <= n_players,
                            num_cards >= 0,
                    ;
                    assert(i * num_cards + num_cards == (i + 1) * num_cards) by (nonlinear_arith);
                }
                let ghost deck_before = self@;
                let ghost hand_before = p.hand.cards@;
                let card = match self.select_random() {
                    Ok(card) => card,
                    Err(_) => {
                        proof {
                            assert(false);
                        }
                        return Err(GameError::EmptyDeck);
                    },
                };
                p.hand.add_card(card);
                proof {
                    broadcast use vstd::seq_lib::group_to_multiset_ensures;

                    assert(p.hand.cards@.to_multiset() == hand_before.to_multiset().insert(card));
                    assert(deck_before.to_multiset().count(card) > 0);
                    assert(self@.to_multiset().add(hands_multiset(prefix)).add(
                        p.hand.cards@.to_multiset(),
                    ) =~= old(self)@.to_multiset());
                }
                c += 1;
            }
            let ghost before_insert = players@;
            players.insert(i, p);
            proof {
                assert(players@.take(i as int) =~= prefix);
                assert(players@.take(i + 1).drop_last() =~= prefix);
                assert(players@.take(i + 1).last() == p);
                assert(hands_multiset(players@.take(i + 1)) == hands_multiset(prefix).add(
                    p.hand.cards@.to_multiset(),
                ));
                assert(i * num_cards + num_cards == (i + 1) * num_cards) by (nonlinear_arith);
                assert forall|q: int| i + 1 <= q < n_players implies players@[q] == old(
                    players,
                )@[q] by {
                    assert(players@[q] == before_insert[q - 1]);
                }
            }
            i += 1;
        }
        proof {
            assert(players@.take(n_players as int) =~= players@);
        }
        Ok(())
    }
}

} // verus!
