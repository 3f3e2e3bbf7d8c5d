//! Tests of the card model: the full deck, random draws, and the hand.

use oh_hell::cards::{Card, CardSuit, CardValue, Deck};
use oh_hell::hand::Hand;
use oh_hell::GameError;

const ALL_VALUES: [CardValue; 13] = [
    CardValue::Two,
    CardValue::Three,
    CardValue::Four,
    CardValue::Five,
    CardValue::Six,
    CardValue::Seven,
    CardValue::Eight,
    CardValue::Nine,
    CardValue::Ten,
    CardValue::Jack,
    CardValue::Queen,
    CardValue::King,
    CardValue::Ace,
];

const ALL_SUITS: [CardSuit; 4] = [
    CardSuit::Clubs,
    CardSuit::Diamonds,
    CardSuit::Hearts,
    CardSuit::Spades,
];

fn suit_index(s: CardSuit) -> usize {
    match s {
        CardSuit::Clubs => 0,
        CardSuit::Diamonds => 1,
        CardSuit::Hearts => 2,
        CardSuit::Spades => 3,
    }
}

fn drain(deck: &mut Deck) -> Vec<Card> {
    let mut out = Vec::new();
    while let Ok(c) = deck.select_random() {
        out.push(c);
    }
    out
}

#[test]
fn fresh_deck_holds_each_of_the_52_cards_once() {
    let mut deck = Deck::new();
    assert_eq!(deck.len(), 52);
    let drawn = drain(&mut deck);
    assert_eq!(drawn.len(), 52);
    // every (value, suit) combination appears exactly once
    let mut counts = [[0usize; 13]; 4];
    for c in &drawn {
        counts[suit_index(c.suit)][c.rank() as usize] += 1;
    }
    for s in 0..4 {
        for v in 0..13 {
            assert_eq!(counts[s][v], 1);
        }
    }
    assert_eq!(deck.len(), 0);
}

#[test]
fn draw_on_an_exhausted_deck_gives_empty_deck_error() {
    let mut deck = Deck::new();
    drain(&mut deck);
    assert_eq!(deck.select_random(), Err(GameError::EmptyDeck));
}

#[test]
fn card_values_rank_from_two_to_ace() {
    for (i, v) in ALL_VALUES.iter().enumerate() {
        assert_eq!(Card::new(*v, CardSuit::Clubs).rank() as usize, i);
    }
    let two = Card::new(CardValue::Two, CardSuit::Hearts);
    let ace = Card::new(CardValue::Ace, CardSuit::Hearts);
    assert!(two.rank() < ace.rank());
}

#[test]
fn deck_remove_card_takes_the_card_out() {
    let mut deck = Deck::new();
    let target = Card::new(CardValue::Two, CardSuit::Clubs);
    deck.remove_card(target);
    assert_eq!(deck.len(), 51);
    let rest = drain(&mut deck);
    assert!(rest.iter().all(|c| *c != target));
}

#[test]
fn deck_add_card_and_add_all_put_cards_back() {
    let mut deck = Deck::new();
    let c1 = Card::new(CardValue::Five, CardSuit::Diamonds);
    let c2 = Card::new(CardValue::Six, CardSuit::Diamonds);
    deck.add_card(c1);
    assert_eq!(deck.len(), 53);
    deck.add_all(vec![c1, c2]);
    assert_eq!(deck.len(), 55);
}

#[test]
fn hand_remove_card_takes_the_first_occurrence() {
    let two_clubs = Card::new(CardValue::Two, CardSuit::Clubs);
    let three_diamonds = Card::new(CardValue::Three, CardSuit::Diamonds);
    let mut hand = Hand::new(
        vec![two_clubs, three_diamonds, two_clubs],
        CardSuit::Spades,
    );
    hand.remove_card(two_clubs);
    assert_eq!(hand.cards, vec![three_diamonds, two_clubs]);
    assert_eq!(hand.trumps, CardSuit::Spades);
}

#[test]
fn hand_add_card_appends() {
    let mut hand = Hand::new(Vec::new(), CardSuit::Hearts);
    let c = Card::new(CardValue::Jack, CardSuit::Spades);
    hand.add_card(c);
    assert_eq!(hand.cards, vec![c]);
}

#[test]
fn hand_select_random_always_comes_from_the_hand() {
    for _ in 0..200 {
        let cards = vec![
            Card::new(CardValue::Two, CardSuit::Clubs),
            Card::new(CardValue::Nine, CardSuit::Hearts),
            Card::new(CardValue::Ace, CardSuit::Spades),
        ];
        let mut hand = Hand::new(cards.clone(), CardSuit::Spades);
        let picked = hand.select_random();
        assert!(cards.contains(&picked));
        assert_eq!(hand.cards.len(), 2);
    }
}

#[test]
fn every_suit_appears_thirteen_times_in_a_fresh_deck() {
    let mut deck = Deck::new();
    let drawn = drain(&mut deck);
    for s in ALL_SUITS {
        assert_eq!(drawn.iter().filter(|c| c.suit == s).count(), 13);
    }
}
