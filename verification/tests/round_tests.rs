//! Tests of the round engine: dealing, bidding, trick resolution,
//! rotation, scoring, and the phase machine.

use oh_hell::cards::{Card, CardSuit, CardValue, Deck};
use oh_hell::hand::Hand;
use oh_hell::player::Player;
use oh_hell::round::{Round, RoundPhase};
use oh_hell::strategy::{BidStrategy, PlayStrategy, RandomBid, RandomPlay};
use oh_hell::GameError;

/// Always plays the first card of the hand.
struct FirstCard;

impl PlayStrategy for FirstCard {
    fn choose_card(&self, hand: &Hand, _played_cards: &Vec<Card>) -> Card {
        hand.cards[0]
    }
}

/// Always bids zero.
struct ZeroBid;

impl BidStrategy for ZeroBid {
    fn choose_bid(&self, _hand: &Hand, _num_cards: usize, _prior_bids: &Vec<usize>) -> usize {
        0
    }
}

/// Bids the number of bids made before it: seat order becomes visible.
struct PriorCountBid;

impl BidStrategy for PriorCountBid {
    fn choose_bid(&self, _hand: &Hand, _num_cards: usize, prior_bids: &Vec<usize>) -> usize {
        prior_bids.len()
    }
}

/// Misbehaves: bids one more than the hand size allows.
struct TooBigBid;

impl BidStrategy for TooBigBid {
    fn choose_bid(&self, _hand: &Hand, num_cards: usize, _prior_bids: &Vec<usize>) -> usize {
        num_cards + 1
    }
}

/// Misbehaves: claims to play the ace of spades whether or not it holds it.
struct AlwaysAceOfSpades;

impl PlayStrategy for AlwaysAceOfSpades {
    fn choose_card(&self, _hand: &Hand, _played_cards: &Vec<Card>) -> Card {
        Card::new(CardValue::Ace, CardSuit::Spades)
    }
}

fn card(value: CardValue, suit: CardSuit) -> Card {
    Card::new(value, suit)
}

fn random_players(n: usize) -> Vec<Player<RandomPlay, RandomBid>> {
    (0..n)
        .map(|_| Player::new(Hand::new(Vec::new(), CardSuit::Clubs), 0, 0, RandomPlay, RandomBid))
        .collect()
}

fn fixed_player<P: PlayStrategy, B: BidStrategy>(
    cards: Vec<Card>,
    trumps: CardSuit,
    play: P,
    bid: B,
) -> Player<P, B> {
    Player::new(Hand::new(cards, trumps), 0, 0, play, bid)
}

/// A round already standing in the given phase, for driving one phase in
/// isolation.
fn round_in_phase(
    num_players: usize,
    num_cards: usize,
    trumps: CardSuit,
    estimates: Vec<usize>,
    phase: RoundPhase,
) -> Round {
    Round {
        deck: Deck::new(),
        num_players,
        num_cards,
        trumps,
        played_cards: Vec::new(),
        estimates,
        scores: Vec::new(),
        leader: 0,
        tricks_done: 0,
        phase,
    }
}

#[test]
fn trump_beats_higher_lead_suit_card_in_every_play_order() {
    let king_clubs = card(CardValue::King, CardSuit::Clubs);
    let ace_spades = card(CardValue::Ace, CardSuit::Spades);
    let two_clubs = card(CardValue::Two, CardSuit::Clubs);
    let players = random_players(3);
    let round = Round::new(&players, 3, CardSuit::Spades);
    let orders = [
        vec![king_clubs, ace_spades, two_clubs],
        vec![king_clubs, two_clubs, ace_spades],
        vec![ace_spades, king_clubs, two_clubs],
        vec![ace_spades, two_clubs, king_clubs],
        vec![two_clubs, king_clubs, ace_spades],
        vec![two_clubs, ace_spades, king_clubs],
    ];
    for trick in orders {
        let expected = trick.iter().position(|c| *c == ace_spades).unwrap();
        assert_eq!(round.find_winner(&trick), expected);
    }
}

#[test]
fn without_trumps_the_highest_card_of_the_lead_suit_wins() {
    let trick = vec![
        card(CardValue::Two, CardSuit::Hearts),
        card(CardValue::King, CardSuit::Clubs),
        card(CardValue::Ace, CardSuit::Hearts),
    ];
    let players = random_players(3);
    let round = Round::new(&players, 3, CardSuit::Spades);
    assert_eq!(round.find_winner(&trick), 2);
}

#[test]
fn dealing_conserves_the_52_cards() {
    let mut players = random_players(4);
    // stale counters from an earlier round are reset by the deal
    players[1].estimate = 7;
    players[1].tricks = 9;
    let mut round = Round::new(&players, 5, CardSuit::Hearts);
    round.deal(&mut players).unwrap();
    assert_eq!(round.phase, RoundPhase::Dealt);
    assert_eq!(round.deck.len(), 52 - 4 * 5);
    let mut seen = Vec::new();
    for p in &players {
        assert_eq!(p.hand.cards.len(), 5);
        assert_eq!(p.hand.trumps, CardSuit::Hearts);
        assert_eq!(p.estimate, 0);
        assert_eq!(p.tricks, 0);
        seen.extend(p.hand.cards.iter().cloned());
    }
    while let Ok(c) = round.deck.select_random() {
        seen.push(c);
    }
    assert_eq!(seen.len(), 52);
    for i in 0..seen.len() {
        for j in 0..i {
            assert_ne!(seen[i], seen[j], "duplicate card after the deal");
        }
    }
}

#[test]
fn dealing_into_a_non_empty_hand_is_refused() {
    let mut players = random_players(3);
    players[2]
        .hand
        .cards
        .push(card(CardValue::Four, CardSuit::Clubs));
    let mut round = Round::new(&players, 4, CardSuit::Clubs);
    assert_eq!(round.deal(&mut players), Err(GameError::NonEmptyHand));
    // nothing changed
    assert_eq!(round.phase, RoundPhase::Created);
    assert_eq!(round.deck.len(), 52);
    assert_eq!(players[2].hand.cards.len(), 1);
}

#[test]
fn dealing_more_cards_than_the_deck_holds_is_refused() {
    let mut players = random_players(11);
    let mut round = Round::new(&players, 5, CardSuit::Clubs);
    assert_eq!(round.deal(&mut players), Err(GameError::InsufficientCards));
    assert_eq!(round.phase, RoundPhase::Created);
    assert!(players.iter().all(|p| p.hand.cards.is_empty()));
}

#[test]
fn later_bidders_see_the_earlier_bids() {
    let five_diamonds: Vec<Card> = [
        CardValue::Two,
        CardValue::Three,
        CardValue::Four,
        CardValue::Five,
        CardValue::Six,
    ]
    .iter()
    .map(|v| card(*v, CardSuit::Diamonds))
    .collect();
    let mut players: Vec<Player<FirstCard, PriorCountBid>> = (0..4)
        .map(|_| fixed_player(five_diamonds.clone(), CardSuit::Spades, FirstCard, PriorCountBid))
        .collect();
    let mut round = round_in_phase(4, 5, CardSuit::Spades, Vec::new(), RoundPhase::Dealt);
    round.bid(&mut players).unwrap();
    assert_eq!(round.phase, RoundPhase::Bid);
    assert_eq!(round.estimates, vec![0, 1, 2, 3]);
    for (i, p) in players.iter().enumerate() {
        assert_eq!(p.estimate, i);
    }
}

#[test]
fn a_bid_above_the_hand_size_is_refused() {
    let hand_cards = vec![card(CardValue::Nine, CardSuit::Clubs)];
    let mut players: Vec<Player<FirstCard, TooBigBid>> = (0..3)
        .map(|_| fixed_player(hand_cards.clone(), CardSuit::Spades, FirstCard, TooBigBid))
        .collect();
    let mut round = round_in_phase(3, 1, CardSuit::Spades, Vec::new(), RoundPhase::Dealt);
    assert_eq!(round.bid(&mut players), Err(GameError::InvalidBid));
}

#[test]
fn a_play_outside_the_hand_is_refused() {
    let hand_cards = vec![card(CardValue::Nine, CardSuit::Clubs)];
    let mut players: Vec<Player<AlwaysAceOfSpades, ZeroBid>> = (0..3)
        .map(|_| fixed_player(hand_cards.clone(), CardSuit::Spades, AlwaysAceOfSpades, ZeroBid))
        .collect();
    let mut round = round_in_phase(3, 1, CardSuit::Spades, vec![0, 0, 0], RoundPhase::Bid);
    assert_eq!(round.play(&mut players), Err(GameError::InvalidCard));
}

#[test]
fn the_trick_winner_leads_the_next_trick() {
    // seat 2 takes the first trick with the only trump
    let trumps = CardSuit::Spades;
    let hands = [
        vec![card(CardValue::Two, CardSuit::Clubs), card(CardValue::Five, CardSuit::Diamonds)],
        vec![card(CardValue::Three, CardSuit::Clubs), card(CardValue::Six, CardSuit::Diamonds)],
        vec![card(CardValue::Ace, CardSuit::Spades), card(CardValue::Seven, CardSuit::Diamonds)],
        vec![card(CardValue::Four, CardSuit::Clubs), card(CardValue::Eight, CardSuit::Diamonds)],
    ];
    let mut players: Vec<Player<FirstCard, ZeroBid>> = hands
        .iter()
        .map(|h| fixed_player(h.clone(), trumps, FirstCard, ZeroBid))
        .collect();
    let mut round = round_in_phase(4, 2, trumps, vec![0, 0, 0, 0], RoundPhase::Bid);

    round.play_trick(&mut players).unwrap();
    assert_eq!(round.leader, 2);
    assert_eq!(
        players.iter().map(|p| p.tricks).collect::<Vec<_>>(),
        vec![0, 0, 1, 0]
    );

    // the next trick goes around the table starting at seat 2: [2, 3, 0, 1]
    round.play_trick(&mut players).unwrap();
    assert_eq!(
        round.played_cards[4..8],
        [
            card(CardValue::Seven, CardSuit::Diamonds),
            card(CardValue::Eight, CardSuit::Diamonds),
            card(CardValue::Five, CardSuit::Diamonds),
            card(CardValue::Six, CardSuit::Diamonds),
        ]
    );
    // highest diamond on a diamond lead: seat 3 takes the second trick
    assert_eq!(round.leader, 3);
}

#[test]
fn an_exact_bid_earns_the_bonus_of_ten() {
    let mut hit = fixed_player(Vec::new(), CardSuit::Spades, FirstCard, ZeroBid);
    hit.tricks = 3;
    hit.estimate = 3;
    let mut missed = fixed_player(Vec::new(), CardSuit::Spades, FirstCard, ZeroBid);
    missed.tricks = 3;
    missed.estimate = 2;
    let players = vec![hit, missed];
    let mut round = round_in_phase(2, 3, CardSuit::Spades, vec![3, 2], RoundPhase::Played);
    round.tricks_done = 3;
    round.score(&players);
    assert_eq!(round.phase, RoundPhase::Scored);
    assert_eq!(round.scores, vec![13, 3]);
}

#[test]
fn the_phases_run_in_their_fixed_order() {
    let mut players = random_players(3);
    let mut round = Round::new(&players, 4, CardSuit::Diamonds);
    assert_eq!(round.phase, RoundPhase::Created);
    round.deal(&mut players).unwrap();
    assert_eq!(round.phase, RoundPhase::Dealt);
    round.bid(&mut players).unwrap();
    assert_eq!(round.phase, RoundPhase::Bid);
    round.play(&mut players).unwrap();
    assert_eq!(round.phase, RoundPhase::Played);
    round.score(&players);
    assert_eq!(round.phase, RoundPhase::Scored);
    // after the round every hand is empty and the tricks add up
    assert!(players.iter().all(|p| p.hand.cards.is_empty()));
    assert_eq!(players.iter().map(|p| p.tricks).sum::<usize>(), 4);
}

#[test]
fn evaluate_runs_a_round_end_to_end() {
    let mut players = random_players(4);
    let mut round = Round::new(&players, 6, CardSuit::Clubs);
    round.evaluate(&mut players).unwrap();
    assert_eq!(round.phase, RoundPhase::Scored);
    assert_eq!(round.scores.len(), 4);
    for (i, p) in players.iter().enumerate() {
        let expected = p.tricks + if p.tricks == p.estimate { 10 } else { 0 };
        assert_eq!(round.scores[i], expected);
    }
    assert_eq!(players.iter().map(|p| p.tricks).sum::<usize>(), 6);
}
