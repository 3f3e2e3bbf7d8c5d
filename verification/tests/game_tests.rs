//! Tests of the game session and of the reference random strategies.

use oh_hell::cards::{Card, CardSuit, CardValue};
use oh_hell::game::Game;
use oh_hell::hand::Hand;
use oh_hell::player::Player;
use oh_hell::strategy::{BidStrategy, PlayStrategy, RandomBid, RandomPlay};

fn random_players(n: usize) -> Vec<Player<RandomPlay, RandomBid>> {
    (0..n)
        .map(|_| Player::new(Hand::new(Vec::new(), CardSuit::Clubs), 0, 0, RandomPlay, RandomBid))
        .collect()
}

#[test]
fn an_eight_round_game_with_four_players_terminates_with_four_scores() {
    let mut game = Game::new(random_players(4));
    game.play().unwrap();
    assert_eq!(game.scores.len(), 4);
    // at most 18 points per round over eight rounds
    assert!(game.scores.iter().all(|s| *s <= 144));
    assert!(game.players.iter().all(|p| p.hand.cards.is_empty()));
}

#[test]
fn the_schedule_descends_from_eight_cards_to_one() {
    let suits = [
        CardSuit::Clubs,
        CardSuit::Diamonds,
        CardSuit::Hearts,
        CardSuit::Spades,
    ];
    let mut game = Game::new(random_players(4));
    for i in 0..8usize {
        let hand_size = 8 - i;
        let before = game.scores.clone();
        game.play_round(hand_size, suits[i % 4]).unwrap();
        // one trick was won per card dealt, and the hands are empty again
        assert_eq!(
            game.players.iter().map(|p| p.tricks).sum::<usize>(),
            hand_size
        );
        assert!(game.players.iter().all(|p| p.hand.cards.is_empty()));
        for (q, p) in game.players.iter().enumerate() {
            let bonus = if p.tricks == p.estimate { 10 } else { 0 };
            assert_eq!(game.scores[q], before[q] + p.tricks + bonus);
            assert!(p.estimate <= hand_size);
        }
    }
}

#[test]
fn six_players_still_fit_the_full_schedule() {
    let mut game = Game::new(random_players(6));
    game.play().unwrap();
    assert_eq!(game.scores.len(), 6);
}

#[test]
fn seven_players_cannot_be_dealt_eight_cards() {
    let mut game = Game::new(random_players(7));
    assert_eq!(
        game.play(),
        Err(oh_hell::GameError::InsufficientCards)
    );
}

#[test]
fn new_game_starts_with_zero_scores() {
    let game = Game::new(random_players(5));
    assert_eq!(game.scores, vec![0, 0, 0, 0, 0]);
    assert_eq!(game.players.len(), 5);
}

#[test]
fn random_bids_stay_within_the_hand_size() {
    let hand = Hand::new(Vec::new(), CardSuit::Clubs);
    for _ in 0..2000 {
        let bid = RandomBid.choose_bid(&hand, 5, &Vec::new());
        assert!(bid <= 5);
    }
    for _ in 0..100 {
        assert_eq!(RandomBid.choose_bid(&hand, 0, &Vec::new()), 0);
    }
}

#[test]
fn random_plays_always_come_from_the_hand() {
    let cards = vec![
        Card::new(CardValue::Two, CardSuit::Clubs),
        Card::new(CardValue::Jack, CardSuit::Hearts),
        Card::new(CardValue::Ace, CardSuit::Spades),
    ];
    let hand = Hand::new(cards.clone(), CardSuit::Spades);
    for _ in 0..2000 {
        let picked = RandomPlay.choose_card(&hand, &Vec::new());
        assert!(cards.contains(&picked));
    }
}
