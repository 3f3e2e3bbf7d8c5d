//! The round engine: one deal → bid → play → score cycle, with
//! trick-winner determination and a rotating lead.

use vstd::prelude::*;
use crate::GameError;
use crate::cards::{Card, CardSuit, Deck, full_deck, removed_one, value_rank};
use crate::player::{Player, hands_multiset, lemma_hands_multiset_same_cards, lemma_tricks_total_bump, lemma_tricks_total_zero, tricks_total};
use crate::strategy::{BidStrategy, PlayStrategy};

verus! {

/// The strictly sequential phases of a round. Calling a phase out of order
/// is a precondition violation, not a recoverable error: each phase method
/// requires the phase that precedes it.
#[derive(Debug, Clone, Copy, PartialEq, Eq, Structural)]
pub enum RoundPhase {
    /// Fresh round: full deck, nothing dealt.
    Created,
    /// Hands are dealt; counters are reset.
    Dealt,
    /// Bids are recorded; tricks are being played.
    Bid,
    /// Every trick is played; hands are empty.
    Played,
    /// Round scores are computed. Terminal.
    Scored,
}

/// Whether the card `c` outranks the current winning card `w` of a trick,
/// where `lead` is the suit of the card that led the trick and `trumps` is
/// the round's trump suit. A trump outranks every non-trump; among trumps,
/// and among cards of the lead suit, the higher value wins; a card of
/// neither suit never wins.
pub open spec fn beats(c: Card, w: Card, lead: CardSuit, trumps: CardSuit) -> bool {
    if c.suit == trumps {
        w.suit != trumps || value_rank(c.value) > value_rank(w.value)
    } else if c.suit == lead {
        w.suit != trumps && value_rank(c.value) > value_rank(w.value)
    } else {
        false
    }
}

/// The index, in play order, of the card that wins the trick: the earliest
/// card that no later card beats. The lead suit is the suit of the first
/// card of the trick.
pub open spec fn trick_winner(trick: Seq<Card>, trumps: CardSuit) -> int
    decreases trick.len(),
{
    if trick.len() <= 1 {
        0
    } else {
        let w = trick_winner(trick.drop_last(), trumps);
        if beats(trick.last(), trick[w], trick[0].suit, trumps) {
            trick.len() - 1
        } else {
            w
        }
    }
}

/// Whether a card can win a trick led with suit `lead`: only trumps and
/// cards of the lead suit are eligible.
pub open spec fn eligible(c: Card, lead: CardSuit, trumps: CardSuit) -> bool {
    c.suit == trumps || c.suit == lead
}

/// Law of winner determination: the winning card is always eligible; when
/// any trump was played, the winner holds a trump of the highest rank
/// among the trumps; otherwise the winner holds a card of the lead suit of
/// the highest rank among the lead-suited cards — whatever the play order.
pub proof fn lemma_trick_winner_correct(trick: Seq<Card>, trumps: CardSuit)
    requires
        trick.len() > 0,
    ensures
        ({
            let w = trick_winner(trick, trumps);
            let lead = trick[0].suit;
            &&& 0 <= w < trick.len()
            &&& eligible(trick[w], lead, trumps)
            &&& (exists|i: int| 0 <= i < trick.len() && #[trigger] trick[i].suit == trumps) ==> {
                &&& trick[w].suit == trumps
                &&& forall|i: int|
                    0 <= i < trick.len() && #[trigger] trick[i].suit == trumps ==> value_rank(
                        trick[i].value,
                    ) <= value_rank(trick[w].value)
            }
            &&& !(exists|i: int| 0 <= i < trick.len() && #[trigger] trick[i].suit == trumps) ==> {
                &&& trick[w].suit == lead
                &&& forall|i: int|
                    0 <= i < trick.len() && #[trigger] trick[i].suit == lead ==> value_rank(
                        trick[i].value,
                    ) <= value_rank(trick[w].value)
            }
        }),
    decreases trick.len(),
{
    if trick.len() == 1 {
    } else {
        let rest = trick.drop_last();
        lemma_trick_winner_correct(rest, trumps);
        let w0 = trick_winner(rest, trumps);
        assert(rest[0] == trick[0]);
        assert(forall|i: int| 0 <= i < rest.len() ==> rest[i] == trick[i]);
        assert(trick.last() == trick[trick.len() - 1]);
        if exists|i: int| 0 <= i < rest.len() && #[trigger] rest[i].suit == trumps {
            let witness = choose|i: int| 0 <= i < rest.len() && #[trigger] rest[i].suit == trumps;
            assert(trick[witness].suit == trumps);
        }
    }
}

/// The winner of a non-empty trick is one of its cards.
pub proof fn lemma_trick_winner_in_range(trick: Seq<Card>, trumps: CardSuit)
    requires
        trick.len() > 0,
    ensures
        0 <= trick_winner(trick, trumps) < trick.len(),
    decreases trick.len(),
{
    if trick.len() > 1 {
        lemma_trick_winner_in_range(trick.drop_last(), trumps);
    }
}

/// The seat that acts `j`-th in a trick led by the seat `leader`, among
/// `n` seats: play starts at the leader and wraps around the table.
pub open spec fn seat_of(leader: int, j: int, n: int) -> int
    recommends
        0 <= leader < n,
        0 <= j < n,
{
    if leader + j >= n {
        leader + j - n
    } else {
        leader + j
    }
}

/// A player's score for one round: the tricks won, plus a bonus of 10 when
/// the bid estimate was hit exactly.
pub open spec fn round_score(tricks: int, estimate: int) -> int {
    tricks + if tricks == estimate { 10int } else { 0int }
}

/// One round of the game: a fresh deck, the round's hand size and trump
/// suit, the log of every card played so far, the bids, the scores, and
/// the seat that leads the next trick. The players themselves are borrowed
/// from the game for each phase call.
#[derive(Debug)]
pub struct Round {
    /// The round's own deck, full at creation.
    pub deck: Deck,
    /// How many players the round was created over.
    pub num_players: usize,
    /// The hand size: how many cards each player is dealt, and how many
    /// tricks are played.
    pub num_cards: usize,
    /// The round's trump suit.
    pub trumps: CardSuit,
    /// Every card played so far this round, in play order, across tricks.
    pub played_cards: Vec<Card>,
    /// The bid of each seat, recorded by the bidding phase.
    pub estimates: Vec<usize>,
    /// The round score of each seat, recorded by the scoring phase.
    pub scores: Vec<usize>,
    /// The seat that leads the next trick: the winner of the last trick,
    /// or seat 0 at the start of the round.
    pub leader: usize,
    /// How many tricks have been resolved so far.
    pub tricks_done: usize,
    /// Where in the deal → bid → play → score cycle the round stands.
    pub phase: RoundPhase,
}

impl Round {
    /// Internal consistency of a round, established by [`Round::new`] and
    /// preserved by every phase.
    pub open spec fn inv(self) -> bool {
        &&& self.num_players >= 1
        &&& self.leader < self.num_players
        &&& self.tricks_done <= self.num_cards
        &&& self.played_cards@.len() == self.num_players * self.tricks_done
        &&& (self.phase is Created ==> self.deck@ == full_deck() && self.leader == 0)
        &&& ((self.phase is Created || self.phase is Dealt) ==> self.tricks_done == 0)
        &&& (!(self.phase is Created) ==> self.num_players * self.num_cards <= 52)
        &&& ((self.phase is Played || self.phase is Scored) ==> self.tricks_done == self.num_cards)
        &&& self.estimates@.len() == (
        if self.phase is Created || self.phase is Dealt {
            0int
        } else {
            self.num_players as int
        })
        &&& self.scores@.len() == (if self.phase is Scored {
            self.num_players as int
        } else {
            0int
        })
        &&& forall|q: int| 0 <= q < self.estimates@.len() ==> self.estimates@[q] <= self.num_cards
    }

    /// How the borrowed players' state must relate to the round's own:
    /// hands shrink with the tricks played, counters stay within the round,
    /// and recorded bids agree with the players' estimates.
    pub open spec fn players_ok<P, B>(self, players: Seq<Player<P, B>>) -> bool {
        &&& players.len() == self.num_players
        &&& !(self.phase is Created) ==> forall|q: int|
            #![trigger players[q]]
            0 <= q < players.len() ==> {
                &&& players[q].hand.trumps == self.trumps
                &&& players[q].tricks <= self.tricks_done
                &&& players[q].hand.cards@.len() == self.num_cards - self.tricks_done
                &&& (self.phase is Dealt ==> players[q].tricks == 0 && players[q].estimate == 0)
                &&& (!(self.phase is Created || self.phase is Dealt) ==> players[q].estimate
                    == self.estimates@[q])
            }
    }

    /// A fresh round over the given players: a full deck, hand size
    /// `num_cards`, trump suit `trumps`, seat 0 leading.
    pub fn new<P, B>(players: &Vec<Player<P, B>>, num_cards: usize, trumps: CardSuit) -> (r: Round)
        requires
            players@.len() >= 1,
        ensures
            r.inv(),
            r.phase is Created,
            r.num_players == players@.len(),
            r.num_cards == num_cards,
            r.trumps == trumps,
            r.deck@ == full_deck(),
            r.played_cards@.len() == 0,
            r.leader == 0,
            r.tricks_done == 0,
    {
        Round {
            deck: Deck::new(),
            num_players: players.len(),
            num_cards,
            trumps,
            played_cards: Vec::new(),
            estimates: Vec::new(),
            scores: Vec::new(),
            leader: 0,
            tricks_done: 0,
            phase: RoundPhase::Created,
        }
    }

    /// The index, in play order, of the card that wins the trick, under
    /// this round's trump suit.
    pub fn find_winner(&self, trick: &Vec<Card>) -> (w: usize)
        requires
            trick@.len() > 0,
        ensures
            w < trick@.len(),
            w as int == trick_winner(trick@, self.trumps),
    {
        let lead_suit = trick[0].suit;
        let mut winning_card = trick[0];
        let mut winning_player: usize = 0;
        let mut i: usize = 1;
        while i < trick.len()
            invariant
                1 <= i <= trick@.len(),
                winning_player < i,
                winning_player as int == trick_winner(trick@.take(i as int), self.trumps),
                winning_card == trick@[winning_player as int],
                lead_suit == trick@[0].suit,
            decreases trick@.len() - i,
        {
            let card = trick[i];
            let wins = if card.suit == self.trumps {
                winning_card.suit != self.trumps || card.rank() > winning_card.rank()
            } else if card.suit == lead_suit {
                winning_card.suit != self.trumps && card.rank() > winning_card.rank()
            } else {
                false
            };
            proof {
                let prefix = trick@.take(i + 1);
                assert(prefix.drop_last() =~= trick@.take(i as int));
                assert(prefix.last() == trick@[i as int]);
                assert(prefix[0] == trick@[0]);
                lemma_trick_winner_in_range(trick@.take(i as int), self.trumps);
                assert(wins == beats(
                    trick@[i as int],
                    trick@[winning_player as int],
                    trick@[0].suit,
                    self.trumps,
                ));
            }
            if wins {
                winning_card = card;
                winning_player = i;
            }
            i += 1;
        }
        proof {
            assert(trick@.take(trick@.len() as int) =~= trick@);
        }
        winning_player
    }

    /// Deal this round: `num_cards` random cards to every player, with the
    /// counters reset and the hands annotated with the round's trumps.
    ///
    /// Refused, changing nothing, when a player still holds cards
    /// (`NonEmptyHand`) or when the full deck cannot cover the deal
    /// (`InsufficientCards`). A successful deal conserves cards: the hands
    /// and the remaining deck together are exactly the 52 of a full deck.
    pub fn deal<P, B>(&mut self, players: &mut Vec<Player<P, B>>) -> (r: Result<(), GameError>)
        requires
            old(self).inv(),
            old(self).phase is Created,
            old(players)@.len() == old(self).num_players,
        ensures
            final(self).num_players == old(self).num_players,
            final(self).num_cards == old(self).num_cards,
            final(self).trumps == old(self).trumps,
            final(players)@.len() == old(players)@.len(),
            match r {
                Ok(()) => {
                    &&& final(self).inv()
                    &&& final(self).players_ok(final(players)@)
                    &&& final(self).phase is Dealt
                    &&& final(self).leader == old(self).leader
                    &&& final(self).tricks_done == 0
                    &&& final(self).played_cards == old(self).played_cards
                    &&& final(self).estimates == old(self).estimates
                    &&& final(self).scores == old(self).scores
                    &&& forall|q: int|
                        0 <= q < old(players)@.len() ==> old(players)@[q].hand.cards@.len() == 0
                    &&& old(players)@.len() * old(self).num_cards <= 52
                    &&& forall|q: int|
                        #![trigger final(players)@[q]]
                        0 <= q < old(players)@.len() ==> {
                            &&& final(players)@[q].hand.cards@.len() == old(self).num_cards
                            &&& final(players)@[q].hand.trumps == old(self).trumps
                            &&& final(players)@[q].tricks == 0
                            &&& final(players)@[q].estimate == 0
                            &&& final(players)@[q].play_strategy == old(players)@[q].play_strategy
                            &&& final(players)@[q].bid_strategy == old(players)@[q].bid_strategy
                        }
                    &&& final(self).deck@.to_multiset().add(hands_multiset(final(players)@))
                        == full_deck().to_multiset()
                    &&& final(self).deck@.len() + old(players)@.len() * old(self).num_cards == 52
                },
                Err(e) => {
                    &&& *final(self) == *old(self)
                    &&& *final(players) == *old(players)
                    &&& (e == GameError::NonEmptyHand <==> exists|q: int|
                        0 <= q < old(players)@.len() && old(players)@[q].hand.cards@.len() > 0)
                    &&& (e == GameError::InsufficientCards ==> old(players)@.len() * old(
                        self,
                    ).num_cards > 52)
                    &&& (e == GameError::NonEmptyHand || e == GameError::InsufficientCards)
                },
            },
            (r is Ok) <==> ((forall|q: int|
                0 <= q < old(players)@.len() ==> old(players)@[q].hand.cards@.len() == 0) && old(
                players,
            )@.len() * old(self).num_cards <= 52),
    {
        let num_cards = self.num_cards;
        match self.deck.deal(players, num_cards) {
            Err(e) => Err(e),
            Ok(()) => {
                let ghost after_deal = players@;
                let trumps = self.trumps;
                let n = players.len();
                let mut q: usize = 0;
                while q < n
                    invariant
                        q <= n,
                        n == players@.len(),
                        players@.len() == after_deal.len(),
                        forall|k: int| q <= k < n ==> players@[k] == after_deal[k],
                        forall|k: int|
                            #![trigger players@[k]]
                            0 <= k < q ==> {
                                &&& players@[k].hand.cards@ == after_deal[k].hand.cards@
                                &&& players@[k].hand.trumps == trumps
                                &&& players@[k].tricks == 0
                                &&& players@[k].estimate == 0
                                &&& players@[k].play_strategy == after_deal[k].play_strategy
                                &&& players@[k].bid_strategy == after_deal[k].bid_strategy
                            },
                    decreases n - q,
                {
                    let ghost before = players@;
                    let mut p = players.remove(q);
                    p.hand.trumps = trumps;
                    p.tricks = 0;
                    p.estimate = 0;
                    let ghost pv = p;
                    players.insert(q, p);
                    proof {
                        assert(players@ =~= before.update(q as int, pv));
                    }
                    q += 1;
                }
                proof {
                    lemma_hands_multiset_same_cards(players@, after_deal);
                }
                self.phase = RoundPhase::Dealt;
                Ok(())
            },
        }
    }

    /// Collect one bid per player, in seating order, so that later bidders
    /// see the bids made before them. Every bid is validated against the
    /// hand size and recorded, both as the player's own estimate and in the
    /// round's list. A bid above the hand size is a misbehaving plug-in:
    /// the bidding fails with `InvalidBid`.
    pub fn bid<P: PlayStrategy, B: BidStrategy>(&mut self, players: &mut Vec<Player<P, B>>) -> (r:
        Result<(), GameError>)
        requires
            old(self).inv(),
            old(self).phase is Dealt,
            old(self).players_ok(old(players)@),
        ensures
            final(self).num_players == old(self).num_players,
            final(self).num_cards == old(self).num_cards,
            final(self).trumps == old(self).trumps,
            final(self).deck == old(self).deck,
            final(self).played_cards == old(self).played_cards,
            final(self).scores == old(self).scores,
            final(self).leader == old(self).leader,
            final(self).tricks_done == old(self).tricks_done,
            final(players)@.len() == old(players)@.len(),
            forall|q: int|
                #![trigger final(players)@[q]]
                0 <= q < old(players)@.len() ==> {
                    &&& final(players)@[q].hand == old(players)@[q].hand
                    &&& final(players)@[q].tricks == old(players)@[q].tricks
                    &&& final(players)@[q].play_strategy == old(players)@[q].play_strategy
                    &&& final(players)@[q].bid_strategy == old(players)@[q].bid_strategy
                },
            match r {
                Ok(()) => {
                    &&& final(self).inv()
                    &&& final(self).players_ok(final(players)@)
                    &&& final(self).phase is Bid
                    &&& final(self).estimates@.len() == old(players)@.len()
                    &&& forall|q: int|
                        0 <= q < old(players)@.len() ==> {
                            &&& final(players)@[q].estimate == final(self).estimates@[q]
                            &&& final(self).estimates@[q] <= old(self).num_cards
                        }
                },
                Err(e) => {
                    &&& e == GameError::InvalidBid
                    &&& final(self).phase == old(self).phase
                    &&& final(self).estimates == old(self).estimates
                },
            },
    {
        let n = players.len();
        let num_cards = self.num_cards;
        proof {
            assert(num_cards <= n * num_cards) by (nonlinear_arith)
                requires
                    n >= 1,
                    num_cards >= 0,
            ;
        }
        let mut bids: Vec<usize> = Vec::new();
        let mut q: usize = 0;
        while q < n
            invariant
                q <= n,
                n == players@.len(),
                n == old(players)@.len(),
                num_cards == old(self).num_cards,
                num_cards < usize::MAX,
                *self == *old(self),
                old(self).players_ok(old(players)@),
                old(self).inv(),
                old(self).phase is Dealt,
                bids@.len() == q,
                forall|k: int| 0 <= k < q ==> bids@[k] <= num_cards,
                forall|k: int| q <= k < n ==> players@[k] == old(players)@[k],
                forall|k: int|
                    #![trigger players@[k]]
                    0 <= k < q ==> {
                        &&& players@[k].estimate == bids@[k]
                        &&& players@[k].hand == old(players)@[k].hand
                        &&& players@[k].tricks == old(players)@[k].tricks
                        &&& players@[k].play_strategy == old(players)@[k].play_strategy
                        &&& players@[k].bid_strategy == old(players)@[k].bid_strategy
                    },
            decreases n - q,
        {
            let ghost before = players@;
            let mut p = players.remove(q);
            let bid = p.estimate(num_cards, &bids);
            let valid = p.is_valid_estimate(bid);
            if !valid {
                players.insert(q, p);
                proof {
                    assert(players@ =~= before);
                }
                return Err(GameError::InvalidBid);
            }
            p.estimate = bid;
            let ghost pv = p;
            players.insert(q, p);
            bids.push(bid);
            proof {
                assert(players@ =~= before.update(q as int, pv));
            }
            q += 1;
        }
        self.estimates = bids;
        self.phase = RoundPhase::Bid;
        Ok(())
    }

    /// Play one trick: each player, starting at the leader and wrapping
    /// around the table, plays one card; the winner takes the trick and
    /// leads the next one.
    ///
    /// On success, the cards played this trick stand at the end of the
    /// played-cards log, in seat order from the old leader; each came out
    /// of the hand of the seat that played it; the winning seat — the old
    /// leader advanced by the winning card's index — has its tricks counter
    /// raised by one and becomes the new leader. A play strategy that picks
    /// a card outside its hand fails the trick with `InvalidCard`.
    #[verifier::rlimit(60)]
    pub fn play_trick<P: PlayStrategy, B: BidStrategy>(
        &mut self,
        players: &mut Vec<Player<P, B>>,
    ) -> (r: Result<(), GameError>)
        requires
            old(self).inv(),
            old(self).phase is Bid,
            old(self).tricks_done < old(self).num_cards,
            old(self).players_ok(old(players)@),
        ensures
            final(self).num_players == old(self).num_players,
            final(self).num_cards == old(self).num_cards,
            final(self).trumps == old(self).trumps,
            final(self).deck == old(self).deck,
            final(self).estimates == old(self).estimates,
            final(self).scores == old(self).scores,
            final(players)@.len() == old(players)@.len(),
            match r {
                Ok(()) => {
                    &&& final(self).inv()
                    &&& final(self).players_ok(final(players)@)
                    &&& final(self).phase is Bid
                    &&& final(self).tricks_done == old(self).tricks_done + 1
                    &&& final(self).played_cards@.len() == old(self).played_cards@.len() + old(
                        self,
                    ).num_players
                    &&& final(self).played_cards@.take(old(self).played_cards@.len() as int) == old(
                        self,
                    ).played_cards@
                    &&& ({
                        let n = old(self).num_players as int;
                        let lead = old(self).leader as int;
                        let newly = final(self).played_cards@.skip(
                            old(self).played_cards@.len() as int,
                        );
                        let w = seat_of(lead, trick_winner(newly, old(self).trumps), n);
                        &&& forall|m: int|
                            #![trigger newly[m]]
                            0 <= m < n ==> {
                                &&& old(players)@[seat_of(lead, m, n)].hand.cards@.contains(
                                    newly[m],
                                )
                                &&& removed_one(
                                    old(players)@[seat_of(lead, m, n)].hand.cards@,
                                    final(players)@[seat_of(lead, m, n)].hand.cards@,
                                    newly[m],
                                )
                                &&& final(players)@[seat_of(lead, m, n)].estimate == old(
                                    players,
                                )@[seat_of(lead, m, n)].estimate
                                &&& final(players)@[seat_of(lead, m, n)].hand.trumps == old(
                                    players,
                                )@[seat_of(lead, m, n)].hand.trumps
                                &&& final(players)@[seat_of(lead, m, n)].play_strategy == old(
                                    players,
                                )@[seat_of(lead, m, n)].play_strategy
                                &&& final(players)@[seat_of(lead, m, n)].bid_strategy == old(
                                    players,
                                )@[seat_of(lead, m, n)].bid_strategy
                                &&& (seat_of(lead, m, n) != w ==> final(players)@[seat_of(
                                    lead,
                                    m,
                                    n,
                                )].tricks == old(players)@[seat_of(lead, m, n)].tricks)
                            }
                        &&& final(self).leader == w
                        &&& 0 <= w < n
                        &&& final(players)@[w].tricks == old(players)@[w].tricks + 1
                    })
                    &&& forall|q: int|
                        #![trigger final(players)@[q]]
                        0 <= q < old(players)@.len() ==> {
                            &&& final(players)@[q].estimate == old(players)@[q].estimate
                            &&& final(players)@[q].hand.trumps == old(players)@[q].hand.trumps
                            &&& final(players)@[q].play_strategy == old(players)@[q].play_strategy
                            &&& final(players)@[q].bid_strategy == old(players)@[q].bid_strategy
                            &&& final(players)@[q].hand.cards@.len() == old(
                                players,
                            )@[q].hand.cards@.len() - 1
                            &&& old(players)@[q].tricks <= final(players)@[q].tricks <= old(
                                players,
                            )@[q].tricks + 1
                        }
                    &&& tricks_total(final(players)@) == tricks_total(old(players)@) + 1
                },
                Err(e) => {
                    &&& e == GameError::InvalidCard
                    &&& final(self).phase == old(self).phase
                    &&& final(self).tricks_done == old(self).tricks_done
                    &&& final(self).leader == old(self).leader
                    &&& forall|q: int|
                        #![trigger final(players)@[q]]
                        0 <= q < old(players)@.len() ==> {
                            &&& final(players)@[q].estimate == old(players)@[q].estimate
                            &&& final(players)@[q].hand.trumps == old(players)@[q].hand.trumps
                            &&& final(players)@[q].play_strategy == old(players)@[q].play_strategy
                            &&& final(players)@[q].bid_strategy == old(players)@[q].bid_strategy
                        }
                },
            },
    {
        let n = players.len();
        let ghost k = old(self).num_cards as int;
        proof {
            assert(n <= n * k) by (nonlinear_arith)
                requires
                    k >= 1,
                    n >= 0,
            ;
        }
        let ghost lead = old(self).leader as int;
        let mut trick: Vec<Card> = Vec::new();
        let mut j: usize = 0;
        while j < n
            invariant
                j <= n,
                n == players@.len(),
                n == old(players)@.len(),
                n == old(self).num_players,
                n <= 52,
                old(self).inv(),
                old(self).phase is Bid,
                old(self).tricks_done < old(self).num_cards,
                old(self).players_ok(old(players)@),
                lead == old(self).leader as int,
                self.num_players == old(self).num_players,
                self.num_cards == old(self).num_cards,
                self.trumps == old(self).trumps,
                self.deck == old(self).deck,
                self.estimates == old(self).estimates,
                self.scores == old(self).scores,
                self.leader == old(self).leader,
                self.tricks_done == old(self).tricks_done,
                self.phase == old(self).phase,
                trick@.len() == j,
                self.played_cards@ == old(self).played_cards@ + trick@,
                forall|m: int|
                    #![trigger trick@[m]]
                    0 <= m < j ==> old(players)@[seat_of(lead, m, n as int)].hand.cards@.contains(
                        trick@[m],
                    ),
                forall|m: int|
                    #![trigger trick@[m]]
                    0 <= m < j ==> removed_one(
                        old(players)@[seat_of(lead, m, n as int)].hand.cards@,
                        players@[seat_of(lead, m, n as int)].hand.cards@,
                        trick@[m],
                    ),
                forall|m: int|
                    #![trigger seat_of(lead, m, n as int)]
                    0 <= m < j ==> {
                        &&& players@[seat_of(lead, m, n as int)].estimate == old(players)@[seat_of(
                            lead,
                            m,
                            n as int,
                        )].estimate
                        &&& players@[seat_of(lead, m, n as int)].hand.trumps == old(
                            players,
                        )@[seat_of(lead, m, n as int)].hand.trumps
                        &&& players@[seat_of(lead, m, n as int)].tricks == old(players)@[seat_of(
                            lead,
                            m,
                            n as int,
                        )].tricks
                        &&& players@[seat_of(lead, m, n as int)].play_strategy == old(
                            players,
                        )@[seat_of(lead, m, n as int)].play_strategy
                        &&& players@[seat_of(lead, m, n as int)].bid_strategy == old(
                            players,
                        )@[seat_of(lead, m, n as int)].bid_strategy
                    },
                forall|m: int|
                    #![trigger seat_of(lead, m, n as int)]
                    j <= m < n ==> players@[seat_of(lead, m, n as int)] == old(players)@[seat_of(
                        lead,
                        m,
                        n as int,
                    )],
            decreases n - j,
        {
            let s_raw = self.leader + j;
            let seat = if s_raw >= n {
                s_raw - n
            } else {
                s_raw
            };
            proof {
                assert(seat as int == seat_of(lead, j as int, n as int));
                assert(players@[seat as int] == old(players)@[seat as int]);
            }
            let ghost before_players = players@;
            let ghost before_trick = trick@;
            let mut p = players.remove(seat);
            let res = p.play(&self.played_cards);
            match res {
                Ok(card) => {
                    let ghost pv = p;
                    players.insert(seat, p);
                    trick.push(card);
                    self.played_cards.push(card);
                    proof {
                        assert(players@ =~= before_players.update(seat as int, pv));
                        assert(trick@ == before_trick.push(card));
                        assert forall|m: int|
                            #![trigger trick@[m]]
                            #![trigger seat_of(lead, m, n as int)]
                            0 <= m < j + 1 implies {
                            &&& old(players)@[seat_of(lead, m, n as int)].hand.cards@.contains(
                                trick@[m],
                            )
                            &&& removed_one(
                                old(players)@[seat_of(lead, m, n as int)].hand.cards@,
                                players@[seat_of(lead, m, n as int)].hand.cards@,
                                trick@[m],
                            )
                            &&& players@[seat_of(lead, m, n as int)].estimate == old(
                                players,
                            )@[seat_of(lead, m, n as int)].estimate
                            &&& players@[seat_of(lead, m, n as int)].hand.trumps == old(
                                players,
                            )@[seat_of(lead, m, n as int)].hand.trumps
                            &&& players@[seat_of(lead, m, n as int)].tricks == old(
                                players,
                            )@[seat_of(lead, m, n as int)].tricks
                            &&& players@[seat_of(lead, m, n as int)].play_strategy == old(
                                players,
                            )@[seat_of(lead, m, n as int)].play_strategy
                            &&& players@[seat_of(lead, m, n as int)].bid_strategy == old(
                                players,
                            )@[seat_of(lead, m, n as int)].bid_strategy
                        } by {
                            if m < j {
                                assert(trick@[m] == before_trick[m]);
                                assert(old(players)@[seat_of(
                                    lead,
                                    m,
                                    n as int,
                                )].hand.cards@.contains(before_trick[m]));
                                assert(seat_of(lead, m, n as int) != seat as int);
                                assert(before_players.update(seat as int, pv)[seat_of(
                                    lead,
                                    m,
                                    n as int,
                                )] == before_players[seat_of(lead, m, n as int)]);
                                assert(players@[seat_of(lead, m, n as int)]
                                    == before_players[seat_of(lead, m, n as int)]);
                            } else {
                                assert(m == j);
                                assert(seat_of(lead, m, n as int) == seat as int);
                                assert(trick@[m] == card);
                                assert(players@[seat as int] == pv);
                                assert(before_players[seat as int] == old(players)@[seat as int]);
                            }
                        }
                        assert forall|m: int|
                            #![trigger seat_of(lead, m, n as int)]
                            j + 1 <= m < n implies players@[seat_of(lead, m, n as int)]
                            == old(players)@[seat_of(lead, m, n as int)] by {
                            assert(seat_of(lead, m, n as int) != seat as int);
                            assert(before_players.update(seat as int, pv)[seat_of(lead, m, n as int)]
                                == before_players[seat_of(lead, m, n as int)]);
                        }
                    }
                },
                Err(_) => {
                    players.insert(seat, p);
                    proof {
                        assert(players@ =~= before_players);
                        assert forall|q: int| #![trigger players@[q]] 0 <= q < n implies {
                            &&& players@[q].estimate == old(players)@[q].estimate
                            &&& players@[q].hand.trumps == old(players)@[q].hand.trumps
                            &&& players@[q].play_strategy == old(players)@[q].play_strategy
                            &&& players@[q].bid_strategy == old(players)@[q].bid_strategy
                        } by {
                            let m = if q >= lead {
                                q - lead
                            } else {
                                q + n - lead
                            };
                            assert(0 <= m < n);
                            assert(seat_of(lead, m, n as int) == q);
                        }
                    }
                    return Err(GameError::InvalidCard);
                },
            }
            j += 1;
        }
        let w_rel = self.find_winner(&trick);
        let w_raw = self.leader + w_rel;
        let winner = if w_raw >= n {
            w_raw - n
        } else {
            w_raw
        };
        proof {
            assert(winner as int == seat_of(lead, w_rel as int, n as int));
            assert(k <= n * k) by (nonlinear_arith)
                requires
                    n >= 1,
                    k >= 0,
            ;
        }
        let ghost before_players = players@;
        let mut p = players.remove(winner);
        p.tricks = p.tricks + 1;
        let ghost pv = p;
        players.insert(winner, p);
        self.leader = winner;
        self.tricks_done = self.tricks_done + 1;
        proof {
            assert(players@ =~= before_players.update(winner as int, pv));
            assert(self.played_cards@.skip(old(self).played_cards@.len() as int) =~= trick@);
            assert(self.played_cards@.take(old(self).played_cards@.len() as int) =~= old(
                self,
            ).played_cards@);
            let np = self.num_players as int;
            let t0 = old(self).tricks_done as int;
            assert(np * (t0 + 1) == np * t0 + np) by (nonlinear_arith);
            let newly = self.played_cards@.skip(old(self).played_cards@.len() as int);
            assert(trick_winner(newly, self.trumps) == w_rel as int);

            // each played card came out of the hand of the seat that
            // played it; only the winner's tricks counter moved
            assert forall|m: int| #![trigger newly[m]] 0 <= m < n implies {
                let s = seat_of(lead, m, n as int);
                &&& old(players)@[s].hand.cards@.contains(newly[m])
                &&& removed_one(old(players)@[s].hand.cards@, players@[s].hand.cards@, newly[m])
                &&& players@[s].estimate == old(players)@[s].estimate
                &&& players@[s].hand.trumps == old(players)@[s].hand.trumps
                &&& players@[s].play_strategy == old(players)@[s].play_strategy
                &&& players@[s].bid_strategy == old(players)@[s].bid_strategy
                &&& (s != winner as int ==> players@[s].tricks == old(players)@[s].tricks)
            } by {
                let s = seat_of(lead, m, n as int);
                assert(newly[m] == trick@[m]);
                assert(old(players)@[s].hand.cards@.contains(trick@[m]));
                assert(0 <= s < n);
                assert(players@[s].hand == before_players[s].hand);
            }

            // every seat is covered: seat `q` plays in position `m`
            assert forall|q: int| #![trigger players@[q]] 0 <= q < n implies {
                &&& players@[q].hand.trumps == self.trumps
                &&& players@[q].tricks <= self.tricks_done
                &&& players@[q].hand.cards@.len() == self.num_cards - self.tricks_done
                &&& players@[q].estimate == self.estimates@[q]
                &&& players@[q].estimate == old(players)@[q].estimate
                &&& players@[q].hand.trumps == old(players)@[q].hand.trumps
                &&& players@[q].play_strategy == old(players)@[q].play_strategy
                &&& players@[q].bid_strategy == old(players)@[q].bid_strategy
                &&& players@[q].hand.cards@.len() == old(players)@[q].hand.cards@.len() - 1
                &&& old(players)@[q].tricks <= players@[q].tricks <= old(players)@[q].tricks + 1
                &&& (q != winner as int ==> players@[q].tricks == old(players)@[q].tricks)
            } by {
                let m = if q >= lead {
                    q - lead
                } else {
                    q + n - lead
                };
                assert(0 <= m < n);
                assert(seat_of(lead, m, n as int) == q);
                assert(old(players)@[q].hand.cards@.contains(trick@[m]));
                assert(removed_one(
                    old(players)@[q].hand.cards@,
                    before_players[q].hand.cards@,
                    trick@[m],
                ));
                let i = choose|i: int|
                    0 <= i < old(players)@[q].hand.cards@.len() && old(players)@[q].hand.cards@[i]
                        == trick@[m] && before_players[q].hand.cards@ == old(
                        players,
                    )@[q].hand.cards@.remove(i);
                assert(before_players[q].hand.cards@.len() == old(players)@[q].hand.cards@.len()
                    - 1);
                assert(players@[q].hand == before_players[q].hand);
            }

            // exactly one tricks counter moved, so the total moved by one
            assert(players@[winner as int].tricks == old(players)@[winner as int].tricks + 1);
            lemma_tricks_total_bump(old(players)@, players@, winner as int);
        }
        Ok(())
    }

    /// Play out the whole round: one trick per card in hand. Every hand is
    /// empty afterwards, and every card that was dealt stands in the
    /// played-cards log.
    pub fn play<P: PlayStrategy, B: BidStrategy>(&mut self, players: &mut Vec<Player<P, B>>) -> (r:
        Result<(), GameError>)
        requires
            old(self).inv(),
            old(self).phase is Bid,
            old(self).tricks_done == 0,
            old(self).players_ok(old(players)@),
        ensures
            final(self).num_players == old(self).num_players,
            final(self).num_cards == old(self).num_cards,
            final(self).trumps == old(self).trumps,
            final(self).deck == old(self).deck,
            final(self).estimates == old(self).estimates,
            final(self).scores == old(self).scores,
            final(players)@.len() == old(players)@.len(),
            forall|q: int|
                #![trigger final(players)@[q]]
                0 <= q < old(players)@.len() ==> {
                    &&& final(players)@[q].estimate == old(players)@[q].estimate
                    &&& final(players)@[q].play_strategy == old(players)@[q].play_strategy
                    &&& final(players)@[q].bid_strategy == old(players)@[q].bid_strategy
                },
            match r {
                Ok(()) => {
                    &&& final(self).inv()
                    &&& final(self).players_ok(final(players)@)
                    &&& final(self).phase is Played
                    &&& final(self).tricks_done == old(self).num_cards
                    &&& final(self).played_cards@.len() == old(self).num_players * old(
                        self,
                    ).num_cards
                    &&& forall|q: int|
                        #![trigger final(players)@[q]]
                        0 <= q < old(players)@.len() ==> {
                            &&& final(players)@[q].hand.cards@.len() == 0
                            &&& final(players)@[q].tricks <= old(self).num_cards
                        }
                    &&& tricks_total(final(players)@) == old(self).num_cards
                },
                Err(e) => e == GameError::InvalidCard,
            },
    {
        proof {
            lemma_tricks_total_zero(players@);
        }
        while self.tricks_done < self.num_cards
            invariant
                self.inv(),
                self.phase is Bid,
                self.players_ok(players@),
                self.num_players == old(self).num_players,
                self.num_cards == old(self).num_cards,
                self.trumps == old(self).trumps,
                self.deck == old(self).deck,
                self.estimates == old(self).estimates,
                self.scores == old(self).scores,
                players@.len() == old(players)@.len(),
                forall|q: int|
                    #![trigger players@[q]]
                    0 <= q < old(players)@.len() ==> {
                        &&& players@[q].estimate == old(players)@[q].estimate
                        &&& players@[q].play_strategy == old(players)@[q].play_strategy
                        &&& players@[q].bid_strategy == old(players)@[q].bid_strategy
                    },
                tricks_total(players@) == self.tricks_done,
            decreases self.num_cards - self.tricks_done,
        {
            match self.play_trick(players) {
                Ok(()) => {},
                Err(e) => {
                    return Err(e);
                },
            }
        }
        self.phase = RoundPhase::Played;
        Ok(())
    }

    /// Score the round: each player earns one point per trick won, plus a
    /// bonus of 10 when their bid was exact. Terminal phase.
    pub fn score<P, B>(&mut self, players: &Vec<Player<P, B>>)
        requires
            old(self).inv(),
            old(self).phase is Played,
            old(self).players_ok(players@),
        ensures
            final(self).inv(),
            final(self).players_ok(players@),
            final(self).phase is Scored,
            final(self).num_players == old(self).num_players,
            final(self).num_cards == old(self).num_cards,
            final(self).trumps == old(self).trumps,
            final(self).deck == old(self).deck,
            final(self).played_cards == old(self).played_cards,
            final(self).estimates == old(self).estimates,
            final(self).leader == old(self).leader,
            final(self).tricks_done == old(self).tricks_done,
            final(self).scores@.len() == players@.len(),
            forall|q: int|
                0 <= q < players@.len() ==> final(self).scores@[q] as int == round_score(
                    players@[q].tricks as int,
                    players@[q].estimate as int,
                ),
    {
        let n = players.len();
        let ghost k = old(self).num_cards as int;
        proof {
            assert(k <= n * k) by (nonlinear_arith)
                requires
                    n >= 1,
                    k >= 0,
            ;
        }
        let mut scores: Vec<usize> = Vec::new();
        let mut q: usize = 0;
        while q < n
            invariant
                q <= n,
                n == players@.len(),
                *self == *old(self),
                old(self).inv(),
                old(self).phase is Played,
                old(self).players_ok(players@),
                old(self).num_cards <= 52,
                scores@.len() == q,
                forall|m: int|
                    0 <= m < q ==> scores@[m] as int == round_score(
                        players@[m].tricks as int,
                        players@[m].estimate as int,
                    ),
            decreases n - q,
        {
            let tricks = players[q].tricks;
            let estimate = players[q].estimate;
            let sc = if tricks == estimate {
                tricks + 10
            } else {
                tricks
            };
            scores.push(sc);
            q += 1;
        }
        self.scores = scores;
        self.phase = RoundPhase::Scored;
    }

    /// Run the round through all its phases in order: deal, bid, play,
    /// score. On success, the recorded score of every seat is exactly that
    /// player's tricks plus the bonus for an exact bid.
    pub fn evaluate<P: PlayStrategy, B: BidStrategy>(
        &mut self,
        players: &mut Vec<Player<P, B>>,
    ) -> (r: Result<(), GameError>)
        requires
            old(self).inv(),
            old(self).phase is Created,
            old(players)@.len() == old(self).num_players,
        ensures
            final(self).num_players == old(self).num_players,
            final(self).num_cards == old(self).num_cards,
            final(self).trumps == old(self).trumps,
            final(players)@.len() == old(players)@.len(),
            forall|q: int|
                #![trigger final(players)@[q]]
                0 <= q < old(players)@.len() ==> {
                    &&& final(players)@[q].play_strategy == old(players)@[q].play_strategy
                    &&& final(players)@[q].bid_strategy == old(players)@[q].bid_strategy
                },
            match r {
                Ok(()) => {
                    &&& final(self).inv()
                    &&& final(self).players_ok(final(players)@)
                    &&& final(self).phase is Scored
                    &&& final(self).scores@.len() == old(players)@.len()
                    &&& forall|q: int|
                        #![trigger final(players)@[q]]
                        0 <= q < old(players)@.len() ==> {
                            &&& final(self).scores@[q] as int == round_score(
                                final(players)@[q].tricks as int,
                                final(players)@[q].estimate as int,
                            )
                            &&& final(players)@[q].tricks <= old(self).num_cards
                            &&& final(players)@[q].estimate <= old(self).num_cards
                            &&& final(players)@[q].hand.cards@.len() == 0
                        }
                    &&& tricks_total(final(players)@) == old(self).num_cards
                },
                Err(e) => {
                    &&& (e == GameError::NonEmptyHand <==> exists|q: int|
                        0 <= q < old(players)@.len() && old(players)@[q].hand.cards@.len() > 0)
                    &&& (e == GameError::InsufficientCards ==> old(players)@.len() * old(
                        self,
                    ).num_cards > 52)
                    &&& (e == GameError::NonEmptyHand || e == GameError::InsufficientCards || e
                        == GameError::InvalidBid || e == GameError::InvalidCard)
                },
            },
    {
        match self.deal(players) {
            Ok(()) => {},
            Err(e) => {
                return Err(e);
            },
        }
        match self.bid(players) {
            Ok(()) => {},
            Err(e) => {
                return Err(e);
            },
        }
        match self.play(players) {
            Ok(()) => {},
            Err(e) => {
                return Err(e);
            },
        }
        self.score(players);
        Ok(())
    }
}

} // verus!
