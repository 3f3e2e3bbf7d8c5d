//! The game session: a fixed schedule of rounds with shrinking hand sizes
//! and a cycling trump suit, over a persistent roster of players, with
//! cumulative scores per seat.

use vstd::prelude::*;
use vstd::pervasive::VecAdditionalExecFns;
use crate::GameError;
use crate::cards::CardSuit;
use crate::player::{Player, tricks_total};
use crate::round::{Round, round_score};
use crate::strategy::{BidStrategy, PlayStrategy};

verus! {

/// The ghost record of one completed round: its hand size, its trump
/// suit, and the round score each seat earned. The game keeps a log of
/// these so that its contracts can speak of the whole schedule.
pub struct RoundLog {
    /// The round's hand size: cards dealt per player, tricks played.
    pub num_cards: int,
    /// The round's trump suit.
    pub trumps: CardSuit,
    /// The round score of each seat.
    pub deltas: Seq<int>,
}

/// What seat `seat` earned over the logged rounds, in all.
pub open spec fn deltas_sum(rounds: Seq<RoundLog>, seat: int) -> int
    decreases rounds.len(),
{
    if rounds.len() == 0 {
        0
    } else {
        deltas_sum(rounds.drop_last(), seat) + rounds.last().deltas[seat]
    }
}

/// The trump suit of round `i` of the schedule: the four suits in fixed
/// order, wrapping.
pub open spec fn schedule_trumps(i: int) -> CardSuit {
    if i % 4 == 0 {
        CardSuit::Clubs
    } else if i % 4 == 1 {
        CardSuit::Diamonds
    } else if i % 4 == 2 {
        CardSuit::Hearts
    } else {
        CardSuit::Spades
    }
}

/// A game: the persistent roster of players, one cumulative score per
/// seat, and the ghost log of the rounds played so far.
pub struct Game<P, B> {
    /// The roster. Each round borrows it; seats never move.
    pub players: Vec<Player<P, B>>,
    /// The cumulative score of each seat across the rounds played so far.
    pub scores: Vec<usize>,
    /// The ghost log of the rounds played so far, oldest first.
    pub rounds: Ghost<Seq<RoundLog>>,
}

impl<P: PlayStrategy, B: BidStrategy> Game<P, B> {
    /// A game holds one cumulative score per seat.
    pub open spec fn wf(self) -> bool {
        &&& self.scores@.len() == self.players@.len()
        &&& self.players@.len() >= 1
    }

    /// Build a game over the given roster: every cumulative score zero,
    /// no round played yet.
    pub fn new(players: Vec<Player<P, B>>) -> (g: Game<P, B>)
        ensures
            g.players == players,
            g.scores@.len() == players@.len(),
            forall|i: int| 0 <= i < players@.len() ==> g.scores@[i] == 0,
            g.rounds@.len() == 0,
    {
        let n = players.len();
        Game { players, scores: vec![0usize; n], rounds: Ghost(Seq::empty()) }
    }

    /// Run one round of `num_cards` tricks with trump suit `trumps` over
    /// the roster, fold the round scores into the cumulative scores, and
    /// log the round.
    ///
    /// On success, every seat's cumulative score grows by exactly that
    /// player's round score — tricks won plus the bonus of 10 for an exact
    /// bid — and the log gains one entry holding the round's hand size,
    /// trumps, and those round scores. On failure the scores and the log
    /// are untouched; the error is the round's (`NonEmptyHand` exactly
    /// when a player still held cards, `InsufficientCards` only when the
    /// deal was too large for the deck, `InvalidBid` and `InvalidCard`
    /// only for a misbehaving strategy).
    pub fn play_round(&mut self, num_cards: usize, trumps: CardSuit) -> (r: Result<(), GameError>)
        requires
            old(self).wf(),
            forall|i: int|
                0 <= i < old(self).scores@.len() ==> old(self).scores@[i] + num_cards + 10
                    <= usize::MAX,
        ensures
            final(self).wf(),
            final(self).players@.len() == old(self).players@.len(),
            forall|i: int|
                #![trigger final(self).players@[i]]
                0 <= i < old(self).players@.len() ==> {
                    &&& final(self).players@[i].play_strategy == old(
                        self,
                    ).players@[i].play_strategy
                    &&& final(self).players@[i].bid_strategy == old(self).players@[i].bid_strategy
                },
            match r {
                Ok(()) => {
                    &&& forall|i: int|
                        #![trigger final(self).scores@[i]]
                        0 <= i < old(self).scores@.len() ==> {
                            &&& final(self).scores@[i] as int == old(self).scores@[i] as int
                                + round_score(
                                final(self).players@[i].tricks as int,
                                final(self).players@[i].estimate as int,
                            )
                            &&& old(self).scores@[i] <= final(self).scores@[i] <= old(
                                self,
                            ).scores@[i] + num_cards + 10
                        }
                    &&& forall|i: int|
                        #![trigger final(self).players@[i]]
                        0 <= i < old(self).players@.len() ==> {
                            &&& final(self).players@[i].hand.cards@.len() == 0
                            &&& final(self).players@[i].tricks <= num_cards
                            &&& final(self).players@[i].estimate <= num_cards
                        }
                    &&& tricks_total(final(self).players@) == num_cards
                    &&& final(self).rounds@.len() == old(self).rounds@.len() + 1
                    &&& final(self).rounds@.take(old(self).rounds@.len() as int) == old(
                        self,
                    ).rounds@
                    &&& ({
                        let rl = final(self).rounds@.last();
                        &&& rl.num_cards == num_cards as int
                        &&& rl.trumps == trumps
                        &&& rl.deltas.len() == old(self).players@.len()
                        &&& forall|q: int|
                            0 <= q < rl.deltas.len() ==> rl.deltas[q] == round_score(
                                final(self).players@[q].tricks as int,
                                final(self).players@[q].estimate as int,
                            )
                    })
                },
                Err(e) => {
                    &&& final(self).scores == old(self).scores
                    &&& final(self).rounds == old(self).rounds
                    &&& (e == GameError::NonEmptyHand <==> exists|i: int|
                        0 <= i < old(self).players@.len() && old(
                            self,
                        ).players@[i].hand.cards@.len() > 0)
                    &&& (e == GameError::InsufficientCards ==> old(self).players@.len() * num_cards
                        > 52)
                    &&& (e == GameError::NonEmptyHand || e == GameError::InsufficientCards || e
                        == GameError::InvalidBid || e == GameError::InvalidCard)
                },
            },
    {
        let mut round = Round::new(&self.players, num_cards, trumps);
        match round.evaluate(&mut self.players) {
            Err(e) => Err(e),
            Ok(()) => {
                let n = self.players.len();
                let ghost scores0 = self.scores@;
                let ghost players1 = self.players@;
                let mut i: usize = 0;
                while i < n
                    invariant
                        i <= n,
                        n == self.players@.len(),
                        self.players@ == players1,
                        self.scores@.len() == scores0.len(),
                        scores0.len() == n,
                        round.scores@.len() == n,
                        forall|q: int| 0 <= q < n ==> scores0[q] + num_cards + 10 <= usize::MAX,
                        forall|q: int|
                            0 <= q < n ==> round.scores@[q] as int == round_score(
                                players1[q].tricks as int,
                                players1[q].estimate as int,
                            ),
                        forall|q: int|
                            #![trigger players1[q]]
                            0 <= q < n ==> players1[q].tricks <= num_cards && players1[q].estimate
                                <= num_cards,
                        forall|q: int| i <= q < n ==> self.scores@[q] == scores0[q],
                        forall|q: int|
                            #![trigger self.scores@[q]]
                            0 <= q < i ==> {
                                &&& self.scores@[q] as int == scores0[q] as int + round_score(
                                    players1[q].tricks as int,
                                    players1[q].estimate as int,
                                )
                                &&& scores0[q] <= self.scores@[q] <= scores0[q] + num_cards + 10
                            },
                        self.rounds == old(self).rounds,
                    decreases n - i,
                {
                    let rs = round.scores[i];
                    proof {
                        assert(round.scores@[i as int] as int == round_score(
                            players1[i as int].tricks as int,
                            players1[i as int].estimate as int,
                        ));
                        assert(rs <= num_cards + 10);
                        assert(self.scores@[i as int] == scores0[i as int]);
                        assert(scores0[i as int] + num_cards + 10 <= usize::MAX);
                    }
                    let updated = self.scores[i] + rs;
                    self.scores.set(i, updated);
                    i += 1;
                }
                self.rounds = Ghost(
                    self.rounds@.push(
                        RoundLog {
                            num_cards: num_cards as int,
                            trumps,
                            deltas: Seq::new(
                                self.players@.len(),
                                |q: int|
                                    round_score(
                                        self.players@[q].tricks as int,
                                        self.players@[q].estimate as int,
                                    ),
                            ),
                        },
                    ),
                );
                proof {
                    assert(self.rounds@.take(old(self).rounds@.len() as int) =~= old(
                        self,
                    ).rounds@);
                }
                Ok(())
            },
        }
    }

    /// Run the whole fixed schedule: eight rounds, hand sizes descending 8
    /// down to 1, the trump suit cycling through the four suits in order.
    ///
    /// On success the log gains exactly eight rounds whose hand sizes and
    /// trumps follow the schedule, each seat's cumulative score grows by
    /// exactly the sum of that seat's logged round scores, the last round
    /// dealt a single card (hands end empty, one trick won in all), and no
    /// player's strategies changed. With every hand empty and at most six
    /// players — so that every deal fits the deck — the schedule fails
    /// only if a strategy misbehaves.
    pub fn play(&mut self) -> (r: Result<(), GameError>)
        requires
            old(self).wf(),
            forall|i: int|
                0 <= i < old(self).scores@.len() ==> old(self).scores@[i] + 144 <= usize::MAX,
        ensures
            final(self).wf(),
            final(self).players@.len() == old(self).players@.len(),
            final(self).rounds@.take(old(self).rounds@.len() as int) == old(self).rounds@,
            forall|q: int|
                #![trigger final(self).players@[q]]
                0 <= q < old(self).players@.len() ==> {
                    &&& final(self).players@[q].play_strategy == old(
                        self,
                    ).players@[q].play_strategy
                    &&& final(self).players@[q].bid_strategy == old(self).players@[q].bid_strategy
                },
            match r {
                Ok(()) => {
                    &&& final(self).rounds@.len() == old(self).rounds@.len() + 8
                    &&& forall|j: int|
                        #![trigger final(self).rounds@[j]]
                        old(self).rounds@.len() <= j < final(self).rounds@.len() ==> {
                            &&& final(self).rounds@[j].num_cards == 8 - (j - old(
                                self,
                            ).rounds@.len())
                            &&& final(self).rounds@[j].trumps == schedule_trumps(
                                j - old(self).rounds@.len(),
                            )
                            &&& final(self).rounds@[j].deltas.len() == old(self).players@.len()
                            &&& forall|q: int|
                                #![trigger final(self).rounds@[j].deltas[q]]
                                0 <= q < final(self).rounds@[j].deltas.len() ==> {
                                    &&& 0 <= final(self).rounds@[j].deltas[q]
                                    &&& final(self).rounds@[j].deltas[q] <= 18 - (j - old(
                                        self,
                                    ).rounds@.len())
                                }
                        }
                    &&& forall|q: int|
                        #![trigger final(self).scores@[q]]
                        0 <= q < old(self).scores@.len() ==> {
                            &&& final(self).scores@[q] as int == old(self).scores@[q] as int
                                + deltas_sum(
                                final(self).rounds@.skip(old(self).rounds@.len() as int),
                                q,
                            )
                            &&& old(self).scores@[q] <= final(self).scores@[q]
                            &&& final(self).scores@[q] <= old(self).scores@[q] + 144
                        }
                    &&& forall|q: int|
                        #![trigger final(self).players@[q]]
                        0 <= q < old(self).players@.len() ==> {
                            &&& final(self).players@[q].hand.cards@.len() == 0
                            &&& final(self).players@[q].tricks <= 1
                            &&& final(self).players@[q].estimate <= 1
                        }
                    &&& tricks_total(final(self).players@) == 1
                },
                Err(e) => (e == GameError::NonEmptyHand || e == GameError::InsufficientCards || e
                    == GameError::InvalidBid || e == GameError::InvalidCard),
            },
            ((forall|i: int|
                0 <= i < old(self).players@.len() ==> old(self).players@[i].hand.cards@.len()
                    == 0) && old(self).players@.len() * 8 <= 52 && !(r is Ok)) ==> (r matches Err(e)
                && (e == GameError::InvalidBid || e == GameError::InvalidCard)),
    {
        let ghost base = old(self).rounds@.len() as int;
        proof {
            assert(old(self).rounds@.skip(base) =~= Seq::<RoundLog>::empty());
            assert(old(self).rounds@.take(base) =~= old(self).rounds@);
        }
        let mut i: usize = 0;
        while i < 8
            invariant
                i <= 8,
                self.wf(),
                i == 0 ==> *self == *old(self),
                base == old(self).rounds@.len() as int,
                self.players@.len() == old(self).players@.len(),
                self.scores@.len() == old(self).scores@.len(),
                self.rounds@.len() == base + i,
                self.rounds@.take(base) == old(self).rounds@,
                forall|q: int|
                    0 <= q < old(self).scores@.len() ==> old(self).scores@[q] + 144 <= usize::MAX,
                forall|q: int|
                    #![trigger self.players@[q]]
                    0 <= q < old(self).players@.len() ==> {
                        &&& self.players@[q].play_strategy == old(self).players@[q].play_strategy
                        &&& self.players@[q].bid_strategy == old(self).players@[q].bid_strategy
                    },
                forall|j: int|
                    #![trigger self.rounds@[j]]
                    base <= j < self.rounds@.len() ==> {
                        &&& self.rounds@[j].num_cards == 8 - (j - base)
                        &&& self.rounds@[j].trumps == schedule_trumps(j - base)
                        &&& self.rounds@[j].deltas.len() == old(self).players@.len()
                        &&& forall|q: int|
                            #![trigger self.rounds@[j].deltas[q]]
                            0 <= q < self.rounds@[j].deltas.len() ==> {
                                &&& 0 <= self.rounds@[j].deltas[q]
                                &&& self.rounds@[j].deltas[q] <= 18 - (j - base)
                            }
                    },
                forall|q: int|
                    #![trigger self.scores@[q]]
                    0 <= q < old(self).scores@.len() ==> {
                        &&& self.scores@[q] as int == old(self).scores@[q] as int + deltas_sum(
                            self.rounds@.skip(base),
                            q,
                        )
                        &&& old(self).scores@[q] <= self.scores@[q]
                        &&& self.scores@[q] <= old(self).scores@[q] + i * 18
                    },
                i > 0 ==> forall|q: int|
                    #![trigger self.players@[q]]
                    0 <= q < self.players@.len() ==> {
                        &&& self.players@[q].hand.cards@.len() == 0
                        &&& self.players@[q].tricks <= 9 - i
                        &&& self.players@[q].estimate <= 9 - i
                    },
                i > 0 ==> tricks_total(self.players@) == 9 - i,
            decreases 8 - i,
        {
            let num_cards = 8 - i;
            let trumps = match i % 4 {
                0 => CardSuit::Clubs,
                1 => CardSuit::Diamonds,
                2 => CardSuit::Hearts,
                _ => CardSuit::Spades,
            };
            proof {
                assert(trumps == schedule_trumps(i as int));
            }
            let ghost before = *self;
            match self.play_round(num_cards, trumps) {
                Ok(()) => {
                    proof {
                        // the log grew by this round, the earlier entries
                        // untouched
                        assert forall|j: int| base <= j < self.rounds@.len() - 1 implies
                            self.rounds@[j] == before.rounds@[j] by {
                            assert(self.rounds@.take(base + i)[j] == self.rounds@[j]);
                        }
                        assert(self.rounds@.take(base) =~= before.rounds@.take(base));
                        assert(self.rounds@.skip(base).drop_last() =~= before.rounds@.skip(base));
                        assert(self.rounds@.skip(base).last() == self.rounds@.last());
                        assert forall|q: int|
                            #![trigger self.scores@[q]]
                            0 <= q < old(self).scores@.len() implies self.scores@[q] as int == old(
                            self,
                        ).scores@[q] as int + deltas_sum(self.rounds@.skip(base), q) by {
                            assert(deltas_sum(self.rounds@.skip(base), q) == deltas_sum(
                                before.rounds@.skip(base),
                                q,
                            ) + self.rounds@.last().deltas[q]);
                            assert(self.rounds@.last().deltas[q] == round_score(
                                self.players@[q].tricks as int,
                                self.players@[q].estimate as int,
                            ));
                        }
                        assert forall|j: int|
                            #![trigger self.rounds@[j]]
                            base <= j < self.rounds@.len() implies {
                            &&& self.rounds@[j].num_cards == 8 - (j - base)
                            &&& self.rounds@[j].trumps == schedule_trumps(j - base)
                            &&& self.rounds@[j].deltas.len() == old(self).players@.len()
                            &&& forall|q: int|
                                #![trigger self.rounds@[j].deltas[q]]
                                0 <= q < self.rounds@[j].deltas.len() ==> {
                                    &&& 0 <= self.rounds@[j].deltas[q]
                                    &&& self.rounds@[j].deltas[q] <= 18 - (j - base)
                                }
                        } by {
                            if j < self.rounds@.len() - 1 {
                                assert(self.rounds@[j] == before.rounds@[j]);
                            } else {
                                assert(self.rounds@[j] == self.rounds@.last());
                                assert forall|q: int|
                                    #![trigger self.rounds@[j].deltas[q]]
                                    0 <= q < self.rounds@[j].deltas.len() implies {
                                    &&& 0 <= self.rounds@[j].deltas[q]
                                    &&& self.rounds@[j].deltas[q] <= 18 - (j - base)
                                } by {
                                    assert(self.rounds@.last().deltas[q] == round_score(
                                        self.players@[q].tricks as int,
                                        self.players@[q].estimate as int,
                                    ));
                                    assert(self.players@[q].tricks <= num_cards);
                                    assert(self.players@[q].estimate <= num_cards);
                                }
                            }
                        }
                    }
                },
                Err(e) => {
                    proof {
                        if e == GameError::InsufficientCards {
                            let np = self.players@.len() as int;
                            assert(np * num_cards <= np * 8) by (nonlinear_arith)
                                requires
                                    num_cards <= 8,
                                    np >= 0,
                            ;
                        }
                    }
                    return Err(e);
                },
            }
            i += 1;
        }
        Ok(())
    }
}

} // verus!
