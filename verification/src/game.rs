use crate::auction::{left_of, seat_left_of, Auction, Bid};
use crate::card::{fresh_deck, Card, Color};
use crate::deck::{shuffled, Deck};
use crate::error::EngineError;
use crate::player::{Player, Team};
use crate::round::{Round, RoundSummary};
use crate::trick::Trick;
use crate::scoring::{decide_winner, match_winner, team_of};
use vstd::prelude::*;

verus! {

/// The score that ends a match unless the host asks for another.
pub const MAXIMUM_POINTS: i32 = 1000;

/// The highest target a match can be played to: a total may pass the target
/// by one round's score and must still fit its integer.
pub const HIGHEST_TARGET: i32 = 2147483397;

/// What a seat is asked to decide.
#[derive(Clone, Copy, Debug, PartialEq, Eq, Structural)]
pub enum DecisionKind {
    /// Whether to take the suit of the face-up card.
    Phase1,
    /// Whether to name another suit.
    Phase2,
    /// Which card to play.
    Play,
}

/// The answer of a seat to what it was asked.
#[derive(Clone, Copy, Debug, PartialEq, Eq, Structural)]
pub enum Response {
    Accept,
    Pass,
    Name(Color),
    Play(Card),
}

/// What the engine has to tell the host after a step.
#[derive(Clone, Copy, Debug, PartialEq, Eq)]
pub enum Step {
    /// The seat must answer before the engine can go on.
    NeedDecision(usize, DecisionKind),
    /// A round is over: scored, or abandoned for a new deal.
    RoundEnded(RoundSummary),
    /// The match is over: the winning team and the two totals.
    MatchEnded(usize, (i32, i32)),
}

/// A match: two teams, the rounds they have played, and the round in
/// progress.
#[derive(Debug)]
pub struct Game {
    pub teams: (Team, Team),
    /// The rounds that were played out, oldest first.
    pub rounds: Vec<Round>,
    /// The target: the match ends when a total reaches it.
    pub maximum_points: i32,
    /// The seed of the next shuffle.
    pub seed: u64,
    /// The seat that deals the round in progress, or the next one.
    pub dealer: usize,
    /// The round in progress.
    pub round: Option<Round>,
    /// A decision was asked of the seat whose turn it is and is still owed.
    pub asked: bool,
    /// The team that won, once the match is over.
    pub winner: Option<usize>,
    /// A fault has occurred; the engine refuses to go on.
    pub faulted: bool,
}

/// What the rounds played have brought `team` in all.
pub open spec fn total_points(rounds: Seq<Round>, team: int) -> int
    decreases rounds.len(),
{
    if rounds.len() == 0 {
        0
    } else {
        total_points(rounds.drop_last(), team) + if team == 0 {
            rounds.last().points.0 as int
        } else {
            rounds.last().points.1 as int
        }
    }
}

/// The seed that follows `seed`.
pub open spec fn seed_after(seed: u64) -> u64 {
    if seed == u64::MAX {
        0
    } else {
        (seed + 1) as u64
    }
}

impl Game {
    /// The name of the player at seat `s`: seats 0 and 2 are the players of
    /// the first team, seats 1 and 3 those of the second.
    pub open spec fn seat_name(&self, s: int) -> Seq<char> {
        if s == 0 {
            self.teams.0.players@[0].name@
        } else if s == 1 {
            self.teams.1.players@[0].name@
        } else if s == 2 {
            self.teams.0.players@[1].name@
        } else {
            self.teams.1.players@[1].name@
        }
    }

    /// The score below which both teams are while a round is in progress.
    pub open spec fn bar(&self) -> int {
        if self.maximum_points > 0 {
            self.maximum_points as int
        } else {
            1
        }
    }

    /// What holds of a match whether or not a round is in progress.
    pub open spec fn wf_record(&self) -> bool {
        &&& self.teams.0.players@.len() == 2
        &&& self.teams.1.players@.len() == 2
        &&& self.maximum_points <= HIGHEST_TARGET
        &&& self.dealer < 4
        &&& self.teams.0.points == total_points(self.rounds@, 0)
        &&& self.teams.1.points == total_points(self.rounds@, 1)
        &&& 0 <= self.teams.0.points
        &&& 0 <= self.teams.1.points
        &&& 162 * self.rounds@.len() <= self.teams.0.points + self.teams.1.points
        &&& forall|i: int|
            0 <= i < self.rounds@.len() ==> (#[trigger] self.rounds@[i]).wf()
                && self.rounds@[i].is_scored() && self.rounds@[i].current == i + 1
    }

    /// The match may go on: nobody has won and both teams are below the bar.
    pub open spec fn open(&self) -> bool {
        &&& self.winner is None
        &&& self.teams.0.points < self.bar()
        &&& self.teams.1.points < self.bar()
    }

    /// The invariant of a match. The totals are those of the rounds played;
    /// a round in progress is dealt, is the next in number, has the dealer
    /// of the match and seats the players of the teams, and while it lasts
    /// nobody has won; a decision is only owed by a seat whose turn it is.
    pub open spec fn wf(&self) -> bool {
        &&& self.wf_record()
        &&& match self.round {
            Some(round) => {
                &&& self.open()
                &&& round.wf()
                &&& round.auction is Some
                &&& round.dealer == self.dealer
                &&& round.current == self.rounds@.len() + 1
                &&& forall|s: int|
                    0 <= s < 4 ==> (#[trigger] round.players@[s]).name@ == self.seat_name(s)
                &&& self.asked ==> round.current_player is Some
            },
            None => !self.asked,
        }
        &&& self.winner matches Some(w) ==> w < 2
    }

    /// A match between two teams of two to `maximum_points`, with `seed` for
    /// the first shuffle. The totals start at nothing; no round is dealt
    /// yet.
    pub fn new(teams: (Team, Team), maximum_points: i32, seed: u64) -> (game: Game)
        requires
            teams.0.players@.len() == 2,
            teams.1.players@.len() == 2,
            maximum_points <= HIGHEST_TARGET,
        ensures
            game.wf(),
            game.teams.0.players == teams.0.players,
            game.teams.1.players == teams.1.players,
            game.teams.0.points == 0,
            game.teams.1.points == 0,
            game.maximum_points == maximum_points,
            game.seed == seed,
            game.dealer == 0,
            game.rounds@.len() == 0,
            game.round is None,
            game.winner is None,
            !game.asked,
            !game.faulted,
    {
        let mut teams = teams;
        teams.0.points = 0;
        teams.1.points = 0;
        Game {
            teams,
            rounds: Vec::new(),
            maximum_points,
            seed,
            dealer: 0,
            round: None,
            asked: false,
            winner: None,
            faulted: false,
        }
    }

    /// The four players in the order of their seats, with empty hands.
    pub fn get_players(&self) -> (players: Vec<Player>)
        requires
            self.teams.0.players@.len() == 2,
            self.teams.1.players@.len() == 2,
        ensures
            players@.len() == 4,
            forall|s: int|
                0 <= s < 4 ==> (#[trigger] players@[s]).name@ == self.seat_name(s)
                    && players@[s].hand@.len() == 0,
    {
        let mut players: Vec<Player> = Vec::new();
        players.push(Player::new(self.teams.0.players[0].name.as_str()));
        players.push(Player::new(self.teams.1.players[0].name.as_str()));
        players.push(Player::new(self.teams.0.players[1].name.as_str()));
        players.push(Player::new(self.teams.1.players[1].name.as_str()));
        players
    }

    /// The two totals.
    pub fn scores(&self) -> (s: (i32, i32))
        ensures
            s == (self.teams.0.points, self.teams.1.points),
    {
        (self.teams.0.points, self.teams.1.points)
    }

    /// The state after a new round was dealt, given the match `before` it:
    /// a round in progress, dealt by the dealer from a fresh deck shuffled
    /// with the seed of the match, which then moves on.
    pub open spec fn dealt_from(&self, before: Game) -> bool {
        &&& self.teams == before.teams
        &&& self.rounds == before.rounds
        &&& self.maximum_points == before.maximum_points
        &&& self.dealer == before.dealer
        &&& self.winner == before.winner
        &&& self.faulted == before.faulted
        &&& !self.asked
        &&& self.seed == seed_after(before.seed)
        &&& self.round matches Some(round) && round.dealt_with(
            before.seed,
            before.dealer,
            before.rounds@.len() as u32,
        )
    }

    /// Deals a new round: a fresh deck shuffled with the seed, the seats
    /// taken by the players of the teams.
    fn start_round(&mut self) -> (r: Result<(), EngineError>)
        requires
            old(self).wf(),
            old(self).round is None,
            old(self).open(),
        ensures
            r is Ok,
            final(self).wf(),
            final(self).dealt_from(*old(self)),
    {
        let mut deck = Deck::new();
        deck.shuffle(self.seed);
        let players = self.get_players();
        let count = self.rounds.len() as u32;
        let mut round = match Round::new(count, players, deck, self.dealer) {
            Ok(round) => round,
            Err(e) => {
                self.faulted = true;
                return Err(e);
            },
        };
        match round.start() {
            Ok(()) => {},
            Err(e) => {
                self.faulted = true;
                return Err(e);
            },
        }
        self.seed = if self.seed == u64::MAX { 0 } else { self.seed + 1 };
        self.round = Some(round);
        self.asked = false;
        Ok(())
    }

    /// Opens the match: deals the first round. A match that was opened
    /// before refuses, and so does one that has faulted.
    pub fn start(&mut self) -> (r: Result<(), EngineError>)
        requires
            old(self).wf(),
        ensures
            final(self).wf(),
            old(self).faulted ==> r == Err::<(), EngineError>(EngineError::EngineFault)
                && *final(self) == *old(self),
            !old(self).faulted && !old(self).fresh() ==> r == Err::<(), EngineError>(
                EngineError::OutOfTurn,
            ) && *final(self) == *old(self),
            !old(self).faulted && old(self).fresh() ==> r is Ok && final(self).dealt_from(*old(self)),
    {
        if self.faulted {
            return Err(EngineError::EngineFault);
        }
        if self.round.is_some() || self.winner.is_some() || self.rounds.len() > 0 {
            return Err(EngineError::OutOfTurn);
        }
        self.start_round()
    }

    /// Nothing has happened yet: no round is dealt or played, nobody has won.
    pub open spec fn fresh(&self) -> bool {
        &&& self.round is None
        &&& self.winner is None
        &&& self.rounds@.len() == 0
    }

    /// The state after a round that was played out is entered in the
    /// record, given the match `before` it: the score of the round is added
    /// to the totals, the deal passes to the left, and either a team has
    /// won or the next round is dealt.
    pub open spec fn scored_from(&self, before: Game) -> bool {
        let round = before.round->0;
        let a = before.teams.0.points + round.points.0;
        let b = before.teams.1.points + round.points.1;
        &&& self.teams.0.players == before.teams.0.players
        &&& self.teams.1.players == before.teams.1.players
        &&& self.teams.0.points == a
        &&& self.teams.1.points == b
        &&& self.rounds@ == before.rounds@.push(round)
        &&& self.maximum_points == before.maximum_points
        &&& self.dealer == left_of(before.dealer)
        &&& self.faulted == before.faulted
        &&& !self.asked
        &&& match match_winner(
            a,
            b,
            before.maximum_points as int,
            Some(team_of(round.taker->0 as int)),
        ) {
            Some(w) => {
                &&& self.winner == Some(w as usize)
                &&& self.round is None
                &&& self.seed == before.seed
            },
            None => {
                &&& self.winner is None
                &&& self.seed == seed_after(before.seed)
                &&& self.round matches Some(next) && next.dealt_with(
                    before.seed,
                    self.dealer,
                    self.rounds@.len() as u32,
                )
            },
        }
    }

    /// The state after a round in which all passed, given the match
    /// `before` it: nothing is scored or recorded, the deal passes to the
    /// left, and the cards are dealt again for the round of the same number.
    pub open spec fn redealt_from(&self, before: Game) -> bool {
        &&& self.teams == before.teams
        &&& self.rounds == before.rounds
        &&& self.maximum_points == before.maximum_points
        &&& self.winner == before.winner
        &&& self.faulted == before.faulted
        &&& !self.asked
        &&& self.dealer == left_of(before.dealer)
        &&& self.seed == seed_after(before.seed)
        &&& self.round matches Some(next) && next.dealt_with(
            before.seed,
            self.dealer,
            before.rounds@.len() as u32,
        )
    }

    /// Enters the round in progress, which is played out, in the record.
    fn end_scored(&mut self) -> (r: Result<Step, EngineError>)
        requires
            old(self).wf(),
            old(self).round matches Some(round) && round.is_scored(),
        ensures
            final(self).wf(),
            r == Ok::<Step, EngineError>(Step::RoundEnded(old(self).round->0.outcome())),
            final(self).scored_from(*old(self)),
    {
        let round = self.round.take().unwrap();
        proof {
            round.lemma_round_total();
        }
        let summary = round.summary();
        let defenders_of = match round.taker {
            Some(taker) => Some(taker % 2),
            None => None,
        };
        let ghost before = self.rounds@;
        self.teams.0.points = self.teams.0.points + round.points.0;
        self.teams.1.points = self.teams.1.points + round.points.1;
        self.rounds.push(round);
        self.dealer = seat_left_of(self.dealer);
        self.asked = false;
        proof {
            assert(self.rounds@.drop_last() =~= before);
            assert forall|i: int| 0 <= i < self.rounds@.len() implies (
            #[trigger] self.rounds@[i]).wf() && self.rounds@[i].is_scored()
                && self.rounds@[i].current == i + 1 by {
                if i < before.len() {
                    assert(self.rounds@[i] == before[i]);
                }
            }
        }
        match decide_winner(
            self.teams.0.points,
            self.teams.1.points,
            self.maximum_points,
            defenders_of,
        ) {
            Some(team) => {
                self.winner = Some(team);
            },
            None => {
                match self.start_round() {
                    Ok(()) => {},
                    Err(e) => {
                        return Err(e);
                    },
                }
            },
        }
        Ok(Step::RoundEnded(summary))
    }

    /// Abandons the round in progress, in which all passed, for a new deal.
    fn end_redeal(&mut self) -> (r: Result<Step, EngineError>)
        requires
            old(self).wf(),
            old(self).round matches Some(round) && round.is_redeal(),
        ensures
            final(self).wf(),
            r == Ok::<Step, EngineError>(Step::RoundEnded(old(self).round->0.outcome())),
            final(self).redealt_from(*old(self)),
    {
        let round = self.round.take().unwrap();
        let summary = round.summary();
        self.dealer = seat_left_of(self.dealer);
        self.asked = false;
        match self.start_round() {
            Ok(()) => {},
            Err(e) => {
                return Err(e);
            },
        }
        Ok(Step::RoundEnded(summary))
    }

    /// What the seat whose turn it is in `round` has to decide.
    pub open spec fn decision(round: Round) -> DecisionKind {
        match round.auction {
            Some(Auction::AwaitingPhase1(_)) => DecisionKind::Phase1,
            Some(Auction::AwaitingPhase2(_)) => DecisionKind::Phase2,
            _ => DecisionKind::Play,
        }
    }

    /// Advances the match as far as it can go without an answer from a
    /// seat.
    ///
    /// A faulted engine refuses. A match that is over says who won. A match
    /// that was not opened has no step to take. Otherwise, where a seat has
    /// to decide, that decision is asked of it, again if need be; and where
    /// the round is over it is entered in the record, or abandoned if all
    /// passed, and the next round is dealt unless a team has won.
    pub fn step(&mut self) -> (r: Result<Step, EngineError>)
        requires
            old(self).wf(),
        ensures
            final(self).wf(),
            old(self).faulted ==> r == Err::<Step, EngineError>(EngineError::EngineFault)
                && *final(self) == *old(self),
            !old(self).faulted ==> match (old(self).winner, old(self).round) {
                (Some(team), _) => r == Ok::<Step, EngineError>(
                    Step::MatchEnded(team, (old(self).teams.0.points, old(self).teams.1.points)),
                ) && *final(self) == *old(self),
                (None, None) => r == Err::<Step, EngineError>(EngineError::OutOfTurn)
                    && *final(self) == *old(self),
                (None, Some(round)) => match round.current_player {
                    Some(seat) => r == Ok::<Step, EngineError>(
                        Step::NeedDecision(seat, Game::decision(round)),
                    ) && *final(self) == (Game { asked: true, ..*old(self) }),
                    None => r == Ok::<Step, EngineError>(Step::RoundEnded(round.outcome()))
                        && if round.is_redeal() {
                        final(self).redealt_from(*old(self))
                    } else {
                        final(self).scored_from(*old(self))
                    },
                },
            },
    {
        if self.faulted {
            return Err(EngineError::EngineFault);
        }
        if let Some(team) = self.winner {
            return Ok(Step::MatchEnded(team, self.scores()));
        }
        let (turn, auction) = match &self.round {
            Some(round) => (round.current_player, round.auction),
            None => {
                return Err(EngineError::OutOfTurn);
            },
        };
        match turn {
            Some(seat) => {
                self.asked = true;
                let kind = match auction {
                    Some(Auction::AwaitingPhase1(_)) => DecisionKind::Phase1,
                    Some(Auction::AwaitingPhase2(_)) => DecisionKind::Phase2,
                    _ => DecisionKind::Play,
                };
                Ok(Step::NeedDecision(seat, kind))
            },
            None => match auction {
                Some(Auction::Redeal) => self.end_redeal(),
                _ => self.end_scored(),
            },
        }
    }

    /// The bid that a response stands for, if it is one.
    pub open spec fn bid_of(response: Response) -> Option<Bid> {
        match response {
            Response::Accept => Some(Bid::Accept),
            Response::Pass => Some(Bid::Pass),
            Response::Name(color) => Some(Bid::Name(color)),
            Response::Play(_) => None,
        }
    }

    /// The state after an answer was taken, given the match `before` it:
    /// the decision is no longer owed, and only the round has changed.
    pub open spec fn answered_from(&self, before: Game) -> bool {
        &&& self.round is Some
        &&& *self == (Game { round: self.round, asked: false, ..before })
    }

    /// Takes the answer of `seat` to the decision that was asked of it.
    ///
    /// A faulted engine refuses. With no decision asked the answer is out
    /// of turn. Otherwise a bid goes to the auction and a card to the trick
    /// in progress, and the round says whether it stands. A refused answer
    /// changes nothing, and the decision is still owed.
    pub fn submit(&mut self, seat: usize, response: Response) -> (r: Result<(), EngineError>)
        requires
            old(self).wf(),
        ensures
            final(self).wf(),
            old(self).faulted ==> r == Err::<(), EngineError>(EngineError::EngineFault)
                && *final(self) == *old(self),
            !old(self).faulted && !old(self).asked ==> r == Err::<(), EngineError>(
                EngineError::OutOfTurn,
            ) && *final(self) == *old(self),
            !old(self).faulted && old(self).asked ==> ({
                let round = old(self).round->0;
                match response {
                    Response::Play(card) => {
                        &&& !round.awaits_play_from(seat) ==> r == Err::<(), EngineError>(
                            EngineError::OutOfTurn,
                        ) && *final(self) == *old(self)
                        &&& round.awaits_play_from(seat) && !round.legal_plays(seat).contains(card)
                            ==> (r matches Err(EngineError::IllegalPlay { card: refused, legal })
                            && refused == card && legal@ == round.legal_plays(seat)) && *final(self)
                            == *old(self)
                        &&& round.awaits_play_from(seat) && round.legal_plays(seat).contains(card)
                            ==> r is Ok && final(self).answered_from(*old(self))
                            && final(self).round->0.played_from(round, seat, card)
                    },
                    _ => match round.bid_outcome(seat, Game::bid_of(response)->0) {
                        Ok(next) => r is Ok && final(self).answered_from(*old(self))
                            && final(self).round->0.bid_from(round, next),
                        Err(e) => r == Err::<(), EngineError>(e) && *final(self) == *old(self),
                    },
                }
            }),
    {
        if self.faulted {
            return Err(EngineError::EngineFault);
        }
        if !self.asked {
            return Err(EngineError::OutOfTurn);
        }
        let answer = match &mut self.round {
            Some(round) => match response {
                Response::Play(card) => round.play_round(seat, card),
                Response::Accept => round.bid(seat, Bid::Accept),
                Response::Pass => round.bid(seat, Bid::Pass),
                Response::Name(color) => round.bid(seat, Bid::Name(color)),
            },
            None => Err(EngineError::OutOfTurn),
        };
        match answer {
            Ok(()) => {
                self.asked = false;
                Ok(())
            },
            Err(e) => Err(e),
        }
    }

    /// The trump suit of the round in progress, once it is chosen.
    pub fn trump(&self) -> (t: Option<Color>)
        ensures
            t == match self.round {
                Some(round) => round.trump_color,
                None => None,
            },
    {
        match &self.round {
            Some(round) => round.trump_color,
            None => None,
        }
    }

    /// The seat that took in the round in progress, once one has.
    pub fn taker(&self) -> (t: Option<usize>)
        ensures
            t == match self.round {
                Some(round) => round.taker,
                None => None,
            },
    {
        match &self.round {
            Some(round) => round.taker,
            None => None,
        }
    }

    /// The face-up card of the round in progress, while trump is open.
    pub fn candidate(&self) -> (c: Option<Card>)
        ensures
            c == match self.round {
                Some(round) => round.candidate,
                None => None,
            },
    {
        match &self.round {
            Some(round) => round.candidate,
            None => None,
        }
    }

    /// The cards that `seat` holds in the round in progress.
    pub fn hand(&self, seat: usize) -> (hand: Option<&Vec<Card>>)
        ensures
            hand == match self.round {
                Some(round) => if seat < round.players@.len() {
                    Some(&round.players@[seat as int].hand)
                } else {
                    None
                },
                None => None,
            },
    {
        match &self.round {
            Some(round) => round.hand_of(seat),
            None => None,
        }
    }

    /// The tricks played so far in the round in progress, oldest first.
    pub fn tricks(&self) -> (tricks: Option<&Vec<Trick>>)
        ensures
            tricks == match self.round {
                Some(round) => Some(&round.tricks),
                None => None,
            },
    {
        match &self.round {
            Some(round) => Some(&round.tricks),
            None => None,
        }
    }

    /// The cards that the seat whose turn it is may play; none while no
    /// card is awaited.
    pub fn legal_moves(&self) -> (legal: Vec<Card>)
        requires
            self.wf(),
        ensures
            legal@ == match self.round {
                Some(round) => if round.is_playing() {
                    round.legal_plays(round.current_player->0)
                } else {
                    Seq::empty()
                },
                None => Seq::empty(),
            },
    {
        match &self.round {
            Some(round) => round.legal_moves(),
            None => Vec::new(),
        }
    }

    /// Over a match no card is gained or lost: the round in progress and
    /// every round played hold the thirty-two cards of the pack, each of
    /// them once.
    pub proof fn lemma_pack_preserved(&self)
        requires
            self.wf(),
        ensures
            self.round matches Some(round) ==> round.cards() == fresh_deck().to_multiset(),
            forall|i: int|
                0 <= i < self.rounds@.len() ==> (#[trigger] self.rounds@[i]).cards()
                    == fresh_deck().to_multiset(),
    {
    }

    /// The totals are the sums of the scores of the rounds played, and each
    /// round played has added 162 or 250 points to them.
    pub proof fn lemma_totals(&self, i: int)
        requires
            self.wf(),
            0 <= i < self.rounds@.len(),
        ensures
            self.teams.0.points == total_points(self.rounds@, 0),
            self.teams.1.points == total_points(self.rounds@, 1),
            self.rounds@[i].points.0 + self.rounds@[i].points.1 == 162 || self.rounds@[i].points.0
                + self.rounds@[i].points.1 == 250,
    {
        self.rounds@[i].lemma_round_total();
    }
}

} // verus!
