use crate::auction::{left_of, seat_left_of, Auction, Bid};
use crate::card::{fresh_deck, lemma_fresh_deck_index, Card, Color};
use crate::deck::{is_pack, lemma_pack_is_distinct, shuffled, Deck};
use crate::error::EngineError;
use crate::hand::{find_card, legal_cards, legal_set, lemma_legal_cards, remove_card};
use crate::piles::{
    face_up, hands_cards, lemma_empty_pile, lemma_hands_update, lemma_moved, lemma_no_cards_held,
    lemma_pick_up, lemma_play_moves, lemma_show, lemma_together_back, lemma_together_front,
    lemma_together_one, together,
};
use crate::player::{drawn, Player};
use crate::scoring::{
    lemma_pack_points, lemma_points_bounds, points_of, round_points, score_round, team_of,
};
use crate::trick::{cards_in, lemma_teams_share, team_cards, team_tricks, Trick};
use vstd::multiset::Multiset;
use vstd::prelude::*;
use vstd::seq_lib::*;

verus! {

/// Cards that each seat draws first.
pub const FIRST_DRAW: i8 = 3;

/// Cards that each seat draws next, before the face-up card is shown.
pub const SECOND_DRAW: i8 = 2;

/// Cards that a seat draws once trump is chosen; the taker draws one fewer,
/// having picked up the face-up card.
pub const LAST_DRAW: i8 = 3;

/// Tricks in a round.
pub const TRICKS: usize = 8;

/// What a round came to, for the host and the match record.
#[derive(Clone, Copy, Debug, PartialEq, Eq)]
pub struct RoundSummary {
    /// The number of the round within the match.
    pub index: u32,
    pub dealer: usize,
    /// All passed: nothing was played and nothing is scored.
    pub redeal: bool,
    pub taker: Option<usize>,
    pub trump: Option<Color>,
    /// The score of the two teams in this round.
    pub points: (i32, i32),
    /// The seat that took the last trick; before any trick is played, the
    /// seat to the dealer's left.
    pub leader: usize,
}

/// One round: the deal, the choice of trump, eight tricks and the score.
#[derive(Debug)]
pub struct Round {
    /// The number of the round within the match, from 1, once it is dealt.
    pub current: u32,
    pub dealer: usize,
    /// `None` until the cards are dealt.
    pub auction: Option<Auction>,
    pub trump_color: Option<Color>,
    pub taker: Option<usize>,
    /// The seat whose answer is awaited, if any.
    pub current_player: Option<usize>,
    /// The face-up card, while trump is being chosen.
    pub candidate: Option<Card>,
    /// The trick being played.
    pub trick: Trick,
    /// The tricks played, oldest first.
    pub tricks: Vec<Trick>,
    /// The four seats, in clockwise order.
    pub players: Vec<Player>,
    pub deck: Deck,
    /// The score of the two teams, once eight tricks are played.
    pub points: (i32, i32),
}

/// How many cards seat `s` draws in a pass where each seat draws `base`
/// cards, but for the seat `short`, which draws one fewer.
pub open spec fn share(base: int, short: Option<usize>, s: int) -> int {
    if short == Some(s as usize) {
        base - 1
    } else {
        base
    }
}

/// How many cards have left the pile in such a pass before seat `s` draws.
pub open spec fn drawn_before(base: int, short: Option<usize>, s: int) -> int
    decreases s,
{
    if s <= 0 {
        0
    } else {
        drawn_before(base, short, s - 1) + share(base, short, s - 1)
    }
}

/// The hand of seat `s` after the opening deal from the pile `pile`: three
/// cards in a first pass round the table, two in a second.
pub open spec fn opening_hand(pile: Seq<Card>, s: int) -> Seq<Card> {
    drawn(pile, 3 * s, 3) + drawn(pile, 12 + 2 * s, 2)
}

/// What seat `s` draws from the pile `stock` once `taker` has taken: seat by
/// seat from seat 0, three cards each but two for the taker.
pub open spec fn closing_draw(stock: Seq<Card>, taker: int, s: int) -> Seq<Card> {
    drawn(stock, 3 * s - if s > taker { 1int } else { 0int }, if s == taker { 2int } else { 3int })
}

/// One pass of the deal: each seat in turn, from seat 0, draws its share from
/// the top of the deck.
fn deal_pass(players: &mut Vec<Player>, deck: &mut Deck, base: i8, short: Option<usize>) -> (r: Result<
    (),
    EngineError,
>)
    requires
        old(players)@.len() == 4,
        1 <= base,
        drawn_before(base as int, short, 4) <= old(deck)@.len(),
    ensures
        r is Ok,
        final(players)@.len() == 4,
        forall|s: int|
            0 <= s < 4 ==> (#[trigger] final(players)@[s]).name == old(players)@[s].name
                && final(players)@[s].hand@ == old(players)@[s].hand@ + drawn(
                old(deck)@,
                drawn_before(base as int, short, s),
                share(base as int, short, s),
            ),
        final(deck)@ == old(deck)@.take(old(deck)@.len() - drawn_before(base as int, short, 4)),
        final(deck)@.to_multiset().add(hands_cards(final(players)@)) == old(deck)@.to_multiset().add(
            hands_cards(old(players)@),
        ),
{
    let mut s: usize = 0;
    while s < 4
        invariant
            s <= 4,
            players@.len() == 4,
            1 <= base,
            drawn_before(base as int, short, 4) <= old(deck)@.len(),
            0 <= drawn_before(base as int, short, s as int),
            forall|k: int|
                0 <= k < s ==> (#[trigger] players@[k]).name == old(players)@[k].name
                    && players@[k].hand@ == old(players)@[k].hand@ + drawn(
                    old(deck)@,
                    drawn_before(base as int, short, k),
                    share(base as int, short, k),
                ),
            forall|k: int| s <= k < 4 ==> (#[trigger] players@[k]) == old(players)@[k],
            deck@ == old(deck)@.take(
                old(deck)@.len() - drawn_before(base as int, short, s as int),
            ),
            deck@.to_multiset().add(hands_cards(players@)) == old(deck)@.to_multiset().add(
                hands_cards(old(players)@),
            ),
        decreases 4 - s,
    {
        let n: i8 = if short == Some(s) { base - 1 } else { base };
        let ghost before = players@;
        let ghost pile = deck@;
        let ghost off = drawn_before(base as int, short, s as int);
        assert(n as int == share(base as int, short, s as int));
        assert(off + n <= drawn_before(base as int, short, 4)) by {
            reveal_with_fuel(drawn_before, 5);
        }
        match players[s].draw_n(deck, n) {
            Ok(()) => {},
            Err(e) => {
                return Err(e);
            },
        }
        proof {
            assert(players@ =~= before.update(s as int, players@[s as int]));
            assert(drawn(pile, 0, n as int) =~= drawn(old(deck)@, off, n as int));
            assert(deck@ =~= old(deck)@.take(old(deck)@.len() - (off + n)));
            lemma_hands_update(before, s as int, players@[s as int]);
            lemma_moved(
                pile.to_multiset(),
                hands_cards(before),
                before[s as int].hand@.to_multiset(),
                deck@.to_multiset(),
                hands_cards(players@),
                players@[s as int].hand@.to_multiset(),
            );
        }
        s += 1;
    }
    Ok(())
}

/// The card points and the tricks of the teams, counted over the tricks
/// played: the points of team 0, those of team 1, the tricks of team 0.
fn tally(tricks: &Vec<Trick>, trump: Color) -> (r: (u32, u32, u8))
    requires
        tricks@.len() <= 8,
        forall|i: int|
            0 <= i < tricks@.len() ==> (#[trigger] tricks@[i]).leader < 4 && tricks@[i].cards@.len()
                == 4,
    ensures
        r.0 == team_cards(tricks@, trump, 0),
        r.1 == team_cards(tricks@, trump, 1),
        r.2 == team_tricks(tricks@, trump, 0),
{
    let mut a: u32 = 0;
    let mut b: u32 = 0;
    let mut n: u8 = 0;
    let mut i: usize = 0;
    while i < tricks.len()
        invariant
            i <= tricks@.len() <= 8,
            forall|k: int|
                0 <= k < tricks@.len() ==> (#[trigger] tricks@[k]).leader < 4
                    && tricks@[k].cards@.len() == 4,
            a == team_cards(tricks@.take(i as int), trump, 0),
            b == team_cards(tricks@.take(i as int), trump, 1),
            n == team_tricks(tricks@.take(i as int), trump, 0),
            a <= 80 * i,
            b <= 80 * i,
            n <= i,
        decreases tricks@.len() - i,
    {
        proof {
            assert(tricks@.take(i + 1).drop_last() =~= tricks@.take(i as int));
            assert(tricks@.take(i + 1).last() == tricks@[i as int]);
            lemma_points_bounds(tricks@[i as int].cards@, trump);
        }
        let points = tricks[i].count_points(trump) as u32;
        if tricks[i].winner(trump) % 2 == 0 {
            a = a + points;
            n = n + 1;
        } else {
            b = b + points;
        }
        i += 1;
    }
    proof {
        assert(tricks@.take(tricks@.len() as int) =~= tricks@);
    }
    (a, b, n)
}

impl Round {
    /// The cards held by seat `s`.
    pub open spec fn hand(&self, s: int) -> Seq<Card> {
        self.players@[s].hand@
    }

    /// All the cards of the round, wherever they lie: in the deck, face up,
    /// in a hand, on the table or in a trick that was played.
    pub open spec fn cards(&self) -> Multiset<Card> {
        together(
            self.deck@.to_multiset(),
            face_up(self.candidate).to_multiset(),
            hands_cards(self.players@),
            self.trick.cards@.to_multiset(),
            cards_in(self.tricks@).to_multiset(),
        )
    }

    /// Whether seat `s` has played on the trick that is on the table.
    pub open spec fn has_played(&self, s: int) -> bool {
        (s + 4 - self.trick.leader) % 4 < self.trick.cards@.len()
    }

    /// No card is on the table or in a played trick, nothing is scored, and
    /// the seat to the dealer's left is to lead the first trick.
    pub open spec fn nothing_played(&self) -> bool {
        &&& self.trick.leader == left_of(self.dealer)
        &&& self.trick.cards@.len() == 0
        &&& self.tricks@.len() == 0
        &&& self.points == (0i32, 0i32)
    }

    /// Trump is not chosen: there is neither a taker nor a trump suit.
    pub open spec fn no_taker(&self) -> bool {
        &&& self.taker is None
        &&& self.trump_color is None
    }

    /// The state before the deal: the deck holds every card.
    pub open spec fn wf_created(&self) -> bool {
        &&& self.current < u32::MAX
        &&& self.no_taker()
        &&& self.nothing_played()
        &&& self.current_player is None
        &&& self.candidate is None
        &&& forall|s: int| 0 <= s < 4 ==> (#[trigger] self.players@[s]).hand@.len() == 0
    }

    /// The state while trump is being chosen, or after all have passed: five
    /// cards in each hand, one face up, eleven in the deck.
    pub open spec fn wf_bidding(&self, asked: Option<usize>) -> bool {
        &&& self.no_taker()
        &&& self.nothing_played()
        &&& self.current_player == asked
        &&& self.candidate is Some
        &&& self.deck@.len() == 11
        &&& forall|s: int| 0 <= s < 4 ==> (#[trigger] self.players@[s]).hand@.len() == 5
    }

    /// Each trick is led by the seat that took the one before it, the first
    /// by the seat to the dealer's left.
    pub open spec fn leaders_follow(&self, trump: Color) -> bool {
        &&& self.tricks@.len() == 0 ==> self.trick.leader == left_of(self.dealer)
        &&& self.tricks@.len() > 0 ==> self.tricks@[0].leader == left_of(self.dealer)
            && self.trick.leader == self.tricks@.last().winning_seat(trump)
        &&& forall|i: int|
            0 <= i < self.tricks@.len() - 1 ==> (#[trigger] self.tricks@[i + 1]).leader
                == self.tricks@[i].winning_seat(trump)
    }

    /// The score that the tricks played give the two teams.
    pub open spec fn score(&self, taker: usize, trump: Color) -> (int, int) {
        round_points(
            team_cards(self.tricks@, trump, 0),
            team_cards(self.tricks@, trump, 1),
            team_tricks(self.tricks@, trump, 0),
            team_of(self.trick.leader as int),
            team_of(taker as int),
        )
    }

    /// The state once trump is chosen: the deck is dealt out, and a seat
    /// holds eight cards less one for each trick it has played on.
    pub open spec fn wf_playing(&self, taker: usize, trump: Color) -> bool {
        &&& self.taker == Some(taker)
        &&& self.trump_color == Some(trump)
        &&& self.candidate is None
        &&& self.deck@.len() == 0
        &&& self.tricks@.len() <= 8
        &&& forall|s: int|
            0 <= s < 4 ==> (#[trigger] self.players@[s]).hand@.len() == 8 - self.tricks@.len()
                - if self.has_played(s) {
                1int
            } else {
                0int
            }
        &&& self.leaders_follow(trump)
        &&& if self.tricks@.len() < 8 {
            &&& self.trick.cards@.len() < 4
            &&& self.current_player == Some(
                self.trick.seat_at(self.trick.cards@.len() as int) as usize,
            )
            &&& self.points == (0i32, 0i32)
        } else {
            &&& self.trick.cards@.len() == 0
            &&& self.current_player is None
            &&& (self.points.0 as int, self.points.1 as int) == self.score(taker, trump)
        }
    }

    /// The invariant of a round. Four seats; every card of the pack lies in
    /// exactly one place; every played trick has four cards; and the fields
    /// agree with the stage that the auction has reached.
    pub open spec fn wf(&self) -> bool {
        &&& self.players@.len() == 4
        &&& self.dealer < 4
        &&& self.trick.wf()
        &&& self.cards() == fresh_deck().to_multiset()
        &&& forall|i: int|
            0 <= i < self.tricks@.len() ==> (#[trigger] self.tricks@[i]).leader < 4
                && self.tricks@[i].cards@.len() == 4
        &&& match self.auction {
            None => self.wf_created(),
            Some(Auction::AwaitingPhase1(s)) => s < 4 && self.wf_bidding(Some(s)),
            Some(Auction::AwaitingPhase2(s)) => s < 4 && self.wf_bidding(Some(s)),
            Some(Auction::Redeal) => self.wf_bidding(None),
            Some(Auction::Concluded(taker, trump)) => taker < 4 && self.wf_playing(taker, trump),
        }
    }

    /// Trump is chosen and fewer than eight tricks are played.
    pub open spec fn is_playing(&self) -> bool {
        self.auction matches Some(Auction::Concluded(_, _)) && self.tricks@.len() < 8
    }

    /// Eight tricks are played and the round is scored.
    pub open spec fn is_scored(&self) -> bool {
        self.auction matches Some(Auction::Concluded(_, _)) && self.tricks@.len() == 8
    }

    /// All four seats passed twice.
    pub open spec fn is_redeal(&self) -> bool {
        self.auction == Some(Auction::Redeal)
    }

    /// What `Round::new` asks of its arguments.
    pub open spec fn valid_setup(count: u32, players: Seq<Player>, deck: Deck, dealer: usize) -> bool {
        &&& count < u32::MAX
        &&& dealer < 4
        &&& players.len() == 4
        &&& forall|s: int| 0 <= s < 4 ==> (#[trigger] players[s]).hand@.len() == 0
        &&& deck.is_full()
    }

    /// A round that is ready to be dealt. It takes four seats with empty
    /// hands, a deck that holds the whole pack, a dealer among the seats and
    /// the number of rounds played before; anything else is a fault.
    pub fn new(count: u32, players: Vec<Player>, deck: Deck, dealer: usize) -> (r: Result<
        Round,
        EngineError,
    >)
        ensures
            Round::valid_setup(count, players@, deck, dealer) ==> r is Ok && r->Ok_0.wf() && ({
                let round = r->Ok_0;
                &&& round.auction is None
                &&& round.current == count
                &&& round.dealer == dealer
                &&& round.players == players
                &&& round.deck == deck
            }),
            !Round::valid_setup(count, players@, deck, dealer) ==> r == Err::<Round, EngineError>(
                EngineError::EngineFault,
            ),
    {
        if count == u32::MAX || dealer >= 4 || players.len() != 4 {
            return Err(EngineError::EngineFault);
        }
        let mut s: usize = 0;
        while s < 4
            invariant
                s <= 4,
                players@.len() == 4,
                forall|k: int| 0 <= k < s ==> (#[trigger] players@[k]).hand@.len() == 0,
            decreases 4 - s,
        {
            if players[s].hand.len() != 0 {
                return Err(EngineError::EngineFault);
            }
            s += 1;
        }
        if !deck.is_complete() {
            return Err(EngineError::EngineFault);
        }
        let round = Round {
            current: count,
            dealer,
            auction: None,
            trump_color: None,
            taker: None,
            current_player: None,
            candidate: None,
            trick: Trick::new(seat_left_of(dealer)),
            tricks: Vec::new(),
            players,
            deck,
            points: (0, 0),
        };
        proof {
            round.lemma_all_in_deck();
        }
        Ok(round)
    }

    /// Deals the opening hands: three cards to each seat in turn from seat
    /// 0, then two to each.
    fn draw_starting_hands(&mut self) -> (r: Result<(), EngineError>)
        requires
            old(self).players@.len() == 4,
            old(self).deck@.len() >= 20,
        ensures
            r is Ok,
            *final(self) == (Round {
                players: final(self).players,
                deck: final(self).deck,
                ..*old(self)
            }),
            final(self).players@.len() == 4,
            forall|s: int|
                0 <= s < 4 ==> (#[trigger] final(self).players@[s]).name == old(self).players@[s].name
                    && final(self).hand(s) == old(self).hand(s) + opening_hand(old(self).deck@, s),
            final(self).deck@ == old(self).deck@.take(old(self).deck@.len() - 20),
            final(self).deck@.to_multiset().add(hands_cards(final(self).players@)) == old(
                self,
            ).deck@.to_multiset().add(hands_cards(old(self).players@)),
    {
        let ghost pile = self.deck@;
        proof {
            reveal_with_fuel(drawn_before, 5);
        }
        match deal_pass(&mut self.players, &mut self.deck, FIRST_DRAW, None) {
            Ok(()) => {},
            Err(e) => {
                return Err(e);
            },
        }
        let ghost pile1 = self.deck@;
        match deal_pass(&mut self.players, &mut self.deck, SECOND_DRAW, None) {
            Ok(()) => {},
            Err(e) => {
                return Err(e);
            },
        }
        proof {
            assert(pile1 =~= pile.take(pile.len() - 12));
            assert(self.deck@ =~= pile.take(pile.len() - 20));
            assert forall|s: int| 0 <= s < 4 implies #[trigger] self.hand(s) == old(self).hand(s)
                + opening_hand(pile, s) by {
                assert(drawn(pile1, 2 * s, 2) =~= drawn(pile, 12 + 2 * s, 2));
                assert(self.hand(s) =~= old(self).hand(s) + opening_hand(pile, s));
            }
        }
        Ok(())
    }

    /// Deals the rest of the deck once `taker` has taken: to each seat in
    /// turn from seat 0 three cards, to the taker two.
    fn draw_remaining_cards(&mut self, taker: usize) -> (r: Result<(), EngineError>)
        requires
            old(self).players@.len() == 4,
            old(self).deck@.len() >= 11,
            taker < 4,
        ensures
            r is Ok,
            *final(self) == (Round {
                players: final(self).players,
                deck: final(self).deck,
                ..*old(self)
            }),
            final(self).players@.len() == 4,
            forall|s: int|
                0 <= s < 4 ==> (#[trigger] final(self).players@[s]).name == old(self).players@[s].name
                    && final(self).hand(s) == old(self).hand(s) + closing_draw(
                    old(self).deck@,
                    taker as int,
                    s,
                ),
            final(self).deck@ == old(self).deck@.take(old(self).deck@.len() - 11),
            final(self).deck@.to_multiset().add(hands_cards(final(self).players@)) == old(
                self,
            ).deck@.to_multiset().add(hands_cards(old(self).players@)),
    {
        proof {
            reveal_with_fuel(drawn_before, 5);
        }
        deal_pass(&mut self.players, &mut self.deck, LAST_DRAW, Some(taker))
    }

    /// The state that the deal leaves, given the round `before` it: the
    /// round counts, each seat holds its five cards, the next card of the
    /// deck lies face up, and the seat to the dealer's left is asked first.
    pub open spec fn dealt_from(&self, before: Round) -> bool {
        &&& self.current == before.current + 1
        &&& self.dealer == before.dealer
        &&& self.auction == Some(Auction::opening(before.dealer))
        &&& self.candidate == Some(before.deck@[11])
        &&& self.deck@ == before.deck@.take(11)
        &&& forall|s: int|
            0 <= s < 4 ==> (#[trigger] self.players@[s]).name == before.players@[s].name
                && self.hand(s) == opening_hand(before.deck@, s)
    }

    /// Deals the round: three cards to each seat, then two, then one face
    /// up, and opens the auction. A round that is dealt already refuses.
    pub fn start(&mut self) -> (r: Result<(), EngineError>)
        requires
            old(self).wf(),
        ensures
            final(self).wf(),
            old(self).auction is Some ==> r == Err::<(), EngineError>(EngineError::OutOfTurn)
                && *final(self) == *old(self),
            old(self).auction is None ==> r is Ok && final(self).dealt_from(*old(self)),
    {
        if self.auction.is_some() {
            return Err(EngineError::OutOfTurn);
        }
        let ghost pile = self.deck@;
        proof {
            self.lemma_card_count();
            assert(pile.len() == 32);
        }
        match self.draw_starting_hands() {
            Ok(()) => {},
            Err(e) => {
                return Err(e);
            },
        }
        let ghost pile2 = self.deck@;
        match self.deck.draw() {
            Ok(card) => {
                self.candidate = Some(card);
            },
            Err(e) => {
                return Err(e);
            },
        }
        self.current = self.current + 1;
        let first = seat_left_of(self.dealer);
        self.auction = Some(Auction::AwaitingPhase1(first));
        self.current_player = Some(first);
        proof {
            lemma_empty_pile();
            assert(self.deck@ =~= pile.take(11));
            assert forall|s: int| 0 <= s < 4 implies #[trigger] self.hand(s) == opening_hand(
                pile,
                s,
            ) by {
                assert(old(self).hand(s) =~= Seq::<Card>::empty());
                assert(self.hand(s) =~= opening_hand(pile, s));
            }
            let c = self.candidate->0;
            assert(pile2 =~= self.deck@.push(c));
            to_multiset_build(self.deck@, c);
            assert(face_up(self.candidate) =~= Seq::<Card>::empty().push(c));
            to_multiset_build(Seq::<Card>::empty(), c);
            assert(face_up(old(self).candidate) =~= Seq::<Card>::empty());
            lemma_show(
                pile.to_multiset(),
                hands_cards(old(self).players@),
                pile2.to_multiset(),
                hands_cards(self.players@),
                self.deck@.to_multiset(),
                c,
            );
            lemma_together_front(
                pile.to_multiset(),
                face_up(old(self).candidate).to_multiset(),
                hands_cards(old(self).players@),
                self.deck@.to_multiset(),
                face_up(self.candidate).to_multiset(),
                hands_cards(self.players@),
                self.trick.cards@.to_multiset(),
                cards_in(self.tricks@).to_multiset(),
            );
        }
        Ok(())
    }

    /// What the auction makes of the answer `bid` of `seat`: the state that
    /// follows, or why the answer is refused. Before the deal and once the
    /// face-up card is gone no answer is awaited.
    pub open spec fn bid_outcome(&self, seat: usize, bid: Bid) -> Result<Auction, EngineError> {
        match (self.auction, self.candidate) {
            (Some(auction), Some(card)) => auction.after_bid(self.dealer, card.color, seat, bid),
            _ => Err(EngineError::OutOfTurn),
        }
    }

    /// The state that an accepted answer leaves, given the round `before`
    /// it and the state `next` that the auction has reached.
    ///
    /// While trump is open only the seat that is asked changes. When a seat
    /// takes, it picks up the face-up card, and the rest of the deck is
    /// dealt: seat by seat from seat 0, three cards each and two for the
    /// taker. The seat to the dealer's left leads the first trick.
    pub open spec fn bid_from(&self, before: Round, next: Auction) -> bool {
        &&& self.current == before.current
        &&& self.dealer == before.dealer
        &&& self.auction == Some(next)
        &&& forall|s: int|
            0 <= s < 4 ==> (#[trigger] self.players@[s]).name == before.players@[s].name
        &&& match next {
            Auction::Concluded(taker, trump) => {
                &&& self.taker == Some(taker)
                &&& self.trump_color == Some(trump)
                &&& self.current_player == Some(left_of(before.dealer))
                &&& self.nothing_played()
                &&& forall|s: int|
                    0 <= s < 4 ==> #[trigger] self.hand(s) == before.hand(s) + (if s == taker {
                        face_up(before.candidate)
                    } else {
                        Seq::empty()
                    }) + closing_draw(before.deck@, taker as int, s)
            },
            _ => {
                &&& self.current_player == next.asked()
                &&& self.candidate == before.candidate
                &&& self.players == before.players
                &&& self.deck == before.deck
            },
        }
    }

    /// The seat `taker` takes with `trump` as trump: it picks up the face-up
    /// card, the rest of the deck is dealt, and the first trick is opened.
    fn conclude(&mut self, taker: usize, trump: Color, card: Card) -> (r: Result<(), EngineError>)
        requires
            old(self).wf(),
            old(self).auction matches Some(a) && a.asked() is Some,
            old(self).candidate == Some(card),
            taker < 4,
        ensures
            r is Ok,
            final(self).wf(),
            final(self).bid_from(*old(self), Auction::Concluded(taker, trump)),
    {
        let ghost players0 = self.players@;
        let ghost stock = self.deck@;
        self.players[taker].hand.push(card);
        self.candidate = None;
        let ghost players1 = self.players@;
        match self.draw_remaining_cards(taker) {
            Ok(()) => {},
            Err(e) => {
                return Err(e);
            },
        }
        self.taker = Some(taker);
        self.trump_color = Some(trump);
        let first = seat_left_of(self.dealer);
        self.trick = Trick::new(first);
        self.current_player = Some(first);
        self.auction = Some(Auction::Concluded(taker, trump));
        proof {
            lemma_empty_pile();
            assert(players1 =~= players0.update(taker as int, players1[taker as int]));
            lemma_hands_update(players0, taker as int, players1[taker as int]);
            to_multiset_build(players0[taker as int].hand@, card);
            assert(face_up(old(self).candidate) =~= Seq::<Card>::empty().push(card));
            to_multiset_build(Seq::<Card>::empty(), card);
            assert(self.deck@ =~= Seq::<Card>::empty());
            assert forall|s: int| 0 <= s < 4 implies #[trigger] self.hand(s) == players1[s].hand@
                + closing_draw(stock, taker as int, s) by {}
            assert(face_up(self.candidate) =~= Seq::<Card>::empty());
            assert(self.trick.cards@ =~= Seq::<Card>::empty());
            assert(old(self).trick.cards@ =~= Seq::<Card>::empty());
            lemma_pick_up(
                stock.to_multiset(),
                face_up(old(self).candidate).to_multiset(),
                hands_cards(players0),
                hands_cards(players1),
                players0[taker as int].hand@.to_multiset(),
                players1[taker as int].hand@.to_multiset(),
                card,
                self.deck@.to_multiset(),
                hands_cards(self.players@),
            );
            lemma_together_front(
                stock.to_multiset(),
                face_up(old(self).candidate).to_multiset(),
                hands_cards(players0),
                self.deck@.to_multiset(),
                face_up(self.candidate).to_multiset(),
                hands_cards(self.players@),
                self.trick.cards@.to_multiset(),
                cards_in(self.tricks@).to_multiset(),
            );
            assert forall|s: int| 0 <= s < 4 implies #[trigger] self.hand(s) == old(self).hand(s)
                + (if s == taker {
                face_up(old(self).candidate)
            } else {
                Seq::empty()
            }) + closing_draw(stock, taker as int, s) by {
                assert(self.hand(s) =~= old(self).hand(s) + (if s == taker {
                    face_up(old(self).candidate)
                } else {
                    Seq::empty()
                }) + closing_draw(stock, taker as int, s));
            }
            assert forall|s: int| 0 <= s < 4 implies !self.has_played(s) by {}
        }
        Ok(())
    }

    /// Takes the answer of `seat` in the auction. A refused answer leaves
    /// the round as it was.
    pub fn bid(&mut self, seat: usize, bid: Bid) -> (r: Result<(), EngineError>)
        requires
            old(self).wf(),
        ensures
            final(self).wf(),
            match old(self).bid_outcome(seat, bid) {
                Ok(next) => r is Ok && final(self).bid_from(*old(self), next),
                Err(e) => r == Err::<(), EngineError>(e) && *final(self) == *old(self),
            },
    {
        let auction = match self.auction {
            Some(a) => a,
            None => {
                return Err(EngineError::OutOfTurn);
            },
        };
        let card = match self.candidate {
            Some(c) => c,
            None => {
                return Err(EngineError::OutOfTurn);
            },
        };
        let next = match auction.bid(self.dealer, card.color, seat, bid) {
            Ok(n) => n,
            Err(e) => {
                return Err(e);
            },
        };
        match next {
            Auction::Concluded(taker, trump) => {
                return self.conclude(taker, trump, card);
            },
            Auction::AwaitingPhase1(asked) => {
                self.current_player = Some(asked);
                self.auction = Some(next);
            },
            Auction::AwaitingPhase2(asked) => {
                self.current_player = Some(asked);
                self.auction = Some(next);
            },
            Auction::Redeal => {
                self.current_player = None;
                self.auction = Some(next);
            },
        }
        Ok(())
    }

    /// Takes the answer of `seat` to the face-up card: whether it accepts
    /// the card's suit as trump. Outside the first phase of the auction no
    /// such answer is awaited.
    pub fn wait_for_trump_first(&mut self, seat: usize, accept: bool) -> (r: Result<(), EngineError>)
        requires
            old(self).wf(),
        ensures
            final(self).wf(),
            ({
                let bid = if accept { Bid::Accept } else { Bid::Pass };
                if old(self).auction matches Some(Auction::AwaitingPhase1(_)) {
                    match old(self).bid_outcome(seat, bid) {
                        Ok(next) => r is Ok && final(self).bid_from(*old(self), next),
                        Err(e) => r == Err::<(), EngineError>(e) && *final(self) == *old(self),
                    }
                } else {
                    r == Err::<(), EngineError>(EngineError::OutOfTurn) && *final(self) == *old(self)
                }
            }),
    {
        match self.auction {
            Some(Auction::AwaitingPhase1(_)) => self.bid(
                seat,
                if accept { Bid::Accept } else { Bid::Pass },
            ),
            _ => Err(EngineError::OutOfTurn),
        }
    }

    /// Takes the answer of `seat` in the second phase of the auction: the
    /// suit it names as trump, or `None` for a pass. Outside the second
    /// phase no such answer is awaited.
    pub fn wait_for_trump_second(&mut self, seat: usize, choice: Option<Color>) -> (r: Result<
        (),
        EngineError,
    >)
        requires
            old(self).wf(),
        ensures
            final(self).wf(),
            ({
                let bid = match choice {
                    Some(color) => Bid::Name(color),
                    None => Bid::Pass,
                };
                if old(self).auction matches Some(Auction::AwaitingPhase2(_)) {
                    match old(self).bid_outcome(seat, bid) {
                        Ok(next) => r is Ok && final(self).bid_from(*old(self), next),
                        Err(e) => r == Err::<(), EngineError>(e) && *final(self) == *old(self),
                    }
                } else {
                    r == Err::<(), EngineError>(EngineError::OutOfTurn) && *final(self) == *old(self)
                }
            }),
    {
        match self.auction {
            Some(Auction::AwaitingPhase2(_)) => self.bid(
                seat,
                match choice {
                    Some(color) => Bid::Name(color),
                    None => Bid::Pass,
                },
            ),
            _ => Err(EngineError::OutOfTurn),
        }
    }

    /// A card is awaited from `seat`.
    pub open spec fn awaits_play_from(&self, seat: usize) -> bool {
        self.is_playing() && self.current_player == Some(seat)
    }

    /// The cards that `seat` may play on the trick as it lies.
    pub open spec fn legal_plays(&self, seat: usize) -> Seq<Card> {
        legal_cards(self.hand(seat as int), self.trick.cards@, self.trump_color->0)
    }

    /// Where the cards lie after `seat` has played `card`, given the round
    /// `before` the play.
    ///
    /// The card leaves the hand of the seat for the table. The fourth card
    /// ends the trick: it joins the tricks played, and a new trick is opened
    /// with the seat that took it as leader.
    pub open spec fn moved_from(&self, before: Round, seat: usize, card: Card) -> bool {
        let table = before.trick.cards@.push(card);
        let trump = before.trump_color->0;
        &&& self.current == before.current
        &&& self.dealer == before.dealer
        &&& self.auction == before.auction
        &&& self.taker == before.taker
        &&& self.trump_color == before.trump_color
        &&& self.candidate == before.candidate
        &&& self.deck == before.deck
        &&& self.players@.len() == 4
        &&& forall|s: int|
            0 <= s < 4 && s != seat ==> (#[trigger] self.players@[s]) == before.players@[s]
        &&& self.players@[seat as int].name == before.players@[seat as int].name
        &&& self.hand(seat as int) == before.hand(seat as int).remove_value(card)
        &&& if table.len() < 4 {
            &&& self.trick.leader == before.trick.leader
            &&& self.trick.cards@ == table
            &&& self.tricks@ == before.tricks@
        } else {
            &&& self.tricks@.len() == before.tricks@.len() + 1
            &&& self.tricks@.drop_last() == before.tricks@
            &&& self.tricks@.last().leader == before.trick.leader
            &&& self.tricks@.last().cards@ == table
            &&& self.trick.leader == self.tricks@.last().winning_seat(trump)
            &&& self.trick.cards@.len() == 0
        }
    }

    /// The state that the play of `card` by `seat` leaves, given the round
    /// `before` it: the cards lie as [`Round::moved_from`] says. While the
    /// trick is short of four cards the seat to the left plays next. After
    /// the fourth the seat that took the trick leads the next one, or, at
    /// the eighth trick, is kept as the last leader while the round is
    /// scored.
    pub open spec fn played_from(&self, before: Round, seat: usize, card: Card) -> bool {
        &&& self.moved_from(before, seat, card)
        &&& if before.trick.cards@.len() < 3 {
            &&& self.current_player == Some(left_of(seat))
            &&& self.points == before.points
        } else if self.tricks@.len() < 8 {
            &&& self.current_player == Some(self.trick.leader)
            &&& self.points == before.points
        } else {
            &&& self.current_player is None
            &&& (self.points.0 as int, self.points.1 as int) == self.score(
                before.taker->0,
                before.trump_color->0,
            )
        }
    }

    /// A play keeps every card of the pack in exactly one place.
    proof fn lemma_moved_cards(before: Round, after: Round, seat: usize, card: Card)
        requires
            before.wf(),
            before.awaits_play_from(seat),
            before.hand(seat as int).contains(card),
            after.moved_from(before, seat, card),
        ensures
            after.cards() == fresh_deck().to_multiset(),
    {
        let hand0 = before.hand(seat as int);
        let hand1 = after.hand(seat as int);
        let table = before.trick.cards@.push(card);
        hand0.index_of_first_ensures(card);
        let at = hand0.index_of_first(card)->0;
        assert(hand0 =~= hand1.insert(at, card));
        to_multiset_insert(hand1, at, card);
        to_multiset_build(before.trick.cards@, card);
        assert(after.players@ =~= before.players@.update(seat as int, after.players@[seat as int]));
        lemma_hands_update(before.players@, seat as int, after.players@[seat as int]);
        lemma_play_moves(
            hands_cards(before.players@),
            hands_cards(after.players@),
            hand0.to_multiset(),
            hand1.to_multiset(),
            card,
            before.trick.cards@.to_multiset(),
            table.to_multiset(),
            cards_in(before.tricks@).to_multiset(),
        );
        if table.len() >= 4 {
            lemma_empty_pile();
            assert(after.trick.cards@ =~= Seq::<Card>::empty());
            assert(cards_in(after.tricks@) == cards_in(before.tricks@) + table);
            lemma_multiset_commutative(cards_in(before.tricks@), table);
        }
        lemma_together_back(
            before.deck@.to_multiset(),
            face_up(before.candidate).to_multiset(),
            hands_cards(before.players@),
            before.trick.cards@.to_multiset(),
            cards_in(before.tricks@).to_multiset(),
            hands_cards(after.players@),
            after.trick.cards@.to_multiset(),
            cards_in(after.tricks@).to_multiset(),
        );
    }

    /// A play keeps the tricks complete and in order: each is led by the
    /// seat that took the one before.
    proof fn lemma_moved_order(before: Round, after: Round, seat: usize, card: Card)
        requires
            before.wf(),
            before.awaits_play_from(seat),
            after.moved_from(before, seat, card),
        ensures
            after.trick.wf(),
            after.tricks@.len() <= 8,
            after.leaders_follow(before.trump_color->0),
            forall|i: int|
                0 <= i < after.tricks@.len() ==> (#[trigger] after.tricks@[i]).leader < 4
                    && after.tricks@[i].cards@.len() == 4,
    {
        let trump = before.trump_color->0;
        if before.trick.cards@.len() == 3 {
            assert forall|i: int| 0 <= i < after.tricks@.len() implies (
            #[trigger] after.tricks@[i]).leader < 4 && after.tricks@[i].cards@.len() == 4 by {
                if i < before.tricks@.len() {
                    assert(after.tricks@[i] == after.tricks@.drop_last()[i]);
                }
            }
            assert forall|i: int| 0 <= i < after.tricks@.len() - 1 implies (
            #[trigger] after.tricks@[i + 1]).leader == after.tricks@[i].winning_seat(trump) by {
                assert(after.tricks@[i] == after.tricks@.drop_last()[i]);
                if i + 1 < before.tricks@.len() {
                    assert(after.tricks@[i + 1] == after.tricks@.drop_last()[i + 1]);
                }
            }
            if before.tricks@.len() > 0 {
                assert(after.tricks@[0] == after.tricks@.drop_last()[0]);
            }
        }
    }

    /// A play keeps the hands at their sizes: eight cards less one for each
    /// trick that the seat has played on.
    proof fn lemma_moved_sizes(before: Round, after: Round, seat: usize, card: Card)
        requires
            before.wf(),
            before.awaits_play_from(seat),
            before.hand(seat as int).contains(card),
            after.moved_from(before, seat, card),
        ensures
            forall|s: int|
                0 <= s < 4 ==> (#[trigger] after.players@[s]).hand@.len() == 8 - after.tricks@.len()
                    - if after.has_played(s) {
                    1int
                } else {
                    0int
                },
    {
        let leader = before.trick.leader as int;
        let lying = before.trick.cards@.len() as int;
        before.hand(seat as int).index_of_first_ensures(card);
        assert(seat == (leader + lying) % 4);
        assert(after.players@[seat as int].hand@.len() == before.players@[seat as int].hand@.len()
            - 1);
        assert forall|s: int| 0 <= s < 4 implies (#[trigger] after.players@[s]).hand@.len() == 8
            - after.tricks@.len() - if after.has_played(s) {
            1int
        } else {
            0int
        } by {
            let place = (s + 4 - leader) % 4;
            assert(before.has_played(s) <==> place < lying);
            assert(s == seat <==> place == lying);
            if lying < 3 {
                assert(after.has_played(s) <==> place < lying + 1);
            } else {
                assert(!after.has_played(s));
            }
            if s != seat {
                assert(after.players@[s] == before.players@[s]);
            }
        }
    }

    /// Moves `card` from the hand of `seat` to the table and, where the
    /// trick is then complete, the trick to the tricks played.
    fn move_card(&mut self, seat: usize, card: Card, trump: Color)
        requires
            old(self).players@.len() == 4,
            seat < 4,
            old(self).trick.leader < 4,
            old(self).trick.cards@.len() < 4,
            old(self).trump_color == Some(trump),
        ensures
            final(self).moved_from(*old(self), seat, card),
            final(self).current_player == old(self).current_player,
            final(self).points == old(self).points,
    {
        let ghost players0 = self.players@;
        remove_card(&mut self.players[seat].hand, card);
        self.trick.cards.push(card);
        proof {
            assert(self.players@ =~= players0.update(seat as int, self.players@[seat as int]));
        }
        if self.trick.cards.len() == 4 {
            let winner = self.trick.winner(trump);
            let mut done = Trick::new(winner);
            std::mem::swap(&mut self.trick, &mut done);
            self.tricks.push(done);
            proof {
                assert(self.tricks@.drop_last() =~= old(self).tricks@);
            }
        }
    }

    /// The eighth trick is played: between them the teams hold the points of
    /// the whole pack.
    proof fn lemma_moved_total(before: Round, after: Round, seat: usize, card: Card)
        requires
            before.wf(),
            before.awaits_play_from(seat),
            before.hand(seat as int).contains(card),
            after.moved_from(before, seat, card),
            after.tricks@.len() == 8,
        ensures
            0 <= team_cards(after.tricks@, before.trump_color->0, 0) <= 152,
            0 <= team_cards(after.tricks@, before.trump_color->0, 1) <= 152,
    {
        let trump = before.trump_color->0;
        Round::lemma_moved_cards(before, after, seat, card);
        Round::lemma_moved_sizes(before, after, seat, card);
        assert forall|s: int| 0 <= s < 4 implies (#[trigger] after.players@[s]).hand@.len()
            == 0 by {
            assert(!after.has_played(s));
        }
        after.lemma_all_played(trump);
        lemma_teams_share(after.tricks@, trump);
    }

    /// A play that the round accepts leaves a round that is in order.
    proof fn lemma_played_wf(before: Round, after: Round, seat: usize, card: Card)
        requires
            before.wf(),
            before.awaits_play_from(seat),
            before.hand(seat as int).contains(card),
            after.played_from(before, seat, card),
        ensures
            after.wf(),
    {
        Round::lemma_moved_cards(before, after, seat, card);
        Round::lemma_moved_order(before, after, seat, card);
        Round::lemma_moved_sizes(before, after, seat, card);
        let leader = before.trick.leader as int;
        let lying = before.trick.cards@.len() as int;
        assert(seat == (leader + lying) % 4);
        if lying < 3 {
            assert(left_of(seat) == (leader + lying + 1) % 4);
            assert(after.trick.seat_at(after.trick.cards@.len() as int) == left_of(seat));
        } else {
            assert(after.trick.seat_at(0) == after.trick.leader);
        }
        assert(after.wf_playing(before.taker->0, before.trump_color->0));
    }

    /// Says whose turn it is after a play, and scores the round after the
    /// last one.
    fn pass_turn(&mut self, seat: usize, ends_trick: bool, taker: usize, trump: Color)
        requires
            old(self).tricks@.len() <= 8,
            forall|i: int|
                0 <= i < old(self).tricks@.len() ==> (#[trigger] old(self).tricks@[i]).leader < 4
                    && old(self).tricks@[i].cards@.len() == 4,
            old(self).tricks@.len() == 8 ==> team_cards(old(self).tricks@, trump, 0) <= 152
                && team_cards(old(self).tricks@, trump, 1) <= 152,
        ensures
            *final(self) == (Round {
                current_player: final(self).current_player,
                points: final(self).points,
                ..*old(self)
            }),
            if !ends_trick {
                &&& final(self).current_player == Some(left_of(seat))
                &&& final(self).points == old(self).points
            } else if old(self).tricks@.len() < 8 {
                &&& final(self).current_player == Some(old(self).trick.leader)
                &&& final(self).points == old(self).points
            } else {
                &&& final(self).current_player is None
                &&& (final(self).points.0 as int, final(self).points.1 as int) == old(self).score(
                    taker,
                    trump,
                )
            },
    {
        if !ends_trick {
            self.current_player = Some(seat_left_of(seat));
        } else if self.tricks.len() < TRICKS {
            self.current_player = Some(self.trick.leader);
        } else {
            self.current_player = None;
            let (a, b, n) = tally(&self.tricks, trump);
            self.points = score_round(a as u8, b as u8, n, self.trick.leader % 2, taker % 2);
        }
    }

    /// Plays `card` from the hand of `seat` on the trick in progress.
    ///
    /// Out of turn where no card is awaited from that seat; illegal, with
    /// the cards that would have been legal, where the seat may not play the
    /// card. A refused play leaves the round as it was.
    pub fn play_round(&mut self, seat: usize, card: Card) -> (r: Result<(), EngineError>)
        requires
            old(self).wf(),
        ensures
            final(self).wf(),
            !old(self).awaits_play_from(seat) ==> r == Err::<(), EngineError>(
                EngineError::OutOfTurn,
            ) && *final(self) == *old(self),
            old(self).awaits_play_from(seat) && !old(self).legal_plays(seat).contains(card) ==> (r
                matches Err(EngineError::IllegalPlay { card: refused, legal }) && refused == card
                && legal@ == old(self).legal_plays(seat)) && *final(self) == *old(self),
            old(self).awaits_play_from(seat) && old(self).legal_plays(seat).contains(card) ==> r is Ok
                && final(self).played_from(*old(self), seat, card),
    {
        let (taker, trump) = match self.auction {
            Some(Auction::Concluded(taker, trump)) => (taker, trump),
            _ => {
                return Err(EngineError::OutOfTurn);
            },
        };
        if self.tricks.len() >= TRICKS || self.current_player != Some(seat) {
            return Err(EngineError::OutOfTurn);
        }
        let legal = legal_set(&self.players[seat].hand, &self.trick.cards, trump);
        if find_card(&legal, card).is_none() {
            return Err(EngineError::IllegalPlay { card, legal });
        }
        proof {
            lemma_legal_cards(self.hand(seat as int), self.trick.cards@, trump, card);
        }
        let ends_trick = self.trick.cards.len() == 3;
        self.move_card(seat, card, trump);
        proof {
            Round::lemma_moved_order(*old(self), *self, seat, card);
            if self.tricks@.len() == 8 {
                Round::lemma_moved_total(*old(self), *self, seat, card);
            }
        }
        self.pass_turn(seat, ends_trick, taker, trump);
        proof {
            Round::lemma_played_wf(*old(self), *self, seat, card);
        }
        Ok(())
    }

    /// Before the deal every card is in the deck.
    proof fn lemma_all_in_deck(&self)
        requires
            self.players@.len() == 4,
            forall|s: int| 0 <= s < 4 ==> (#[trigger] self.players@[s]).hand@.len() == 0,
            self.candidate is None,
            self.trick.cards@.len() == 0,
            self.tricks@.len() == 0,
        ensures
            self.cards() == self.deck@.to_multiset(),
    {
        lemma_empty_pile();
        lemma_no_cards_held(self.players@);
        assert(face_up(self.candidate) =~= Seq::<Card>::empty());
        assert(self.trick.cards@ =~= Seq::<Card>::empty());
        assert(cards_in(self.tricks@) =~= Seq::<Card>::empty());
        lemma_together_one(self.deck@.to_multiset());
    }

    /// Once the hands are played out every card lies in a played trick, so
    /// the tricks hold the points of the whole pack.
    proof fn lemma_all_played(&self, trump: Color)
        requires
            self.cards() == fresh_deck().to_multiset(),
            self.deck@.len() == 0,
            self.candidate is None,
            self.players@.len() == 4,
            forall|s: int| 0 <= s < 4 ==> (#[trigger] self.players@[s]).hand@.len() == 0,
            self.trick.cards@.len() == 0,
        ensures
            is_pack(cards_in(self.tricks@)),
            points_of(cards_in(self.tricks@), trump) == 152,
    {
        lemma_empty_pile();
        lemma_no_cards_held(self.players@);
        assert(self.deck@ =~= Seq::<Card>::empty());
        assert(face_up(self.candidate) =~= Seq::<Card>::empty());
        assert(self.trick.cards@ =~= Seq::<Card>::empty());
        lemma_together_one(cards_in(self.tricks@).to_multiset());
        lemma_pack_points(cards_in(self.tricks@), trump);
    }

    /// The round as it stands after the deal by `dealer` of a fresh deck
    /// shuffled with `seed`, `count` rounds having been played before.
    pub open spec fn dealt_with(&self, seed: u64, dealer: usize, count: u32) -> bool {
        let pile = shuffled(seed, fresh_deck());
        &&& self.current == count + 1
        &&& self.dealer == dealer
        &&& self.auction == Some(Auction::opening(dealer))
        &&& self.candidate == Some(pile[11])
        &&& self.deck@ == pile.take(11)
        &&& forall|s: int| 0 <= s < 4 ==> #[trigger] self.hand(s) == opening_hand(pile, s)
    }

    /// What the round came to, as far as it has come.
    pub open spec fn outcome(&self) -> RoundSummary {
        RoundSummary {
            index: self.current,
            dealer: self.dealer,
            redeal: self.is_redeal(),
            taker: self.taker,
            trump: self.trump_color,
            points: self.points,
            leader: self.trick.leader,
        }
    }

    /// What the round came to, as far as it has come.
    pub fn summary(&self) -> (s: RoundSummary)
        ensures
            s == self.outcome(),
    {
        RoundSummary {
            index: self.current,
            dealer: self.dealer,
            redeal: match self.auction {
                Some(Auction::Redeal) => true,
                _ => false,
            },
            taker: self.taker,
            trump: self.trump_color,
            points: self.points,
            leader: self.trick.leader,
        }
    }

    /// The cards that the seat whose turn it is may play; none while no card
    /// is awaited.
    pub fn legal_moves(&self) -> (legal: Vec<Card>)
        requires
            self.wf(),
        ensures
            legal@ == if self.is_playing() {
                self.legal_plays(self.current_player->0)
            } else {
                Seq::empty()
            },
    {
        match (self.auction, self.current_player) {
            (Some(Auction::Concluded(_, trump)), Some(seat)) => legal_set(
                &self.players[seat].hand,
                &self.trick.cards,
                trump,
            ),
            _ => Vec::new(),
        }
    }

    /// The cards that `seat` holds, where it is a seat.
    pub fn hand_of(&self, seat: usize) -> (hand: Option<&Vec<Card>>)
        ensures
            hand == if seat < self.players@.len() {
                Some(&self.players@[seat as int].hand)
            } else {
                None
            },
    {
        if seat < self.players.len() {
            Some(&self.players[seat].hand)
        } else {
            None
        }
    }

    /// The score of a round: nothing until the eighth trick is played, and
    /// from then on 162 points between the two teams, or 250 after a capot.
    pub proof fn lemma_round_total(&self)
        requires
            self.wf(),
        ensures
            0 <= self.points.0 <= 250,
            0 <= self.points.1 <= 250,
            !self.is_scored() ==> self.points.0 + self.points.1 == 0,
            self.is_scored() ==> self.points.0 + self.points.1 == 162 || self.points.0
                + self.points.1 == 250,
    {
        if self.is_scored() {
            let trump = self.trump_color->0;
            assert forall|s: int| 0 <= s < 4 implies (#[trigger] self.players@[s]).hand@.len()
                == 0 by {
                assert(!self.has_played(s));
            }
            self.lemma_all_played(trump);
            lemma_teams_share(self.tricks@, trump);
        }
    }

    /// A taker and a trump suit come together: both are set from the moment
    /// a seat takes, and neither before.
    pub proof fn lemma_taker_and_trump(&self)
        requires
            self.wf(),
        ensures
            self.taker is Some <==> self.trump_color is Some,
            self.taker is Some <==> self.auction matches Some(Auction::Concluded(_, _)),
            self.auction matches Some(Auction::Concluded(taker, trump)) ==> self.taker == Some(taker)
                && self.trump_color == Some(trump),
    {
    }

    /// Every card of the pack lies in exactly one place: no card is in two
    /// hands, or in a hand and a trick, or twice in the tricks.
    pub proof fn lemma_each_card_once(&self, card: Card)
        requires
            self.wf(),
        ensures
            self.cards().count(card) == 1,
    {
        lemma_fresh_deck_index();
        fresh_deck().lemma_multiset_has_no_duplicates();
        to_multiset_contains(fresh_deck(), card);
    }

    /// Each trick is led by the seat that took the trick before it; the
    /// seat that took the last trick played leads the trick in progress and,
    /// once the round is over, is the leader that the summary records.
    pub proof fn lemma_winner_leads(&self, i: int)
        requires
            self.wf(),
            self.auction matches Some(Auction::Concluded(_, _)),
            0 <= i < self.tricks@.len(),
        ensures
            i + 1 < self.tricks@.len() ==> self.tricks@[i + 1].leader == self.tricks@[i].winning_seat(
                self.trump_color->0,
            ),
            i + 1 == self.tricks@.len() ==> self.trick.leader == self.tricks@[i].winning_seat(
                self.trump_color->0,
            ) && self.outcome().leader == self.tricks@[i].winning_seat(self.trump_color->0),
    {
    }

    /// The thirty-two cards are always all there: in the deck, face up, in
    /// the hands, on the table, or four to each trick played. Between
    /// tricks the hands and the tricks played account for all of them, and
    /// after eight tricks the hands are empty.
    pub proof fn lemma_card_count(&self)
        requires
            self.wf(),
        ensures
            self.deck@.len() + face_up(self.candidate).len() + self.hand(0).len() + self.hand(1).len()
                + self.hand(2).len() + self.hand(3).len() + self.trick.cards@.len() + 4
                * self.tricks@.len() == 32,
            self.auction matches Some(Auction::Concluded(_, _)) && self.trick.cards@.len() == 0
                ==> self.hand(0).len() + self.hand(1).len() + self.hand(2).len() + self.hand(
                3,
            ).len() + 4 * self.tricks@.len() == 32,
            self.is_scored() ==> self.hand(0).len() + self.hand(1).len() + self.hand(2).len()
                + self.hand(3).len() == 0,
    {
        assert(self.players@[0].hand@.len() == self.hand(0).len());
        assert(self.players@[1].hand@.len() == self.hand(1).len());
        assert(self.players@[2].hand@.len() == self.hand(2).len());
        assert(self.players@[3].hand@.len() == self.hand(3).len());
        match self.auction {
            None => {
                self.lemma_all_in_deck();
                lemma_pack_is_distinct(self.deck@);
            },
            Some(Auction::Concluded(_, _)) => {
                let played = |s: int| if self.has_played(s) { 1int } else { 0int };
                assert(played(0) + played(1) + played(2) + played(3) == self.trick.cards@.len());
            },
            _ => {},
        }
    }
}

/// A fixed seed fixes the deal: two rounds dealt from decks shuffled with
/// the same seed give every seat the same hand, show the same card and
/// leave the same deck.
pub proof fn lemma_same_seed_same_deal(
    a: Round,
    b: Round,
    seed: u64,
    dealer_a: usize,
    dealer_b: usize,
    count_a: u32,
    count_b: u32,
)
    requires
        a.dealt_with(seed, dealer_a, count_a),
        b.dealt_with(seed, dealer_b, count_b),
    ensures
        forall|s: int| 0 <= s < 4 ==> #[trigger] a.hand(s) == b.hand(s),
        a.candidate == b.candidate,
        a.deck@ == b.deck@,
{
}

} // verus!
