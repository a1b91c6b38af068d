use crate::card::{Card, Color};
use crate::hand::{holds_color, lemma_top_trump, top_trump};
use crate::scoring::{lemma_points_bounds, lemma_points_concat, lemma_points_push, points_of, team_of};
use vstd::prelude::*;

verus! {

/// One trick: the seat that led it and the cards played, in the order of
/// play. The card at position `k` was played by the seat `k` places after
/// the leader.
#[derive(Debug, Clone)]
pub struct Trick {
    pub leader: usize,
    pub cards: Vec<Card>,
}

/// How strongly a card contends for a trick led in the suit `lead`: a trump
/// above every other card, by its trump order; a card of the led suit by its
/// plain order; a card of any other suit not at all.
pub open spec fn strength(card: Card, lead: Color, trump: Color) -> int {
    if card.color == trump {
        8 + card.rank.trump_order()
    } else if card.color == lead {
        card.rank.plain_order()
    } else {
        -1
    }
}

/// The position of the card that takes the trick: the strongest one, and the
/// earliest of these should two be equally strong.
pub open spec fn winner_index(played: Seq<Card>, trump: Color) -> int
    decreases played.len(),
{
    if played.len() <= 1 {
        0
    } else {
        let w = winner_index(played.drop_last(), trump);
        if strength(played.last(), played[0].color, trump) > strength(
            played[w],
            played[0].color,
            trump,
        ) {
            played.len() - 1
        } else {
            w
        }
    }
}

/// The winner is a card that was played and no card in the trick is stronger.
/// So where a trump was played the highest trump wins, and otherwise the
/// highest card of the led suit.
pub proof fn lemma_winner_index(played: Seq<Card>, trump: Color)
    requires
        played.len() > 0,
    ensures
        0 <= winner_index(played, trump) < played.len(),
        forall|i: int|
            0 <= i < played.len() ==> strength(#[trigger] played[i], played[0].color, trump)
                <= strength(played[winner_index(played, trump)], played[0].color, trump),
        holds_color(played, trump) ==> played[winner_index(played, trump)].color == trump
            && played[winner_index(played, trump)].rank.trump_order() == top_trump(played, trump),
        !holds_color(played, trump) ==> played[winner_index(played, trump)].color
            == played[0].color,
    decreases played.len(),
{
    let lead = played[0].color;
    let w = winner_index(played, trump);
    if played.len() > 1 {
        let rest = played.drop_last();
        lemma_winner_index(rest, trump);
        assert(rest[0] == played[0]);
        assert forall|i: int| 0 <= i < played.len() implies strength(
            #[trigger] played[i],
            lead,
            trump,
        ) <= strength(played[w], lead, trump) by {
            if i < played.len() - 1 {
                assert(rest[i] == played[i]);
            }
        }
    }
    lemma_top_trump(played, trump);
    if holds_color(played, trump) {
        let i = choose|i: int| 0 <= i < played.len() && (#[trigger] played[i]).color == trump;
        assert(strength(played[i], lead, trump) <= strength(played[w], lead, trump));
        assert(played[w].color == trump);
        let j = choose|j: int|
            0 <= j < played.len() && (#[trigger] played[j]).color == trump
                && played[j].rank.trump_order() == top_trump(played, trump);
        assert(strength(played[j], lead, trump) <= strength(played[w], lead, trump));
    } else {
        assert(strength(played[0], lead, trump) <= strength(played[w], lead, trump));
    }
}

impl Trick {
    /// The leader is a seat and at most four cards were played.
    pub open spec fn wf(&self) -> bool {
        &&& self.leader < 4
        &&& self.cards@.len() <= 4
    }

    /// The seat that played, or is to play, at position `k`.
    pub open spec fn seat_at(&self, k: int) -> int {
        (self.leader + k) % 4
    }

    /// The seat that takes the trick.
    pub open spec fn winning_seat(&self, trump: Color) -> int {
        self.seat_at(winner_index(self.cards@, trump))
    }

    /// The card points in the trick.
    pub open spec fn points(&self, trump: Color) -> int {
        points_of(self.cards@, trump)
    }

    /// An empty trick that `leader` is to open.
    pub fn new(leader: usize) -> (t: Trick)
        ensures
            t.leader == leader,
            t.cards@.len() == 0,
    {
        Trick { leader, cards: Vec::new() }
    }

    /// The suit that was led, once a card lies.
    pub fn leading_color(&self) -> (c: Option<Color>)
        ensures
            c == if self.cards@.len() > 0 {
                Some(self.cards@[0].color)
            } else {
                None
            },
    {
        if self.cards.len() > 0 {
            Some(self.cards[0].color)
        } else {
            None
        }
    }

    /// The seat whose turn it is to play on this trick.
    pub fn next_seat(&self) -> (s: usize)
        requires
            self.wf(),
        ensures
            s == self.seat_at(self.cards@.len() as int),
            s < 4,
    {
        (self.leader + self.cards.len()) % 4
    }

    /// The seat that takes the trick as it lies.
    pub fn winner(&self, trump: Color) -> (s: usize)
        requires
            self.wf(),
            self.cards@.len() > 0,
        ensures
            s == self.winning_seat(trump),
            s < 4,
    {
        let lead = self.cards[0].color;
        let mut w: usize = 0;
        let mut best: i8 = card_strength(self.cards[0], lead, trump);
        let mut i: usize = 1;
        while i < self.cards.len()
            invariant
                1 <= i <= self.cards@.len(),
                lead == self.cards@[0].color,
                w == winner_index(self.cards@.take(i as int), trump),
                0 <= w < i,
                best == strength(self.cards@[w as int], lead, trump),
            decreases self.cards@.len() - i,
        {
            proof {
                assert(self.cards@.take(i + 1).drop_last() =~= self.cards@.take(i as int));
            }
            let s = card_strength(self.cards[i], lead, trump);
            if s > best {
                w = i;
                best = s;
            }
            i += 1;
        }
        proof {
            assert(self.cards@.take(self.cards@.len() as int) =~= self.cards@);
        }
        (self.leader + w) % 4
    }

    /// The card points in the trick.
    pub fn count_points(&self, trump: Color) -> (p: u8)
        requires
            self.wf(),
        ensures
            p == self.points(trump),
    {
        let mut p: u8 = 0;
        let mut i: usize = 0;
        while i < self.cards.len()
            invariant
                i <= self.cards@.len() <= 4,
                p == points_of(self.cards@.take(i as int), trump),
                p <= 20 * i,
            decreases self.cards@.len() - i,
        {
            proof {
                assert(self.cards@.take(i + 1) =~= self.cards@.take(i as int).push(
                    self.cards@[i as int],
                ));
                lemma_points_push(self.cards@.take(i as int), self.cards@[i as int], trump);
            }
            p = p + self.cards[i].get_value(trump) as u8;
            i += 1;
        }
        proof {
            assert(self.cards@.take(self.cards@.len() as int) =~= self.cards@);
        }
        p
    }
}

fn card_strength(card: Card, lead: Color, trump: Color) -> (s: i8)
    ensures
        s == strength(card, lead, trump),
{
    if card.color == trump {
        8 + card.rank.order(true) as i8
    } else if card.color == lead {
        card.rank.order(false) as i8
    } else {
        -1
    }
}

/// The cards of the tricks, one trick after the other.
pub open spec fn cards_in(tricks: Seq<Trick>) -> Seq<Card>
    decreases tricks.len(),
{
    if tricks.len() == 0 {
        Seq::empty()
    } else {
        cards_in(tricks.drop_last()) + tricks.last().cards@
    }
}

/// The card points in the tricks that `team` took.
pub open spec fn team_cards(tricks: Seq<Trick>, trump: Color, team: int) -> int
    decreases tricks.len(),
{
    if tricks.len() == 0 {
        0
    } else {
        team_cards(tricks.drop_last(), trump, team) + if team_of(
            tricks.last().winning_seat(trump),
        ) == team {
            tricks.last().points(trump)
        } else {
            0
        }
    }
}

/// The number of tricks that `team` took.
pub open spec fn team_tricks(tricks: Seq<Trick>, trump: Color, team: int) -> int
    decreases tricks.len(),
{
    if tricks.len() == 0 {
        0
    } else {
        team_tricks(tricks.drop_last(), trump, team) + if team_of(
            tricks.last().winning_seat(trump),
        ) == team {
            1int
        } else {
            0int
        }
    }
}

/// Every trick goes to one of the two teams, so between them the teams hold
/// the points of all the cards played, and as many tricks as were played.
pub proof fn lemma_teams_share(tricks: Seq<Trick>, trump: Color)
    ensures
        team_cards(tricks, trump, 0) + team_cards(tricks, trump, 1) == points_of(
            cards_in(tricks),
            trump,
        ),
        team_tricks(tricks, trump, 0) + team_tricks(tricks, trump, 1) == tricks.len(),
        0 <= team_cards(tricks, trump, 0),
        0 <= team_cards(tricks, trump, 1),
        0 <= team_tricks(tricks, trump, 0),
        0 <= team_tricks(tricks, trump, 1),
    decreases tricks.len(),
{
    if tricks.len() == 0 {
    } else {
        let rest = tricks.drop_last();
        let last = tricks.last();
        lemma_teams_share(rest, trump);
        lemma_points_concat(cards_in(rest), last.cards@, trump);
        lemma_points_bounds(last.cards@, trump);
    }
}

} // verus!
