use crate::card::{concat, Card, Color};
use crate::deck::Deck;
use crate::error::EngineError;
use vstd::prelude::*;
use vstd::seq_lib::*;

verus! {

/// The `n` cards that leave the pile `pile`, top first, once `skip` cards
/// have been taken from it.
pub open spec fn drawn(pile: Seq<Card>, skip: int, n: int) -> Seq<Card> {
    Seq::new(n as nat, |j: int| pile[pile.len() - 1 - skip - j])
}

/// A seat at the table: who sits there and the cards held.
#[derive(Clone, Debug)]
pub struct Player {
    pub name: String,
    pub hand: Vec<Card>,
}

/// A partnership and its match total.
#[derive(Clone, Debug)]
pub struct Team {
    pub players: Vec<Player>,
    pub points: i32,
}

impl Default for Team {
    fn default() -> (t: Team)
        ensures
            t.players@.len() == 0,
            t.points == 0,
    {
        Team { players: Vec::new(), points: 0 }
    }
}

impl Team {
    /// A team of the given players that has not scored yet.
    pub fn new(players: Vec<Player>) -> (t: Team)
        ensures
            t.players == players,
            t.points == 0,
    {
        Team { players, points: 0 }
    }
}

impl Player {
    /// The first line of a shown hand.
    pub open spec fn hand_title(&self) -> Seq<char> {
        self.name@ + "'s hand:"@
    }

    /// A player of that name with an empty hand.
    pub fn new(name: &str) -> (p: Player)
        ensures
            p.name@ == name@,
            p.hand@.len() == 0,
    {
        Player { name: name.to_owned(), hand: Vec::new() }
    }

    /// Draws `x` cards from the top of the deck into the hand, one at a
    /// time. A deck that holds fewer gives a fault and nothing is drawn; a
    /// count below one draws nothing.
    pub fn draw_n(&mut self, deck: &mut Deck, x: i8) -> (r: Result<(), EngineError>)
        ensures
            final(self).name == old(self).name,
            x > old(deck)@.len() ==> r == Err::<(), EngineError>(EngineError::EngineFault)
                && final(self).hand@ == old(self).hand@ && final(deck)@ == old(deck)@,
            x <= old(deck)@.len() ==> r == Ok::<(), EngineError>(()) && ({
                let n = if x > 0 { x as int } else { 0 };
                &&& final(self).hand@ == old(self).hand@ + drawn(old(deck)@, 0, n)
                &&& final(deck)@ == old(deck)@.take(old(deck)@.len() - n)
                &&& final(deck)@.to_multiset().add(final(self).hand@.to_multiset()) == old(
                    deck,
                )@.to_multiset().add(old(self).hand@.to_multiset())
            }),
    {
        let n: usize = if x > 0 { x as usize } else { 0 };
        if n > deck.len() {
            return Err(EngineError::EngineFault);
        }
        let mut i: usize = 0;
        while i < n
            invariant
                i <= n <= old(deck)@.len(),
                self.name == old(self).name,
                self.hand@ == old(self).hand@ + drawn(old(deck)@, 0, i as int),
                deck@ == old(deck)@.take(old(deck)@.len() - i),
                deck@.to_multiset().add(self.hand@.to_multiset()) == old(deck)@.to_multiset().add(
                    old(self).hand@.to_multiset(),
                ),
            decreases n - i,
        {
            let ghost pile = deck@;
            let ghost hand = self.hand@;
            match deck.draw() {
                Ok(card) => {
                    self.hand.push(card);
                    proof {
                        broadcast use group_to_multiset_ensures;

                        assert(pile =~= deck@.push(card));
                        assert(self.hand@ =~= old(self).hand@ + drawn(old(deck)@, 0, i + 1));
                        assert(deck@ =~= old(deck)@.take(old(deck)@.len() - (i + 1)));
                        assert(deck@.to_multiset().add(self.hand@.to_multiset())
                            =~= pile.to_multiset().add(hand.to_multiset()));
                    }
                },
                Err(e) => {
                    return Err(e);
                },
            }
            i += 1;
        }
        Ok(())
    }

    /// The hand as lines of text: a title, then one line for each card.
    pub fn display_hand(&self) -> (lines: Vec<String>)
        ensures
            lines@.len() == self.hand@.len() + 1,
            lines@[0]@ == self.hand_title(),
            forall|i: int|
                0 <= i < self.hand@.len() ==> (#[trigger] lines@[i + 1])@ == self.hand@[i].label(),
    {
        let mut lines: Vec<String> = Vec::new();
        lines.push(concat(self.name.as_str(), "'s hand:"));
        let mut i: usize = 0;
        while i < self.hand.len()
            invariant
                i <= self.hand@.len(),
                lines@.len() == i + 1,
                lines@[0]@ == self.hand_title(),
                forall|k: int| 0 <= k < i ==> (#[trigger] lines@[k + 1])@ == self.hand@[k].label(),
            decreases self.hand@.len() - i,
        {
            lines.push(self.hand[i].display());
            i += 1;
        }
        lines
    }

    /// The suit that the house names when `card` lies face up: spades, or
    /// hearts where the card is a spade, so never the suit of the card.
    pub open spec fn named_suit(card: Card) -> Color {
        if card.color == Color::Spades {
            Color::Hearts
        } else {
            Color::Spades
        }
    }

    /// The house answer to the face-up card, good in either phase of the
    /// auction: the seat named Progress takes, every other seat passes.
    /// The suit that goes with the answer is the one to name in the second
    /// phase, and is never the suit of the face-up card.
    pub fn consider_trump(&self, card: &Card) -> (r: (bool, Option<Color>))
        ensures
            r.0 == (self.name@ == "Progress"@),
            r.1 == Some(Player::named_suit(*card)),
            r.1 matches Some(suit) && suit != card.color,
    {
        let taker = "Progress".to_owned();
        let suit = if card.color == Color::Spades { Color::Hearts } else { Color::Spades };
        (self.name == taker, Some(suit))
    }
}

} // verus!
