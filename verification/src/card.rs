use vstd::prelude::*;
use vstd::string::StringExecFns;

verus! {

/// The four suits.
#[derive(Clone, Copy, Debug, PartialEq, Eq, Structural)]
pub enum Color {
    Spades,
    Hearts,
    Diamonds,
    Clubs,
}

/// The eight ranks of a 32-card pack.
#[derive(Clone, Copy, Debug, PartialEq, Eq, Structural)]
pub enum Rank {
    Seven,
    Eight,
    Nine,
    Ten,
    Jack,
    Queen,
    King,
    Ace,
}

/// A card of the pack. Its worth and its strength both depend on whether its
/// suit is the trump suit of the round.
#[derive(Clone, Copy, Debug, PartialEq, Eq, Structural)]
pub struct Card {
    pub color: Color,
    pub rank: Rank,
}

impl Color {
    /// Position of the suit in a fresh deck.
    pub open spec fn index(self) -> int {
        match self {
            Color::Spades => 0,
            Color::Hearts => 1,
            Color::Diamonds => 2,
            Color::Clubs => 3,
        }
    }

    /// The suit's pip.
    pub open spec fn symbol(self) -> Seq<char> {
        match self {
            Color::Spades => "♠"@,
            Color::Hearts => "♥"@,
            Color::Diamonds => "♦"@,
            Color::Clubs => "♣"@,
        }
    }

    pub fn get_symbol(self) -> (s: &'static str)
        ensures
            s@ == self.symbol(),
    {
        match self {
            Color::Spades => "♠",
            Color::Hearts => "♥",
            Color::Diamonds => "♦",
            Color::Clubs => "♣",
        }
    }
}

impl Rank {
    /// Points of the rank outside the trump suit.
    pub open spec fn plain_value(self) -> int {
        match self {
            Rank::Seven => 0,
            Rank::Eight => 0,
            Rank::Nine => 0,
            Rank::Ten => 10,
            Rank::Jack => 2,
            Rank::Queen => 3,
            Rank::King => 4,
            Rank::Ace => 11,
        }
    }

    /// Points of the rank in the trump suit.
    pub open spec fn trump_value(self) -> int {
        match self {
            Rank::Seven => 0,
            Rank::Eight => 0,
            Rank::Nine => 14,
            Rank::Ten => 10,
            Rank::Jack => 20,
            Rank::Queen => 3,
            Rank::King => 4,
            Rank::Ace => 11,
        }
    }

    /// Strength of the rank outside the trump suit (higher beats lower).
    pub open spec fn plain_order(self) -> int {
        match self {
            Rank::Seven => 0,
            Rank::Eight => 1,
            Rank::Nine => 2,
            Rank::Jack => 3,
            Rank::Queen => 4,
            Rank::King => 5,
            Rank::Ten => 6,
            Rank::Ace => 7,
        }
    }

    /// Strength of the rank in the trump suit (higher beats lower).
    pub open spec fn trump_order(self) -> int {
        match self {
            Rank::Seven => 0,
            Rank::Eight => 1,
            Rank::Queen => 2,
            Rank::King => 3,
            Rank::Ten => 4,
            Rank::Ace => 5,
            Rank::Nine => 6,
            Rank::Jack => 7,
        }
    }

    /// Position of the rank within its suit in a fresh deck:
    /// 7, 8, 9, 10, A, Q, K, J.
    pub open spec fn position(self) -> int {
        match self {
            Rank::Seven => 0,
            Rank::Eight => 1,
            Rank::Nine => 2,
            Rank::Ten => 3,
            Rank::Ace => 4,
            Rank::Queen => 5,
            Rank::King => 6,
            Rank::Jack => 7,
        }
    }

    /// Short name of the rank, as printed on the card.
    pub open spec fn name(self) -> Seq<char> {
        match self {
            Rank::Seven => "7"@,
            Rank::Eight => "8"@,
            Rank::Nine => "9"@,
            Rank::Ten => "10"@,
            Rank::Jack => "J"@,
            Rank::Queen => "Q"@,
            Rank::King => "K"@,
            Rank::Ace => "A"@,
        }
    }

    /// Points of the rank, by the trump table when `trump` is set.
    pub fn value(self, trump: bool) -> (v: i8)
        ensures
            v == if trump { self.trump_value() } else { self.plain_value() },
    {
        match self {
            Rank::Seven => 0,
            Rank::Eight => 0,
            Rank::Nine => if trump { 14 } else { 0 },
            Rank::Ten => 10,
            Rank::Jack => if trump { 20 } else { 2 },
            Rank::Queen => 3,
            Rank::King => 4,
            Rank::Ace => 11,
        }
    }

    /// Strength of the rank, by the trump table when `trump` is set.
    pub fn order(self, trump: bool) -> (o: u8)
        ensures
            o == if trump { self.trump_order() } else { self.plain_order() },
    {
        match self {
            Rank::Seven => 0,
            Rank::Eight => 1,
            Rank::Nine => if trump { 6 } else { 2 },
            Rank::Ten => if trump { 4 } else { 6 },
            Rank::Jack => if trump { 7 } else { 3 },
            Rank::Queen => if trump { 2 } else { 4 },
            Rank::King => if trump { 3 } else { 5 },
            Rank::Ace => if trump { 5 } else { 7 },
        }
    }
}

impl Card {
    pub fn new(color: Color, rank: Rank) -> (c: Card)
        ensures
            c == (Card { color, rank }),
    {
        Card { color, rank }
    }

    /// Points the card is worth when `trump` is the trump suit.
    pub open spec fn value(self, trump: Color) -> int {
        if self.color == trump {
            self.rank.trump_value()
        } else {
            self.rank.plain_value()
        }
    }

    /// Strength of the card within its own suit when `trump` is the trump suit.
    pub open spec fn order(self, trump: Color) -> int {
        if self.color == trump {
            self.rank.trump_order()
        } else {
            self.rank.plain_order()
        }
    }

    /// Position of the card in a fresh deck.
    pub open spec fn index(self) -> int {
        8 * self.color.index() + self.rank.position()
    }

    /// The card as shown to a player: pip, a space, rank name.
    pub open spec fn label(self) -> Seq<char> {
        self.color.symbol() + seq![' '] + self.rank.name()
    }

    pub fn get_value(&self, trump: Color) -> (v: i8)
        ensures
            v == self.value(trump),
    {
        self.rank.value(self.color == trump)
    }

    pub fn get_order(&self, trump: Color) -> (o: u8)
        ensures
            o == self.order(trump),
    {
        self.rank.order(self.color == trump)
    }

    pub fn get_name(&self) -> (s: &'static str)
        ensures
            s@ == self.rank.name(),
    {
        match self.rank {
            Rank::Seven => "7",
            Rank::Eight => "8",
            Rank::Nine => "9",
            Rank::Ten => "10",
            Rank::Jack => "J",
            Rank::Queen => "Q",
            Rank::King => "K",
            Rank::Ace => "A",
        }
    }

    pub fn get_color(self) -> (c: Color)
        ensures
            c == self.color,
    {
        self.color
    }

    pub fn get_rank(self) -> (r: Rank)
        ensures
            r == self.rank,
    {
        self.rank
    }

    /// The text that stands for the card on a terminal.
    pub fn display(&self) -> (s: String)
        ensures
            s@ == self.label(),
    {
        let head = concat(self.color.get_symbol(), " ");
        proof {
            reveal_strlit(" ");
            assert(" "@ =~= seq![' ']);
        }
        concat(head.as_str(), self.get_name())
    }

    pub fn get_index(&self) -> (i: usize)
        ensures
            i == self.index(),
            i < 32,
    {
        let c: usize = match self.color {
            Color::Spades => 0,
            Color::Hearts => 1,
            Color::Diamonds => 2,
            Color::Clubs => 3,
        };
        let r: usize = match self.rank {
            Rank::Seven => 0,
            Rank::Eight => 1,
            Rank::Nine => 2,
            Rank::Ten => 3,
            Rank::Ace => 4,
            Rank::Queen => 5,
            Rank::King => 6,
            Rank::Jack => 7,
        };
        8 * c + r
    }
}

/// The text of `a` followed by the text of `b`.
pub(crate) fn concat(a: &str, b: &str) -> (s: String)
    ensures
        s@ == a@ + b@,
{
    let mut s = a.to_owned();
    s.append(b);
    s
}

/// The suit at position `i` of a fresh deck's suit order.
pub open spec fn color_at(i: int) -> Color {
    if i == 0 {
        Color::Spades
    } else if i == 1 {
        Color::Hearts
    } else if i == 2 {
        Color::Diamonds
    } else {
        Color::Clubs
    }
}

/// The rank at position `i` within a suit of a fresh deck.
pub open spec fn rank_at(i: int) -> Rank {
    if i == 0 {
        Rank::Seven
    } else if i == 1 {
        Rank::Eight
    } else if i == 2 {
        Rank::Nine
    } else if i == 3 {
        Rank::Ten
    } else if i == 4 {
        Rank::Ace
    } else if i == 5 {
        Rank::Queen
    } else if i == 6 {
        Rank::King
    } else {
        Rank::Jack
    }
}

/// The card at position `i` of a fresh deck.
pub open spec fn fresh_card(i: int) -> Card {
    Card { color: color_at(i / 8), rank: rank_at(i % 8) }
}

/// A fresh deck: suit by suit, bottom first.
pub open spec fn fresh_deck() -> Seq<Card> {
    Seq::new(32, |i: int| fresh_card(i))
}

/// Every card sits in the fresh deck at its own index, and nowhere else.
pub proof fn lemma_fresh_deck_index()
    ensures
        forall|c: Card| 0 <= #[trigger] c.index() < 32 && fresh_card(c.index()) == c,
        forall|i: int| 0 <= i < 32 ==> (#[trigger] fresh_card(i)).index() == i,
        fresh_deck().no_duplicates(),
        forall|c: Card| #[trigger] fresh_deck().contains(c),
{
    assert forall|c: Card| 0 <= #[trigger] c.index() < 32 && fresh_card(c.index()) == c by {
        let i = c.index();
        assert(i / 8 == c.color.index());
        assert(i % 8 == c.rank.position());
    }
    assert forall|i: int| 0 <= i < 32 implies (#[trigger] fresh_card(i)).index() == i by {
        assert(0 <= i / 8 < 4);
        assert(0 <= i % 8 < 8);
    }
    assert forall|c: Card| #[trigger] fresh_deck().contains(c) by {
        assert(fresh_deck()[c.index()] == c);
    }
}

} // verus!
