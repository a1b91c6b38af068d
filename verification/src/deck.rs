use crate::card::{color_at, fresh_card, fresh_deck, lemma_fresh_deck_index, rank_at, Card, Color, Rank};
use crate::error::EngineError;
use rand::seq::SliceRandom;
use rand::SeedableRng;
use vstd::prelude::*;
use vstd::seq_lib::*;

verus! {

/// The order in which `rand`'s slice shuffle leaves `cards` when its random
/// source is the standard generator seeded with `seed`. The generator is
/// that of the `rand` release this crate is locked to; another release may
/// order the cards otherwise.
pub uninterp spec fn shuffled(seed: u64, cards: Seq<Card>) -> Seq<Card>;

/// `cards` holds each of the 32 cards exactly once, in any order.
pub open spec fn is_pack(cards: Seq<Card>) -> bool {
    cards.to_multiset() == fresh_deck().to_multiset()
}

/// An ordered pile of cards; the top is its last element.
#[derive(Clone, Debug)]
pub struct Deck {
    cards: Vec<Card>,
}

impl View for Deck {
    type V = Seq<Card>;

    closed spec fn view(&self) -> Seq<Card> {
        self.cards@
    }
}

/// `rand::seq::SliceRandom::shuffle` on `cards`, with a `rand::rngs::StdRng`
/// made by `SeedableRng::seed_from_u64(seed)` as its random source. The
/// shuffle only swaps elements of the slice, so the cards are the same ones
/// in another order, and with a fixed seed the order is fixed as well.
#[verifier::external_body]
fn shuffle_cards(cards: &mut Vec<Card>, seed: u64)
    ensures
        final(cards)@ == shuffled(seed, old(cards)@),
        final(cards)@.to_multiset() == old(cards)@.to_multiset(),
{
    let mut rng = rand::rngs::StdRng::seed_from_u64(seed);
    cards.shuffle(&mut rng);
}

fn color_of(i: usize) -> (c: Color)
    requires
        i < 4,
    ensures
        c == color_at(i as int),
{
    if i == 0 {
        Color::Spades
    } else if i == 1 {
        Color::Hearts
    } else if i == 2 {
        Color::Diamonds
    } else {
        Color::Clubs
    }
}

fn rank_of(i: usize) -> (r: Rank)
    requires
        i < 8,
    ensures
        r == rank_at(i as int),
{
    if i == 0 {
        Rank::Seven
    } else if i == 1 {
        Rank::Eight
    } else if i == 2 {
        Rank::Nine
    } else if i == 3 {
        Rank::Ten
    } else if i == 4 {
        Rank::Ace
    } else if i == 5 {
        Rank::Queen
    } else if i == 6 {
        Rank::King
    } else {
        Rank::Jack
    }
}

/// Thirty-two cards without a repetition are the whole pack.
pub proof fn lemma_distinct_is_pack(s: Seq<Card>)
    requires
        s.len() == 32,
        s.no_duplicates(),
    ensures
        is_pack(s),
{
    let full = fresh_deck();
    lemma_fresh_deck_index();
    s.unique_seq_to_set();
    full.unique_seq_to_set();
    seq_to_set_is_finite(s);
    seq_to_set_is_finite(full);
    assert(s.to_set().subset_of(full.to_set())) by {
        assert forall|c: Card| s.to_set().contains(c) implies full.to_set().contains(c) by {
            assert(full.contains(c));
        }
    }
    vstd::set_lib::lemma_subset_equality(s.to_set(), full.to_set());
    s.lemma_multiset_has_no_duplicates();
    full.lemma_multiset_has_no_duplicates();
    assert forall|c: Card| s.to_multiset().count(c) == full.to_multiset().count(c) by {
        assert(full.contains(c));
        assert(full.to_set().contains(c));
        assert(s.to_set().contains(c));
        assert(s.contains(c));
        to_multiset_contains(s, c);
        to_multiset_contains(full, c);
    }
    assert(s.to_multiset() =~= full.to_multiset());
}

/// The whole pack, in any order, is thirty-two cards without a repetition.
pub proof fn lemma_pack_is_distinct(s: Seq<Card>)
    requires
        is_pack(s),
    ensures
        s.len() == 32,
        s.no_duplicates(),
        forall|c: Card| #[trigger] s.contains(c),
{
    let full = fresh_deck();
    lemma_fresh_deck_index();
    to_multiset_len(s);
    to_multiset_len(full);
    full.lemma_multiset_has_no_duplicates();
    s.lemma_multiset_has_no_duplicates_conv();
    assert forall|c: Card| #[trigger] s.contains(c) by {
        assert(full.contains(c));
        to_multiset_contains(s, c);
        to_multiset_contains(full, c);
    }
}

impl Deck {
    /// The deck holds the whole pack.
    pub open spec fn is_full(&self) -> bool {
        is_pack(self@)
    }

    /// A fresh deck: for each suit in turn its 7, 8, 9, 10, A, Q, K, J.
    pub fn new() -> (deck: Deck)
        ensures
            deck@ == fresh_deck(),
            deck.is_full(),
    {
        let mut cards: Vec<Card> = Vec::new();
        let mut i: usize = 0;
        while i < 32
            invariant
                i <= 32,
                cards@.len() == i,
                forall|k: int| 0 <= k < i ==> cards@[k] == fresh_card(k),
            decreases 32 - i,
        {
            cards.push(Card::new(color_of(i / 8), rank_of(i % 8)));
            i += 1;
        }
        assert(cards@ =~= fresh_deck());
        Deck { cards }
    }

    /// A pile made of the given cards, the last one on top.
    pub fn from_cards(cards: Vec<Card>) -> (deck: Deck)
        ensures
            deck@ == cards@,
    {
        Deck { cards }
    }

    pub fn len(&self) -> (n: usize)
        ensures
            n == self@.len(),
    {
        self.cards.len()
    }

    /// Reorders the pile as the seed dictates; no card is gained or lost.
    pub fn shuffle(&mut self, seed: u64)
        ensures
            final(self)@ == shuffled(seed, old(self)@),
            final(self)@.to_multiset() == old(self)@.to_multiset(),
            old(self).is_full() ==> final(self).is_full(),
    {
        shuffle_cards(&mut self.cards, seed);
    }

    /// Takes the top card. An empty pile gives no card: that is a fault.
    pub fn draw(&mut self) -> (r: Result<Card, EngineError>)
        ensures
            old(self)@.len() > 0 ==> r == Ok::<Card, EngineError>(old(self)@.last())
                && final(self)@ == old(self)@.drop_last(),
            old(self)@.len() == 0 ==> r == Err::<Card, EngineError>(EngineError::EngineFault)
                && final(self)@ == old(self)@,
    {
        match self.cards.pop() {
            Some(card) => Ok(card),
            None => Err(EngineError::EngineFault),
        }
    }

    /// Whether the pile is the whole pack: 32 cards, none twice.
    pub fn is_complete(&self) -> (b: bool)
        ensures
            b == self.is_full(),
    {
        if self.cards.len() != 32 {
            proof {
                if self.is_full() {
                    lemma_pack_is_distinct(self@);
                }
            }
            return false;
        }
        let mut seen: Vec<bool> = Vec::new();
        let mut k: usize = 0;
        while k < 32
            invariant
                k <= 32,
                seen@.len() == k,
                forall|j: int| 0 <= j < k ==> !seen@[j],
            decreases 32 - k,
        {
            seen.push(false);
            k += 1;
        }
        let mut i: usize = 0;
        while i < 32
            invariant
                i <= 32,
                seen@.len() == 32,
                self.cards@.len() == 32,
                forall|j: int| 0 <= j < 32 ==> (seen@[j] <==> exists|a: int|
                    0 <= a < i && (#[trigger] self.cards@[a]).index() == j),
                forall|a: int, b: int| 0 <= a < b < i ==> self.cards@[a] != self.cards@[b],
            decreases 32 - i,
        {
            let j = self.cards[i].get_index();
            if seen[j] {
                proof {
                    let a = choose|a: int| 0 <= a < i && (#[trigger] self.cards@[a]).index() == j;
                    lemma_fresh_deck_index();
                    assert(self.cards@[a] == self.cards@[i as int]);
                    if self.is_full() {
                        lemma_pack_is_distinct(self@);
                    }
                }
                return false;
            }
            proof {
                lemma_fresh_deck_index();
                assert forall|a: int| 0 <= a < i implies self.cards@[a] != self.cards@[i as int] by {
                    if self.cards@[a] == self.cards@[i as int] {
                        assert(self.cards@[a].index() == j);
                    }
                }
            }
            seen.set(j, true);
            i += 1;
        }
        proof {
            lemma_distinct_is_pack(self@);
        }
        true
    }
}

} // verus!
