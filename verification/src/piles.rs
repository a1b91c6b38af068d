use crate::card::Card;
use crate::player::Player;
use vstd::multiset::*;
use vstd::prelude::*;
use vstd::seq_lib::*;

verus! {

/// The cards that the four seats hold between them.
pub open spec fn hands_cards(players: Seq<Player>) -> Multiset<Card> {
    players[0].hand@.to_multiset().add(players[1].hand@.to_multiset()).add(
        players[2].hand@.to_multiset(),
    ).add(players[3].hand@.to_multiset())
}

/// The face-up card, if there is one, as a pile.
pub open spec fn face_up(candidate: Option<Card>) -> Seq<Card> {
    match candidate {
        Some(c) => seq![c],
        None => Seq::empty(),
    }
}

/// The cards of five piles together.
pub open spec fn together(
    deck: Multiset<Card>,
    shown: Multiset<Card>,
    hands: Multiset<Card>,
    table: Multiset<Card>,
    won: Multiset<Card>,
) -> Multiset<Card> {
    deck.add(shown).add(hands).add(table).add(won)
}

/// A card is in the five piles together as often as in each of them, added
/// up.
pub(crate) proof fn lemma_together_count(
    deck: Multiset<Card>,
    shown: Multiset<Card>,
    hands: Multiset<Card>,
    table: Multiset<Card>,
    won: Multiset<Card>,
    c: Card,
)
    ensures
        together(deck, shown, hands, table, won).count(c) == deck.count(c) + shown.count(c)
            + hands.count(c) + table.count(c) + won.count(c),
{
    axiom_multiset_add(deck, shown, c);
    axiom_multiset_add(deck.add(shown), hands, c);
    axiom_multiset_add(deck.add(shown).add(hands), table, c);
    axiom_multiset_add(deck.add(shown).add(hands).add(table), won, c);
}

/// Cards that pass from one pile to another leave the five piles together
/// as they were: here between any two of deck, face-up card and hands.
pub(crate) proof fn lemma_together_front(
    d: Multiset<Card>,
    f: Multiset<Card>,
    h: Multiset<Card>,
    d2: Multiset<Card>,
    f2: Multiset<Card>,
    h2: Multiset<Card>,
    t: Multiset<Card>,
    k: Multiset<Card>,
)
    requires
        d2.add(f2).add(h2) == d.add(f).add(h),
    ensures
        together(d2, f2, h2, t, k) == together(d, f, h, t, k),
{
}

/// The same between hands, table and played tricks.
pub(crate) proof fn lemma_together_back(
    d: Multiset<Card>,
    f: Multiset<Card>,
    h: Multiset<Card>,
    t: Multiset<Card>,
    k: Multiset<Card>,
    h2: Multiset<Card>,
    t2: Multiset<Card>,
    k2: Multiset<Card>,
)
    requires
        h2.add(t2).add(k2) == h.add(t).add(k),
    ensures
        together(d, f, h2, t2, k2) == together(d, f, h, t, k),
{
    assert forall|c: Card|
        together(d, f, h2, t2, k2).count(c) == together(d, f, h, t, k).count(c) by {
        lemma_together_count(d, f, h2, t2, k2, c);
        lemma_together_count(d, f, h, t, k, c);
        axiom_multiset_add(h2, t2, c);
        axiom_multiset_add(h2.add(t2), k2, c);
        axiom_multiset_add(h, t, c);
        axiom_multiset_add(h.add(t), k, c);
    }
    assert(together(d, f, h2, t2, k2) =~= together(d, f, h, t, k));
}

/// The taker picks up the face-up card and the deck is dealt on: the cards
/// of deck, face-up card and hands together stay as they were.
pub(crate) proof fn lemma_pick_up(
    d: Multiset<Card>,
    f: Multiset<Card>,
    h0: Multiset<Card>,
    h1: Multiset<Card>,
    x0: Multiset<Card>,
    x1: Multiset<Card>,
    card: Card,
    d2: Multiset<Card>,
    h2: Multiset<Card>,
)
    requires
        h1.add(x0) == h0.add(x1),
        x1 == x0.insert(card),
        f == Multiset::<Card>::empty().insert(card),
        d2.add(h2) == d.add(h1),
    ensures
        d2.add(Multiset::<Card>::empty()).add(h2) == d.add(f).add(h0),
{
    let e = Multiset::<Card>::empty();
    let one = Multiset::singleton(card);
    assert forall|c: Card| d2.add(e).add(h2).count(c) == d.add(f).add(h0).count(c) by {
        axiom_multiset_empty::<Card>(c);
        axiom_multiset_add(h1, x0, c);
        axiom_multiset_add(h0, x1, c);
        axiom_multiset_add(x0, one, c);
        axiom_multiset_add(e, one, c);
        axiom_multiset_add(d2, h2, c);
        axiom_multiset_add(d, h1, c);
        axiom_multiset_add(d2, e, c);
        axiom_multiset_add(d2.add(e), h2, c);
        axiom_multiset_add(d, f, c);
        axiom_multiset_add(d.add(f), h0, c);
    }
    assert(d2.add(e).add(h2) =~= d.add(f).add(h0));
}

/// A seat plays a card from its hand onto the table: the cards of hands,
/// table and played tricks together stay as they were, and so they do if
/// the table is then cleared into the played tricks.
pub(crate) proof fn lemma_play_moves(
    h: Multiset<Card>,
    h2: Multiset<Card>,
    x0: Multiset<Card>,
    x1: Multiset<Card>,
    card: Card,
    t: Multiset<Card>,
    t2: Multiset<Card>,
    k: Multiset<Card>,
)
    requires
        h2.add(x0) == h.add(x1),
        x0 == x1.insert(card),
        t2 == t.insert(card),
    ensures
        h2.add(t2).add(k) == h.add(t).add(k),
        h2.add(Multiset::<Card>::empty()).add(k.add(t2)) == h.add(t).add(k),
{
    let e = Multiset::<Card>::empty();
    let one = Multiset::singleton(card);
    assert forall|c: Card|
        h2.add(t2).add(k).count(c) == h.add(t).add(k).count(c) && h2.add(e).add(k.add(t2)).count(c)
            == h.add(t).add(k).count(c) by {
        axiom_multiset_empty::<Card>(c);
        axiom_multiset_add(h2, x0, c);
        axiom_multiset_add(h, x1, c);
        axiom_multiset_add(x1, one, c);
        axiom_multiset_add(t, one, c);
        axiom_multiset_add(h2, t2, c);
        axiom_multiset_add(h2.add(t2), k, c);
        axiom_multiset_add(h, t, c);
        axiom_multiset_add(h.add(t), k, c);
        axiom_multiset_add(h2, e, c);
        axiom_multiset_add(k, t2, c);
        axiom_multiset_add(h2.add(e), k.add(t2), c);
    }
    assert(h2.add(t2).add(k) =~= h.add(t).add(k));
    assert(h2.add(e).add(k.add(t2)) =~= h.add(t).add(k));
}

/// The hands are dealt and the next card of the deck is shown: the cards of
/// deck, face-up card and hands together stay as they were.
pub(crate) proof fn lemma_show(
    d: Multiset<Card>,
    h: Multiset<Card>,
    d1: Multiset<Card>,
    h1: Multiset<Card>,
    d2: Multiset<Card>,
    card: Card,
)
    requires
        d1.add(h1) == d.add(h),
        d1 == d2.insert(card),
    ensures
        d2.add(Multiset::<Card>::empty().insert(card)).add(h1) == d.add(
            Multiset::<Card>::empty(),
        ).add(h),
{
    let e = Multiset::<Card>::empty();
    let one = Multiset::singleton(card);
    assert forall|c: Card| d2.add(e.insert(card)).add(h1).count(c) == d.add(e).add(h).count(c) by {
        axiom_multiset_empty::<Card>(c);
        axiom_multiset_add(d1, h1, c);
        axiom_multiset_add(d, h, c);
        axiom_multiset_add(d2, one, c);
        axiom_multiset_add(e, one, c);
        axiom_multiset_add(d2, e.add(one), c);
        axiom_multiset_add(d2.add(e.add(one)), h1, c);
        axiom_multiset_add(d, e, c);
        axiom_multiset_add(d.add(e), h, c);
    }
    assert(d2.add(e.insert(card)).add(h1) =~= d.add(e).add(h));
}

/// An empty pile holds no card.
pub(crate) proof fn lemma_empty_pile()
    ensures
        Seq::<Card>::empty().to_multiset() == Multiset::<Card>::empty(),
{
    broadcast use group_multiset_axioms;

    to_multiset_len(Seq::<Card>::empty());
    lemma_multiset_empty_len(Seq::<Card>::empty().to_multiset());
}

/// Replacing the hand of one seat changes the cards in hands by just the
/// difference of the two hands.
pub(crate) proof fn lemma_hands_update(players: Seq<Player>, s: int, p: Player)
    requires
        players.len() == 4,
        0 <= s < 4,
    ensures
        hands_cards(players.update(s, p)).add(players[s].hand@.to_multiset()) == hands_cards(
            players,
        ).add(p.hand@.to_multiset()),
{
    broadcast use group_multiset_axioms;

    assert(hands_cards(players.update(s, p)).add(players[s].hand@.to_multiset()) =~= hands_cards(
        players,
    ).add(p.hand@.to_multiset()));
}

/// Cards that move between a part `x` of the pile `h` and the pile `d`
/// leave the two piles together as they were.
pub(crate) proof fn lemma_moved(
    d: Multiset<Card>,
    h: Multiset<Card>,
    x: Multiset<Card>,
    d2: Multiset<Card>,
    h2: Multiset<Card>,
    x2: Multiset<Card>,
)
    requires
        h2.add(x) == h.add(x2),
        d2.add(x2) == d.add(x),
    ensures
        d2.add(h2) == d.add(h),
{
    broadcast use group_multiset_axioms;

    assert forall|c: Card| d2.add(h2).count(c) == d.add(h).count(c) by {
        axiom_multiset_add(h2, x, c);
        axiom_multiset_add(h, x2, c);
        axiom_multiset_add(d2, x2, c);
        axiom_multiset_add(d, x, c);
        axiom_multiset_add(d2, h2, c);
        axiom_multiset_add(d, h, c);
    }
    assert(d2.add(h2) =~= d.add(h));
}

/// Seats with empty hands hold no card between them.
pub(crate) proof fn lemma_no_cards_held(players: Seq<Player>)
    requires
        players.len() == 4,
        forall|s: int| 0 <= s < 4 ==> (#[trigger] players[s]).hand@.len() == 0,
    ensures
        hands_cards(players) == Multiset::<Card>::empty(),
{
    let e = Multiset::<Card>::empty();
    lemma_empty_pile();
    assert(players[0].hand@ =~= Seq::<Card>::empty());
    assert(players[1].hand@ =~= Seq::<Card>::empty());
    assert(players[2].hand@ =~= Seq::<Card>::empty());
    assert(players[3].hand@ =~= Seq::<Card>::empty());
    assert forall|c: Card| hands_cards(players).count(c) == e.count(c) by {
        axiom_multiset_empty::<Card>(c);
        axiom_multiset_add(e, e, c);
        axiom_multiset_add(e.add(e), e, c);
        axiom_multiset_add(e.add(e).add(e), e, c);
    }
    assert(hands_cards(players) =~= e);
}

/// Where all the cards are in the deck, or all in the tricks played, the
/// five piles together are that one pile.
pub(crate) proof fn lemma_together_one(pile: Multiset<Card>)
    ensures
        together(
            pile,
            Multiset::empty(),
            Multiset::empty(),
            Multiset::empty(),
            Multiset::empty(),
        ) == pile,
        together(
            Multiset::empty(),
            Multiset::empty(),
            Multiset::empty(),
            Multiset::empty(),
            pile,
        ) == pile,
{
    let e = Multiset::<Card>::empty();
    assert forall|c: Card|
        together(pile, e, e, e, e).count(c) == pile.count(c) && together(e, e, e, e, pile).count(c)
            == pile.count(c) by {
        axiom_multiset_empty::<Card>(c);
        lemma_together_count(pile, e, e, e, e, c);
        lemma_together_count(e, e, e, e, pile, c);
    }
    assert(together(pile, e, e, e, e) =~= pile);
    assert(together(e, e, e, e, pile) =~= pile);
}

} // verus!
