use crate::card::{Card, Color};
use vstd::prelude::*;

verus! {

/// The hand holds at least one card of the suit.
pub open spec fn holds_color(hand: Seq<Card>, color: Color) -> bool {
    exists|i: int| 0 <= i < hand.len() && (#[trigger] hand[i]).color == color
}

/// The hand holds a trump whose trump order is above `bar`.
pub open spec fn holds_trump_above(hand: Seq<Card>, trump: Color, bar: int) -> bool {
    exists|i: int|
        0 <= i < hand.len() && (#[trigger] hand[i]).color == trump && hand[i].rank.trump_order()
            > bar
}

/// The trump order of the highest trump among `played`, or -1 where no trump
/// was played.
pub open spec fn top_trump(played: Seq<Card>, trump: Color) -> int
    decreases played.len(),
{
    if played.len() == 0 {
        -1
    } else {
        let below = top_trump(played.drop_last(), trump);
        if played.last().color == trump && played.last().rank.trump_order() > below {
            played.last().rank.trump_order()
        } else {
            below
        }
    }
}

/// The highest trump so far was played by the partner of the seat that is
/// next to play, which is the seat two places back.
pub open spec fn partner_holds_top(played: Seq<Card>, trump: Color) -> bool {
    &&& played.len() >= 2
    &&& played[played.len() - 2].color == trump
    &&& played[played.len() - 2].rank.trump_order() == top_trump(played, trump)
}

/// Whether a seat holding `hand` may play `card` on a trick where `played`
/// lies on the table.
///
/// The leader may play anything. A follower who holds the led suit follows
/// it, and where trump was led must go above the highest trump if able. A
/// follower who cannot follow must trump where no trump lies yet, is free
/// where the partner holds the highest trump, and must otherwise go above the
/// highest trump if able, or else under-trump if holding any trump. With no
/// card of either kind anything goes.
pub open spec fn may_play(hand: Seq<Card>, played: Seq<Card>, trump: Color, card: Card) -> bool {
    if played.len() == 0 {
        true
    } else {
        let lead = played[0].color;
        let top = top_trump(played, trump);
        if holds_color(hand, lead) {
            if lead == trump && holds_trump_above(hand, trump, top) {
                card.color == trump && card.rank.trump_order() > top
            } else {
                card.color == lead
            }
        } else if top < 0 {
            holds_color(hand, trump) ==> card.color == trump
        } else if partner_holds_top(played, trump) {
            true
        } else if holds_trump_above(hand, trump, top) {
            card.color == trump && card.rank.trump_order() > top
        } else {
            holds_color(hand, trump) ==> card.color == trump
        }
    }
}

/// The cards of `hand`, in the order held, that may be played on `played`.
pub open spec fn legal_cards(hand: Seq<Card>, played: Seq<Card>, trump: Color) -> Seq<Card> {
    hand.filter(|c: Card| may_play(hand, played, trump, c))
}

/// `top_trump` is -1 exactly where no trump was played; otherwise it is the
/// order of a trump that was played, and no played trump is above it.
pub proof fn lemma_top_trump(played: Seq<Card>, trump: Color)
    ensures
        -1 <= top_trump(played, trump) <= 7,
        top_trump(played, trump) == -1 <==> !holds_color(played, trump),
        forall|i: int|
            0 <= i < played.len() && (#[trigger] played[i]).color == trump
                ==> played[i].rank.trump_order() <= top_trump(played, trump),
        top_trump(played, trump) >= 0 ==> exists|i: int|
            0 <= i < played.len() && (#[trigger] played[i]).color == trump
                && played[i].rank.trump_order() == top_trump(played, trump),
    decreases played.len(),
{
    if played.len() > 0 {
        let rest = played.drop_last();
        lemma_top_trump(rest, trump);
        let n = played.len() - 1;
        assert forall|i: int| 0 <= i < played.len() && (#[trigger] played[i]).color == trump implies
            played[i].rank.trump_order() <= top_trump(played, trump) by {
            if i < n {
                assert(rest[i] == played[i]);
            }
        }
        if top_trump(played, trump) >= 0 {
            if played.last().color == trump && played.last().rank.trump_order() > top_trump(
                rest,
                trump,
            ) {
                assert(played[n].color == trump);
            } else {
                let i = choose|i: int|
                    0 <= i < rest.len() && (#[trigger] rest[i]).color == trump
                        && rest[i].rank.trump_order() == top_trump(rest, trump);
                assert(played[i] == rest[i]);
            }
        }
        if holds_color(played, trump) {
            let i = choose|i: int| 0 <= i < played.len() && (#[trigger] played[i]).color == trump;
            assert(played[i].rank.trump_order() <= top_trump(played, trump));
        }
        if holds_color(rest, trump) {
            let i = choose|i: int| 0 <= i < rest.len() && (#[trigger] rest[i]).color == trump;
            assert(played[i] == rest[i]);
        }
    }
}

/// The legal cards are the cards of the hand that may be played.
pub proof fn lemma_legal_cards(hand: Seq<Card>, played: Seq<Card>, trump: Color, card: Card)
    ensures
        legal_cards(hand, played, trump).contains(card) <==> hand.contains(card) && may_play(
            hand,
            played,
            trump,
            card,
        ),
{
    let pred = |c: Card| may_play(hand, played, trump, c);
    if legal_cards(hand, played, trump).contains(card) {
        hand.lemma_filter_contains_rev(pred, card);
        let i = choose|i: int|
            0 <= i < hand.filter(pred).len() && hand.filter(pred)[i] == card;
        hand.lemma_filter_pred(pred, i);
    }
    if hand.contains(card) && may_play(hand, played, trump, card) {
        let i = choose|i: int| 0 <= i < hand.len() && hand[i] == card;
        hand.lemma_filter_contains(pred, i);
    }
}

/// A seat that holds a card always has a card that it may play.
pub proof fn lemma_some_card_is_legal(hand: Seq<Card>, played: Seq<Card>, trump: Color)
    requires
        hand.len() > 0,
    ensures
        legal_cards(hand, played, trump).len() > 0,
{
    let top = top_trump(played, trump);
    let above = choose|i: int|
        0 <= i < hand.len() && (#[trigger] hand[i]).color == trump && hand[i].rank.trump_order()
            > top;
    let any_trump = choose|i: int| 0 <= i < hand.len() && (#[trigger] hand[i]).color == trump;
    let i: int = if played.len() == 0 {
        0
    } else if holds_color(hand, played[0].color) {
        if played[0].color == trump && holds_trump_above(hand, trump, top) {
            above
        } else {
            choose|i: int| 0 <= i < hand.len() && (#[trigger] hand[i]).color == played[0].color
        }
    } else if top < 0 {
        if holds_color(hand, trump) {
            any_trump
        } else {
            0
        }
    } else if partner_holds_top(played, trump) {
        0
    } else if holds_trump_above(hand, trump, top) {
        above
    } else if holds_color(hand, trump) {
        any_trump
    } else {
        0
    };
    assert(0 <= i < hand.len() && may_play(hand, played, trump, hand[i]));
    assert(hand.contains(hand[i]));
    lemma_legal_cards(hand, played, trump, hand[i]);
}

/// Whether the hand holds a card of the suit.
pub fn has_color(hand: &Vec<Card>, color: Color) -> (b: bool)
    ensures
        b == holds_color(hand@, color),
{
    let mut i: usize = 0;
    while i < hand.len()
        invariant
            i <= hand@.len(),
            forall|k: int| 0 <= k < i ==> (#[trigger] hand@[k]).color != color,
        decreases hand@.len() - i,
    {
        if hand[i].color == color {
            return true;
        }
        i += 1;
    }
    false
}

/// Whether the hand holds a trump above the given trump order.
pub fn has_trump_above(hand: &Vec<Card>, trump: Color, bar: i8) -> (b: bool)
    ensures
        b == holds_trump_above(hand@, trump, bar as int),
{
    let mut i: usize = 0;
    while i < hand.len()
        invariant
            i <= hand@.len(),
            forall|k: int|
                0 <= k < i ==> !((#[trigger] hand@[k]).color == trump
                    && hand@[k].rank.trump_order() > bar),
        decreases hand@.len() - i,
    {
        if hand[i].color == trump && hand[i].rank.order(true) as i8 > bar {
            return true;
        }
        i += 1;
    }
    false
}

/// The trump order of the highest trump played, or -1.
pub fn highest_trump(played: &Vec<Card>, trump: Color) -> (top: i8)
    ensures
        top == top_trump(played@, trump),
        -1 <= top <= 7,
{
    let mut top: i8 = -1;
    let mut i: usize = 0;
    while i < played.len()
        invariant
            i <= played@.len(),
            top == top_trump(played@.take(i as int), trump),
            -1 <= top <= 7,
        decreases played@.len() - i,
    {
        proof {
            assert(played@.take(i + 1).drop_last() =~= played@.take(i as int));
        }
        if played[i].color == trump && played[i].rank.order(true) as i8 > top {
            top = played[i].rank.order(true) as i8;
        }
        i += 1;
    }
    proof {
        assert(played@.take(played@.len() as int) =~= played@);
    }
    top
}

/// Whether `card` may be played from `hand` on the cards `played` so far.
pub fn is_legal(hand: &Vec<Card>, played: &Vec<Card>, trump: Color, card: Card) -> (b: bool)
    ensures
        b == may_play(hand@, played@, trump, card),
{
    if played.len() == 0 {
        return true;
    }
    let lead = played[0].color;
    let top = highest_trump(played, trump);
    let rank = card.rank.order(true) as i8;
    if has_color(hand, lead) {
        if lead == trump && has_trump_above(hand, trump, top) {
            card.color == trump && rank > top
        } else {
            card.color == lead
        }
    } else if top < 0 {
        !has_color(hand, trump) || card.color == trump
    } else if played.len() >= 2 && played[played.len() - 2].color == trump && played[played.len()
        - 2].rank.order(true) as i8 == top {
        true
    } else if has_trump_above(hand, trump, top) {
        card.color == trump && rank > top
    } else {
        !has_color(hand, trump) || card.color == trump
    }
}

/// The legality filter: the cards of `hand` that may be played on `played`.
pub fn legal_set(hand: &Vec<Card>, played: &Vec<Card>, trump: Color) -> (legal: Vec<Card>)
    ensures
        legal@ == legal_cards(hand@, played@, trump),
{
    let mut legal: Vec<Card> = Vec::new();
    let ghost pred = |c: Card| may_play(hand@, played@, trump, c);
    let mut i: usize = 0;
    while i < hand.len()
        invariant
            i <= hand@.len(),
            pred == |c: Card| may_play(hand@, played@, trump, c),
            legal@ == hand@.take(i as int).filter(pred),
        decreases hand@.len() - i,
    {
        proof {
            assert(hand@.take(i + 1) =~= hand@.take(i as int).push(hand@[i as int]));
            hand@.take(i as int).lemma_filter_push(hand@[i as int], pred);
        }
        if is_legal(hand, played, trump, hand[i]) {
            legal.push(hand[i]);
        }
        i += 1;
    }
    proof {
        assert(hand@.take(hand@.len() as int) =~= hand@);
    }
    legal
}

/// Where `card` sits in the hand, if it is held.
pub fn find_card(hand: &Vec<Card>, card: Card) -> (at: Option<usize>)
    ensures
        match at {
            Some(i) => i < hand@.len() && hand@[i as int] == card && forall|k: int|
                0 <= k < i ==> hand@[k] != card,
            None => !hand@.contains(card),
        },
{
    let mut i: usize = 0;
    while i < hand.len()
        invariant
            i <= hand@.len(),
            forall|k: int| 0 <= k < i ==> hand@[k] != card,
        decreases hand@.len() - i,
    {
        if hand[i] == card {
            return Some(i);
        }
        i += 1;
    }
    None
}

/// Takes `card` out of the hand, where it is held: its first occurrence
/// goes and the other cards keep their order.
pub fn remove_card(hand: &mut Vec<Card>, card: Card) -> (held: bool)
    ensures
        held == old(hand)@.contains(card),
        final(hand)@ == old(hand)@.remove_value(card),
        held ==> old(hand)@ == final(hand)@.insert(
            old(hand)@.index_of_first(card)->0,
            card,
        ) && 0 <= old(hand)@.index_of_first(card)->0 <= final(hand)@.len(),
{
    proof {
        hand@.index_of_first_ensures(card);
    }
    match find_card(hand, card) {
        Some(i) => {
            hand.remove(i);
            proof {
                assert(old(hand)@ =~= hand@.insert(i as int, card));
            }
            true
        },
        None => false,
    }
}

/// The cards of the hand that are of the suit, in the order held.
pub fn cards_of_color(hand: &Vec<Card>, color: Color) -> (out: Vec<Card>)
    ensures
        out@ == hand@.filter(|c: Card| c.color == color),
{
    let mut out: Vec<Card> = Vec::new();
    let ghost pred = |c: Card| c.color == color;
    let mut i: usize = 0;
    while i < hand.len()
        invariant
            i <= hand@.len(),
            pred == |c: Card| c.color == color,
            out@ == hand@.take(i as int).filter(pred),
        decreases hand@.len() - i,
    {
        proof {
            assert(hand@.take(i + 1) =~= hand@.take(i as int).push(hand@[i as int]));
            hand@.take(i as int).lemma_filter_push(hand@[i as int], pred);
        }
        if hand[i].color == color {
            out.push(hand[i]);
        }
        i += 1;
    }
    proof {
        assert(hand@.take(hand@.len() as int) =~= hand@);
    }
    out
}

} // verus!
