use crate::card::{color_at, fresh_card, fresh_deck, Card, Color};
use crate::deck::is_pack;
use vstd::prelude::*;
use vstd::seq_lib::*;

verus! {

/// Points of a whole pack, whatever the trump suit.
pub const PACK_POINTS: i32 = 152;

/// Bonus for the team that takes the last trick.
pub const LAST_TRICK_BONUS: i32 = 10;

/// What the two teams share in a round without a capot.
pub const ROUND_TOTAL: i32 = 162;

/// What a team scores for taking all eight tricks.
pub const CAPOT_POINTS: i32 = 250;

/// Adds the worth of one card to a running total.
pub open spec fn add_value(trump: Color) -> spec_fn(int, Card) -> int {
    |acc: int, c: Card| acc + c.value(trump)
}

/// The points that the cards are worth together when `trump` is trump.
pub open spec fn points_of(cards: Seq<Card>, trump: Color) -> int {
    cards.fold_left(0, add_value(trump))
}

pub proof fn lemma_points_push(cards: Seq<Card>, card: Card, trump: Color)
    ensures
        points_of(cards.push(card), trump) == points_of(cards, trump) + card.value(trump),
{
    assert(cards.push(card).drop_last() =~= cards);
}

pub proof fn lemma_points_bounds(cards: Seq<Card>, trump: Color)
    ensures
        0 <= points_of(cards, trump) <= 20 * cards.len(),
    decreases cards.len(),
{
    if cards.len() > 0 {
        lemma_points_bounds(cards.drop_last(), trump);
    }
}

pub proof fn lemma_points_concat(a: Seq<Card>, b: Seq<Card>, trump: Color)
    ensures
        points_of(a + b, trump) == points_of(a, trump) + points_of(b, trump),
    decreases b.len(),
{
    if b.len() == 0 {
        assert(a + b =~= a);
    } else {
        lemma_points_concat(a, b.drop_last(), trump);
        assert((a + b).drop_last() =~= a + b.drop_last());
    }
}

/// The points of a pile do not depend on the order of its cards.
pub proof fn lemma_points_permutation(a: Seq<Card>, b: Seq<Card>, trump: Color)
    requires
        a.to_multiset() == b.to_multiset(),
    ensures
        points_of(a, trump) == points_of(b, trump),
{
    lemma_fold_left_permutation(a, b, add_value(trump), 0int);
}

spec fn prefix_points(k: nat, trump: Color) -> int
    decreases k,
{
    if k == 0 {
        0
    } else {
        prefix_points((k - 1) as nat, trump) + fresh_card(k - 1).value(trump)
    }
}

proof fn lemma_prefix_points(k: nat, trump: Color)
    requires
        k <= 32,
    ensures
        points_of(fresh_deck().take(k as int), trump) == prefix_points(k, trump),
    decreases k,
{
    if k > 0 {
        lemma_prefix_points((k - 1) as nat, trump);
        assert(fresh_deck().take(k as int).drop_last() =~= fresh_deck().take(k - 1));
    }
}

proof fn lemma_suit_points(j: nat, trump: Color)
    requires
        j < 4,
    ensures
        prefix_points(8 * j + 8, trump) == prefix_points(8 * j, trump) + if color_at(j as int)
            == trump {
            62int
        } else {
            30int
        },
{
    reveal_with_fuel(prefix_points, 9);
    if j == 0 {
    } else if j == 1 {
    } else if j == 2 {
    } else {
    }
}

/// The whole pack is worth 152 points, whichever suit is trump.
pub proof fn lemma_pack_points(cards: Seq<Card>, trump: Color)
    requires
        is_pack(cards),
    ensures
        points_of(cards, trump) == PACK_POINTS,
{
    lemma_suit_points(0, trump);
    lemma_suit_points(1, trump);
    lemma_suit_points(2, trump);
    lemma_suit_points(3, trump);
    assert(prefix_points(0, trump) == 0);
    lemma_prefix_points(32, trump);
    assert(fresh_deck().take(32) =~= fresh_deck());
    lemma_points_permutation(cards, fresh_deck(), trump);
}

/// The team a seat plays for: 0 for seats 0 and 2, 1 for seats 1 and 3.
pub open spec fn team_of(seat: int) -> int {
    seat % 2
}

/// What the two teams score for a round that was played out.
///
/// `cards_a` and `cards_b` are the card points in the tricks each team took,
/// `tricks_a` the number of tricks of team 0, `last_team` the team that took
/// the last trick, `taker_team` the team of the taker. A team with all eight
/// tricks scores 250 to nothing. Otherwise the last trick adds 10, and a
/// taker's team left strictly below the defenders scores nothing while the
/// defenders score 162.
pub open spec fn round_points(
    cards_a: int,
    cards_b: int,
    tricks_a: int,
    last_team: int,
    taker_team: int,
) -> (int, int) {
    if tricks_a == 8 {
        (250, 0)
    } else if tricks_a == 0 {
        (0, 250)
    } else {
        let a = cards_a + if last_team == 0 { 10int } else { 0int };
        let b = cards_b + if last_team == 0 { 0int } else { 10int };
        if taker_team == 0 && a < b {
            (0, 162)
        } else if taker_team != 0 && b < a {
            (162, 0)
        } else {
            (a, b)
        }
    }
}

/// Scores a round that was played out; see [`round_points`].
pub fn score_round(cards_a: u8, cards_b: u8, tricks_a: u8, last_team: usize, taker_team: usize) -> (r: (
    i32,
    i32,
))
    ensures
        (r.0 as int, r.1 as int) == round_points(
            cards_a as int,
            cards_b as int,
            tricks_a as int,
            last_team as int,
            taker_team as int,
        ),
{
    if tricks_a == 8 {
        (CAPOT_POINTS, 0)
    } else if tricks_a == 0 {
        (0, CAPOT_POINTS)
    } else {
        let a: i32 = cards_a as i32 + if last_team == 0 { LAST_TRICK_BONUS } else { 0 };
        let b: i32 = cards_b as i32 + if last_team == 0 { 0 } else { LAST_TRICK_BONUS };
        if taker_team == 0 && a < b {
            (0, ROUND_TOTAL)
        } else if taker_team != 0 && b < a {
            (ROUND_TOTAL, 0)
        } else {
            (a, b)
        }
    }
}

/// Where the tricks hold the whole pack between them, the two scores of a
/// round add up to 162, or to 250 after a capot.
pub proof fn lemma_round_points_total(
    cards_a: int,
    cards_b: int,
    tricks_a: int,
    last_team: int,
    taker_team: int,
)
    requires
        cards_a + cards_b == PACK_POINTS,
    ensures
        ({
            let r = round_points(cards_a, cards_b, tricks_a, last_team, taker_team);
            r.0 + r.1 == 162 || r.0 + r.1 == 250
        }),
{
}

/// Who has won the match, if anyone, once a round has been added to the
/// totals `a` and `b`.
///
/// Nobody while both teams are below the target. Otherwise the higher total
/// wins; on equal totals the team that defended in the round just played
/// wins, and with no such team one more round is played.
pub open spec fn match_winner(a: int, b: int, target: int, taker_team: Option<int>) -> Option<int> {
    if a < target && b < target {
        None
    } else if a > b {
        Some(0)
    } else if b > a {
        Some(1)
    } else {
        match taker_team {
            Some(t) => Some(if t == 0 { 1int } else { 0int }),
            None => None,
        }
    }
}

/// Decides the match after a round; see [`match_winner`].
pub fn decide_winner(a: i32, b: i32, target: i32, taker_team: Option<usize>) -> (w: Option<usize>)
    ensures
        match w {
            Some(t) => match_winner(
                a as int,
                b as int,
                target as int,
                match taker_team {
                    Some(t) => Some(t as int),
                    None => None,
                },
            ) == Some(t as int),
            None => match_winner(
                a as int,
                b as int,
                target as int,
                match taker_team {
                    Some(t) => Some(t as int),
                    None => None,
                },
            ) is None,
        },
{
    if a < target && b < target {
        None
    } else if a > b {
        Some(0)
    } else if b > a {
        Some(1)
    } else {
        match taker_team {
            Some(t) => Some(if t == 0 { 1 } else { 0 }),
            None => None,
        }
    }
}

} // verus!
