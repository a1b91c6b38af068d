use belote::auction::{seat_left_of, Auction, Bid};
use belote::card::{Card, Color, Rank};
use belote::error::EngineError;
use belote::scoring::{decide_winner, score_round};
use belote::trick::Trick;

fn c(color: Color, rank: Rank) -> Card {
    Card::new(color, rank)
}

fn trick(leader: usize, cards: Vec<Card>) -> Trick {
    let mut t = Trick::new(leader);
    t.cards = cards;
    t
}

#[test]
fn a_new_trick_is_empty() {
    let t = Trick::new(2);
    assert_eq!(t.leader, 2);
    assert!(t.cards.is_empty());
    assert_eq!(t.leading_color(), None);
    assert_eq!(t.next_seat(), 2);
}

#[test]
fn the_seats_play_clockwise_from_the_leader() {
    let t = trick(3, vec![c(Color::Spades, Rank::Seven), c(Color::Spades, Rank::Eight)]);
    assert_eq!(t.leading_color(), Some(Color::Spades));
    assert_eq!(t.next_seat(), 1);
}

#[test]
fn the_highest_card_of_the_led_suit_wins_without_trump() {
    let t = trick(
        1,
        vec![
            c(Color::Spades, Rank::Jack),
            c(Color::Spades, Rank::Ten),
            c(Color::Clubs, Rank::Ace),
            c(Color::Spades, Rank::King),
        ],
    );
    assert_eq!(t.winner(Color::Hearts), 2);
}

#[test]
fn the_ace_beats_the_ten_in_a_plain_suit() {
    let t = trick(
        0,
        vec![
            c(Color::Spades, Rank::Ten),
            c(Color::Spades, Rank::Nine),
            c(Color::Spades, Rank::Ace),
            c(Color::Spades, Rank::Seven),
        ],
    );
    assert_eq!(t.winner(Color::Hearts), 2);
}

#[test]
fn a_trump_beats_the_led_suit() {
    let t = trick(
        2,
        vec![
            c(Color::Spades, Rank::Ace),
            c(Color::Hearts, Rank::Seven),
            c(Color::Spades, Rank::Ten),
            c(Color::Spades, Rank::King),
        ],
    );
    assert_eq!(t.winner(Color::Hearts), 3);
}

#[test]
fn the_highest_trump_wins_by_trump_order() {
    let t = trick(
        0,
        vec![
            c(Color::Hearts, Rank::Ace),
            c(Color::Hearts, Rank::Nine),
            c(Color::Hearts, Rank::Jack),
            c(Color::Hearts, Rank::Ten),
        ],
    );
    assert_eq!(t.winner(Color::Hearts), 2);
    assert_eq!(t.winner(Color::Spades), 0);
}

#[test]
fn a_card_of_another_suit_never_wins() {
    let t = trick(
        0,
        vec![
            c(Color::Spades, Rank::Seven),
            c(Color::Clubs, Rank::Ace),
            c(Color::Diamonds, Rank::Ace),
            c(Color::Clubs, Rank::Ten),
        ],
    );
    assert_eq!(t.winner(Color::Hearts), 0);
}

#[test]
fn a_trick_counts_trumps_by_the_trump_table() {
    let t = trick(
        0,
        vec![
            c(Color::Hearts, Rank::Jack),
            c(Color::Hearts, Rank::Nine),
            c(Color::Spades, Rank::Jack),
            c(Color::Spades, Rank::Nine),
        ],
    );
    assert_eq!(t.count_points(Color::Hearts), 36);
    assert_eq!(t.count_points(Color::Spades), 36);
    assert_eq!(t.count_points(Color::Clubs), 4);
    assert_eq!(Trick::new(0).count_points(Color::Clubs), 0);
}

#[test]
fn the_last_trick_adds_ten() {
    assert_eq!(score_round(90, 62, 5, 0, 0), (100, 62));
    assert_eq!(score_round(90, 62, 5, 1, 0), (90, 72));
    assert_eq!(score_round(62, 90, 3, 0, 1), (72, 90));
}

#[test]
fn a_capot_scores_250_to_nothing() {
    assert_eq!(score_round(152, 0, 8, 0, 0), (250, 0));
    assert_eq!(score_round(0, 152, 0, 1, 1), (0, 250));
}

#[test]
fn a_capot_by_the_defenders_scores_250_for_them() {
    assert_eq!(score_round(152, 0, 8, 0, 1), (250, 0));
    assert_eq!(score_round(0, 152, 0, 1, 0), (0, 250));
}

#[test]
fn going_set() {
    assert_eq!(score_round(70, 82, 3, 1, 0), (0, 162));
    assert_eq!(score_round(82, 70, 5, 0, 1), (162, 0));
}

#[test]
fn a_taker_level_with_the_defenders_keeps_its_points() {
    assert_eq!(score_round(81, 71, 4, 1, 0), (81, 81));
    assert_eq!(score_round(71, 81, 4, 0, 1), (81, 81));
}

#[test]
fn defenders_who_fall_short_keep_their_points() {
    assert_eq!(score_round(100, 52, 5, 1, 0), (100, 62));
}

#[test]
fn nobody_wins_below_the_target() {
    assert_eq!(decide_winner(999, 999, 1000, Some(0)), None);
    assert_eq!(decide_winner(0, 0, 1000, None), None);
}

#[test]
fn the_team_at_the_target_wins() {
    assert_eq!(decide_winner(1000, 999, 1000, Some(0)), Some(0));
    assert_eq!(decide_winner(700, 1080, 1000, Some(0)), Some(1));
}

#[test]
fn the_higher_total_wins_when_both_reach_the_target() {
    assert_eq!(decide_winner(1010, 1100, 1000, Some(1)), Some(1));
    assert_eq!(decide_winner(1100, 1010, 1000, Some(1)), Some(0));
}

#[test]
fn equal_totals_go_to_the_defenders() {
    assert_eq!(decide_winner(1040, 1040, 1000, Some(0)), Some(1));
    assert_eq!(decide_winner(1040, 1040, 1000, Some(1)), Some(0));
}

#[test]
fn equal_totals_without_a_taker_need_another_round() {
    assert_eq!(decide_winner(1040, 1040, 1000, None), None);
}

#[test]
fn the_auction_opens_left_of_the_dealer() {
    assert_eq!(Auction::open(0), Auction::AwaitingPhase1(1));
    assert_eq!(Auction::open(3), Auction::AwaitingPhase1(0));
    assert_eq!(seat_left_of(2), 3);
    assert_eq!(seat_left_of(3), 0);
}

#[test]
fn accepting_takes_the_suit_of_the_face_up_card() {
    let a = Auction::open(0);
    assert_eq!(a.bid(0, Color::Hearts, 1, Bid::Accept), Ok(Auction::Concluded(1, Color::Hearts)));
}

#[test]
fn passes_go_round_to_the_dealer_and_open_the_second_phase() {
    let mut a = Auction::open(1);
    for seat in [2usize, 3, 0] {
        a = a.bid(1, Color::Clubs, seat, Bid::Pass).unwrap();
        assert_eq!(a, Auction::AwaitingPhase1((seat + 1) % 4));
    }
    assert_eq!(a.bid(1, Color::Clubs, 1, Bid::Pass), Ok(Auction::AwaitingPhase2(2)));
}

#[test]
fn naming_another_suit_takes_in_the_second_phase() {
    let a = Auction::AwaitingPhase2(2);
    assert_eq!(
        a.bid(0, Color::Clubs, 2, Bid::Name(Color::Spades)),
        Ok(Auction::Concluded(2, Color::Spades))
    );
}

#[test]
fn naming_the_suit_of_the_face_up_card_is_refused() {
    let a = Auction::AwaitingPhase2(2);
    assert_eq!(a.bid(0, Color::Clubs, 2, Bid::Name(Color::Clubs)), Err(EngineError::IllegalBid));
}

#[test]
fn a_bid_from_another_seat_is_refused() {
    assert_eq!(
        Auction::AwaitingPhase1(1).bid(0, Color::Clubs, 2, Bid::Accept),
        Err(EngineError::IllegalBid)
    );
    assert_eq!(
        Auction::AwaitingPhase2(1).bid(0, Color::Clubs, 3, Bid::Pass),
        Err(EngineError::IllegalBid)
    );
}

#[test]
fn a_bid_of_the_other_phase_is_refused() {
    assert_eq!(
        Auction::AwaitingPhase1(1).bid(0, Color::Clubs, 1, Bid::Name(Color::Spades)),
        Err(EngineError::IllegalBid)
    );
    assert_eq!(
        Auction::AwaitingPhase2(1).bid(0, Color::Clubs, 1, Bid::Accept),
        Err(EngineError::IllegalBid)
    );
}

#[test]
fn four_passes_in_the_second_phase_call_for_a_new_deal() {
    let mut a = Auction::AwaitingPhase2(1);
    for seat in [1usize, 2, 3] {
        a = a.bid(0, Color::Clubs, seat, Bid::Pass).unwrap();
    }
    assert_eq!(a, Auction::AwaitingPhase2(0));
    assert_eq!(a.bid(0, Color::Clubs, 0, Bid::Pass), Ok(Auction::Redeal));
}

#[test]
fn a_closed_auction_awaits_no_bid() {
    assert_eq!(
        Auction::Concluded(1, Color::Hearts).bid(0, Color::Hearts, 2, Bid::Pass),
        Err(EngineError::OutOfTurn)
    );
    assert_eq!(Auction::Redeal.bid(0, Color::Hearts, 1, Bid::Pass), Err(EngineError::OutOfTurn));
}
