use belote::card::{Card, Color, Rank};
use belote::hand::{
    cards_of_color, find_card, has_color, has_trump_above, highest_trump, is_legal, legal_set,
    remove_card,
};

fn c(color: Color, rank: Rank) -> Card {
    Card::new(color, rank)
}

#[test]
fn the_leader_may_play_anything() {
    let hand = vec![c(Color::Spades, Rank::Seven), c(Color::Hearts, Rank::Jack)];
    assert_eq!(legal_set(&hand, &Vec::new(), Color::Hearts), hand);
}

#[test]
fn a_follower_must_follow_suit() {
    let hand = vec![
        c(Color::Spades, Rank::King),
        c(Color::Hearts, Rank::Jack),
        c(Color::Spades, Rank::Eight),
        c(Color::Clubs, Rank::Ace),
    ];
    let played = vec![c(Color::Spades, Rank::Seven)];
    assert_eq!(
        legal_set(&hand, &played, Color::Hearts),
        vec![c(Color::Spades, Rank::King), c(Color::Spades, Rank::Eight)]
    );
}

#[test]
fn following_a_plain_suit_needs_no_higher_card() {
    let hand = vec![c(Color::Spades, Rank::Seven), c(Color::Spades, Rank::Ace)];
    let played = vec![c(Color::Spades, Rank::Ten)];
    assert_eq!(legal_set(&hand, &played, Color::Hearts), hand);
}

#[test]
fn without_the_suit_and_no_trump_played_any_trump_will_do() {
    let hand = vec![
        c(Color::Hearts, Rank::Jack),
        c(Color::Clubs, Rank::Ace),
        c(Color::Hearts, Rank::Eight),
    ];
    let played = vec![c(Color::Spades, Rank::Seven)];
    assert_eq!(
        legal_set(&hand, &played, Color::Hearts),
        vec![c(Color::Hearts, Rank::Jack), c(Color::Hearts, Rank::Eight)]
    );
}

#[test]
fn an_opponents_trump_must_be_beaten() {
    let hand = vec![
        c(Color::Hearts, Rank::Jack),
        c(Color::Clubs, Rank::Ace),
        c(Color::Hearts, Rank::Eight),
    ];
    let played = vec![c(Color::Spades, Rank::Seven), c(Color::Hearts, Rank::Nine)];
    assert_eq!(legal_set(&hand, &played, Color::Hearts), vec![c(Color::Hearts, Rank::Jack)]);
}

#[test]
fn a_partners_trump_frees_the_follower() {
    let hand = vec![
        c(Color::Hearts, Rank::Jack),
        c(Color::Clubs, Rank::Ace),
        c(Color::Hearts, Rank::Eight),
    ];
    let played = vec![
        c(Color::Spades, Rank::Seven),
        c(Color::Hearts, Rank::Nine),
        c(Color::Spades, Rank::Eight),
    ];
    assert_eq!(legal_set(&hand, &played, Color::Hearts), hand);
}

#[test]
fn a_partners_trump_that_was_beaten_frees_nobody() {
    let hand = vec![
        c(Color::Hearts, Rank::Jack),
        c(Color::Clubs, Rank::Ace),
        c(Color::Hearts, Rank::Eight),
    ];
    let played = vec![
        c(Color::Spades, Rank::Seven),
        c(Color::Hearts, Rank::Ten),
        c(Color::Hearts, Rank::Nine),
    ];
    assert_eq!(legal_set(&hand, &played, Color::Hearts), vec![c(Color::Hearts, Rank::Jack)]);
}

#[test]
fn with_only_lower_trumps_any_trump_is_played() {
    let hand = vec![
        c(Color::Hearts, Rank::Seven),
        c(Color::Clubs, Rank::Ace),
        c(Color::Hearts, Rank::Eight),
    ];
    let played = vec![c(Color::Spades, Rank::Seven), c(Color::Hearts, Rank::Nine)];
    assert_eq!(
        legal_set(&hand, &played, Color::Hearts),
        vec![c(Color::Hearts, Rank::Seven), c(Color::Hearts, Rank::Eight)]
    );
}

#[test]
fn with_neither_suit_nor_trump_anything_goes() {
    let hand = vec![c(Color::Clubs, Rank::Ace), c(Color::Diamonds, Rank::Seven)];
    let played = vec![c(Color::Spades, Rank::Seven), c(Color::Hearts, Rank::Nine)];
    assert_eq!(legal_set(&hand, &played, Color::Hearts), hand);
    let plain = vec![c(Color::Spades, Rank::Seven)];
    assert_eq!(legal_set(&hand, &plain, Color::Hearts), hand);
}

#[test]
fn when_trump_is_led_a_higher_trump_is_owed() {
    let hand = vec![
        c(Color::Hearts, Rank::Seven),
        c(Color::Hearts, Rank::Nine),
        c(Color::Clubs, Rank::Ace),
        c(Color::Hearts, Rank::Jack),
    ];
    let played = vec![c(Color::Hearts, Rank::Ace)];
    assert_eq!(
        legal_set(&hand, &played, Color::Hearts),
        vec![c(Color::Hearts, Rank::Nine), c(Color::Hearts, Rank::Jack)]
    );
}

#[test]
fn when_trump_is_led_the_partner_is_not_spared() {
    let hand = vec![c(Color::Hearts, Rank::Seven), c(Color::Hearts, Rank::Jack)];
    let played = vec![c(Color::Hearts, Rank::Nine), c(Color::Hearts, Rank::Eight)];
    assert_eq!(legal_set(&hand, &played, Color::Hearts), vec![c(Color::Hearts, Rank::Jack)]);
}

#[test]
fn when_trump_is_led_lower_trumps_follow_if_none_is_higher() {
    let hand = vec![
        c(Color::Hearts, Rank::Seven),
        c(Color::Clubs, Rank::Ace),
        c(Color::Hearts, Rank::Queen),
    ];
    let played = vec![c(Color::Hearts, Rank::Jack)];
    assert_eq!(
        legal_set(&hand, &played, Color::Hearts),
        vec![c(Color::Hearts, Rank::Seven), c(Color::Hearts, Rank::Queen)]
    );
}

#[test]
fn when_trump_is_led_a_hand_without_trump_is_free() {
    let hand = vec![c(Color::Clubs, Rank::Ace), c(Color::Spades, Rank::Seven)];
    let played = vec![c(Color::Hearts, Rank::Jack), c(Color::Hearts, Rank::Nine)];
    assert_eq!(legal_set(&hand, &played, Color::Hearts), hand);
}

#[test]
fn is_legal_agrees_with_the_legal_set() {
    let hand = vec![
        c(Color::Hearts, Rank::Jack),
        c(Color::Clubs, Rank::Ace),
        c(Color::Hearts, Rank::Eight),
    ];
    let played = vec![c(Color::Spades, Rank::Seven), c(Color::Hearts, Rank::Nine)];
    assert!(is_legal(&hand, &played, Color::Hearts, c(Color::Hearts, Rank::Jack)));
    assert!(!is_legal(&hand, &played, Color::Hearts, c(Color::Hearts, Rank::Eight)));
    assert!(!is_legal(&hand, &played, Color::Hearts, c(Color::Clubs, Rank::Ace)));
}

#[test]
fn highest_trump_is_by_trump_order() {
    let played = vec![
        c(Color::Hearts, Rank::Ace),
        c(Color::Spades, Rank::Ace),
        c(Color::Hearts, Rank::Nine),
    ];
    assert_eq!(highest_trump(&played, Color::Hearts), 6);
    assert_eq!(highest_trump(&played, Color::Spades), 5);
    assert_eq!(highest_trump(&played, Color::Clubs), -1);
    assert_eq!(highest_trump(&Vec::new(), Color::Clubs), -1);
}

#[test]
fn hand_queries_answer_for_the_cards_held() {
    let hand = vec![
        c(Color::Hearts, Rank::Queen),
        c(Color::Clubs, Rank::Ace),
        c(Color::Hearts, Rank::Eight),
    ];
    assert!(has_color(&hand, Color::Hearts));
    assert!(!has_color(&hand, Color::Spades));
    assert!(has_trump_above(&hand, Color::Hearts, 1));
    assert!(!has_trump_above(&hand, Color::Hearts, 2));
    assert!(!has_trump_above(&hand, Color::Spades, -1));
    assert_eq!(find_card(&hand, c(Color::Clubs, Rank::Ace)), Some(1));
    assert_eq!(find_card(&hand, c(Color::Clubs, Rank::King)), None);
    assert_eq!(
        cards_of_color(&hand, Color::Hearts),
        vec![c(Color::Hearts, Rank::Queen), c(Color::Hearts, Rank::Eight)]
    );
    assert!(cards_of_color(&hand, Color::Diamonds).is_empty());
}

#[test]
fn remove_card_takes_out_the_card_and_keeps_the_order() {
    let mut hand = vec![
        c(Color::Hearts, Rank::Queen),
        c(Color::Clubs, Rank::Ace),
        c(Color::Hearts, Rank::Eight),
    ];
    assert!(remove_card(&mut hand, c(Color::Clubs, Rank::Ace)));
    assert_eq!(hand, vec![c(Color::Hearts, Rank::Queen), c(Color::Hearts, Rank::Eight)]);
    assert!(!remove_card(&mut hand, c(Color::Clubs, Rank::Ace)));
    assert_eq!(hand.len(), 2);
}

#[test]
fn over_trump_obligation() {
    let hand = vec![c(Color::Hearts, Rank::Jack), c(Color::Hearts, Rank::Eight)];
    let led = vec![c(Color::Spades, Rank::Seven)];
    assert_eq!(legal_set(&hand, &led, Color::Hearts), hand);
    let trumped = vec![c(Color::Spades, Rank::Seven), c(Color::Hearts, Rank::Nine)];
    assert_eq!(legal_set(&hand, &trumped, Color::Hearts), vec![c(Color::Hearts, Rank::Jack)]);
}
