use belote::card::{Card, Color, Rank};
use belote::deck::Deck;
use belote::error::EngineError;

const COLORS: [Color; 4] = [Color::Spades, Color::Hearts, Color::Diamonds, Color::Clubs];
const RANKS: [Rank; 8] = [
    Rank::Seven,
    Rank::Eight,
    Rank::Nine,
    Rank::Ten,
    Rank::Jack,
    Rank::Queen,
    Rank::King,
    Rank::Ace,
];

fn drain(mut deck: Deck) -> Vec<Card> {
    let mut cards = Vec::new();
    while deck.len() > 0 {
        cards.push(deck.draw().unwrap());
    }
    cards
}

#[test]
fn fresh_deck_has_32_cards() {
    let deck = Deck::new();
    assert_eq!(deck.len(), 32);
    assert!(deck.is_complete());
}

#[test]
fn fresh_deck_is_ordered_suit_by_suit() {
    let mut top_first = drain(Deck::new());
    top_first.reverse();
    let in_suit = [
        Rank::Seven,
        Rank::Eight,
        Rank::Nine,
        Rank::Ten,
        Rank::Ace,
        Rank::Queen,
        Rank::King,
        Rank::Jack,
    ];
    for (i, card) in top_first.iter().enumerate() {
        assert_eq!(*card, Card::new(COLORS[i / 8], in_suit[i % 8]));
    }
}

#[test]
fn draw_takes_the_top_card() {
    let mut deck = Deck::new();
    assert_eq!(deck.draw(), Ok(Card::new(Color::Clubs, Rank::Jack)));
    assert_eq!(deck.draw(), Ok(Card::new(Color::Clubs, Rank::King)));
    assert_eq!(deck.len(), 30);
}

#[test]
fn draw_from_an_empty_deck_is_a_fault() {
    let mut deck = Deck::from_cards(Vec::new());
    assert_eq!(deck.draw(), Err(EngineError::EngineFault));
    assert_eq!(deck.len(), 0);
}

#[test]
fn plain_values_follow_the_table() {
    let trump = Color::Hearts;
    let expected = [0, 0, 0, 10, 2, 3, 4, 11];
    for (rank, value) in RANKS.iter().zip(expected.iter()) {
        assert_eq!(Card::new(Color::Spades, *rank).get_value(trump), *value);
    }
}

#[test]
fn trump_values_follow_the_table() {
    let trump = Color::Hearts;
    let expected = [0, 0, 14, 10, 20, 3, 4, 11];
    for (rank, value) in RANKS.iter().zip(expected.iter()) {
        assert_eq!(Card::new(Color::Hearts, *rank).get_value(trump), *value);
    }
}

#[test]
fn plain_order_follows_the_table() {
    let expected = [0, 1, 2, 6, 3, 4, 5, 7];
    for (rank, order) in RANKS.iter().zip(expected.iter()) {
        assert_eq!(Card::new(Color::Spades, *rank).get_order(Color::Clubs), *order);
        assert_eq!(rank.order(false), *order);
    }
}

#[test]
fn trump_order_follows_the_table() {
    let expected = [0, 1, 6, 4, 7, 2, 3, 5];
    for (rank, order) in RANKS.iter().zip(expected.iter()) {
        assert_eq!(Card::new(Color::Clubs, *rank).get_order(Color::Clubs), *order);
        assert_eq!(rank.order(true), *order);
    }
}

#[test]
fn the_pack_is_worth_152_whatever_the_trump() {
    for trump in COLORS.iter() {
        let total: i32 = drain(Deck::new()).iter().map(|c| c.get_value(*trump) as i32).sum();
        assert_eq!(total, 152);
    }
}

#[test]
fn names_and_colors_are_read_back() {
    let names = ["7", "8", "9", "10", "J", "Q", "K", "A"];
    for (rank, name) in RANKS.iter().zip(names.iter()) {
        let card = Card::new(Color::Diamonds, *rank);
        assert_eq!(card.get_name(), *name);
        assert_eq!(card.get_color(), Color::Diamonds);
        assert_eq!(card.get_rank(), *rank);
    }
}

#[test]
fn card_display_joins_pip_and_name() {
    assert_eq!(Card::new(Color::Spades, Rank::Seven).display(), "♠ 7");
    assert_eq!(Card::new(Color::Hearts, Rank::Ten).display(), "♥ 10");
    assert_eq!(Card::new(Color::Diamonds, Rank::Ace).display(), "♦ A");
    assert_eq!(Card::new(Color::Clubs, Rank::Jack).display(), "♣ J");
}

#[test]
fn card_index_is_its_place_in_a_fresh_deck() {
    let mut bottom_first = drain(Deck::new());
    bottom_first.reverse();
    for (i, card) in bottom_first.iter().enumerate() {
        assert_eq!(card.get_index(), i);
    }
}

#[test]
fn shuffle_with_one_seed_gives_one_order() {
    let mut a = Deck::new();
    let mut b = Deck::new();
    a.shuffle(42);
    b.shuffle(42);
    assert_eq!(drain(a), drain(b));
}

#[test]
fn shuffle_changes_the_order() {
    let mut shuffled = Deck::new();
    shuffled.shuffle(7);
    assert_ne!(drain(shuffled), drain(Deck::new()));
}

#[test]
fn shuffle_with_other_seeds_gives_other_orders() {
    let mut a = Deck::new();
    let mut b = Deck::new();
    a.shuffle(1);
    b.shuffle(2);
    assert_ne!(drain(a), drain(b));
}

#[test]
fn shuffle_keeps_every_card() {
    for seed in 0..20u64 {
        let mut deck = Deck::new();
        deck.shuffle(seed);
        assert_eq!(deck.len(), 32);
        assert!(deck.is_complete());
    }
}

#[test]
fn a_short_deck_is_not_complete() {
    let mut deck = Deck::new();
    deck.draw().unwrap();
    assert!(!deck.is_complete());
}

#[test]
fn a_deck_with_a_card_twice_is_not_complete() {
    let mut cards = drain(Deck::new());
    cards[0] = cards[1];
    assert_eq!(cards.len(), 32);
    assert!(!Deck::from_cards(cards).is_complete());
}

#[test]
fn a_pile_keeps_the_order_it_was_given() {
    let cards = vec![
        Card::new(Color::Hearts, Rank::Nine),
        Card::new(Color::Spades, Rank::Ace),
    ];
    let mut deck = Deck::from_cards(cards);
    assert_eq!(deck.draw(), Ok(Card::new(Color::Spades, Rank::Ace)));
    assert_eq!(deck.draw(), Ok(Card::new(Color::Hearts, Rank::Nine)));
}
