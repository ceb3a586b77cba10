use solitaire::card::{Card, Rank, Suit};
use solitaire::rules::{
    can_start_foundation, can_start_tableau, is_red, is_valid_foundation_move,
    is_valid_stack_move, is_valid_tableau_move,
};

fn up(rank: Rank, suit: Suit) -> Card {
    Card { rank, suit, face_up: true }
}

#[test]
fn foundation_takes_two_of_hearts_on_ace_of_hearts() {
    assert!(is_valid_foundation_move(&up(Rank::Two, Suit::Hearts), &up(Rank::Ace, Suit::Hearts)));
}

#[test]
fn foundation_refuses_another_suit() {
    assert!(!is_valid_foundation_move(&up(Rank::Two, Suit::Spades), &up(Rank::Ace, Suit::Hearts)));
}

#[test]
fn foundation_refuses_a_rank_gap() {
    assert!(!is_valid_foundation_move(&up(Rank::Three, Suit::Hearts), &up(Rank::Ace, Suit::Hearts)));
}

#[test]
fn foundation_refuses_descending_and_equal_ranks() {
    assert!(!is_valid_foundation_move(&up(Rank::Ace, Suit::Hearts), &up(Rank::Two, Suit::Hearts)));
    assert!(!is_valid_foundation_move(&up(Rank::Two, Suit::Hearts), &up(Rank::Two, Suit::Hearts)));
    assert!(is_valid_foundation_move(&up(Rank::King, Suit::Clubs), &up(Rank::Queen, Suit::Clubs)));
    assert!(is_valid_foundation_move(&up(Rank::Jack, Suit::Diamonds), &up(Rank::Ten, Suit::Diamonds)));
}

#[test]
fn ace_starts_a_foundation_and_king_does_not() {
    for suit in [Suit::Hearts, Suit::Diamonds, Suit::Clubs, Suit::Spades] {
        assert!(can_start_foundation(&up(Rank::Ace, suit)));
        assert!(!can_start_foundation(&up(Rank::King, suit)));
        assert!(!can_start_foundation(&up(Rank::Two, suit)));
    }
}

#[test]
fn tableau_takes_six_of_spades_on_seven_of_hearts() {
    assert!(is_valid_tableau_move(&up(Rank::Six, Suit::Spades), &up(Rank::Seven, Suit::Hearts)));
}

#[test]
fn tableau_refuses_the_same_colour() {
    assert!(!is_valid_tableau_move(&up(Rank::Six, Suit::Hearts), &up(Rank::Seven, Suit::Diamonds)));
    assert!(!is_valid_tableau_move(&up(Rank::Six, Suit::Hearts), &up(Rank::Seven, Suit::Hearts)));
    assert!(!is_valid_tableau_move(&up(Rank::Six, Suit::Clubs), &up(Rank::Seven, Suit::Spades)));
}

#[test]
fn tableau_refuses_wrong_rank_steps() {
    assert!(!is_valid_tableau_move(&up(Rank::Seven, Suit::Spades), &up(Rank::Six, Suit::Hearts)));
    assert!(!is_valid_tableau_move(&up(Rank::Five, Suit::Spades), &up(Rank::Seven, Suit::Hearts)));
    assert!(!is_valid_tableau_move(&up(Rank::Seven, Suit::Spades), &up(Rank::Seven, Suit::Hearts)));
    assert!(!is_valid_tableau_move(&up(Rank::King, Suit::Spades), &up(Rank::Ace, Suit::Hearts)));
    assert!(is_valid_tableau_move(&up(Rank::Queen, Suit::Diamonds), &up(Rank::King, Suit::Clubs)));
    assert!(is_valid_tableau_move(&up(Rank::Ace, Suit::Clubs), &up(Rank::Two, Suit::Diamonds)));
    assert!(is_valid_tableau_move(&up(Rank::Ten, Suit::Hearts), &up(Rank::Jack, Suit::Spades)));
}

#[test]
fn tableau_rule_does_not_look_at_orientation() {
    let card = Card { rank: Rank::Six, suit: Suit::Spades, face_up: false };
    let target = Card { rank: Rank::Seven, suit: Suit::Hearts, face_up: false };
    assert!(is_valid_tableau_move(&card, &target));
}

#[test]
fn only_a_king_starts_a_tableau_pile() {
    let ranks = [
        Rank::Ace,
        Rank::Two,
        Rank::Three,
        Rank::Four,
        Rank::Five,
        Rank::Six,
        Rank::Seven,
        Rank::Eight,
        Rank::Nine,
        Rank::Ten,
        Rank::Jack,
        Rank::Queen,
        Rank::King,
    ];
    for rank in ranks {
        assert_eq!(can_start_tableau(&up(rank, Suit::Clubs)), rank == Rank::King);
    }
}

#[test]
fn stack_move_goes_by_the_bottom_card() {
    let run = vec![up(Rank::Six, Suit::Spades), up(Rank::Five, Suit::Hearts), up(Rank::Four, Suit::Clubs)];
    assert!(is_valid_stack_move(&run, &up(Rank::Seven, Suit::Diamonds)));
    assert!(!is_valid_stack_move(&run, &up(Rank::Seven, Suit::Clubs)));
    assert!(!is_valid_stack_move(&run, &up(Rank::Five, Suit::Diamonds)));
    let broken = vec![up(Rank::Six, Suit::Spades), up(Rank::Two, Suit::Spades)];
    assert!(is_valid_stack_move(&broken, &up(Rank::Seven, Suit::Hearts)));
}

#[test]
fn hearts_and_diamonds_are_red() {
    assert!(is_red(&up(Rank::Ace, Suit::Hearts)));
    assert!(is_red(&up(Rank::Ace, Suit::Diamonds)));
    assert!(!is_red(&up(Rank::Ace, Suit::Clubs)));
    assert!(!is_red(&up(Rank::Ace, Suit::Spades)));
    assert!(Suit::Hearts.is_red());
    assert!(!Suit::Spades.is_red());
}

#[test]
fn ranks_are_ordered_ace_low() {
    let ranks = [
        Rank::Ace,
        Rank::Two,
        Rank::Three,
        Rank::Four,
        Rank::Five,
        Rank::Six,
        Rank::Seven,
        Rank::Eight,
        Rank::Nine,
        Rank::Ten,
        Rank::Jack,
        Rank::Queen,
        Rank::King,
    ];
    for (i, rank) in ranks.iter().enumerate() {
        assert_eq!(rank.index() as usize, i);
        assert_eq!(Rank::from_index(i as u8), Some(*rank));
    }
    assert_eq!(Rank::from_index(13), None);
    assert_eq!(Rank::from_index(255), None);
}

#[test]
fn suits_are_ordered_as_in_a_fresh_deck() {
    let suits = [Suit::Hearts, Suit::Diamonds, Suit::Clubs, Suit::Spades];
    for (i, suit) in suits.iter().enumerate() {
        assert_eq!(suit.index() as usize, i);
        assert_eq!(Suit::from_index(i as u8), Some(*suit));
    }
    assert_eq!(Suit::from_index(4), None);
}

#[test]
fn names_follow_the_artwork() {
    assert_eq!(Suit::Hearts.name(), "hearts");
    assert_eq!(Suit::Diamonds.name(), "diamonds");
    assert_eq!(Suit::Clubs.name(), "clubs");
    assert_eq!(Suit::Spades.name(), "spades");
    let names = ["A", "2", "3", "4", "5", "6", "7", "8", "9", "10", "J", "Q", "K"];
    for (i, name) in names.iter().enumerate() {
        assert_eq!(Rank::from_index(i as u8).unwrap().name(), *name);
    }
}

#[test]
fn image_key_joins_suit_and_rank() {
    assert_eq!(up(Rank::Ace, Suit::Hearts).image_key(), "hearts_A");
    assert_eq!(up(Rank::Ten, Suit::Spades).image_key(), "spades_10");
    assert_eq!(up(Rank::Queen, Suit::Diamonds).image_key(), "diamonds_Q");
    assert_eq!(up(Rank::Two, Suit::Clubs).image_key(), "clubs_2");
}

#[test]
fn image_key_of_a_face_down_card_is_the_cover() {
    assert_eq!(Card::new(Rank::Ace, Suit::Hearts).image_key(), "cover");
    assert_eq!(up(Rank::King, Suit::Clubs).turned(false).image_key(), "cover");
}

#[test]
fn new_card_is_face_down_and_turns() {
    let card = Card::new(Rank::Seven, Suit::Clubs);
    assert_eq!(card, Card { rank: Rank::Seven, suit: Suit::Clubs, face_up: false });
    assert_eq!(card.turned(true), Card { rank: Rank::Seven, suit: Suit::Clubs, face_up: true });
    assert_eq!(card.turned(true).turned(false), card);
}
