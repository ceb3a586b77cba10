use solitaire::card::{Card, Rank, Suit};
use solitaire::deck::create_deck;
use solitaire::validate::{
    all_cards_facing, count_card_in_piles, holds_full_deck, is_foundation_pile, is_tableau_pile,
};

fn up(rank: Rank, suit: Suit) -> Card {
    Card { rank, suit, face_up: true }
}

fn down(rank: Rank, suit: Suit) -> Card {
    Card { rank, suit, face_up: false }
}

#[test]
fn facing_of_a_pile() {
    let pile = vec![up(Rank::Ace, Suit::Hearts), up(Rank::Two, Suit::Hearts)];
    assert!(all_cards_facing(&pile, true));
    assert!(!all_cards_facing(&pile, false));
    let mixed = vec![up(Rank::Ace, Suit::Hearts), down(Rank::Two, Suit::Hearts)];
    assert!(!all_cards_facing(&mixed, true));
    assert!(!all_cards_facing(&mixed, false));
    assert!(all_cards_facing(&Vec::new(), true));
    assert!(all_cards_facing(&Vec::new(), false));
}

#[test]
fn sound_tableau_piles() {
    assert!(is_tableau_pile(&Vec::new()));
    assert!(is_tableau_pile(&vec![down(Rank::Ace, Suit::Hearts)]));
    assert!(is_tableau_pile(&vec![
        down(Rank::Ace, Suit::Hearts),
        down(Rank::Nine, Suit::Hearts),
        up(Rank::Seven, Suit::Hearts),
        up(Rank::Six, Suit::Clubs),
        up(Rank::Five, Suit::Diamonds),
    ]));
    assert!(!is_tableau_pile(&vec![up(Rank::Seven, Suit::Hearts), down(Rank::Six, Suit::Clubs)]));
    assert!(!is_tableau_pile(&vec![up(Rank::Seven, Suit::Hearts), up(Rank::Six, Suit::Diamonds)]));
    assert!(!is_tableau_pile(&vec![
        up(Rank::Seven, Suit::Hearts),
        up(Rank::Six, Suit::Clubs),
        up(Rank::Four, Suit::Diamonds),
    ]));
}

#[test]
fn sound_foundation_piles() {
    assert!(is_foundation_pile(&Vec::new()));
    assert!(is_foundation_pile(&vec![up(Rank::Ace, Suit::Clubs), up(Rank::Two, Suit::Clubs)]));
    let whole: Vec<Card> = (0..13).map(|i| up(Rank::from_index(i).unwrap(), Suit::Spades)).collect();
    assert!(is_foundation_pile(&whole));
    let mut long = whole.clone();
    long.push(up(Rank::King, Suit::Spades));
    assert!(!is_foundation_pile(&long));
    assert!(!is_foundation_pile(&vec![up(Rank::Two, Suit::Clubs)]));
    assert!(!is_foundation_pile(&vec![up(Rank::Ace, Suit::Clubs), up(Rank::Two, Suit::Spades)]));
    assert!(!is_foundation_pile(&vec![up(Rank::Ace, Suit::Clubs), down(Rank::Two, Suit::Clubs)]));
}

#[test]
fn counting_a_card_over_piles() {
    let piles = vec![create_deck(), vec![up(Rank::Ace, Suit::Hearts)], Vec::new(), create_deck()];
    assert_eq!(count_card_in_piles(&piles, Rank::Ace, Suit::Hearts), 3);
    assert_eq!(count_card_in_piles(&piles, Rank::Two, Suit::Hearts), 2);
    assert_eq!(count_card_in_piles(&Vec::new(), Rank::Two, Suit::Hearts), 0);
}

#[test]
fn full_deck_over_the_piles() {
    let deck = create_deck();
    let tableau = vec![deck[0..10].to_vec(), deck[10..20].to_vec()];
    let foundation = vec![deck[20..30].to_vec()];
    let stock = deck[30..45].to_vec();
    let discard = deck[45..52].to_vec();
    assert!(holds_full_deck(&tableau, &foundation, &stock, &discard));
    assert!(!holds_full_deck(&tableau, &foundation, &stock, &deck[45..51].to_vec()));
    assert!(!holds_full_deck(&tableau, &foundation, &stock, &deck[44..52].to_vec()));
    let mut long = create_deck();
    long.extend(create_deck());
    assert!(!holds_full_deck(&Vec::new(), &Vec::new(), &long, &Vec::new()));
    assert!(!holds_full_deck(&vec![long], &Vec::new(), &Vec::new(), &Vec::new()));
}
