use solitaire::layout::{
    card_contains, card_origin, discard_origin, first_card_hit, foundation_origin, hits_discard,
    hits_foundation, hits_stock, hits_tableau_card, stock_origin, tableau_card_origin, CARD_HEIGHT,
    CARD_WIDTH, DRAG_STEP, PILE_GAP, TABLEAU_STEP, TABLEAU_TOP,
};
use solitaire::pile::PileRef;

#[test]
fn card_measures() {
    assert_eq!(CARD_WIDTH, 100);
    assert_eq!(CARD_HEIGHT, 150);
    assert_eq!(PILE_GAP, 50);
    assert_eq!(TABLEAU_TOP, 250);
    assert_eq!(TABLEAU_STEP, 60);
    assert_eq!(DRAG_STEP, 30);
}

#[test]
fn tableau_cards_fan_downwards() {
    assert_eq!(tableau_card_origin(0, 0), (50, 250));
    assert_eq!(tableau_card_origin(2, 3), (350, 430));
    assert_eq!(tableau_card_origin(6, 12), (950, 970));
    assert_eq!(tableau_card_origin(6, 52), (950, 3370));
}

#[test]
fn top_row_places() {
    assert_eq!(stock_origin(), (50, 50));
    assert_eq!(discard_origin(), (200, 50));
    assert_eq!(foundation_origin(0), (500, 50));
    assert_eq!(foundation_origin(1), (650, 50));
    assert_eq!(foundation_origin(3), (950, 50));
}

#[test]
fn card_origin_by_pile() {
    assert_eq!(card_origin(PileRef::Tableau(4), 2), (650, 370));
    assert_eq!(card_origin(PileRef::Foundation(2), 7), (800, 50));
    assert_eq!(card_origin(PileRef::Stock, 20), (50, 50));
    assert_eq!(card_origin(PileRef::Discard, 0), (200, 50));
}

#[test]
fn card_edges_belong_to_the_card() {
    assert!(card_contains(50, 250, 50, 250));
    assert!(card_contains(50, 250, 150, 400));
    assert!(card_contains(50, 250, 100, 300));
    assert!(!card_contains(50, 250, 49, 300));
    assert!(!card_contains(50, 250, 151, 300));
    assert!(!card_contains(50, 250, 100, 249));
    assert!(!card_contains(50, 250, 100, 401));
}

#[test]
fn card_contains_takes_any_point() {
    assert!(!card_contains(0, 0, i32::MIN, i32::MIN));
    assert!(!card_contains(10000, 10000, i32::MAX, i32::MAX));
    assert!(!card_contains(0, 0, -1, 0));
    assert!(card_contains(-50, -75, 0, 0));
    assert!(card_contains(i32::MAX as i64 - 100, i32::MAX as i64 - 150, i32::MAX, i32::MAX));
    assert!(card_contains(i64::MIN, i64::MIN + 1, i32::MIN, i32::MIN) == false);
}

#[test]
fn stock_and_discard_places() {
    assert!(hits_stock(50, 50));
    assert!(hits_stock(150, 200));
    assert!(!hits_stock(151, 100));
    assert!(hits_discard(200, 50));
    assert!(hits_discard(300, 200));
    assert!(!hits_discard(199, 100));
    assert!(!hits_discard(100, 100));
    assert!(!hits_stock(250, 100));
}

#[test]
fn foundation_places() {
    assert!(hits_foundation(0, 500, 50));
    assert!(hits_foundation(0, 600, 200));
    assert!(!hits_foundation(0, 601, 100));
    assert!(hits_foundation(3, 1000, 125));
    assert!(!hits_foundation(1, 550, 100));
}

#[test]
fn tableau_card_hit() {
    assert!(hits_tableau_card(0, 0, 100, 300));
    assert!(hits_tableau_card(1, 2, 200, 370));
    assert!(hits_tableau_card(1, 2, 300, 520));
    assert!(!hits_tableau_card(1, 2, 200, 369));
    assert!(!hits_tableau_card(1, 2, 199, 400));
}

#[test]
fn lowest_card_under_the_point_is_hit() {
    assert_eq!(first_card_hit(0, 1, 100, 300), Some(0));
    // Cards 0, 1 and 2 all lie under y = 380; the lowest counts.
    assert_eq!(first_card_hit(0, 3, 100, 380), Some(0));
    // Below card 0, cards 1 and 2 are left.
    assert_eq!(first_card_hit(0, 3, 100, 401), Some(1));
    assert_eq!(first_card_hit(0, 3, 100, 461), Some(2));
    assert_eq!(first_card_hit(0, 3, 100, 520), Some(2));
    assert_eq!(first_card_hit(0, 3, 100, 521), None);
    assert_eq!(first_card_hit(0, 3, 100, 249), None);
    assert_eq!(first_card_hit(0, 3, 151, 300), None);
    assert_eq!(first_card_hit(0, 0, 100, 300), None);
    assert_eq!(first_card_hit(3, 2, 500, 300), Some(0));
}
