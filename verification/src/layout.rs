//! Where the piles lie on the canvas, in whole canvas units, and which card a
//! point falls on. The stock, the discard pile and the four foundations share
//! the top row; the seven tableau piles fan downwards below it.

use vstd::prelude::*;
use crate::pile::PileRef;

verus! {

/// Width of a card.
pub const CARD_WIDTH: i64 = 100;

/// Height of a card.
pub const CARD_HEIGHT: i64 = 150;

/// Free space between two piles, and between the canvas edge and the first.
pub const PILE_GAP: i64 = 50;

/// Distance from the left edge of one pile to that of the next.
pub const PILE_PITCH: i64 = 150;

/// Left edge of the first foundation pile.
pub const FOUNDATION_LEFT: i64 = 500;

/// Left edge of the discard pile.
pub const DISCARD_LEFT: i64 = 200;

/// Upper edge of the bottom card of a tableau pile.
pub const TABLEAU_TOP: i64 = 250;

/// How far each further card of a tableau pile lies below the one under it.
pub const TABLEAU_STEP: i64 = 60;

/// How far each further card of a lifted run hangs below the one before it.
pub const DRAG_STEP: i64 = 30;

/// The tableau has seven piles.
pub const TABLEAU_PILES: usize = 7;

/// There are four foundations.
pub const FOUNDATION_PILES: usize = 4;

/// No pile ever holds more cards than the deck has.
pub const DECK_SIZE: usize = 52;

/// The point lies on a card whose upper left corner is at `(left, top)`. The
/// four edges belong to the card.
pub open spec fn in_card(left: int, top: int, x: int, y: int) -> bool {
    left <= x <= left + CARD_WIDTH && top <= y <= top + CARD_HEIGHT
}

/// Left edge of tableau pile `pile`.
pub open spec fn tableau_left(pile: int) -> int {
    PILE_GAP + pile * PILE_PITCH
}

/// Upper edge of the card at `index` of a tableau pile.
pub open spec fn tableau_card_top(index: int) -> int {
    TABLEAU_TOP + index * TABLEAU_STEP
}

/// Left edge of foundation pile `pile`.
pub open spec fn foundation_left(pile: int) -> int {
    FOUNDATION_LEFT + pile * PILE_PITCH
}

/// The point lies on the card at `index` of tableau pile `pile`.
pub open spec fn on_tableau_card(pile: int, index: int, x: int, y: int) -> bool {
    in_card(tableau_left(pile), tableau_card_top(index), x, y)
}

/// The point lies on the place of foundation pile `pile`.
pub open spec fn on_foundation(pile: int, x: int, y: int) -> bool {
    in_card(foundation_left(pile), PILE_GAP as int, x, y)
}

/// The point lies on the place of the stock.
pub open spec fn on_stock(x: int, y: int) -> bool {
    in_card(PILE_GAP as int, PILE_GAP as int, x, y)
}

/// The point lies on the place of the discard pile.
pub open spec fn on_discard(x: int, y: int) -> bool {
    in_card(DISCARD_LEFT as int, PILE_GAP as int, x, y)
}

/// Upper left corner of the card at `index` of the pile. In the top row only
/// the top card of a pile is seen, and every card of the pile has its place.
pub open spec fn origin_of(pile: PileRef, index: int) -> (int, int) {
    match pile {
        PileRef::Tableau(i) => (tableau_left(i as int), tableau_card_top(index)),
        PileRef::Foundation(i) => (foundation_left(i as int), PILE_GAP as int),
        PileRef::Stock => (PILE_GAP as int, PILE_GAP as int),
        PileRef::Discard => (DISCARD_LEFT as int, PILE_GAP as int),
    }
}

/// The lowest card of a tableau pile of `len` cards, from `from` upwards,
/// that the point lies on. Cards overlap, and the one nearest the bottom of
/// the pile is the one that counts.
pub open spec fn first_card_at(pile: int, len: int, x: int, y: int, from: int) -> Option<int>
    decreases len - from,
{
    if from >= len {
        None
    } else if on_tableau_card(pile, from, x, y) {
        Some(from)
    } else {
        first_card_at(pile, len, x, y, from + 1)
    }
}

/// `first_card_at` finds a card under the point, none below it is under the
/// point, and it finds one whenever there is one.
pub proof fn lemma_first_card_at(pile: int, len: int, x: int, y: int, from: int)
    requires
        0 <= from,
    ensures
        match first_card_at(pile, len, x, y, from) {
            Some(k) => from <= k < len && on_tableau_card(pile, k, x, y) && forall|j: int|
                from <= j < k ==> !on_tableau_card(pile, j, x, y),
            None => forall|j: int| from <= j < len ==> !on_tableau_card(pile, j, x, y),
        },
    decreases len - from,
{
    if from < len && !on_tableau_card(pile, from, x, y) {
        lemma_first_card_at(pile, len, x, y, from + 1);
    }
}

/// Whether the point lies on a card whose upper left corner is at
/// `(left, top)`.
pub fn card_contains(left: i64, top: i64, x: i32, y: i32) -> (inside: bool)
    requires
        left + CARD_WIDTH <= i64::MAX,
        top + CARD_HEIGHT <= i64::MAX,
    ensures
        inside == in_card(left as int, top as int, x as int, y as int),
{
    let px: i64 = x as i64;
    let py: i64 = y as i64;
    left <= px && px <= left + CARD_WIDTH && top <= py && py <= top + CARD_HEIGHT
}

/// Upper left corner of the card at `index` of tableau pile `pile`.
pub fn tableau_card_origin(pile: usize, index: usize) -> (origin: (i64, i64))
    requires
        pile < TABLEAU_PILES,
        index <= DECK_SIZE,
    ensures
        origin.0 == tableau_left(pile as int),
        origin.1 == tableau_card_top(index as int),
        0 <= origin.0 <= 10000,
        0 <= origin.1 <= 10000,
{
    (PILE_GAP + (pile as i64) * PILE_PITCH, TABLEAU_TOP + (index as i64) * TABLEAU_STEP)
}

/// Upper left corner of foundation pile `pile`.
pub fn foundation_origin(pile: usize) -> (origin: (i64, i64))
    requires
        pile < FOUNDATION_PILES,
    ensures
        origin.0 == foundation_left(pile as int),
        origin.1 == PILE_GAP,
        0 <= origin.0 <= 10000,
{
    (FOUNDATION_LEFT + (pile as i64) * PILE_PITCH, PILE_GAP)
}

/// Upper left corner of the stock.
pub fn stock_origin() -> (origin: (i64, i64))
    ensures
        origin == (PILE_GAP, PILE_GAP),
{
    (PILE_GAP, PILE_GAP)
}

/// Upper left corner of the discard pile.
pub fn discard_origin() -> (origin: (i64, i64))
    ensures
        origin == (DISCARD_LEFT, PILE_GAP),
{
    (DISCARD_LEFT, PILE_GAP)
}

/// Upper left corner of the card at `index` of the pile.
pub fn card_origin(pile: PileRef, index: usize) -> (origin: (i64, i64))
    requires
        index <= DECK_SIZE,
        match pile {
            PileRef::Tableau(i) => i < TABLEAU_PILES,
            PileRef::Foundation(i) => i < FOUNDATION_PILES,
            _ => true,
        },
    ensures
        (origin.0 as int, origin.1 as int) == origin_of(pile, index as int),
        0 <= origin.0 <= 10000,
        0 <= origin.1 <= 10000,
{
    match pile {
        PileRef::Tableau(i) => tableau_card_origin(i, index),
        PileRef::Foundation(i) => foundation_origin(i),
        PileRef::Stock => stock_origin(),
        PileRef::Discard => discard_origin(),
    }
}

/// Whether the point lies on the card at `index` of tableau pile `pile`.
pub fn hits_tableau_card(pile: usize, index: usize, x: i32, y: i32) -> (hit: bool)
    requires
        pile < TABLEAU_PILES,
        index <= DECK_SIZE,
    ensures
        hit == on_tableau_card(pile as int, index as int, x as int, y as int),
{
    let origin = tableau_card_origin(pile, index);
    card_contains(origin.0, origin.1, x, y)
}

/// Whether the point lies on the place of foundation pile `pile`.
pub fn hits_foundation(pile: usize, x: i32, y: i32) -> (hit: bool)
    requires
        pile < FOUNDATION_PILES,
    ensures
        hit == on_foundation(pile as int, x as int, y as int),
{
    let origin = foundation_origin(pile);
    card_contains(origin.0, origin.1, x, y)
}

/// Whether the point lies on the place of the stock.
pub fn hits_stock(x: i32, y: i32) -> (hit: bool)
    ensures
        hit == on_stock(x as int, y as int),
{
    card_contains(PILE_GAP, PILE_GAP, x, y)
}

/// Whether the point lies on the place of the discard pile.
pub fn hits_discard(x: i32, y: i32) -> (hit: bool)
    ensures
        hit == on_discard(x as int, y as int),
{
    card_contains(DISCARD_LEFT, PILE_GAP, x, y)
}

/// The lowest card of a tableau pile of `len` cards that the point lies on.
pub fn first_card_hit(pile: usize, len: usize, x: i32, y: i32) -> (hit: Option<usize>)
    requires
        pile < TABLEAU_PILES,
        len <= DECK_SIZE,
    ensures
        match hit {
            Some(k) => first_card_at(pile as int, len as int, x as int, y as int, 0) == Some(
                k as int,
            ),
            None => first_card_at(pile as int, len as int, x as int, y as int, 0).is_none(),
        },
{
    let mut k: usize = 0;
    while k < len
        invariant
            pile < TABLEAU_PILES,
            len <= DECK_SIZE,
            k <= len,
            first_card_at(pile as int, len as int, x as int, y as int, 0) == first_card_at(
                pile as int,
                len as int,
                x as int,
                y as int,
                k as int,
            ),
        decreases len - k,
    {
        if hits_tableau_card(pile, k, x, y) {
            return Some(k);
        }
        k += 1;
    }
    None
}

} // verus!
