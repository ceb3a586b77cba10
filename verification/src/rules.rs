//! The rules of play: which card may be laid on which. Every function here
//! looks at the cards alone and changes nothing.

use vstd::prelude::*;
use crate::card::{Card, Rank};

verus! {

/// A card is red when its suit is hearts or diamonds.
pub open spec fn spec_is_red(card: Card) -> bool {
    card.suit.spec_is_red()
}

/// On the tableau a card goes on a target one rank higher and of the other
/// colour.
pub open spec fn tableau_move_ok(card: Card, target: Card) -> bool {
    card.rank.spec_index() + 1 == target.rank.spec_index() && spec_is_red(card) != spec_is_red(
        target,
    )
}

/// On a foundation a card goes on a target one rank lower and of its own
/// suit.
pub open spec fn foundation_move_ok(card: Card, target: Card) -> bool {
    card.rank.spec_index() == target.rank.spec_index() + 1 && card.suit == target.suit
}

/// Only a king opens an empty tableau pile.
pub open spec fn opens_tableau(card: Card) -> bool {
    card.rank == Rank::King
}

/// Only an ace opens an empty foundation pile.
pub open spec fn opens_foundation(card: Card) -> bool {
    card.rank == Rank::Ace
}

/// A lifted run goes where its bottom card goes.
pub open spec fn stack_move_ok(cards: Seq<Card>, target: Card) -> bool
    recommends
        cards.len() > 0,
{
    tableau_move_ok(cards[0], target)
}

/// Card `k + 1` of the sequence may lie on card `k` by the tableau rule.
pub open spec fn lies_well(cards: Seq<Card>, k: int) -> bool {
    tableau_move_ok(cards[k + 1], cards[k])
}

/// The cards all show their face, and each lies on one that it may lie on by
/// the tableau rule.
pub open spec fn is_run(cards: Seq<Card>) -> bool {
    &&& forall|i: int| 0 <= i < cards.len() ==> (#[trigger] cards[i]).face_up
    &&& forall|i: int| 0 <= i < cards.len() - 1 ==> #[trigger] lies_well(cards, i)
}

/// Whether the card is red.
pub fn is_red(card: &Card) -> (red: bool)
    ensures
        red == spec_is_red(*card),
{
    card.suit.is_red()
}

/// Whether `card` may be laid on `target` in the tableau: one rank lower,
/// the other colour.
pub fn is_valid_tableau_move(card: &Card, target: &Card) -> (ok: bool)
    ensures
        ok == tableau_move_ok(*card, *target),
{
    card.rank.index() + 1 == target.rank.index() && is_red(card) != is_red(target)
}

/// Whether `card` may be laid on `target` on a foundation: one rank higher,
/// the same suit.
pub fn is_valid_foundation_move(card: &Card, target: &Card) -> (ok: bool)
    ensures
        ok == foundation_move_ok(*card, *target),
{
    card.rank.index() == target.rank.index() + 1 && card.suit == target.suit
}

/// Whether the run may be laid on `target` in the tableau: decided by its
/// lowest card alone.
pub fn is_valid_stack_move(cards: &Vec<Card>, target: &Card) -> (ok: bool)
    requires
        cards@.len() > 0,
    ensures
        ok == stack_move_ok(cards@, *target),
{
    is_valid_tableau_move(&cards[0], target)
}

/// Whether the card may open an empty tableau pile: only a king.
pub fn can_start_tableau(card: &Card) -> (ok: bool)
    ensures
        ok == opens_tableau(*card),
{
    card.rank == Rank::King
}

/// Whether the card may open an empty foundation: only an ace.
pub fn can_start_foundation(card: &Card) -> (ok: bool)
    ensures
        ok == opens_foundation(*card),
{
    card.rank == Rank::Ace
}

} // verus!
