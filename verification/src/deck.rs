//! The deck: the fifty-two cards in their fresh order, the test that a
//! sequence of cards is a whole deck, and the shuffle.

use vstd::prelude::*;
use vstd::multiset::Multiset;
use rand::seq::SliceRandom;
use crate::card::{
    lemma_rank_index_round_trip, lemma_suit_index_round_trip, Card, CardId, Rank, Suit,
};
use crate::pile::{
    ids_of, lemma_permutation_keeps_ids, lemma_pile_ids_empty, lemma_pile_ids_len,
    lemma_pile_ids_push, pile_ids,
};

verus! {

/// The card at position `i` of a fresh deck: suit by suit, ace to king
/// within each suit, face down.
pub open spec fn fresh_card(i: int) -> Card {
    Card {
        rank: Rank::spec_from_index(i % 13),
        suit: Suit::spec_from_index(i / 13),
        face_up: false,
    }
}

/// A fresh deck of fifty-two cards.
pub open spec fn fresh_deck() -> Seq<Card> {
    Seq::new(52, |i: int| fresh_card(i))
}

/// Where a card lies in a fresh deck.
pub open spec fn fresh_position(id: CardId) -> int {
    id.1.spec_index() * 13 + id.0.spec_index()
}

/// The bag that holds each of the fifty-two cards once.
pub open spec fn full_deck() -> Multiset<CardId> {
    pile_ids(fresh_deck())
}

/// The cards are a whole deck in some order: each of the fifty-two cards
/// once, whichever way up.
pub open spec fn is_full_deck(deck: Seq<Card>) -> bool {
    pile_ids(deck) == full_deck()
}

/// The full deck holds every card exactly once: fifty-two in all.
pub proof fn lemma_full_deck_counts()
    ensures
        forall|id: CardId| #[trigger] full_deck().count(id) == 1,
        full_deck().len() == 52,
{
    lemma_rank_index_round_trip();
    lemma_suit_index_round_trip();
    let ids = ids_of(fresh_deck());
    assert forall|i: int, j: int| 0 <= i < ids.len() && 0 <= j < ids.len() && i != j implies ids[i]
        != ids[j] by {}
    ids.lemma_multiset_has_no_duplicates();
    ids.to_multiset_ensures();
    assert forall|id: CardId| #[trigger] full_deck().count(id) == 1 by {
        let p = fresh_position(id);
        assert(ids[p] == id);
    }
    lemma_pile_ids_len(fresh_deck());
}

/// A whole deck has fifty-two cards.
pub proof fn lemma_full_deck_len(deck: Seq<Card>)
    requires
        is_full_deck(deck),
    ensures
        deck.len() == 52,
{
    lemma_full_deck_counts();
    lemma_pile_ids_len(deck);
}

/// The fifty-two cards in their fresh order, all face down.
pub fn create_deck() -> (deck: Vec<Card>)
    ensures
        deck@ == fresh_deck(),
{
    let mut deck: Vec<Card> = Vec::new();
    let mut i: u8 = 0;
    while i < 52
        invariant
            i <= 52,
            deck@.len() == i,
            forall|k: int| 0 <= k < i ==> deck@[k] == fresh_card(k),
        decreases 52 - i,
    {
        let rank = Rank::from_index(i % 13);
        let suit = Suit::from_index(i / 13);
        match (rank, suit) {
            (Some(rank), Some(suit)) => {
                deck.push(Card::new(rank, suit));
            },
            _ => {
                assert(false);
            },
        }
        i += 1;
    }
    deck
}

/// How often the card of the given rank and suit lies in the pile.
pub fn count_card(pile: &Vec<Card>, rank: Rank, suit: Suit) -> (count: usize)
    ensures
        count == pile_ids(pile@).count((rank, suit)),
{
    broadcast use vstd::multiset::group_multiset_axioms;

    let mut count: usize = 0;
    let mut i: usize = 0;
    proof {
        assert(pile@.subrange(0, 0) =~= Seq::<Card>::empty());
        lemma_pile_ids_empty();
    }
    while i < pile.len()
        invariant
            i <= pile@.len(),
            count <= i,
            count == pile_ids(pile@.subrange(0, i as int)).count((rank, suit)),
        decreases pile@.len() - i,
    {
        proof {
            assert(pile@.subrange(0, i + 1) =~= pile@.subrange(0, i as int).push(pile@[i as int]));
            lemma_pile_ids_push(pile@.subrange(0, i as int), pile@[i as int]);
        }
        if pile[i].rank == rank && pile[i].suit == suit {
            count += 1;
        }
        i += 1;
    }
    assert(pile@.subrange(0, i as int) =~= pile@);
    count
}

/// Whether the cards are a whole deck in some order.
pub fn is_complete_deck(deck: &Vec<Card>) -> (complete: bool)
    ensures
        complete == is_full_deck(deck@),
{
    proof {
        lemma_full_deck_counts();
        lemma_pile_ids_len(deck@);
        lemma_rank_index_round_trip();
        lemma_suit_index_round_trip();
    }
    if deck.len() != 52 {
        return false;
    }
    let mut i: u8 = 0;
    while i < 52
        invariant
            i <= 52,
            forall|id: CardId| #[trigger] full_deck().count(id) == 1,
            forall|id: CardId| fresh_position(id) < i ==> #[trigger] pile_ids(deck@).count(id) == 1,
        decreases 52 - i,
    {
        let rank = Rank::from_index(i % 13);
        let suit = Suit::from_index(i / 13);
        match (rank, suit) {
            (Some(rank), Some(suit)) => {
                if count_card(deck, rank, suit) != 1 {
                    return false;
                }
                assert forall|id: CardId| fresh_position(id) < i + 1 implies #[trigger] pile_ids(
                    deck@,
                ).count(id) == 1 by {}
            },
            _ => {
                assert(false);
            },
        }
        i += 1;
    }
    proof {
        assert forall|id: CardId| #[trigger] pile_ids(deck@).count(id) == 1 by {}
        assert(pile_ids(deck@) =~= full_deck());
    }
    true
}

/// Puts the cards in a random order with `SliceRandom::shuffle`, drawing on
/// `rand::thread_rng`. The shuffle only swaps elements of the slice, so the
/// same cards come out, each as often as it went in; which order comes out
/// is not stated. The thread's generator needs the system's random source.
#[verifier::external_body]
fn shuffle_in_place(deck: &mut Vec<Card>)
    ensures
        final(deck)@.to_multiset() == old(deck)@.to_multiset(),
{
    deck.shuffle(&mut rand::thread_rng());
}

/// Shuffles the cards. The result holds the same cards, each the same way
/// up; the order is left to chance.
pub fn shuffle(deck: Vec<Card>) -> (shuffled: Vec<Card>)
    ensures
        shuffled@.to_multiset() == deck@.to_multiset(),
        shuffled@.len() == deck@.len(),
        pile_ids(shuffled@) == pile_ids(deck@),
{
    let mut cards = deck;
    shuffle_in_place(&mut cards);
    proof {
        lemma_permutation_keeps_ids(cards@, deck@);
        vstd::seq_lib::to_multiset_len(cards@);
        vstd::seq_lib::to_multiset_len(deck@);
    }
    cards
}

} // verus!
