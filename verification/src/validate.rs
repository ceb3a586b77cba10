//! Tests, at run time, of what a sound table asks of its piles.

use vstd::prelude::*;
use crate::card::{
    lemma_rank_index_round_trip, lemma_suit_index_round_trip, Card, CardId, Rank, Suit,
};
use crate::deck::{count_card, fresh_position, full_deck, lemma_full_deck_counts};
use crate::pile::{all_facing, lemma_pile_ids_len, pile_ids, piles_ids};
use crate::rules::is_valid_tableau_move;
use crate::table::{carries_well, foundation_pile_ok, tableau_pile_ok};

verus! {

/// The piles of a row as sequences of cards.
pub open spec fn piles_view(piles: Seq<Vec<Card>>) -> Seq<Seq<Card>> {
    piles.map_values(|pile: Vec<Card>| pile@)
}

/// Whether every card of the pile lies as `face_up` says.
pub fn all_cards_facing(pile: &Vec<Card>, face_up: bool) -> (ok: bool)
    ensures
        ok == all_facing(pile@, face_up),
{
    let mut i: usize = 0;
    while i < pile.len()
        invariant
            i <= pile@.len(),
            forall|k: int| 0 <= k < i ==> (#[trigger] pile@[k]).face_up == face_up,
        decreases pile@.len() - i,
    {
        if pile[i].face_up != face_up {
            return false;
        }
        i += 1;
    }
    true
}

/// Whether the pile is a sound tableau pile: face-down cards below a run.
pub fn is_tableau_pile(pile: &Vec<Card>) -> (ok: bool)
    ensures
        ok == tableau_pile_ok(pile@),
{
    if pile.len() < 2 {
        return true;
    }
    let mut k: usize = 0;
    while k < pile.len() - 1
        invariant
            pile@.len() >= 2,
            k <= pile@.len() - 1,
            forall|m: int| 0 <= m < k ==> #[trigger] carries_well(pile@, m),
        decreases pile@.len() - k,
    {
        if pile[k].face_up && !(pile[k + 1].face_up && is_valid_tableau_move(&pile[k + 1], &pile[k])) {
            assert(!carries_well(pile@, k as int));
            return false;
        }
        k += 1;
    }
    true
}

/// Whether the pile is a sound foundation pile: one suit, counting up from
/// the ace, faces showing.
pub fn is_foundation_pile(pile: &Vec<Card>) -> (ok: bool)
    ensures
        ok == foundation_pile_ok(pile@),
{
    let mut k: usize = 0;
    while k < pile.len()
        invariant
            k <= pile@.len(),
            k <= 13,
            forall|m: int|
                0 <= m < k ==> (#[trigger] pile@[m]).face_up && pile@[m].rank.spec_index() == m
                    && pile@[m].suit == pile@[0].suit,
        decreases pile@.len() - k,
    {
        if k >= 13 || !pile[k].face_up || pile[k].rank.index() as usize != k || pile[k].suit
            != pile[0].suit {
            return false;
        }
        k += 1;
    }
    true
}

/// How often the card of the given rank and suit lies in the row of piles.
pub fn count_card_in_piles(piles: &Vec<Vec<Card>>, rank: Rank, suit: Suit) -> (count: u128)
    ensures
        count == piles_ids(piles_view(piles@)).count((rank, suit)),
{
    broadcast use vstd::multiset::group_multiset_axioms;

    let ghost row = piles_view(piles@);
    let mut count: u128 = 0;
    let mut i: usize = 0;
    while i < piles.len()
        invariant
            i <= piles@.len(),
            row == piles_view(piles@),
            count <= i * 0xffff_ffff_ffff_ffff,
            count == piles_ids(row.subrange(0, i as int)).count((rank, suit)),
        decreases piles@.len() - i,
    {
        proof {
            let upto = row.subrange(0, i + 1);
            assert(upto.drop_last() =~= row.subrange(0, i as int));
            lemma_pile_ids_len(piles@[i as int]@);
        }
        let here = count_card(&piles[i], rank, suit);
        count += here as u128;
        i += 1;
    }
    assert(row.subrange(0, i as int) =~= row);
    count
}

/// Whether the four groups of piles hold the fifty-two cards of the deck,
/// each once.
pub fn holds_full_deck(
    tableau: &Vec<Vec<Card>>,
    foundation: &Vec<Vec<Card>>,
    stock: &Vec<Card>,
    discard: &Vec<Card>,
) -> (ok: bool)
    ensures
        ok == (piles_ids(piles_view(tableau@)).add(piles_ids(piles_view(foundation@))).add(
            pile_ids(stock@),
        ).add(pile_ids(discard@)) == full_deck()),
{
    broadcast use vstd::multiset::group_multiset_axioms;

    let ghost all = piles_ids(piles_view(tableau@)).add(piles_ids(piles_view(foundation@))).add(
        pile_ids(stock@),
    ).add(pile_ids(discard@));
    proof {
        lemma_full_deck_counts();
        lemma_rank_index_round_trip();
        lemma_suit_index_round_trip();
    }
    let mut i: u8 = 0;
    while i < 52
        invariant
            i <= 52,
            all == piles_ids(piles_view(tableau@)).add(piles_ids(piles_view(foundation@))).add(
                pile_ids(stock@),
            ).add(pile_ids(discard@)),
            forall|id: CardId| #[trigger] full_deck().count(id) == 1,
            forall|id: CardId| fresh_position(id) < i ==> #[trigger] all.count(id) == 1,
        decreases 52 - i,
    {
        let rank = Rank::from_index(i % 13);
        let suit = Suit::from_index(i / 13);
        match (rank, suit) {
            (Some(rank), Some(suit)) => {
                let on_tableau = count_card_in_piles(tableau, rank, suit);
                let on_foundation = count_card_in_piles(foundation, rank, suit);
                let in_stock = count_card(stock, rank, suit);
                let in_discard = count_card(discard, rank, suit);
                assert(on_tableau + on_foundation + in_stock + in_discard == all.count((rank, suit)));
                if on_tableau > 1 || on_foundation > 1 || in_stock > 1 || in_discard > 1 {
                    return false;
                }
                if on_tableau + on_foundation + in_stock as u128 + in_discard as u128 != 1 {
                    return false;
                }
                assert forall|id: CardId| fresh_position(id) < i + 1 implies #[trigger] all.count(
                    id,
                ) == 1 by {}
            },
            _ => {
                assert(false);
            },
        }
        i += 1;
    }
    proof {
        assert forall|id: CardId| #[trigger] all.count(id) == 1 by {}
        assert(all =~= full_deck());
    }
    true
}

} // verus!
