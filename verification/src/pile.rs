//! Piles as sequences of cards, and the bag of card identities that a pile
//! or a row of piles holds. The top of a pile is its last card.

use vstd::prelude::*;
use vstd::multiset::Multiset;
use vstd::seq_lib::{lemma_multiset_commutative, to_multiset_build, to_multiset_remove};
use crate::card::{Card, CardId};

verus! {

/// One of the thirteen piles of the table.
#[derive(Clone, Copy, Debug, PartialEq, Eq, Structural)]
pub enum PileRef {
    /// One of the seven tableau piles, `0..7`.
    Tableau(usize),
    /// One of the four foundation piles, `0..4`.
    Foundation(usize),
    Stock,
    Discard,
}

/// The identities of the cards of a pile, bottom first.
pub open spec fn ids_of(pile: Seq<Card>) -> Seq<CardId> {
    pile.map_values(|c: Card| c.id())
}

/// The bag of identities in one pile.
pub open spec fn pile_ids(pile: Seq<Card>) -> Multiset<CardId> {
    ids_of(pile).to_multiset()
}

/// The bag of identities in a row of piles.
pub open spec fn piles_ids(piles: Seq<Seq<Card>>) -> Multiset<CardId>
    decreases piles.len(),
{
    if piles.len() == 0 {
        Multiset::empty()
    } else {
        piles_ids(piles.drop_last()).add(pile_ids(piles.last()))
    }
}

/// Every card of the pile lies as `face_up` says.
pub open spec fn all_facing(pile: Seq<Card>, face_up: bool) -> bool {
    forall|i: int| 0 <= i < pile.len() ==> (#[trigger] pile[i]).face_up == face_up
}

/// The pile with every card turned as `face_up` says.
pub open spec fn turn_all(pile: Seq<Card>, face_up: bool) -> Seq<Card> {
    pile.map_values(|c: Card| c.spec_turned(face_up))
}

/// The pile with its top card turned face up; an empty pile stays empty.
pub open spec fn reveal_top(pile: Seq<Card>) -> Seq<Card> {
    if pile.len() == 0 {
        pile
    } else {
        pile.update(pile.len() - 1, pile.last().spec_turned(true))
    }
}

/// An empty pile holds nothing.
pub proof fn lemma_pile_ids_empty()
    ensures
        pile_ids(Seq::<Card>::empty()) == Multiset::<CardId>::empty(),
{
    broadcast use vstd::multiset::group_multiset_axioms;

    assert(ids_of(Seq::<Card>::empty()) =~= Seq::<CardId>::empty());
    assert(Seq::<CardId>::empty().to_multiset().len() == 0) by {
        vstd::seq_lib::to_multiset_len(Seq::<CardId>::empty());
    }
}

/// One pile laid on another holds what the two held.
pub proof fn lemma_pile_ids_concat(a: Seq<Card>, b: Seq<Card>)
    ensures
        pile_ids(a + b) == pile_ids(a).add(pile_ids(b)),
{
    assert(ids_of(a + b) =~= ids_of(a) + ids_of(b));
    lemma_multiset_commutative(ids_of(a), ids_of(b));
}

/// A card laid on a pile adds its identity to the bag.
pub proof fn lemma_pile_ids_push(a: Seq<Card>, c: Card)
    ensures
        pile_ids(a.push(c)) == pile_ids(a).insert(c.id()),
{
    assert(ids_of(a.push(c)) =~= ids_of(a).push(c.id()));
    to_multiset_build(ids_of(a), c.id());
}

/// Cutting a pile in two keeps its bag.
pub proof fn lemma_pile_ids_split(pile: Seq<Card>, at: int)
    requires
        0 <= at <= pile.len(),
    ensures
        pile_ids(pile) == pile_ids(pile.subrange(0, at)).add(
            pile_ids(pile.subrange(at, pile.len() as int)),
        ),
{
    assert(pile =~= pile.subrange(0, at) + pile.subrange(at, pile.len() as int));
    lemma_pile_ids_concat(pile.subrange(0, at), pile.subrange(at, pile.len() as int));
}

/// Turning cards over keeps the bag.
pub proof fn lemma_pile_ids_same(a: Seq<Card>, b: Seq<Card>)
    requires
        a.len() == b.len(),
        forall|i: int| 0 <= i < a.len() ==> a[i].id() == b[i].id(),
    ensures
        pile_ids(a) == pile_ids(b),
{
    assert(ids_of(a) =~= ids_of(b));
}

/// A pile turned over holds the same cards.
pub proof fn lemma_pile_ids_reverse(pile: Seq<Card>)
    ensures
        pile_ids(pile.reverse()) == pile_ids(pile),
{
    assert(ids_of(pile.reverse()) =~= ids_of(pile).reverse());
    ids_of(pile).lemma_reverse_to_multiset();
}

/// The bag of a pile has as many cards as the pile.
pub proof fn lemma_pile_ids_len(pile: Seq<Card>)
    ensures
        pile_ids(pile).len() == pile.len(),
{
    vstd::seq_lib::to_multiset_len(ids_of(pile));
}

/// Replacing one pile of a row takes its bag out and puts the new one in.
pub proof fn lemma_piles_ids_update(piles: Seq<Seq<Card>>, i: int, pile: Seq<Card>)
    requires
        0 <= i < piles.len(),
    ensures
        piles_ids(piles.update(i, pile)).add(pile_ids(piles[i])) == piles_ids(piles).add(
            pile_ids(pile),
        ),
    decreases piles.len(),
{
    broadcast use vstd::multiset::group_multiset_axioms;

    let after = piles.update(i, pile);
    if i == piles.len() - 1 {
        assert(after.drop_last() =~= piles.drop_last());
    } else {
        lemma_piles_ids_update(piles.drop_last(), i, pile);
        assert(after.drop_last() =~= piles.drop_last().update(i, pile));
    }
    assert forall|v: CardId|
        piles_ids(after).add(pile_ids(piles[i])).count(v) == piles_ids(piles).add(
            pile_ids(pile),
        ).count(v) by {
        if i < piles.len() - 1 {
            let rest = piles.drop_last();
            assert(piles_ids(rest.update(i, pile)).add(pile_ids(rest[i])).count(v) == piles_ids(
                rest,
            ).add(pile_ids(pile)).count(v));
        }
    }
}

/// No pile of a row holds more cards than the row.
pub proof fn lemma_piles_ids_len(piles: Seq<Seq<Card>>, i: int)
    requires
        0 <= i < piles.len(),
    ensures
        piles[i].len() <= piles_ids(piles).len(),
    decreases piles.len(),
{
    broadcast use vstd::multiset::group_multiset_axioms;

    lemma_pile_ids_len(piles.last());
    if i < piles.len() - 1 {
        lemma_piles_ids_len(piles.drop_last(), i);
    }
}

/// A row of empty piles holds nothing.
pub proof fn lemma_piles_ids_all_empty(piles: Seq<Seq<Card>>)
    requires
        forall|i: int| 0 <= i < piles.len() ==> (#[trigger] piles[i]).len() == 0,
    ensures
        piles_ids(piles) == Multiset::<CardId>::empty(),
    decreases piles.len(),
{
    broadcast use vstd::multiset::group_multiset_axioms;

    if piles.len() > 0 {
        lemma_piles_ids_all_empty(piles.drop_last());
        assert(piles.last() =~= Seq::<Card>::empty());
        lemma_pile_ids_empty();
    }
}

/// Two orders of the same cards hold the same identities.
pub proof fn lemma_permutation_keeps_ids(a: Seq<Card>, b: Seq<Card>)
    requires
        a.to_multiset() == b.to_multiset(),
    ensures
        pile_ids(a) == pile_ids(b),
    decreases a.len(),
{
    broadcast use vstd::multiset::group_multiset_axioms;

    vstd::seq_lib::to_multiset_len(a);
    vstd::seq_lib::to_multiset_len(b);
    if a.len() == 0 {
        assert(a =~= b);
    } else {
        let top = a.last();
        a.to_multiset_ensures();
        b.to_multiset_ensures();
        assert(b.to_multiset().count(top) > 0);
        let i = choose|i: int| 0 <= i < b.len() && b[i] == top;
        to_multiset_remove(a, a.len() - 1);
        to_multiset_remove(b, i);
        lemma_permutation_keeps_ids(a.drop_last(), b.remove(i));
        assert(ids_of(a.drop_last()) =~= ids_of(a).remove(a.len() - 1));
        assert(ids_of(b.remove(i)) =~= ids_of(b).remove(i));
        to_multiset_remove(ids_of(a), a.len() - 1);
        to_multiset_remove(ids_of(b), i);
        ids_of(a).to_multiset_ensures();
        ids_of(b).to_multiset_ensures();
        assert forall|v: CardId| pile_ids(a).count(v) == pile_ids(b).count(v) by {
            assert(pile_ids(a).remove(top.id()).count(v) == pile_ids(b).remove(top.id()).count(v));
        }
    }
}

} // verus!
