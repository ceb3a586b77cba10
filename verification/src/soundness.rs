//! Proofs that every event leaves the table sound: no card is lost or made,
//! and the piles keep their order.

use vstd::prelude::*;
use crate::card::{Card, CardId};
use crate::pile::{
    lemma_pile_ids_concat, lemma_pile_ids_empty, lemma_pile_ids_push,
    lemma_pile_ids_reverse, lemma_pile_ids_same, lemma_pile_ids_split, lemma_piles_ids_update,
    pile_ids, piles_ids, reveal_top, turn_all, PileRef,
};
use crate::rules::{is_run, lies_well, tableau_move_ok};
use crate::table::{
    carries_well, dealt_before, foundation_pile_ok, tableau_pile_ok, Event, Table,
};

verus! {

/// In a sound tableau pile every card above one that shows its face shows
/// its face too.
pub proof fn lemma_faces_above(pile: Seq<Card>, k: int, j: int)
    requires
        tableau_pile_ok(pile),
        0 <= k <= j < pile.len(),
        pile[k].face_up,
    ensures
        pile[j].face_up,
    decreases j - k,
{
    if k < j {
        lemma_faces_above(pile, k, j - 1);
        assert(carries_well(pile, j - 1));
    }
}

/// The cards of a sound tableau pile from one that shows its face upwards
/// are a run.
pub proof fn lemma_top_is_run(pile: Seq<Card>, k: int)
    requires
        tableau_pile_ok(pile),
        0 <= k < pile.len(),
        pile[k].face_up,
    ensures
        is_run(pile.subrange(k, pile.len() as int)),
{
    let run = pile.subrange(k, pile.len() as int);
    assert forall|i: int| 0 <= i < run.len() implies (#[trigger] run[i]).face_up by {
        lemma_faces_above(pile, k, k + i);
    }
    assert forall|i: int| 0 <= i < run.len() - 1 implies #[trigger] lies_well(run, i) by {
        lemma_faces_above(pile, k, k + i);
        assert(carries_well(pile, k + i));
    }
}

/// `foundation_at` finds a foundation with a card, within the four.
pub proof fn lemma_foundation_at(t: Table, x: int, y: int, from: int)
    requires
        0 <= from,
    ensures
        match t.foundation_at(x, y, from) {
            Some(i) => from <= i < 4 && t.foundation[i].len() > 0,
            None => true,
        },
    decreases 4 - from,
{
    if from < 4 {
        lemma_foundation_at(t, x, y, from + 1);
    }
}

/// `tableau_at` finds a card of a tableau pile, within the seven.
pub proof fn lemma_tableau_at(t: Table, x: int, y: int, from: int)
    requires
        0 <= from,
    ensures
        match t.tableau_at(x, y, from) {
            Some((i, k)) => from <= i < 7 && 0 <= k < t.tableau[i].len(),
            None => true,
        },
    decreases 7 - from,
{
    if from < 7 {
        crate::layout::lemma_first_card_at(from, t.tableau[from].len() as int, x, y, 0);
        lemma_tableau_at(t, x, y, from + 1);
    }
}

/// `first_foundation_taking` finds a foundation that takes the card.
pub proof fn lemma_first_foundation_taking(t: Table, card: Card, x: int, y: int, from: int)
    requires
        0 <= from,
    ensures
        match t.first_foundation_taking(card, x, y, from) {
            Some(i) => from <= i < 4 && t.foundation_takes(i, card, x, y),
            None => forall|i: int| from <= i < 4 ==> !t.foundation_takes(i, card, x, y),
        },
    decreases 4 - from,
{
    if from < 4 {
        lemma_first_foundation_taking(t, card, x, y, from + 1);
    }
}

/// `first_tableau_taking` finds a tableau pile that takes the card.
pub proof fn lemma_first_tableau_taking(t: Table, card: Card, x: int, y: int, from: int)
    requires
        0 <= from,
    ensures
        match t.first_tableau_taking(card, x, y, from) {
            Some(i) => from <= i < 7 && t.tableau_takes(i, card, x, y),
            None => forall|i: int| from <= i < 7 ==> !t.tableau_takes(i, card, x, y),
        },
    decreases 7 - from,
{
    if from < 7 {
        lemma_first_tableau_taking(t, card, x, y, from + 1);
    }
}

/// No pile of a sound table holds more than the fifty-two cards, nor does
/// the hand.
pub proof fn lemma_pile_bound(t: Table, pile: PileRef)
    requires
        t.shape_ok(),
        t.conserved(),
        t.has_pile(pile),
    ensures
        t.pile(pile).len() <= 52,
        t.hand().len() <= 52,
        t.pile(pile).len() + t.hand().len() <= 52,
{
    broadcast use vstd::multiset::group_multiset_axioms;

    crate::deck::lemma_full_deck_counts();
    crate::pile::lemma_pile_ids_len(t.stock);
    crate::pile::lemma_pile_ids_len(t.discard);
    crate::pile::lemma_pile_ids_len(t.hand());
    match pile {
        PileRef::Tableau(i) => {
            crate::pile::lemma_piles_ids_len(t.tableau, i as int);
        },
        PileRef::Foundation(i) => {
            crate::pile::lemma_piles_ids_len(t.foundation, i as int);
        },
        _ => {},
    }
}

/// Taking cards off a pile into an empty hand keeps the bag of the table.
pub proof fn lemma_lift_keeps_cards(t: Table, source: PileRef, index: int, x: int, y: int)
    requires
        t.drag is None,
        t.has_pile(source),
        0 <= index <= t.pile(source).len(),
    ensures
        t.lift(source, index, x, y).cards() == t.cards(),
{
    broadcast use vstd::multiset::group_multiset_axioms;

    let pile = t.pile(source);
    let rest = pile.subrange(0, index);
    let after = t.lift(source, index, x, y);
    lemma_pile_ids_split(pile, index);
    lemma_pile_ids_empty();
    match source {
        PileRef::Tableau(i) => {
            lemma_piles_ids_update(t.tableau, i as int, rest);
        },
        PileRef::Foundation(i) => {
            lemma_piles_ids_update(t.foundation, i as int, rest);
        },
        _ => {},
    }
    assert forall|v: CardId| after.cards().count(v) == t.cards().count(v) by {
        match source {
            PileRef::Tableau(i) => {
                assert(piles_ids(t.tableau.update(i as int, rest)).add(pile_ids(pile)).count(v)
                    == piles_ids(t.tableau).add(pile_ids(rest)).count(v));
            },
            PileRef::Foundation(i) => {
                assert(piles_ids(t.foundation.update(i as int, rest)).add(pile_ids(pile)).count(v)
                    == piles_ids(t.foundation).add(pile_ids(rest)).count(v));
            },
            _ => {},
        }
    }
}

/// Laying the hand on a pile keeps the bag of the table.
pub proof fn lemma_put_keeps_cards(t: Table, dest: PileRef)
    requires
        t.has_pile(dest),
    ensures
        (Table { drag: None, ..t }).put(dest, t.hand()).cards() == t.cards(),
{
    broadcast use vstd::multiset::group_multiset_axioms;

    let emptied = Table { drag: None, ..t };
    let after = emptied.put(dest, t.hand());
    let pile = t.pile(dest);
    lemma_pile_ids_concat(pile, t.hand());
    lemma_pile_ids_empty();
    match dest {
        PileRef::Tableau(i) => {
            lemma_piles_ids_update(t.tableau, i as int, pile + t.hand());
        },
        PileRef::Foundation(i) => {
            lemma_piles_ids_update(t.foundation, i as int, pile + t.hand());
        },
        _ => {},
    }
    assert forall|v: CardId| after.cards().count(v) == t.cards().count(v) by {
        match dest {
            PileRef::Tableau(i) => {
                assert(piles_ids(t.tableau.update(i as int, pile + t.hand())).add(
                    pile_ids(pile),
                ).count(v) == piles_ids(t.tableau).add(pile_ids(pile + t.hand())).count(v));
            },
            PileRef::Foundation(i) => {
                assert(piles_ids(t.foundation.update(i as int, pile + t.hand())).add(
                    pile_ids(pile),
                ).count(v) == piles_ids(t.foundation).add(pile_ids(pile + t.hand())).count(v));
            },
            _ => {},
        }
    }
}

/// Turning the top card of a pile face up keeps the bag of the table.
pub proof fn lemma_settle_keeps_cards(t: Table, pile: PileRef)
    requires
        t.has_pile(pile),
    ensures
        t.settle(pile).cards() == t.cards(),
{
    broadcast use vstd::multiset::group_multiset_axioms;

    match pile {
        PileRef::Tableau(i) => {
            let before = t.tableau[i as int];
            let turned = reveal_top(before);
            lemma_pile_ids_same(before, turned);
            lemma_piles_ids_update(t.tableau, i as int, turned);
            assert forall|v: CardId| t.settle(pile).cards().count(v) == t.cards().count(v) by {
                assert(piles_ids(t.tableau.update(i as int, turned)).add(pile_ids(before)).count(v)
                    == piles_ids(t.tableau).add(pile_ids(turned)).count(v));
            }
        },
        _ => {},
    }
}

/// A click on the stock keeps the bag of the table.
pub proof fn lemma_stock_click_keeps_cards(t: Table)
    ensures
        t.after_stock_click().cards() == t.cards(),
{
    broadcast use vstd::multiset::group_multiset_axioms;

    if t.drag is None && t.stock.len() > 0 {
        let top = t.stock.last();
        lemma_pile_ids_push(t.discard, top.spec_turned(true));
        lemma_pile_ids_push(t.stock.drop_last(), top);
        assert(t.stock.drop_last().push(top) =~= t.stock);
    } else if t.drag is None && t.discard.len() > 0 {
        lemma_pile_ids_reverse(t.discard);
        lemma_pile_ids_same(t.discard.reverse(), turn_all(t.discard.reverse(), false));
        lemma_pile_ids_empty();
        assert(t.stock =~= Seq::<Card>::empty());
    }
}

/// A click on the stock leaves a sound table sound.
pub proof fn lemma_stock_click_keeps_wf(t: Table)
    requires
        t.wf(),
    ensures
        t.after_stock_click().wf(),
{
    let after = t.after_stock_click();
    lemma_stock_click_keeps_cards(t);
    if t.drag is None {
        assert forall|i: int| 0 <= i < 7 implies !after.is_source(i) by {}
    }
}

/// A pointer that goes down leaves a sound table sound.
pub proof fn lemma_pointer_down_keeps_wf(t: Table, x: int, y: int)
    requires
        t.wf(),
    ensures
        t.after_pointer_down(x, y).wf(),
{
    let after = t.after_pointer_down(x, y);
    if t.drag is Some {
        return ;
    }
    lemma_foundation_at(t, x, y, 0);
    lemma_tableau_at(t, x, y, 0);
    match t.foundation_at(x, y, 0) {
        Some(i) => {
            let index = t.foundation[i].len() - 1;
            lemma_lift_keeps_cards(t, PileRef::Foundation(i as usize), index, x, y);
            assert forall|k: int| 0 <= k < 4 implies foundation_pile_ok(
                #[trigger] after.foundation[k],
            ) by {
                if k == i {
                    let rest = after.foundation[k];
                    assert forall|j: int| 0 <= j < rest.len() implies (#[trigger] rest[j]).face_up
                        && rest[j].rank.spec_index() == j && rest[j].suit == rest[0].suit by {}
                }
            }
        },
        None => match t.tableau_at(x, y, 0) {
            Some((i, k)) => {
                if t.tableau[i][k].face_up {
                    let pile = t.tableau[i];
                    lemma_lift_keeps_cards(t, PileRef::Tableau(i as usize), k, x, y);
                    lemma_top_is_run(pile, k);
                    let rest = after.tableau[i];
                    if rest.len() > 0 && rest.last().face_up {
                        assert(carries_well(pile, k - 1));
                    }
                    assert forall|m: int| 0 <= m < 7 implies tableau_pile_ok(
                        #[trigger] after.tableau[m],
                    ) && (after.tableau[m].len() > 0 && !after.is_source(m)
                        ==> after.tableau[m].last().face_up) by {
                        if m == i {
                            assert forall|j: int| 0 <= j < rest.len() - 1 implies #[trigger] carries_well(
                                rest,
                                j,
                            ) by {
                                assert(carries_well(pile, j));
                            }
                        }
                    }
                }
            },
            None => {
                if crate::layout::on_stock(x, y) {
                    lemma_stock_click_keeps_wf(t);
                } else if t.discard.len() > 0 && crate::layout::on_discard(x, y) {
                    lemma_lift_keeps_cards(t, PileRef::Discard, t.discard.len() - 1, x, y);
                }
            },
        },
    }
}

/// A pointer that moves leaves a sound table sound.
pub proof fn lemma_pointer_move_keeps_wf(t: Table, x: int, y: int)
    requires
        t.wf(),
    ensures
        t.after_pointer_move(x, y).wf(),
{
    let after = t.after_pointer_move(x, y);
    assert forall|i: int| 0 <= i < 7 implies after.is_source(i) == t.is_source(i) by {}
}

/// A run laid on a sound tableau pile makes a sound pile, if its lowest
/// card may lie on the top card whenever that shows its face.
pub proof fn lemma_run_on_pile(pile: Seq<Card>, run: Seq<Card>)
    requires
        tableau_pile_ok(pile),
        is_run(run),
        run.len() > 0,
        pile.len() > 0 && pile.last().face_up ==> tableau_move_ok(run[0], pile.last()),
    ensures
        tableau_pile_ok(pile + run),
        (pile + run).last().face_up,
{
    let whole = pile + run;
    assert forall|k: int| 0 <= k < whole.len() - 1 implies #[trigger] carries_well(whole, k) by {
        if k < pile.len() - 1 {
            assert(carries_well(pile, k));
        } else if k >= pile.len() {
            assert(lies_well(run, k - pile.len()));
        }
    }
}

/// Turning the top card of a sound tableau pile face up leaves it sound.
pub proof fn lemma_reveal_top_ok(pile: Seq<Card>)
    requires
        tableau_pile_ok(pile),
    ensures
        tableau_pile_ok(reveal_top(pile)),
        pile.len() > 0 ==> reveal_top(pile).last().face_up,
        pile.len() > 0 && pile.last().face_up ==> reveal_top(pile) == pile,
{
    let turned = reveal_top(pile);
    assert forall|k: int| 0 <= k < turned.len() - 1 implies #[trigger] carries_well(turned, k) by {
        assert(carries_well(pile, k));
    }
}

/// A pointer that goes up leaves a sound table sound, and nothing in the
/// hand.
pub proof fn lemma_pointer_up_keeps_wf(t: Table, x: int, y: int)
    requires
        t.wf(),
    ensures
        t.after_pointer_up(x, y).wf(),
        t.after_pointer_up(x, y).drag is None,
{
    let after = t.after_pointer_up(x, y);
    match t.drag {
        None => {},
        Some(h) => {
            lemma_first_foundation_taking(t, h.cards[0], x, y, 0);
            lemma_first_tableau_taking(t, h.cards[0], x, y, 0);
            let dest = match t.drop_target(h.cards, x, y) {
                Some(dest) => dest,
                None => h.source,
            };
            let placed = (Table { drag: None, ..t }).put(dest, h.cards);
            lemma_put_keeps_cards(t, dest);
            lemma_settle_keeps_cards(placed, h.source);
            assert forall|m: int| 0 <= m < 7 implies tableau_pile_ok(#[trigger] after.tableau[m])
                && (after.tableau[m].len() > 0 ==> after.tableau[m].last().face_up) by {
                if dest == PileRef::Tableau(m as usize) {
                    lemma_run_on_pile(t.tableau[m], h.cards);
                }
                lemma_reveal_top_ok(placed.tableau[m]);
            }
            assert forall|m: int| 0 <= m < 7 implies !after.is_source(m) by {}
            assert forall|m: int| 0 <= m < 4 implies foundation_pile_ok(
                #[trigger] after.foundation[m],
            ) by {
                if dest == PileRef::Foundation(m as usize) && t.drop_target(h.cards, x, y) is Some {
                    let whole = t.foundation[m] + h.cards;
                    assert forall|j: int| 0 <= j < whole.len() implies (#[trigger] whole[j]).face_up
                        && whole[j].rank.spec_index() == j && whole[j].suit == whole[0].suit by {}
                }
            }
            assert forall|j: int| 0 <= j < after.discard.len() implies (
            #[trigger] after.discard[j]).face_up by {}
        },
    }
}

/// The bag of a row of seven piles is the sum of the seven bags.
pub proof fn lemma_piles_ids_seven(piles: Seq<Seq<Card>>)
    requires
        piles.len() == 7,
    ensures
        piles_ids(piles) == pile_ids(piles[0]).add(pile_ids(piles[1])).add(pile_ids(piles[2])).add(
            pile_ids(piles[3]),
        ).add(pile_ids(piles[4])).add(pile_ids(piles[5])).add(pile_ids(piles[6])),
{
    broadcast use vstd::multiset::group_multiset_axioms;

    let row6 = piles.drop_last();
    let row5 = row6.drop_last();
    let row4 = row5.drop_last();
    let row3 = row4.drop_last();
    let row2 = row3.drop_last();
    let row1 = row2.drop_last();
    let row0 = row1.drop_last();
    assert(piles_ids(row1) == piles_ids(row0).add(pile_ids(row1.last())));
    assert(piles_ids(row2) == piles_ids(row1).add(pile_ids(row2.last())));
    assert(piles_ids(row3) == piles_ids(row2).add(pile_ids(row3.last())));
    assert(piles_ids(row4) == piles_ids(row3).add(pile_ids(row4.last())));
    assert(piles_ids(row5) == piles_ids(row4).add(pile_ids(row5.last())));
    assert(piles_ids(row6) == piles_ids(row5).add(pile_ids(row6.last())));
    assert(piles_ids(piles) == piles_ids(row6).add(pile_ids(piles.last())));
}

/// How many cards the deal has laid before each tableau pile.
pub proof fn lemma_dealt_before()
    ensures
        dealt_before(0) == 0,
        dealt_before(1) == 1,
        dealt_before(2) == 3,
        dealt_before(3) == 6,
        dealt_before(4) == 10,
        dealt_before(5) == 15,
        dealt_before(6) == 21,
        dealt_before(7) == 28,
{
}

/// The deal lays out the cards of the deck, each once.
pub proof fn lemma_deal_keeps_cards(deck: Seq<Card>)
    requires
        deck.len() == 52,
    ensures
        Table::deal(deck).cards() == pile_ids(deck),
{
    broadcast use vstd::multiset::group_multiset_axioms;

    lemma_dealt_before();
    let d = Table::deal(deck);
    let t = d.tableau;
    let r6 = t[6].reverse();
    let r5 = t[5].reverse();
    let r4 = t[4].reverse();
    let r3 = t[3].reverse();
    let r2 = t[2].reverse();
    let r1 = t[1].reverse();
    let r0 = t[0].reverse();
    let s6 = d.stock + r6;
    let s5 = s6 + r5;
    let s4 = s5 + r4;
    let s3 = s4 + r3;
    let s2 = s3 + r2;
    let s1 = s2 + r1;
    let s0 = s1 + r0;
    assert forall|i: int| 0 <= i < 52 implies deck[i].id() == #[trigger] s0[i].id() by {}
    lemma_pile_ids_same(deck, s0);
    lemma_pile_ids_concat(d.stock, r6);
    lemma_pile_ids_concat(s6, r5);
    lemma_pile_ids_concat(s5, r4);
    lemma_pile_ids_concat(s4, r3);
    lemma_pile_ids_concat(s3, r2);
    lemma_pile_ids_concat(s2, r1);
    lemma_pile_ids_concat(s1, r0);
    lemma_pile_ids_reverse(t[6]);
    lemma_pile_ids_reverse(t[5]);
    lemma_pile_ids_reverse(t[4]);
    lemma_pile_ids_reverse(t[3]);
    lemma_pile_ids_reverse(t[2]);
    lemma_pile_ids_reverse(t[1]);
    lemma_pile_ids_reverse(t[0]);
    lemma_piles_ids_seven(t);
    crate::pile::lemma_piles_ids_all_empty(d.foundation);
    lemma_pile_ids_empty();
}

/// The deal of a whole deck is a sound table, with nothing in the hand.
pub proof fn lemma_deal_wf(deck: Seq<Card>)
    requires
        crate::deck::is_full_deck(deck),
    ensures
        Table::deal(deck).wf(),
        Table::deal(deck).drag is None,
{
    crate::deck::lemma_full_deck_len(deck);
    lemma_deal_keeps_cards(deck);
    let d = Table::deal(deck);
    assert forall|i: int| 0 <= i < 7 implies tableau_pile_ok(#[trigger] d.tableau[i]) && (
    d.tableau[i].len() > 0 && !d.is_source(i) ==> d.tableau[i].last().face_up) by {
        let pile = d.tableau[i];
        assert forall|k: int| 0 <= k < pile.len() - 1 implies #[trigger] carries_well(pile, k) by {}
    }
    assert forall|i: int| 0 <= i < 4 implies foundation_pile_ok(#[trigger] d.foundation[i]) by {}
}

/// Whatever happens to a sound table, it stays sound.
pub proof fn lemma_event_keeps_wf(t: Table, event: Event)
    requires
        t.wf(),
    ensures
        t.after(event).wf(),
{
    match event {
        Event::PointerDown(x, y) => lemma_pointer_down_keeps_wf(t, x, y),
        Event::PointerMove(x, y) => lemma_pointer_move_keeps_wf(t, x, y),
        Event::PointerUp(x, y) => lemma_pointer_up_keeps_wf(t, x, y),
        Event::StockClicked => lemma_stock_click_keeps_wf(t),
    }
}

} // verus!
