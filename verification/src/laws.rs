//! What holds of the game as a whole: laws that relate the deal and the
//! events to one another.

use vstd::prelude::*;
use crate::card::{Card, CardId};
use crate::deck::{full_deck, is_full_deck, lemma_full_deck_counts, lemma_full_deck_len};
use crate::pile::{
    all_facing, lemma_pile_ids_len, lemma_piles_ids_len, pile_ids, piles_ids, turn_all, PileRef,
};
use crate::soundness::{
    lemma_deal_wf, lemma_event_keeps_wf, lemma_first_foundation_taking, lemma_first_tableau_taking,
    lemma_foundation_at, lemma_reveal_top_ok, lemma_tableau_at,
};
use crate::table::{Event, Table};

verus! {

/// Whatever events reach a sound table, in whatever order, it stays sound.
pub proof fn lemma_events_keep_wf(t: Table, events: Seq<Event>)
    requires
        t.wf(),
    ensures
        t.after_all(events).wf(),
    decreases events.len(),
{
    if events.len() > 0 {
        lemma_events_keep_wf(t, events.drop_last());
        lemma_event_keeps_wf(t.after_all(events.drop_last()), events.last());
    }
}

/// In every state that a game can reach from the deal of a whole deck, the
/// piles and the hand together hold each of the fifty-two cards exactly
/// once.
pub proof fn lemma_cards_conserved(deck: Seq<Card>, events: Seq<Event>)
    requires
        is_full_deck(deck),
    ensures
        Table::deal(deck).after_all(events).wf(),
        Table::deal(deck).after_all(events).cards() == full_deck(),
        Table::deal(deck).after_all(events).cards().len() == 52,
        forall|id: CardId| #[trigger] Table::deal(deck).after_all(events).cards().count(id) == 1,
{
    lemma_deal_wf(deck);
    lemma_events_keep_wf(Table::deal(deck), events);
    lemma_full_deck_counts();
}

/// The deal of fifty-two cards gives tableau pile `i` its `i + 1` cards, all
/// face down but the last; the stock gets twenty-four, face down; the
/// foundations and the discard pile are empty, and nothing is in the hand.
pub proof fn lemma_deal_shape(deck: Seq<Card>)
    requires
        deck.len() == 52,
    ensures
        Table::deal(deck).tableau.len() == 7,
        forall|i: int| 0 <= i < 7 ==> (#[trigger] Table::deal(deck).tableau[i]).len() == i + 1,
        forall|i: int, j: int|
            0 <= i < 7 && 0 <= j <= i ==> (#[trigger] Table::deal(deck).tableau[i][j]).face_up == (j
                == i),
        Table::deal(deck).stock.len() == 24,
        all_facing(Table::deal(deck).stock, false),
        Table::deal(deck).foundation.len() == 4,
        forall|i: int| 0 <= i < 4 ==> (#[trigger] Table::deal(deck).foundation[i]).len() == 0,
        Table::deal(deck).discard.len() == 0,
        Table::deal(deck).drag is None,
{
}

/// A freshly dealt table is sound and has the shape of a deal, whatever
/// the order of the deck was.
pub proof fn lemma_fresh_deal(t: Table)
    requires
        t.is_fresh_deal(),
    ensures
        t.wf(),
        t.cards() == full_deck(),
        forall|i: int| 0 <= i < 7 ==> (#[trigger] t.tableau[i]).len() == i + 1,
        forall|i: int, j: int| 0 <= i < 7 && 0 <= j <= i ==> (#[trigger] t.tableau[i][j]).face_up == (j == i),
        t.stock.len() == 24,
        all_facing(t.stock, false),
        forall|i: int| 0 <= i < 4 ==> (#[trigger] t.foundation[i]).len() == 0,
        t.discard.len() == 0,
        t.drag is None,
        !t.win_announced,
        !t.is_won(),
{
    let deck = choose|deck: Seq<Card>| is_full_deck(deck) && t == Table::deal(deck);
    lemma_full_deck_len(deck);
    lemma_deal_wf(deck);
    lemma_deal_shape(deck);
    lemma_fresh_deal_not_won(deck);
}

/// A click on the stock, outside a drag, keeps the number of cards that
/// stock and discard pile hold together.
pub proof fn lemma_stock_click_keeps_count(t: Table)
    ensures
        t.after_stock_click().stock.len() + t.after_stock_click().discard.len() == t.stock.len()
            + t.discard.len(),
{
}

/// A click on an empty stock, outside a drag, turns the whole discard pile
/// over into the stock: as many cards, all face down, the top of the
/// discard pile at the bottom; the discard pile is left empty.
pub proof fn lemma_recycle(t: Table)
    requires
        t.drag is None,
        t.stock.len() == 0,
    ensures
        t.after_stock_click().discard.len() == 0,
        t.after_stock_click().stock.len() == t.discard.len(),
        all_facing(t.after_stock_click().stock, false),
        forall|k: int|
            0 <= k < t.discard.len() ==> (#[trigger] t.after_stock_click().stock[k]).id()
                == t.discard[t.discard.len() - 1 - k].id(),
{
}

/// The table after `n` clicks on the stock.
pub open spec fn after_clicks(t: Table, n: nat) -> Table
    decreases n,
{
    if n == 0 {
        t
    } else {
        after_clicks(t, (n - 1) as nat).after_stock_click()
    }
}

/// However often the stock is clicked, stock and discard pile together hold
/// as many cards as before.
pub proof fn lemma_clicks_keep_count(t: Table, n: nat)
    ensures
        after_clicks(t, n).stock.len() + after_clicks(t, n).discard.len() == t.stock.len()
            + t.discard.len(),
    decreases n,
{
    if n > 0 {
        lemma_clicks_keep_count(t, (n - 1) as nat);
        lemma_stock_click_keeps_count(after_clicks(t, (n - 1) as nat));
    }
}

/// With `k` cards drawn from a stock that started with an empty discard
/// pile, the discard pile holds those `k` cards face up, the last drawn on
/// top.
proof fn lemma_draws(t: Table, k: nat)
    requires
        t.drag is None,
        t.discard.len() == 0,
        k <= t.stock.len(),
    ensures
        after_clicks(t, k) == (Table {
            stock: t.stock.subrange(0, t.stock.len() - k),
            discard: turn_all(
                t.stock.subrange(t.stock.len() - k, t.stock.len() as int).reverse(),
                true,
            ),
            ..t
        }),
    decreases k,
{
    let n = t.stock.len() as int;
    if k == 0 {
        assert(t.stock.subrange(0, n) =~= t.stock);
        assert(turn_all(t.stock.subrange(n, n).reverse(), true) =~= t.discard);
    } else {
        lemma_draws(t, (k - 1) as nat);
        let before = after_clicks(t, (k - 1) as nat);
        let after = before.after_stock_click();
        assert(after.stock =~= t.stock.subrange(0, n - k));
        assert(after.discard =~= turn_all(t.stock.subrange(n - k, n).reverse(), true));
    }
}

/// Going once through the stock and turning the discard pile over brings
/// the stock back as it was: from a stock of `n` face-down cards and an
/// empty discard pile, `n + 1` clicks give the same table again.
pub proof fn lemma_stock_cycle(t: Table)
    requires
        t.drag is None,
        t.discard.len() == 0,
        all_facing(t.stock, false),
    ensures
        after_clicks(t, t.stock.len() + 1) == t,
{
    let n = t.stock.len();
    lemma_draws(t, n);
    let drawn = after_clicks(t, n);
    let again = drawn.after_stock_click();
    if n > 0 {
        assert(again.stock =~= t.stock);
        assert(again.discard =~= t.discard);
    }
}

/// A freshly dealt game is not won.
pub proof fn lemma_fresh_deal_not_won(deck: Seq<Card>)
    ensures
        !Table::deal(deck).is_won(),
{
    assert(Table::deal(deck).foundation[0].len() == 0);
}

/// A game is won exactly when each of the four foundations holds thirteen
/// cards: three full foundations and one of twelve do not make a win.
pub proof fn lemma_won_needs_four_full_foundations(t: Table)
    ensures
        t.is_won() <==> t.foundation[0].len() == 13 && t.foundation[1].len() == 13
            && t.foundation[2].len() == 13 && t.foundation[3].len() == 13,
{
}

/// The bag of a row of four piles has as many cards as the four piles
/// together.
proof fn lemma_piles_ids_four(piles: Seq<Seq<Card>>)
    requires
        piles.len() == 4,
    ensures
        piles_ids(piles).len() == piles[0].len() + piles[1].len() + piles[2].len() + piles[3].len(),
{
    broadcast use vstd::multiset::group_multiset_axioms;

    let row3 = piles.drop_last();
    let row2 = row3.drop_last();
    let row1 = row2.drop_last();
    let row0 = row1.drop_last();
    assert(piles_ids(row1) == piles_ids(row0).add(pile_ids(row1.last())));
    assert(piles_ids(row2) == piles_ids(row1).add(pile_ids(row2.last())));
    assert(piles_ids(row3) == piles_ids(row2).add(pile_ids(row3.last())));
    assert(piles_ids(piles) == piles_ids(row3).add(pile_ids(piles.last())));
    lemma_pile_ids_len(piles[0]);
    lemma_pile_ids_len(piles[1]);
    lemma_pile_ids_len(piles[2]);
    lemma_pile_ids_len(piles[3]);
}

/// In a won game every card lies on a foundation: the tableau, the stock,
/// the discard pile and the hand are empty.
pub proof fn lemma_won_table_is_cleared(t: Table)
    requires
        t.wf(),
        t.is_won(),
    ensures
        forall|i: int| 0 <= i < 7 ==> (#[trigger] t.tableau[i]).len() == 0,
        t.stock.len() == 0,
        t.discard.len() == 0,
        t.drag is None,
{
    broadcast use vstd::multiset::group_multiset_axioms;

    lemma_full_deck_counts();
    lemma_piles_ids_four(t.foundation);
    lemma_pile_ids_len(t.stock);
    lemma_pile_ids_len(t.discard);
    lemma_pile_ids_len(t.hand());
    assert forall|i: int| 0 <= i < 7 implies (#[trigger] t.tableau[i]).len() == 0 by {
        lemma_piles_ids_len(t.tableau, i);
    }
}

/// A hand that no pile takes goes back where it came from: the pile it was
/// lifted from holds again what it held and then the lifted cards, in their
/// order and each the way up it was; every other pile is as before.
pub proof fn lemma_failed_drop_returns_hand(t: Table, x: int, y: int)
    requires
        t.wf(),
        t.drag is Some,
        t.drop_target(t.hand(), x, y) is None,
    ensures
        ({
            let source = t.drag.unwrap().source;
            let after = t.after_pointer_up(x, y);
            &&& after.drag is None
            &&& after.pile(source) == t.pile(source) + t.hand()
            &&& forall|pile: PileRef| t.has_pile(pile) && pile != source ==> after.pile(pile) == t.pile(pile)
        }),
{
    let h = t.drag.unwrap();
    let after = t.after_pointer_up(x, y);
    assert(h.cards.last().face_up);
    assert(after.pile(h.source) =~= t.pile(h.source) + h.cards);
    assert forall|pile: PileRef| t.has_pile(pile) && pile != h.source implies after.pile(pile)
        == t.pile(pile) by {}
}

/// Lifting cards and letting them go where no pile takes them leaves every
/// pile as it was, card for card and face for face. The game stays as it
/// was, but that a won game now counts as announced.
pub proof fn lemma_drag_round_trip(t: Table, x: int, y: int, to_x: int, to_y: int)
    requires
        t.wf(),
        t.drag is None,
        t.after_pointer_down(x, y).drag is Some,
        t.after_pointer_down(x, y).drop_target(t.after_pointer_down(x, y).hand(), to_x, to_y) is None,
    ensures
        t.after_pointer_down(x, y).after_pointer_up(to_x, to_y) == (Table {
            win_announced: t.win_announced || t.is_won(),
            ..t
        }),
{
    let lifted = t.after_pointer_down(x, y);
    let after = lifted.after_pointer_up(to_x, to_y);
    let h = lifted.drag.unwrap();
    lemma_foundation_at(t, x, y, 0);
    lemma_tableau_at(t, x, y, 0);
    crate::soundness::lemma_pointer_down_keeps_wf(t, x, y);
    match h.source {
        PileRef::Tableau(i) => {
            let pile = t.tableau[i as int];
            assert(lifted.tableau[i as int] + h.cards =~= pile);
            lemma_reveal_top_ok(pile);
            assert(after.tableau =~= t.tableau);
        },
        PileRef::Foundation(i) => {
            let pile = t.foundation[i as int];
            assert(lifted.foundation[i as int] + h.cards =~= pile);
            assert(after.foundation =~= t.foundation);
        },
        PileRef::Discard => {
            assert(after.discard =~= t.discard);
        },
        PileRef::Stock => {},
    }
}

/// Lifting a run from the tableau and letting it go where no pile takes it
/// leaves the game exactly as it was: the run lies on its pile again, in
/// its order, and no card has been turned.
pub proof fn lemma_tableau_drag_round_trip(t: Table, x: int, y: int, to_x: int, to_y: int)
    requires
        t.wf(),
        t.drag is None,
        t.after_pointer_down(x, y).drag is Some,
        t.after_pointer_down(x, y).drag.unwrap().source is Tableau,
        t.after_pointer_down(x, y).drop_target(t.after_pointer_down(x, y).hand(), to_x, to_y) is None,
    ensures
        t.after_pointer_down(x, y).after_pointer_up(to_x, to_y) == t,
{
    lemma_drag_round_trip(t, x, y, to_x, to_y);
    lemma_foundation_at(t, x, y, 0);
    lemma_tableau_at(t, x, y, 0);
    if t.is_won() {
        lemma_won_table_is_cleared(t);
    }
}

/// The pile that takes a dropped card is the first that would: no
/// foundation before it, and if it is a tableau pile no foundation at all
/// and no tableau pile before it.
pub proof fn lemma_first_taker_wins(t: Table, card: Card, x: int, y: int)
    ensures
        match t.card_target(card, x, y) {
            Some(PileRef::Foundation(i)) => i < 4 && t.foundation_takes(i as int, card, x, y)
                && forall|k: int| 0 <= k < i ==> !t.foundation_takes(k, card, x, y),
            Some(PileRef::Tableau(i)) => i < 7 && t.tableau_takes(i as int, card, x, y) && (forall|
                k: int,
            |
                0 <= k < 4 ==> !t.foundation_takes(k, card, x, y)) && forall|k: int|
                0 <= k < i ==> !t.tableau_takes(k, card, x, y),
            Some(_) => false,
            None => (forall|k: int| 0 <= k < 4 ==> !t.foundation_takes(k, card, x, y)) && forall|
                k: int,
            | 0 <= k < 7 ==> !t.tableau_takes(k, card, x, y),
        },
{
    lemma_first_before(t, card, x, y);
}

/// `first_foundation_taking` and `first_tableau_taking` pass over no pile
/// that takes the card.
proof fn lemma_first_before(t: Table, card: Card, x: int, y: int)
    ensures
        match t.first_foundation_taking(card, x, y, 0) {
            Some(i) => 0 <= i < 4 && t.foundation_takes(i, card, x, y) && forall|k: int|
                0 <= k < i ==> !t.foundation_takes(k, card, x, y),
            None => forall|k: int| 0 <= k < 4 ==> !t.foundation_takes(k, card, x, y),
        },
        match t.first_tableau_taking(card, x, y, 0) {
            Some(i) => 0 <= i < 7 && t.tableau_takes(i, card, x, y) && forall|k: int|
                0 <= k < i ==> !t.tableau_takes(k, card, x, y),
            None => forall|k: int| 0 <= k < 7 ==> !t.tableau_takes(k, card, x, y),
        },
{
    lemma_first_foundation_taking(t, card, x, y, 0);
    lemma_first_tableau_taking(t, card, x, y, 0);
    lemma_foundation_skips(t, card, x, y, 0);
    lemma_tableau_skips(t, card, x, y, 0);
}

/// `first_foundation_taking` passes over no foundation that takes the card.
proof fn lemma_foundation_skips(t: Table, card: Card, x: int, y: int, from: int)
    requires
        0 <= from,
    ensures
        match t.first_foundation_taking(card, x, y, from) {
            Some(i) => forall|k: int| from <= k < i ==> !t.foundation_takes(k, card, x, y),
            None => true,
        },
    decreases 4 - from,
{
    if from < 4 && !t.foundation_takes(from, card, x, y) {
        lemma_foundation_skips(t, card, x, y, from + 1);
    }
}

/// `first_tableau_taking` passes over no tableau pile that takes the card.
proof fn lemma_tableau_skips(t: Table, card: Card, x: int, y: int, from: int)
    requires
        0 <= from,
    ensures
        match t.first_tableau_taking(card, x, y, from) {
            Some(i) => forall|k: int| from <= k < i ==> !t.tableau_takes(k, card, x, y),
            None => true,
        },
    decreases 7 - from,
{
    if from < 7 && !t.tableau_takes(from, card, x, y) {
        lemma_tableau_skips(t, card, x, y, from + 1);
    }
}

/// A won game is made known once: once a win counts as announced, no
/// pointer going up announces another.
pub proof fn lemma_win_announced_once(t: Table, x: int, y: int)
    ensures
        t.win_announced ==> !t.announces_win(x, y),
        t.announces_win(x, y) ==> t.after_pointer_up(x, y).win_announced,
        forall|event: Event| t.win_announced ==> (#[trigger] t.after(event)).win_announced,
{
    assert forall|event: Event| t.win_announced implies (#[trigger] t.after(event)).win_announced by {
        match event {
            Event::PointerDown(px, py) => {
                lemma_foundation_at(t, px, py, 0);
                lemma_tableau_at(t, px, py, 0);
            },
            Event::PointerMove(px, py) => {},
            Event::PointerUp(px, py) => {},
            Event::StockClicked => {},
        }
    }
}

} // verus!
