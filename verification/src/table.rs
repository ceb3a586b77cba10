//! The table as a mathematical value: what lies in each pile, what the
//! pointer holds, and what each event makes of it. The engine's state is
//! described by a `Table`, and every operation by one of the functions here.

use vstd::prelude::*;
use vstd::multiset::Multiset;
use crate::card::{Card, CardId};
use crate::deck::{full_deck, is_full_deck};
use crate::layout::{
    first_card_at, on_discard, on_foundation, on_stock, on_tableau_card, origin_of, DRAG_STEP,
};
use crate::pile::{all_facing, pile_ids, piles_ids, reveal_top, turn_all, PileRef};
use crate::rules::{
    foundation_move_ok, is_run, lies_well, opens_foundation, opens_tableau, tableau_move_ok,
};

verus! {

/// The cards that the pointer holds during a drag, and where they came from.
pub struct Hand {
    /// The lifted cards, the lowest first.
    pub cards: Seq<Card>,
    /// The pile that the cards were lifted from.
    pub source: PileRef,
    /// Where the lowest lifted card lay in that pile.
    pub source_index: int,
    /// Where the pointer was when it lifted the cards.
    pub grab_x: int,
    pub grab_y: int,
    /// Where the pointer was last seen.
    pub pointer_x: int,
    pub pointer_y: int,
}

/// The whole state of a game.
pub struct Table {
    /// The seven tableau piles.
    pub tableau: Seq<Seq<Card>>,
    /// The four foundation piles.
    pub foundation: Seq<Seq<Card>>,
    pub stock: Seq<Card>,
    pub discard: Seq<Card>,
    /// The drag in progress, if there is one.
    pub drag: Option<Hand>,
    /// Whether the win of this game has been made known.
    pub win_announced: bool,
}

/// What a pointer or the caller can do to the table.
pub enum Event {
    PointerDown(int, int),
    PointerMove(int, int),
    PointerUp(int, int),
    StockClicked,
}

/// If card `k` of the pile shows its face, the card on it shows its face too
/// and may lie there by the tableau rule.
pub open spec fn carries_well(pile: Seq<Card>, k: int) -> bool {
    pile[k].face_up ==> pile[k + 1].face_up && lies_well(pile, k)
}

/// In a tableau pile every card that shows its face carries, if any card
/// lies on it, one that shows its face too and may lie there by the tableau
/// rule. So the pile is a face-down part below a run.
pub open spec fn tableau_pile_ok(pile: Seq<Card>) -> bool {
    forall|k: int| 0 <= k < pile.len() - 1 ==> #[trigger] carries_well(pile, k)
}

/// A foundation pile counts up from the ace in one suit, faces showing.
pub open spec fn foundation_pile_ok(pile: Seq<Card>) -> bool {
    forall|k: int|
        0 <= k < pile.len() ==> (#[trigger] pile[k]).face_up && pile[k].rank.spec_index() == k
            && pile[k].suit == pile[0].suit
}

/// How many cards have been dealt to the tableau before its pile `i`.
pub open spec fn dealt_before(i: int) -> int {
    i * (i + 1) / 2
}

/// The place in the deck of the card that the deal puts at `j` of tableau
/// pile `i`. The deal takes cards from the end of the deck.
pub open spec fn dealt_from(i: int, j: int) -> int {
    51 - dealt_before(i) - j
}

impl Hand {
    /// How far the pointer was from the corner of the lowest lifted card
    /// when it took hold.
    pub open spec fn offset(self) -> (int, int) {
        let origin = origin_of(self.source, self.source_index);
        (self.grab_x - origin.0, self.grab_y - origin.1)
    }

    /// Upper left corner at which the lifted card `k` is to be shown.
    pub open spec fn card_origin(self, k: int) -> (int, int) {
        (self.pointer_x - self.offset().0, self.pointer_y - self.offset().1 + k * DRAG_STEP)
    }
}

impl Table {
    /// The cards in the pointer's hand: none when nothing is dragged.
    pub open spec fn hand(self) -> Seq<Card> {
        match self.drag {
            Some(h) => h.cards,
            None => Seq::empty(),
        }
    }

    /// The bag of all cards of the game: those in the piles and those in
    /// the hand.
    pub open spec fn cards(self) -> Multiset<CardId> {
        piles_ids(self.tableau).add(piles_ids(self.foundation)).add(pile_ids(self.stock)).add(
            pile_ids(self.discard),
        ).add(pile_ids(self.hand()))
    }

    /// Seven tableau piles and four foundations.
    pub open spec fn shape_ok(self) -> bool {
        self.tableau.len() == 7 && self.foundation.len() == 4
    }

    /// Every card of the deck is on the table once.
    pub open spec fn conserved(self) -> bool {
        self.cards() == full_deck()
    }

    /// Tableau pile `i` is the one that the hand was lifted from.
    pub open spec fn is_source(self, i: int) -> bool {
        match self.drag {
            Some(h) => h.source == PileRef::Tableau(i as usize),
            None => false,
        }
    }

    /// Every tableau pile is sound, and shows the face of its top card unless
    /// the hand has just been lifted from it.
    pub open spec fn tableau_ok(self) -> bool {
        forall|i: int|
            0 <= i < 7 ==> tableau_pile_ok(#[trigger] self.tableau[i]) && (self.tableau[i].len() > 0
                && !self.is_source(i) ==> self.tableau[i].last().face_up)
    }

    /// Every foundation counts up from the ace in one suit.
    pub open spec fn foundations_ok(self) -> bool {
        forall|i: int| 0 <= i < 4 ==> foundation_pile_ok(#[trigger] self.foundation[i])
    }

    /// The hand holds a run that would be sound again on the pile it came
    /// from, at the place it came from; from a foundation or the discard pile
    /// it holds one card.
    pub open spec fn hand_ok(self) -> bool {
        match self.drag {
            None => true,
            Some(h) => {
                &&& h.cards.len() > 0
                &&& is_run(h.cards)
                &&& match h.source {
                    PileRef::Tableau(i) => {
                        &&& i < 7
                        &&& h.source_index == self.tableau[i as int].len()
                        &&& (self.tableau[i as int].len() > 0 && self.tableau[i as int].last().face_up
                            ==> tableau_move_ok(h.cards[0], self.tableau[i as int].last()))
                    },
                    PileRef::Foundation(i) => {
                        &&& i < 4
                        &&& h.cards.len() == 1
                        &&& h.source_index == self.foundation[i as int].len()
                        &&& foundation_pile_ok(self.foundation[i as int] + h.cards)
                    },
                    PileRef::Discard => h.cards.len() == 1 && h.source_index == self.discard.len(),
                    PileRef::Stock => false,
                }
            },
        }
    }

    /// What holds of the table at all times.
    pub open spec fn wf(self) -> bool {
        &&& self.shape_ok()
        &&& self.conserved()
        &&& self.tableau_ok()
        &&& self.foundations_ok()
        &&& all_facing(self.stock, false)
        &&& all_facing(self.discard, true)
        &&& self.hand_ok()
    }

    /// The game is won when each foundation holds its thirteen cards.
    pub open spec fn is_won(self) -> bool {
        forall|i: int| 0 <= i < 4 ==> (#[trigger] self.foundation[i]).len() == 13
    }

    /// The pile has a place on this table.
    pub open spec fn has_pile(self, pile: PileRef) -> bool {
        match pile {
            PileRef::Tableau(i) => i < self.tableau.len(),
            PileRef::Foundation(i) => i < self.foundation.len(),
            PileRef::Stock => true,
            PileRef::Discard => true,
        }
    }

    /// The cards of a pile, bottom first.
    pub open spec fn pile(self, pile: PileRef) -> Seq<Card>
        recommends
            self.has_pile(pile),
    {
        match pile {
            PileRef::Tableau(i) => self.tableau[i as int],
            PileRef::Foundation(i) => self.foundation[i as int],
            PileRef::Stock => self.stock,
            PileRef::Discard => self.discard,
        }
    }

    /// The table with the cards laid on top of a pile.
    pub open spec fn put(self, dest: PileRef, cards: Seq<Card>) -> Table
        recommends
            self.has_pile(dest),
    {
        match dest {
            PileRef::Tableau(i) => Table {
                tableau: self.tableau.update(i as int, self.tableau[i as int] + cards),
                ..self
            },
            PileRef::Foundation(i) => Table {
                foundation: self.foundation.update(i as int, self.foundation[i as int] + cards),
                ..self
            },
            PileRef::Stock => Table { stock: self.stock + cards, ..self },
            PileRef::Discard => Table { discard: self.discard + cards, ..self },
        }
    }

    /// The table after the deal of a deck: tableau pile `i` gets `i + 1`
    /// cards from the end of the deck, the last of them face up, and the
    /// first twenty-four cards of the deck are the stock, face down.
    pub open spec fn deal(deck: Seq<Card>) -> Table {
        Table {
            tableau: Seq::new(
                7,
                |i: int|
                    Seq::new(
                        (i + 1) as nat,
                        |j: int| deck[dealt_from(i, j)].spec_turned(j == i),
                    ),
            ),
            foundation: Seq::new(4, |i: int| Seq::empty()),
            stock: turn_all(deck.subrange(0, 24), false),
            discard: Seq::empty(),
            drag: None,
            win_announced: false,
        }
    }

    /// The table is the deal of some whole deck.
    pub open spec fn is_fresh_deal(self) -> bool {
        exists|deck: Seq<Card>| is_full_deck(deck) && self == Table::deal(deck)
    }

    /// A click on the stock. With cards in the stock, its top card goes face
    /// up onto the discard pile. With none, the discard pile is turned over
    /// and becomes the stock, so that the card drawn first is drawn first
    /// again. During a drag nothing happens.
    pub open spec fn after_stock_click(self) -> Table {
        if self.drag is Some {
            self
        } else if self.stock.len() > 0 {
            Table {
                stock: self.stock.drop_last(),
                discard: self.discard.push(self.stock.last().spec_turned(true)),
                ..self
            }
        } else if self.discard.len() > 0 {
            Table {
                stock: turn_all(self.discard.reverse(), false),
                discard: Seq::empty(),
                ..self
            }
        } else {
            self
        }
    }

    /// The first foundation, from `from` on, that holds a card and on whose
    /// place the point lies.
    pub open spec fn foundation_at(self, x: int, y: int, from: int) -> Option<int>
        decreases 4 - from,
    {
        if from >= 4 {
            None
        } else if self.foundation[from].len() > 0 && on_foundation(from, x, y) {
            Some(from)
        } else {
            self.foundation_at(x, y, from + 1)
        }
    }

    /// The first tableau pile, from `from` on, with a card under the point,
    /// and the lowest such card of that pile.
    pub open spec fn tableau_at(self, x: int, y: int, from: int) -> Option<(int, int)>
        decreases 7 - from,
    {
        if from >= 7 {
            None
        } else {
            match first_card_at(from, self.tableau[from].len() as int, x, y, 0) {
                Some(k) => Some((from, k)),
                None => self.tableau_at(x, y, from + 1),
            }
        }
    }

    /// The table with the cards of a pile from `index` up taken into the
    /// hand by a pointer at `(x, y)`.
    pub open spec fn lift(self, source: PileRef, index: int, x: int, y: int) -> Table
        recommends
            self.has_pile(source),
            0 <= index <= self.pile(source).len(),
    {
        let pile = self.pile(source);
        let rest = pile.subrange(0, index);
        let hand = Hand {
            cards: pile.subrange(index, pile.len() as int),
            source,
            source_index: index,
            grab_x: x,
            grab_y: y,
            pointer_x: x,
            pointer_y: y,
        };
        match source {
            PileRef::Tableau(i) => Table {
                tableau: self.tableau.update(i as int, rest),
                drag: Some(hand),
                ..self
            },
            PileRef::Foundation(i) => Table {
                foundation: self.foundation.update(i as int, rest),
                drag: Some(hand),
                ..self
            },
            PileRef::Stock => Table { stock: rest, drag: Some(hand), ..self },
            PileRef::Discard => Table { discard: rest, drag: Some(hand), ..self },
        }
    }

    /// The pointer goes down. The foundations are asked first, then the
    /// tableau, then the stock, then the discard pile. A foundation or the
    /// discard pile gives its top card; a tableau card that shows its face
    /// comes with all that lies on it, one that does not stays; the stock is
    /// clicked. During a drag nothing happens.
    pub open spec fn after_pointer_down(self, x: int, y: int) -> Table {
        if self.drag is Some {
            self
        } else {
            match self.foundation_at(x, y, 0) {
                Some(i) => self.lift(
                    PileRef::Foundation(i as usize),
                    self.foundation[i].len() - 1,
                    x,
                    y,
                ),
                None => match self.tableau_at(x, y, 0) {
                    Some((i, k)) => if self.tableau[i][k].face_up {
                        self.lift(PileRef::Tableau(i as usize), k, x, y)
                    } else {
                        self
                    },
                    None => if on_stock(x, y) {
                        self.after_stock_click()
                    } else if self.discard.len() > 0 && on_discard(x, y) {
                        self.lift(PileRef::Discard, self.discard.len() - 1, x, y)
                    } else {
                        self
                    },
                },
            }
        }
    }

    /// The pointer moves: the hand, if there is one, remembers where to.
    pub open spec fn after_pointer_move(self, x: int, y: int) -> Table {
        match self.drag {
            Some(h) => Table { drag: Some(Hand { pointer_x: x, pointer_y: y, ..h }), ..self },
            None => self,
        }
    }

    /// Whether tableau pile `i` takes a run whose lowest card is `card`,
    /// let go at the point. A pile with cards takes it when the point lies
    /// on its top card and the rule allows it; an empty pile takes a king,
    /// wherever the point is.
    pub open spec fn tableau_takes(self, i: int, card: Card, x: int, y: int) -> bool {
        let pile = self.tableau[i];
        if pile.len() > 0 {
            on_tableau_card(i, pile.len() - 1, x, y) && tableau_move_ok(card, pile.last())
        } else {
            opens_tableau(card)
        }
    }

    /// Whether foundation `i` takes the card, let go at the point. A pile
    /// with cards takes it when the point lies on its place and the rule
    /// allows it; an empty pile takes an ace, wherever the point is.
    pub open spec fn foundation_takes(self, i: int, card: Card, x: int, y: int) -> bool {
        let pile = self.foundation[i];
        if pile.len() > 0 {
            on_foundation(i, x, y) && foundation_move_ok(card, pile.last())
        } else {
            opens_foundation(card)
        }
    }

    /// The first foundation, from `from` on, that takes the card.
    pub open spec fn first_foundation_taking(self, card: Card, x: int, y: int, from: int) -> Option<
        int,
    >
        decreases 4 - from,
    {
        if from >= 4 {
            None
        } else if self.foundation_takes(from, card, x, y) {
            Some(from)
        } else {
            self.first_foundation_taking(card, x, y, from + 1)
        }
    }

    /// The first tableau pile, from `from` on, that takes the card.
    pub open spec fn first_tableau_taking(self, card: Card, x: int, y: int, from: int) -> Option<
        int,
    >
        decreases 7 - from,
    {
        if from >= 7 {
            None
        } else if self.tableau_takes(from, card, x, y) {
            Some(from)
        } else {
            self.first_tableau_taking(card, x, y, from + 1)
        }
    }

    /// Where a single card goes that is let go at the point: the first
    /// foundation that takes it, else the first tableau pile that does.
    pub open spec fn card_target(self, card: Card, x: int, y: int) -> Option<PileRef> {
        match self.first_foundation_taking(card, x, y, 0) {
            Some(i) => Some(PileRef::Foundation(i as usize)),
            None => self.stack_target(card, x, y),
        }
    }

    /// Where a run goes whose lowest card is `bottom`: the first tableau
    /// pile that takes it. Foundations take no runs.
    pub open spec fn stack_target(self, bottom: Card, x: int, y: int) -> Option<PileRef> {
        match self.first_tableau_taking(bottom, x, y, 0) {
            Some(i) => Some(PileRef::Tableau(i as usize)),
            None => None,
        }
    }

    /// Where the cards go that are let go at the point, if any pile takes
    /// them.
    pub open spec fn drop_target(self, cards: Seq<Card>, x: int, y: int) -> Option<PileRef>
        recommends
            cards.len() > 0,
    {
        if cards.len() == 1 {
            self.card_target(cards[0], x, y)
        } else {
            self.stack_target(cards[0], x, y)
        }
    }

    /// The table with the top card of the pile turned face up, if the pile is
    /// one of the tableau and has a card.
    pub open spec fn settle(self, pile: PileRef) -> Table {
        match pile {
            PileRef::Tableau(i) => Table {
                tableau: self.tableau.update(i as int, reveal_top(self.tableau[i as int])),
                ..self
            },
            _ => self,
        }
    }

    /// The pointer goes up. The hand goes to the pile that takes it, or
    /// back to where it came from. If it came from the tableau, the top
    /// card there is turned face up. A game that is now won counts as
    /// announced. With nothing in the hand nothing happens.
    pub open spec fn after_pointer_up(self, x: int, y: int) -> Table {
        match self.drag {
            None => self,
            Some(h) => {
                let dest = match self.drop_target(h.cards, x, y) {
                    Some(dest) => dest,
                    None => h.source,
                };
                let settled = Table { drag: None, ..self }.put(dest, h.cards).settle(h.source);
                Table { win_announced: self.win_announced || settled.is_won(), ..settled }
            },
        }
    }

    /// Whether letting go at the point makes a win known for the first time.
    pub open spec fn announces_win(self, x: int, y: int) -> bool {
        self.drag is Some && !self.win_announced && self.after_pointer_up(x, y).is_won()
    }

    /// The table after an event.
    pub open spec fn after(self, event: Event) -> Table {
        match event {
            Event::PointerDown(x, y) => self.after_pointer_down(x, y),
            Event::PointerMove(x, y) => self.after_pointer_move(x, y),
            Event::PointerUp(x, y) => self.after_pointer_up(x, y),
            Event::StockClicked => self.after_stock_click(),
        }
    }

    /// The table after a sequence of events, the first first.
    pub open spec fn after_all(self, events: Seq<Event>) -> Table
        decreases events.len(),
    {
        if events.len() == 0 {
            self
        } else {
            self.after_all(events.drop_last()).after(events.last())
        }
    }
}

} // verus!
