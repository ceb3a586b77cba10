//! The engine: a `GameState` owns the piles and the drag in progress, and
//! answers pointer events. Each operation is specified by the function of
//! the same event on `Table`.

use vstd::prelude::*;
use crate::card::Card;
use crate::deck::{create_deck, is_complete_deck, is_full_deck, lemma_full_deck_len, shuffle};
use crate::layout::{
    card_origin, first_card_hit, hits_discard, hits_foundation, hits_stock, hits_tableau_card,
    origin_of, FOUNDATION_PILES, TABLEAU_PILES,
};
use crate::pile::{lemma_pile_ids_empty, pile_ids, piles_ids, turn_all, PileRef};
use crate::rules::{
    can_start_foundation, can_start_tableau, is_valid_foundation_move, is_valid_tableau_move,
};
use crate::soundness::{
    lemma_deal_wf, lemma_dealt_before, lemma_first_foundation_taking, lemma_first_tableau_taking,
    lemma_pile_bound, lemma_pointer_down_keeps_wf, lemma_pointer_move_keeps_wf,
    lemma_pointer_up_keeps_wf, lemma_stock_click_keeps_wf,
};
use crate::table::{dealt_before, dealt_from, foundation_pile_ok, tableau_pile_ok, Hand, Table};
use crate::validate::{
    all_cards_facing, holds_full_deck, is_foundation_pile, is_tableau_pile, piles_view,
};

verus! {

/// A drag in progress: the lifted cards and where they came from.
#[derive(Debug)]
struct Drag {
    cards: Vec<Card>,
    source: PileRef,
    source_index: usize,
    grab_x: i32,
    grab_y: i32,
    pointer_x: i32,
    pointer_y: i32,
}

/// A game of Klondike.
#[derive(Debug)]
pub struct GameState {
    tableau: Vec<Vec<Card>>,
    foundation: Vec<Vec<Card>>,
    stock: Vec<Card>,
    discard: Vec<Card>,
    dragging: Option<Drag>,
    win_announced: bool,
}

impl View for Drag {
    type V = Hand;

    closed spec fn view(&self) -> Hand {
        Hand {
            cards: self.cards@,
            source: self.source,
            source_index: self.source_index as int,
            grab_x: self.grab_x as int,
            grab_y: self.grab_y as int,
            pointer_x: self.pointer_x as int,
            pointer_y: self.pointer_y as int,
        }
    }
}

impl View for GameState {
    type V = Table;

    closed spec fn view(&self) -> Table {
        Table {
            tableau: piles_view(self.tableau@),
            foundation: piles_view(self.foundation@),
            stock: self.stock@,
            discard: self.discard@,
            drag: match self.dragging {
                Some(drag) => Some(drag@),
                None => None,
            },
            win_announced: self.win_announced,
        }
    }
}

/// Why a game could not be set up.
#[derive(Clone, Copy, Debug, PartialEq, Eq, Structural)]
pub enum GameError {
    /// The cards are not the fifty-two of a deck, each once.
    InvalidDeck,
    /// The piles do not make a sound table.
    InvalidPiles,
}

/// What is shown of a drag: the lifted cards, where they came from, and where
/// the lowest of them is to be drawn. Each further card hangs `DRAG_STEP`
/// below the one before it.
#[derive(Debug, PartialEq, Eq)]
pub struct DragView {
    pub cards: Vec<Card>,
    pub source: PileRef,
    pub source_index: usize,
    pub x: i64,
    pub y: i64,
}

/// A copy of all that is to be drawn: each pile bottom first.
#[derive(Debug, PartialEq, Eq)]
pub struct Snapshot {
    pub tableau: Vec<Vec<Card>>,
    pub foundation: Vec<Vec<Card>>,
    pub stock: Vec<Card>,
    pub discard: Vec<Card>,
    pub dragging: Option<DragView>,
}

/// A copy of the cards of a pile from `start` up.
fn copy_from(pile: &Vec<Card>, start: usize) -> (cards: Vec<Card>)
    requires
        start <= pile@.len(),
    ensures
        cards@ == pile@.subrange(start as int, pile@.len() as int),
{
    let mut cards: Vec<Card> = Vec::new();
    let mut i: usize = start;
    while i < pile.len()
        invariant
            start <= i <= pile@.len(),
            cards@ == pile@.subrange(start as int, i as int),
        decreases pile@.len() - i,
    {
        cards.push(pile[i]);
        i += 1;
    }
    cards
}

/// A copy of a row of piles.
fn copy_piles(piles: &Vec<Vec<Card>>) -> (copy: Vec<Vec<Card>>)
    ensures
        piles_view(copy@) == piles_view(piles@),
{
    let mut copy: Vec<Vec<Card>> = Vec::new();
    let mut i: usize = 0;
    while i < piles.len()
        invariant
            i <= piles@.len(),
            copy@.len() == i,
            forall|k: int| 0 <= k < i ==> (#[trigger] copy@[k])@ == piles@[k]@,
        decreases piles@.len() - i,
    {
        let pile = copy_from(&piles[i], 0);
        copy.push(pile);
        i += 1;
    }
    copy
}

/// A row of `count` empty piles.
fn empty_piles(count: usize) -> (piles: Vec<Vec<Card>>)
    ensures
        piles@.len() == count,
        forall|i: int| 0 <= i < count ==> (#[trigger] piles@[i])@ == Seq::<Card>::empty(),
{
    let mut piles: Vec<Vec<Card>> = Vec::new();
    let mut i: usize = 0;
    while i < count
        invariant
            i <= count,
            piles@.len() == i,
            forall|k: int| 0 <= k < i ==> (#[trigger] piles@[k])@ == Seq::<Card>::empty(),
        decreases count - i,
    {
        piles.push(Vec::new());
        i += 1;
    }
    piles
}

/// The cards turned as `face_up` says.
fn turned_all(cards: &Vec<Card>, face_up: bool) -> (turned: Vec<Card>)
    ensures
        turned@ == turn_all(cards@, face_up),
{
    let mut turned: Vec<Card> = Vec::new();
    let mut i: usize = 0;
    while i < cards.len()
        invariant
            i <= cards@.len(),
            turned@.len() == i,
            forall|k: int| 0 <= k < i ==> turned@[k] == cards@[k].spec_turned(face_up),
        decreases cards@.len() - i,
    {
        turned.push(cards[i].turned(face_up));
        i += 1;
    }
    turned
}

impl GameState {
    /// What holds of every game between two operations.
    pub open spec fn wf(&self) -> bool {
        self@.wf()
    }

    /// Deals a whole deck.
    fn deal(deck: Vec<Card>) -> (game: GameState)
        requires
            is_full_deck(deck@),
        ensures
            game@ == Table::deal(deck@),
            game.wf(),
    {
        proof {
            lemma_full_deck_len(deck@);
            lemma_deal_wf(deck@);
            lemma_dealt_before();
        }
        let ghost whole = deck@;
        let mut deck = deck;
        let mut tableau: Vec<Vec<Card>> = Vec::new();
        let mut i: usize = 0;
        while i < TABLEAU_PILES
            invariant
                i <= 7,
                whole.len() == 52,
                deck@ == whole.subrange(0, 52 - dealt_before(i as int)),
                tableau@.len() == i,
                forall|m: int| 0 <= m < i ==> (#[trigger] tableau@[m])@ == Table::deal(whole).tableau[m],
            decreases 7 - i,
        {
            proof {
                lemma_dealt_before();
            }
            let mut pile: Vec<Card> = Vec::new();
            let mut j: usize = 0;
            while j <= i
                invariant
                    i < 7,
                    j <= i + 1,
                    whole.len() == 52,
                    dealt_before(i as int) <= 21,
                    0 <= dealt_before(i as int),
                    deck@ == whole.subrange(0, 52 - dealt_before(i as int) - j),
                    pile@.len() == j,
                    forall|k: int|
                        0 <= k < j ==> pile@[k] == (#[trigger] whole[dealt_from(i as int, k)]).spec_turned(
                            k == i,
                        ),
                decreases i + 1 - j,
            {
                match deck.pop() {
                    Some(card) => {
                        pile.push(card.turned(j == i));
                    },
                    None => {
                        assert(false);
                    },
                }
                j += 1;
            }
            tableau.push(pile);
            i += 1;
        }
        let stock = turned_all(&deck, false);
        let game = GameState {
            tableau,
            foundation: empty_piles(FOUNDATION_PILES),
            stock,
            discard: Vec::new(),
            dragging: None,
            win_announced: false,
        };
        proof {
            let dealt = Table::deal(whole);
            assert(game@.tableau =~= dealt.tableau);
            assert(game@.foundation =~= dealt.foundation);
        }
        game
    }

    /// A new game from a deck in the order given: the deal takes cards from
    /// the end of the deck. A deck that does not hold the fifty-two cards,
    /// each once, is refused.
    pub fn new_game(deck: Vec<Card>) -> (game: Result<GameState, GameError>)
        ensures
            match game {
                Ok(game) => is_full_deck(deck@) && game@ == Table::deal(deck@) && game.wf(),
                Err(e) => !is_full_deck(deck@) && e == GameError::InvalidDeck,
            },
    {
        if is_complete_deck(&deck) {
            Ok(GameState::deal(deck))
        } else {
            Err(GameError::InvalidDeck)
        }
    }

    /// The table that the piles make, with nothing in the hand and no win
    /// made known.
    pub open spec fn table_of(
        tableau: Seq<Vec<Card>>,
        foundation: Seq<Vec<Card>>,
        stock: Seq<Card>,
        discard: Seq<Card>,
    ) -> Table {
        Table {
            tableau: piles_view(tableau),
            foundation: piles_view(foundation),
            stock,
            discard,
            drag: None,
            win_announced: false,
        }
    }

    /// A game that starts from the piles given, each bottom first. Piles
    /// that do not make a sound table are refused.
    pub fn from_piles(
        tableau: Vec<Vec<Card>>,
        foundation: Vec<Vec<Card>>,
        stock: Vec<Card>,
        discard: Vec<Card>,
    ) -> (game: Result<GameState, GameError>)
        ensures
            match game {
                Ok(game) => game@ == Self::table_of(tableau@, foundation@, stock@, discard@)
                    && game.wf(),
                Err(e) => e == GameError::InvalidPiles && !Self::table_of(
                    tableau@,
                    foundation@,
                    stock@,
                    discard@,
                ).wf(),
            },
    {
        let ghost table = Self::table_of(tableau@, foundation@, stock@, discard@);
        proof {
            lemma_pile_ids_empty();
            assert(table.cards() =~= piles_ids(table.tableau).add(piles_ids(table.foundation)).add(
                pile_ids(table.stock),
            ).add(pile_ids(table.discard))) by {
                broadcast use vstd::multiset::group_multiset_axioms;

            }
        }
        if tableau.len() != TABLEAU_PILES || foundation.len() != FOUNDATION_PILES {
            return Err(GameError::InvalidPiles);
        }
        if !holds_full_deck(&tableau, &foundation, &stock, &discard) {
            return Err(GameError::InvalidPiles);
        }
        if !all_cards_facing(&stock, false) || !all_cards_facing(&discard, true) {
            return Err(GameError::InvalidPiles);
        }
        let mut i: usize = 0;
        while i < TABLEAU_PILES
            invariant
                i <= 7,
                tableau@.len() == 7,
                table == Self::table_of(tableau@, foundation@, stock@, discard@),
                forall|m: int|
                    0 <= m < i ==> tableau_pile_ok(#[trigger] table.tableau[m]) && (
                    table.tableau[m].len() > 0 ==> table.tableau[m].last().face_up),
            decreases 7 - i,
        {
            let n = tableau[i].len();
            if !is_tableau_pile(&tableau[i]) || (n > 0 && !tableau[i][n - 1].face_up) {
                assert(!(tableau_pile_ok(table.tableau[i as int]) && (table.tableau[i as int].len() > 0
                    && !table.is_source(i as int) ==> table.tableau[i as int].last().face_up)));
                return Err(GameError::InvalidPiles);
            }
            i += 1;
        }
        let mut i: usize = 0;
        while i < FOUNDATION_PILES
            invariant
                i <= 4,
                foundation@.len() == 4,
                table == Self::table_of(tableau@, foundation@, stock@, discard@),
                forall|m: int| 0 <= m < i ==> foundation_pile_ok(#[trigger] table.foundation[m]),
            decreases 4 - i,
        {
            if !is_foundation_pile(&foundation[i]) {
                assert(!foundation_pile_ok(table.foundation[i as int]));
                return Err(GameError::InvalidPiles);
            }
            i += 1;
        }
        Ok(GameState { tableau, foundation, stock, discard, dragging: None, win_announced: false })
    }

    /// A new game from a freshly shuffled deck: the deal of the fifty-two
    /// cards in an order left to chance.
    pub fn new() -> (game: GameState)
        ensures
            game.wf(),
            game@.is_fresh_deal(),
    {
        let deck = shuffle(create_deck());
        GameState::deal(deck)
    }

    /// Whether each foundation holds its thirteen cards.
    pub fn check_game_won(&self) -> (won: bool)
        requires
            self.wf(),
        ensures
            won == self@.is_won(),
    {
        let mut i: usize = 0;
        while i < FOUNDATION_PILES
            invariant
                i <= 4,
                self.foundation@.len() == 4,
                forall|k: int| 0 <= k < i ==> (#[trigger] self@.foundation[k]).len() == 13,
            decreases 4 - i,
        {
            if self.foundation[i].len() != 13 {
                assert(self@.foundation[i as int].len() != 13);
                return false;
            }
            i += 1;
        }
        true
    }

    /// Whether a drag is in progress.
    pub fn is_dragging(&self) -> (dragging: bool)
        ensures
            dragging == (self@.drag is Some),
    {
        self.dragging.is_some()
    }

    /// Whether the pile has a place on the table: a tableau pile among the
    /// seven, a foundation among the four.
    pub fn has_pile(&self, pile: PileRef) -> (known: bool)
        ensures
            known == self@.has_pile(pile),
    {
        match pile {
            PileRef::Tableau(i) => i < self.tableau.len(),
            PileRef::Foundation(i) => i < self.foundation.len(),
            PileRef::Stock => true,
            PileRef::Discard => true,
        }
    }

    /// The cards of a pile, bottom first; nothing for a pile that the table
    /// does not have.
    pub fn pile(&self, pile: PileRef) -> (cards: Option<&Vec<Card>>)
        ensures
            match cards {
                Some(cards) => self@.has_pile(pile) && cards@ == self@.pile(pile),
                None => !self@.has_pile(pile),
            },
    {
        match pile {
            PileRef::Tableau(i) => if i < self.tableau.len() {
                Some(&self.tableau[i])
            } else {
                None
            },
            PileRef::Foundation(i) => if i < self.foundation.len() {
                Some(&self.foundation[i])
            } else {
                None
            },
            PileRef::Stock => Some(&self.stock),
            PileRef::Discard => Some(&self.discard),
        }
    }

    /// A click on the stock: draws a card, or turns the discard pile over
    /// into an empty stock. During a drag nothing happens.
    pub fn handle_stock_click(&mut self)
        requires
            old(self).wf(),
        ensures
            final(self).wf(),
            final(self)@ == old(self)@.after_stock_click(),
    {
        proof {
            lemma_stock_click_keeps_wf(self@);
        }
        if self.dragging.is_some() {
            return ;
        }
        match self.stock.pop() {
            Some(card) => {
                self.discard.push(card.turned(true));
            },
            None => {
                let ghost before = self.discard@;
                while self.discard.len() > 0
                    invariant
                        self.discard@ == before.subrange(0, self.discard@.len() as int),
                        self.discard@.len() <= before.len(),
                        self.stock@ == turn_all(
                            before.subrange(self.discard@.len() as int, before.len() as int).reverse(),
                            false,
                        ),
                        self.tableau == old(self).tableau,
                        self.foundation == old(self).foundation,
                        self.dragging == old(self).dragging,
                        self.win_announced == old(self).win_announced,
                    decreases self.discard@.len(),
                {
                    match self.discard.pop() {
                        Some(card) => {
                            self.stock.push(card.turned(false));
                        },
                        None => {},
                    }
                }
                assert(self.discard@ =~= Seq::<Card>::empty());
                assert(before.subrange(0, before.len() as int) =~= before);
                assert(self.stock@ =~= old(self)@.after_stock_click().stock);
            },
        }
    }

    /// The first foundation that holds a card and on whose place the point
    /// lies.
    pub fn foundation_hit(&self, x: i32, y: i32) -> (hit: Option<usize>)
        requires
            self.wf(),
        ensures
            match hit {
                Some(i) => self@.foundation_at(x as int, y as int, 0) == Some(i as int) && i < 4,
                None => self@.foundation_at(x as int, y as int, 0).is_none(),
            },
    {
        let mut i: usize = 0;
        while i < FOUNDATION_PILES
            invariant
                i <= 4,
                self.foundation@.len() == 4,
                self@.foundation_at(x as int, y as int, 0) == self@.foundation_at(
                    x as int,
                    y as int,
                    i as int,
                ),
            decreases 4 - i,
        {
            if self.foundation[i].len() > 0 && hits_foundation(i, x, y) {
                return Some(i);
            }
            i += 1;
        }
        None
    }

    /// The first tableau pile with a card under the point, and the lowest
    /// such card of that pile.
    pub fn tableau_hit(&self, x: i32, y: i32) -> (hit: Option<(usize, usize)>)
        requires
            self.wf(),
        ensures
            match hit {
                Some((i, k)) => self@.tableau_at(x as int, y as int, 0) == Some((i as int, k as int))
                    && i < 7 && k < self@.tableau[i as int].len(),
                None => self@.tableau_at(x as int, y as int, 0).is_none(),
            },
    {
        let mut i: usize = 0;
        while i < TABLEAU_PILES
            invariant
                i <= 7,
                self.wf(),
                self.tableau@.len() == 7,
                self@.tableau_at(x as int, y as int, 0) == self@.tableau_at(
                    x as int,
                    y as int,
                    i as int,
                ),
            decreases 7 - i,
        {
            proof {
                lemma_pile_bound(self@, PileRef::Tableau(i));
                crate::layout::lemma_first_card_at(
                    i as int,
                    self@.tableau[i as int].len() as int,
                    x as int,
                    y as int,
                    0,
                );
            }
            match first_card_hit(i, self.tableau[i].len(), x, y) {
                Some(k) => {
                    return Some((i, k));
                },
                None => {},
            }
            i += 1;
        }
        None
    }

    /// Takes the cards of a pile from `index` up into the hand.
    fn lift(&mut self, source: PileRef, index: usize, x: i32, y: i32)
        requires
            old(self)@.has_pile(source),
            old(self)@.drag is None,
            index <= old(self)@.pile(source).len(),
        ensures
            final(self)@ == old(self)@.lift(source, index as int, x as int, y as int),
    {
        let cards = match source {
            PileRef::Tableau(i) => self.tableau[i].split_off(index),
            PileRef::Foundation(i) => self.foundation[i].split_off(index),
            PileRef::Stock => self.stock.split_off(index),
            PileRef::Discard => self.discard.split_off(index),
        };
        self.dragging = Some(
            Drag {
                cards,
                source,
                source_index: index,
                grab_x: x,
                grab_y: y,
                pointer_x: x,
                pointer_y: y,
            },
        );
        proof {
            let after = old(self)@.lift(source, index as int, x as int, y as int);
            assert(self@.tableau =~= after.tableau);
            assert(self@.foundation =~= after.foundation);
        }
    }

    /// The pointer goes down at a point: lifts cards, or clicks the stock.
    /// Foundations are asked first, then the tableau, the stock and the
    /// discard pile. During a drag nothing happens.
    pub fn handle_mousedown(&mut self, x: i32, y: i32)
        requires
            old(self).wf(),
        ensures
            final(self).wf(),
            final(self)@ == old(self)@.after_pointer_down(x as int, y as int),
    {
        proof {
            lemma_pointer_down_keeps_wf(self@, x as int, y as int);
        }
        if self.dragging.is_some() {
            return ;
        }
        match self.foundation_hit(x, y) {
            Some(i) => {
                let top = self.foundation[i].len() - 1;
                self.lift(PileRef::Foundation(i), top, x, y);
                return ;
            },
            None => {},
        }
        match self.tableau_hit(x, y) {
            Some((i, k)) => {
                if self.tableau[i][k].face_up {
                    self.lift(PileRef::Tableau(i), k, x, y);
                }
                return ;
            },
            None => {},
        }
        if hits_stock(x, y) {
            self.handle_stock_click();
            return ;
        }
        if self.discard.len() > 0 && hits_discard(x, y) {
            let top = self.discard.len() - 1;
            self.lift(PileRef::Discard, top, x, y);
        }
    }

    /// The pointer moves: a drag in progress remembers where to.
    pub fn handle_mousemove(&mut self, x: i32, y: i32)
        requires
            old(self).wf(),
        ensures
            final(self).wf(),
            final(self)@ == old(self)@.after_pointer_move(x as int, y as int),
    {
        proof {
            lemma_pointer_move_keeps_wf(self@, x as int, y as int);
        }
        match self.dragging.take() {
            Some(drag) => {
                self.dragging = Some(Drag { pointer_x: x, pointer_y: y, ..drag });
            },
            None => {},
        }
    }

    /// Whether tableau pile `i` takes a run whose lowest card is `card`,
    /// let go at the point.
    fn tableau_takes(&self, i: usize, card: &Card, x: i32, y: i32) -> (takes: bool)
        requires
            i < 7,
            self@.tableau.len() == 7,
            self@.tableau[i as int].len() <= 53,
        ensures
            takes == self@.tableau_takes(i as int, *card, x as int, y as int),
    {
        let n = self.tableau[i].len();
        if n > 0 {
            hits_tableau_card(i, n - 1, x, y) && is_valid_tableau_move(card, &self.tableau[i][n - 1])
        } else {
            can_start_tableau(card)
        }
    }

    /// Whether foundation `i` takes the card, let go at the point.
    fn foundation_takes(&self, i: usize, card: &Card, x: i32, y: i32) -> (takes: bool)
        requires
            i < 4,
            self@.foundation.len() == 4,
        ensures
            takes == self@.foundation_takes(i as int, *card, x as int, y as int),
    {
        let n = self.foundation[i].len();
        if n > 0 {
            hits_foundation(i, x, y) && is_valid_foundation_move(card, &self.foundation[i][n - 1])
        } else {
            can_start_foundation(card)
        }
    }

    /// Where a run goes whose lowest card is `bottom`, let go at the point:
    /// the first tableau pile that takes it.
    pub fn stack_target(&self, bottom: &Card, x: i32, y: i32) -> (target: Option<PileRef>)
        requires
            self.wf(),
        ensures
            target == self@.stack_target(*bottom, x as int, y as int),
            target is Some ==> self@.has_pile(target.unwrap()),
    {
        let mut i: usize = 0;
        while i < TABLEAU_PILES
            invariant
                i <= 7,
                self.wf(),
                self@.first_tableau_taking(*bottom, x as int, y as int, 0)
                    == self@.first_tableau_taking(*bottom, x as int, y as int, i as int),
            decreases 7 - i,
        {
            proof {
                lemma_pile_bound(self@, PileRef::Tableau(i));
            }
            if self.tableau_takes(i, bottom, x, y) {
                return Some(PileRef::Tableau(i));
            }
            i += 1;
        }
        None
    }

    /// Where a single card goes that is let go at the point: the first
    /// foundation that takes it, else the first tableau pile that does.
    pub fn card_target(&self, card: &Card, x: i32, y: i32) -> (target: Option<PileRef>)
        requires
            self.wf(),
        ensures
            target == self@.card_target(*card, x as int, y as int),
            target is Some ==> self@.has_pile(target.unwrap()),
    {
        let mut i: usize = 0;
        while i < FOUNDATION_PILES
            invariant
                i <= 4,
                self.wf(),
                self@.first_foundation_taking(*card, x as int, y as int, 0)
                    == self@.first_foundation_taking(*card, x as int, y as int, i as int),
            decreases 4 - i,
        {
            if self.foundation_takes(i, card, x, y) {
                return Some(PileRef::Foundation(i));
            }
            i += 1;
        }
        self.stack_target(card, x, y)
    }

    /// Lays the cards on top of a pile.
    fn put(&mut self, dest: PileRef, cards: Vec<Card>)
        requires
            old(self)@.has_pile(dest),
        ensures
            final(self)@ == old(self)@.put(dest, cards@),
    {
        let ghost laid = cards@;
        let mut cards = cards;
        match dest {
            PileRef::Tableau(i) => {
                self.tableau[i].append(&mut cards);
            },
            PileRef::Foundation(i) => {
                self.foundation[i].append(&mut cards);
            },
            PileRef::Stock => {
                self.stock.append(&mut cards);
            },
            PileRef::Discard => {
                self.discard.append(&mut cards);
            },
        }
        proof {
            let after = old(self)@.put(dest, laid);
            assert(self@.tableau =~= after.tableau);
            assert(self@.foundation =~= after.foundation);
        }
    }

    /// Turns the top card of a tableau pile face up; other piles stay as
    /// they are.
    fn settle(&mut self, pile: PileRef)
        requires
            old(self)@.has_pile(pile),
        ensures
            final(self)@ == old(self)@.settle(pile),
    {
        match pile {
            PileRef::Tableau(i) => {
                let n = self.tableau[i].len();
                if n > 0 {
                    let top = self.tableau[i][n - 1];
                    self.tableau[i][n - 1] = top.turned(true);
                }
                proof {
                    let after = old(self)@.settle(pile);
                    assert(self@.tableau =~= after.tableau);
                }
            },
            _ => {},
        }
    }

    /// Lays the one card in the hand, let go at the point, on the first
    /// pile that takes it, and says whether one did. Foundations are asked
    /// before the tableau.
    fn try_drop_card(&mut self, x: i32, y: i32) -> (dropped: bool)
        requires
            old(self).wf(),
            old(self)@.drag is Some,
        ensures
            dropped == (old(self)@.card_target(old(self)@.hand()[0], x as int, y as int) is Some),
            final(self)@ == match old(self)@.card_target(old(self)@.hand()[0], x as int, y as int) {
                Some(dest) => (Table { drag: None, ..old(self)@ }).put(dest, old(self)@.hand()),
                None => old(self)@,
            },
    {
        let target = match &self.dragging {
            Some(drag) => self.card_target(&drag.cards[0], x, y),
            None => None,
        };
        match target {
            Some(dest) => {
                match self.dragging.take() {
                    Some(drag) => {
                        self.put(dest, drag.cards);
                    },
                    None => {},
                }
                true
            },
            None => false,
        }
    }

    /// Lays the run in the hand, let go at the point, on the first tableau
    /// pile that takes its lowest card, and says whether one did.
    fn try_drop_stack(&mut self, x: i32, y: i32) -> (dropped: bool)
        requires
            old(self).wf(),
            old(self)@.drag is Some,
        ensures
            dropped == (old(self)@.stack_target(old(self)@.hand()[0], x as int, y as int) is Some),
            final(self)@ == match old(self)@.stack_target(old(self)@.hand()[0], x as int, y as int) {
                Some(dest) => (Table { drag: None, ..old(self)@ }).put(dest, old(self)@.hand()),
                None => old(self)@,
            },
    {
        let target = match &self.dragging {
            Some(drag) => self.stack_target(&drag.cards[0], x, y),
            None => None,
        };
        match target {
            Some(dest) => {
                match self.dragging.take() {
                    Some(drag) => {
                        self.put(dest, drag.cards);
                    },
                    None => {},
                }
                true
            },
            None => false,
        }
    }

    /// Lays the hand back on the pile it was lifted from.
    fn return_to_source(&mut self)
        requires
            old(self).wf(),
            old(self)@.drag is Some,
        ensures
            final(self)@ == (Table { drag: None, ..old(self)@ }).put(
                old(self)@.drag.unwrap().source,
                old(self)@.hand(),
            ),
    {
        match self.dragging.take() {
            Some(drag) => {
                self.put(drag.source, drag.cards);
            },
            None => {},
        }
    }

    /// The pointer goes up at a point: the lifted cards go to the first pile
    /// that takes them, or back to where they came from; the tableau pile
    /// they came from shows its top card. Returns whether the game is now
    /// won and that has not been said before. With nothing lifted nothing
    /// happens.
    pub fn handle_mouseup(&mut self, x: i32, y: i32) -> (announce: bool)
        requires
            old(self).wf(),
        ensures
            final(self).wf(),
            final(self)@ == old(self)@.after_pointer_up(x as int, y as int),
            announce == old(self)@.announces_win(x as int, y as int),
    {
        proof {
            lemma_pointer_up_keeps_wf(self@, x as int, y as int);
        }
        let (single, source) = match &self.dragging {
            Some(drag) => (drag.cards.len() == 1, drag.source),
            None => {
                return false;
            },
        };
        let dropped = if single {
            self.try_drop_card(x, y)
        } else {
            self.try_drop_stack(x, y)
        };
        if !dropped {
            self.return_to_source();
        }
        proof {
            let bottom = old(self)@.hand()[0];
            lemma_first_foundation_taking(old(self)@, bottom, x as int, y as int, 0);
            lemma_first_tableau_taking(old(self)@, bottom, x as int, y as int, 0);
        }
        self.settle(source);
        proof {
            let after = old(self)@.after_pointer_up(x as int, y as int);
            assert forall|i: int| 0 <= i < 7 implies self@.is_source(i) == after.is_source(i) by {}
        }
        let won = self.check_game_won();
        let announce = won && !self.win_announced;
        if won {
            self.win_announced = true;
        }
        announce
    }

    /// The top card of a pile, if the table has the pile and it holds a
    /// card.
    pub fn top_card(&self, pile: PileRef) -> (top: Option<Card>)
        ensures
            top == if self@.has_pile(pile) && self@.pile(pile).len() > 0 {
                Some(self@.pile(pile).last())
            } else {
                None
            },
    {
        match self.pile(pile) {
            Some(cards) => {
                let n = cards.len();
                if n > 0 {
                    Some(cards[n - 1])
                } else {
                    None
                }
            },
            None => None,
        }
    }

    /// The cards of a pile from `start` up, bottom first. Nothing if the
    /// table has no such pile or the pile ends before `start`.
    pub fn cards_from(&self, pile: PileRef, start: usize) -> (cards: Vec<Card>)
        ensures
            cards@ == if self@.has_pile(pile) && start <= self@.pile(pile).len() {
                self@.pile(pile).subrange(start as int, self@.pile(pile).len() as int)
            } else {
                Seq::<Card>::empty()
            },
    {
        match self.pile(pile) {
            Some(cards) => {
                if start <= cards.len() {
                    copy_from(cards, start)
                } else {
                    Vec::new()
                }
            },
            None => Vec::new(),
        }
    }

    /// Where the card at `index` of a pile is to be drawn: its upper left
    /// corner. Nothing if there is no such card.
    pub fn card_position(&self, pile: PileRef, index: usize) -> (origin: Option<(i64, i64)>)
        requires
            self.wf(),
        ensures
            match origin {
                Some(origin) => self@.has_pile(pile) && index < self@.pile(pile).len() && (
                    origin.0 as int,
                    origin.1 as int,
                ) == origin_of(pile, index as int),
                None => !(self@.has_pile(pile) && index < self@.pile(pile).len()),
            },
    {
        match self.pile(pile) {
            Some(cards) => {
                if index < cards.len() {
                    proof {
                        lemma_pile_bound(self@, pile);
                    }
                    Some(card_origin(pile, index))
                } else {
                    None
                }
            },
            None => None,
        }
    }

    /// What is to be shown of the drag in progress, if there is one.
    pub fn drag_view(&self) -> (view: Option<DragView>)
        requires
            self.wf(),
        ensures
            match view {
                Some(view) => self@.drag is Some && {
                    let hand = self@.drag.unwrap();
                    &&& view.cards@ == hand.cards
                    &&& view.source == hand.source
                    &&& view.source_index == hand.source_index
                    &&& (view.x as int, view.y as int) == hand.card_origin(0)
                },
                None => self@.drag is None,
            },
    {
        match &self.dragging {
            Some(drag) => {
                proof {
                    lemma_pile_bound(self@, drag.source);
                }
                let origin = card_origin(drag.source, drag.source_index);
                let cards = copy_from(&drag.cards, 0);
                Some(
                    DragView {
                        cards,
                        source: drag.source,
                        source_index: drag.source_index,
                        x: drag.pointer_x as i64 - (drag.grab_x as i64 - origin.0),
                        y: drag.pointer_y as i64 - (drag.grab_y as i64 - origin.1),
                    },
                )
            },
            None => None,
        }
    }

    /// A copy of all that is to be drawn.
    pub fn snapshot(&self) -> (snap: Snapshot)
        requires
            self.wf(),
        ensures
            piles_view(snap.tableau@) == self@.tableau,
            piles_view(snap.foundation@) == self@.foundation,
            snap.stock@ == self@.stock,
            snap.discard@ == self@.discard,
            match snap.dragging {
                Some(view) => self@.drag is Some && {
                    let hand = self@.drag.unwrap();
                    &&& view.cards@ == hand.cards
                    &&& view.source == hand.source
                    &&& view.source_index == hand.source_index
                    &&& (view.x as int, view.y as int) == hand.card_origin(0)
                },
                None => self@.drag is None,
            },
    {
        let stock = copy_from(&self.stock, 0);
        let discard = copy_from(&self.discard, 0);
        Snapshot {
            tableau: copy_piles(&self.tableau),
            foundation: copy_piles(&self.foundation),
            stock,
            discard,
            dragging: self.drag_view(),
        }
    }
}

} // verus!
