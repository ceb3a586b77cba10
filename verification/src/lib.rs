//! A Klondike solitaire engine: the piles, the rules that decide which moves
//! are legal, the drag that a pointer carries out, and the test for a won
//! game. Drawing and event wiring live with the caller.
//!
//! `table` describes a game as a mathematical value and says what each event
//! makes of it; `game` is the engine that runs, held to that description;
//! `soundness` proves that no event breaks the table, and `laws` states what
//! follows for the game as a whole.

pub mod card;
pub mod deck;
pub mod game;
pub mod laws;
pub mod layout;
pub mod pile;
pub mod rules;
pub mod soundness;
pub mod table;
pub mod validate;
