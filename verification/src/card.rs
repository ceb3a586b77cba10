//! Playing cards: rank, suit, orientation, and the names under which the
//! artwork of a card is looked up.

use vstd::prelude::*;
use vstd::string::StringExecFns;

verus! {

/// The four suits, in the order in which a fresh deck lists them.
#[derive(Clone, Copy, Debug, PartialEq, Eq, Hash, Structural)]
pub enum Suit {
    Hearts,
    Diamonds,
    Clubs,
    Spades,
}

/// The thirteen ranks, ace low.
#[derive(Clone, Copy, Debug, PartialEq, Eq, Hash, Structural)]
pub enum Rank {
    Ace,
    Two,
    Three,
    Four,
    Five,
    Six,
    Seven,
    Eight,
    Nine,
    Ten,
    Jack,
    Queen,
    King,
}

/// What makes a card the card it is: its rank and its suit. Orientation is
/// not part of it.
pub type CardId = (Rank, Suit);

/// A card on the table.
#[derive(Clone, Copy, Debug, PartialEq, Eq, Hash, Structural)]
pub struct Card {
    pub rank: Rank,
    pub suit: Suit,
    pub face_up: bool,
}

impl Suit {
    /// Position of the suit in a fresh deck, `0..4`.
    pub open spec fn spec_index(self) -> int {
        match self {
            Suit::Hearts => 0,
            Suit::Diamonds => 1,
            Suit::Clubs => 2,
            Suit::Spades => 3,
        }
    }

    /// The suit at a position of a fresh deck.
    pub open spec fn spec_from_index(i: int) -> Suit {
        if i == 0 {
            Suit::Hearts
        } else if i == 1 {
            Suit::Diamonds
        } else if i == 2 {
            Suit::Clubs
        } else {
            Suit::Spades
        }
    }

    /// Hearts and diamonds are red, clubs and spades black.
    pub open spec fn spec_is_red(self) -> bool {
        self == Suit::Hearts || self == Suit::Diamonds
    }

    /// The lower-case English name of the suit.
    pub open spec fn spec_name(self) -> Seq<char> {
        match self {
            Suit::Hearts => "hearts"@,
            Suit::Diamonds => "diamonds"@,
            Suit::Clubs => "clubs"@,
            Suit::Spades => "spades"@,
        }
    }

    /// Position of the suit in a fresh deck.
    pub fn index(self) -> (i: u8)
        ensures
            i == self.spec_index(),
            i < 4,
    {
        match self {
            Suit::Hearts => 0,
            Suit::Diamonds => 1,
            Suit::Clubs => 2,
            Suit::Spades => 3,
        }
    }

    /// The suit at a position of a fresh deck; none from 4 on.
    pub fn from_index(i: u8) -> (suit: Option<Suit>)
        ensures
            suit == if i < 4 {
                Some(Suit::spec_from_index(i as int))
            } else {
                None
            },
            i < 4 ==> suit.unwrap().spec_index() == i,
    {
        if i == 0 {
            Some(Suit::Hearts)
        } else if i == 1 {
            Some(Suit::Diamonds)
        } else if i == 2 {
            Some(Suit::Clubs)
        } else if i == 3 {
            Some(Suit::Spades)
        } else {
            None
        }
    }

    /// Whether the suit is red.
    #[verifier::when_used_as_spec(spec_is_red)]
    pub fn is_red(self) -> (red: bool)
        ensures
            red == self.spec_is_red(),
    {
        match self {
            Suit::Hearts => true,
            Suit::Diamonds => true,
            Suit::Clubs => false,
            Suit::Spades => false,
        }
    }

    /// The lower-case English name of the suit, as the artwork spells it.
    pub fn name(self) -> (name: &'static str)
        ensures
            name@ == self.spec_name(),
    {
        match self {
            Suit::Hearts => "hearts",
            Suit::Diamonds => "diamonds",
            Suit::Clubs => "clubs",
            Suit::Spades => "spades",
        }
    }
}

impl Rank {
    /// Position of the rank in the fixed order A, 2, ..., 10, J, Q, K: `0..13`.
    pub open spec fn spec_index(self) -> int {
        match self {
            Rank::Ace => 0,
            Rank::Two => 1,
            Rank::Three => 2,
            Rank::Four => 3,
            Rank::Five => 4,
            Rank::Six => 5,
            Rank::Seven => 6,
            Rank::Eight => 7,
            Rank::Nine => 8,
            Rank::Ten => 9,
            Rank::Jack => 10,
            Rank::Queen => 11,
            Rank::King => 12,
        }
    }

    /// The rank at a position of the fixed order.
    pub open spec fn spec_from_index(i: int) -> Rank {
        if i == 0 {
            Rank::Ace
        } else if i == 1 {
            Rank::Two
        } else if i == 2 {
            Rank::Three
        } else if i == 3 {
            Rank::Four
        } else if i == 4 {
            Rank::Five
        } else if i == 5 {
            Rank::Six
        } else if i == 6 {
            Rank::Seven
        } else if i == 7 {
            Rank::Eight
        } else if i == 8 {
            Rank::Nine
        } else if i == 9 {
            Rank::Ten
        } else if i == 10 {
            Rank::Jack
        } else if i == 11 {
            Rank::Queen
        } else {
            Rank::King
        }
    }

    /// The name of the rank on the artwork: `A`, `2` to `10`, `J`, `Q`, `K`.
    pub open spec fn spec_name(self) -> Seq<char> {
        match self {
            Rank::Ace => "A"@,
            Rank::Two => "2"@,
            Rank::Three => "3"@,
            Rank::Four => "4"@,
            Rank::Five => "5"@,
            Rank::Six => "6"@,
            Rank::Seven => "7"@,
            Rank::Eight => "8"@,
            Rank::Nine => "9"@,
            Rank::Ten => "10"@,
            Rank::Jack => "J"@,
            Rank::Queen => "Q"@,
            Rank::King => "K"@,
        }
    }

    /// Position of the rank in the fixed order, ace first.
    pub fn index(self) -> (i: u8)
        ensures
            i == self.spec_index(),
            i < 13,
    {
        match self {
            Rank::Ace => 0,
            Rank::Two => 1,
            Rank::Three => 2,
            Rank::Four => 3,
            Rank::Five => 4,
            Rank::Six => 5,
            Rank::Seven => 6,
            Rank::Eight => 7,
            Rank::Nine => 8,
            Rank::Ten => 9,
            Rank::Jack => 10,
            Rank::Queen => 11,
            Rank::King => 12,
        }
    }

    /// The rank at a position of the fixed order; none from 13 on.
    pub fn from_index(i: u8) -> (rank: Option<Rank>)
        ensures
            rank == if i < 13 {
                Some(Rank::spec_from_index(i as int))
            } else {
                None
            },
            i < 13 ==> rank.unwrap().spec_index() == i,
    {
        if i == 0 {
            Some(Rank::Ace)
        } else if i == 1 {
            Some(Rank::Two)
        } else if i == 2 {
            Some(Rank::Three)
        } else if i == 3 {
            Some(Rank::Four)
        } else if i == 4 {
            Some(Rank::Five)
        } else if i == 5 {
            Some(Rank::Six)
        } else if i == 6 {
            Some(Rank::Seven)
        } else if i == 7 {
            Some(Rank::Eight)
        } else if i == 8 {
            Some(Rank::Nine)
        } else if i == 9 {
            Some(Rank::Ten)
        } else if i == 10 {
            Some(Rank::Jack)
        } else if i == 11 {
            Some(Rank::Queen)
        } else if i == 12 {
            Some(Rank::King)
        } else {
            None
        }
    }

    /// The name of the rank, as the artwork spells it.
    pub fn name(self) -> (name: &'static str)
        ensures
            name@ == self.spec_name(),
    {
        match self {
            Rank::Ace => "A",
            Rank::Two => "2",
            Rank::Three => "3",
            Rank::Four => "4",
            Rank::Five => "5",
            Rank::Six => "6",
            Rank::Seven => "7",
            Rank::Eight => "8",
            Rank::Nine => "9",
            Rank::Ten => "10",
            Rank::Jack => "J",
            Rank::Queen => "Q",
            Rank::King => "K",
        }
    }
}

/// Every rank sits at the position that `spec_index` gives it, and the two
/// functions undo each other on `0..13`.
pub proof fn lemma_rank_index_round_trip()
    ensures
        forall|r: Rank| 0 <= #[trigger] r.spec_index() < 13 && Rank::spec_from_index(r.spec_index()) == r,
        forall|i: int| 0 <= i < 13 ==> (#[trigger] Rank::spec_from_index(i)).spec_index() == i,
{
}

/// Every suit sits at the position that `spec_index` gives it, and the two
/// functions undo each other on `0..4`.
pub proof fn lemma_suit_index_round_trip()
    ensures
        forall|s: Suit| 0 <= #[trigger] s.spec_index() < 4 && Suit::spec_from_index(s.spec_index()) == s,
        forall|i: int| 0 <= i < 4 ==> (#[trigger] Suit::spec_from_index(i)).spec_index() == i,
{
}

impl Card {
    /// The card's identity.
    pub open spec fn id(self) -> CardId {
        (self.rank, self.suit)
    }

    /// The same card with the given orientation.
    pub open spec fn spec_turned(self, face_up: bool) -> Card {
        Card { rank: self.rank, suit: self.suit, face_up }
    }

    /// The key under which the card's picture is stored: suit and rank
    /// joined by an underscore for a card that shows its face, and the one
    /// key of the back for a card that does not.
    pub open spec fn spec_image_key(self) -> Seq<char> {
        if self.face_up {
            self.suit.spec_name() + "_"@ + self.rank.spec_name()
        } else {
            "cover"@
        }
    }

    /// A new card, face down.
    pub fn new(rank: Rank, suit: Suit) -> (card: Card)
        ensures
            card == (Card { rank, suit, face_up: false }),
    {
        Card { rank, suit, face_up: false }
    }

    /// The same card, lying as `face_up` says.
    #[verifier::when_used_as_spec(spec_turned)]
    pub fn turned(self, face_up: bool) -> (card: Card)
        ensures
            card == self.spec_turned(face_up),
    {
        Card { rank: self.rank, suit: self.suit, face_up }
    }

    /// The key under which the card's picture is stored.
    pub fn image_key(&self) -> (key: String)
        ensures
            key@ == self.spec_image_key(),
    {
        if self.face_up {
            let mut key = String::from_str(self.suit.name());
            key.append("_");
            key.append(self.rank.name());
            key
        } else {
            String::from_str("cover")
        }
    }
}

} // verus!
