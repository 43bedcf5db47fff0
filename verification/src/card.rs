//! Playing cards: ranks, suits, and the dense numbering of the 52 cards
//! used by card sets.
use vstd::prelude::*;

verus! {

/// The rank of a card, from lowest (`Two`) to highest (`Ace`).
#[derive(Clone, Copy, Debug, Hash, PartialEq, Eq, Structural, PartialOrd, Ord)]
pub enum Rank {
    Two,
    Three,
    Four,
    Five,
    Six,
    Seven,
    Eight,
    Nine,
    Ten,
    Jack,
    Queen,
    King,
    Ace,
}

/// Every rank, in ascending order.
pub const ALL_RANKS: [Rank; 13] = [
    Rank::Two,
    Rank::Three,
    Rank::Four,
    Rank::Five,
    Rank::Six,
    Rank::Seven,
    Rank::Eight,
    Rank::Nine,
    Rank::Ten,
    Rank::Jack,
    Rank::Queen,
    Rank::King,
    Rank::Ace,
];

/// The suit of a card. Suits are ordered diamond, club, heart, spade.
#[derive(Clone, Copy, Debug, Hash, PartialEq, Eq, Structural, PartialOrd, Ord)]
pub enum Suit {
    Diamond,
    Club,
    Heart,
    Spade,
}

/// Every suit, in ascending order.
pub const ALL_SUITS: [Suit; 4] = [Suit::Diamond, Suit::Club, Suit::Heart, Suit::Spade];

/// The number of distinct cards: one for each rank and suit.
pub const NUM_CARDS: usize = 52;

impl Rank {
    /// Position of the rank in ascending order (`Two` is 0, `Ace` is 12).
    pub open spec fn index(self) -> nat {
        match self {
            Rank::Two => 0,
            Rank::Three => 1,
            Rank::Four => 2,
            Rank::Five => 3,
            Rank::Six => 4,
            Rank::Seven => 5,
            Rank::Eight => 6,
            Rank::Nine => 7,
            Rank::Ten => 8,
            Rank::Jack => 9,
            Rank::Queen => 10,
            Rank::King => 11,
            Rank::Ace => 12,
        }
    }

    /// The rank at position `i` of the ascending order.
    pub open spec fn at(i: nat) -> Rank {
        if i == 0 {
            Rank::Two
        } else if i == 1 {
            Rank::Three
        } else if i == 2 {
            Rank::Four
        } else if i == 3 {
            Rank::Five
        } else if i == 4 {
            Rank::Six
        } else if i == 5 {
            Rank::Seven
        } else if i == 6 {
            Rank::Eight
        } else if i == 7 {
            Rank::Nine
        } else if i == 8 {
            Rank::Ten
        } else if i == 9 {
            Rank::Jack
        } else if i == 10 {
            Rank::Queen
        } else if i == 11 {
            Rank::King
        } else {
            Rank::Ace
        }
    }

    fn ordinal(self) -> (r: usize)
        ensures
            r == self.index(),
    {
        match self {
            Rank::Two => 0,
            Rank::Three => 1,
            Rank::Four => 2,
            Rank::Five => 3,
            Rank::Six => 4,
            Rank::Seven => 5,
            Rank::Eight => 6,
            Rank::Nine => 7,
            Rank::Ten => 8,
            Rank::Jack => 9,
            Rank::Queen => 10,
            Rank::King => 11,
            Rank::Ace => 12,
        }
    }
}

impl Suit {
    /// Position of the suit in ascending order (`Diamond` is 0, `Spade` is 3).
    pub open spec fn index(self) -> nat {
        match self {
            Suit::Diamond => 0,
            Suit::Club => 1,
            Suit::Heart => 2,
            Suit::Spade => 3,
        }
    }

    /// The suit at position `i` of the ascending order.
    pub open spec fn at(i: nat) -> Suit {
        if i == 0 {
            Suit::Diamond
        } else if i == 1 {
            Suit::Club
        } else if i == 2 {
            Suit::Heart
        } else {
            Suit::Spade
        }
    }

    fn ordinal(self) -> (r: usize)
        ensures
            r == self.index(),
    {
        match self {
            Suit::Diamond => 0,
            Suit::Club => 1,
            Suit::Heart => 2,
            Suit::Spade => 3,
        }
    }
}

/// The rank that a character names: the digits `2` to `9`, and `T`, `J`,
/// `Q`, `K`, `A` in either case.
pub open spec fn rank_of_char(c: char) -> Option<Rank> {
    if c == '2' {
        Some(Rank::Two)
    } else if c == '3' {
        Some(Rank::Three)
    } else if c == '4' {
        Some(Rank::Four)
    } else if c == '5' {
        Some(Rank::Five)
    } else if c == '6' {
        Some(Rank::Six)
    } else if c == '7' {
        Some(Rank::Seven)
    } else if c == '8' {
        Some(Rank::Eight)
    } else if c == '9' {
        Some(Rank::Nine)
    } else if c == 'T' || c == 't' {
        Some(Rank::Ten)
    } else if c == 'J' || c == 'j' {
        Some(Rank::Jack)
    } else if c == 'Q' || c == 'q' {
        Some(Rank::Queen)
    } else if c == 'K' || c == 'k' {
        Some(Rank::King)
    } else if c == 'A' || c == 'a' {
        Some(Rank::Ace)
    } else {
        None
    }
}

/// The suit that a character names: `c`, `d`, `h`, `s` in either case.
pub open spec fn suit_of_char(c: char) -> Option<Suit> {
    if c == 'c' || c == 'C' {
        Some(Suit::Club)
    } else if c == 'd' || c == 'D' {
        Some(Suit::Diamond)
    } else if c == 'h' || c == 'H' {
        Some(Suit::Heart)
    } else if c == 's' || c == 'S' {
        Some(Suit::Spade)
    } else {
        None
    }
}

/// What a card's text names: exactly two characters, a rank then a suit.
pub open spec fn parse_spec(s: Seq<char>) -> Option<(Rank, Suit)> {
    if s.len() == 2 && rank_of_char(s[0]) is Some && suit_of_char(s[1]) is Some {
        Some((rank_of_char(s[0])->0, suit_of_char(s[1])->0))
    } else {
        None
    }
}

fn rank_from_char(c: char) -> (r: Option<Rank>)
    ensures
        r == rank_of_char(c),
{
    match c {
        '2' => Some(Rank::Two),
        '3' => Some(Rank::Three),
        '4' => Some(Rank::Four),
        '5' => Some(Rank::Five),
        '6' => Some(Rank::Six),
        '7' => Some(Rank::Seven),
        '8' => Some(Rank::Eight),
        '9' => Some(Rank::Nine),
        'T' | 't' => Some(Rank::Ten),
        'J' | 'j' => Some(Rank::Jack),
        'Q' | 'q' => Some(Rank::Queen),
        'K' | 'k' => Some(Rank::King),
        'A' | 'a' => Some(Rank::Ace),
        _ => None,
    }
}

fn suit_from_char(c: char) -> (r: Option<Suit>)
    ensures
        r == suit_of_char(c),
{
    match c {
        'c' | 'C' => Some(Suit::Club),
        'd' | 'D' => Some(Suit::Diamond),
        'h' | 'H' => Some(Suit::Heart),
        's' | 'S' => Some(Suit::Spade),
        _ => None,
    }
}

/// A playing card: a rank and a suit.
#[derive(Clone, Copy, Debug, Hash, PartialEq, Eq, Structural, PartialOrd, Ord)]
pub struct Card {
    rank: Rank,
    suit: Suit,
}

impl Card {
    /// The card's rank.
    pub closed spec fn spec_rank(&self) -> Rank {
        self.rank
    }

    /// The card's suit.
    pub closed spec fn spec_suit(&self) -> Suit {
        self.suit
    }

    /// The card with the given rank and suit.
    pub closed spec fn spec_new(rank: Rank, suit: Suit) -> Card {
        Card { rank, suit }
    }

    /// The card's number among the 52: four per rank, the rank counting most.
    pub open spec fn index(self) -> nat {
        self.rank().index() * 4 + self.suit().index()
    }

    /// The card numbered `i`.
    pub open spec fn at(i: nat) -> Card {
        Card::spec_new(Rank::at(i / 4), Suit::at(i % 4))
    }

    /// The order of cards: by rank first, then by suit.
    pub open spec fn lt(self, other: Card) -> bool {
        ||| self.rank().index() < other.rank().index()
        ||| (self.rank() == other.rank() && self.suit().index() < other.suit().index())
    }

    /// Two cards are equal exactly when their ranks and their suits are.
    pub proof fn lemma_fields(a: Card, b: Card)
        ensures
            Card::spec_new(a.rank(), a.suit()) == a,
            (a.rank() == b.rank() && a.suit() == b.suit()) <==> a == b,
    {
    }

    /// The numbering is onto: the card numbered `i` has number `i`.
    pub proof fn lemma_at_index(i: nat)
        requires
            i < NUM_CARDS,
        ensures
            Card::at(i).index() == i,
            Card::at(i).rank() == Rank::at(i / 4),
            Card::at(i).suit() == Suit::at(i % 4),
    {
    }

    /// The numbering is one-to-one: a card is the card numbered by its number.
    pub proof fn lemma_index_at(c: Card)
        ensures
            Card::at(c.index()) == c,
            c.index() < NUM_CARDS,
    {
    }

    /// Numbering the cards keeps their order: a card numbered lower than
    /// another is lower by rank, or of the same rank and lower by suit.
    pub proof fn lemma_index_order(a: Card, b: Card)
        ensures
            a.index() < b.index() <==> a.lt(b),
            a.index() == b.index() <==> a == b,
    {
        Card::lemma_index_at(a);
        Card::lemma_index_at(b);
    }

    /// The card of the given rank and suit.
    pub fn new(rank: Rank, suit: Suit) -> (r: Self)
        ensures
            r.rank() == rank,
            r.suit() == suit,
    {
        Self::new_const(rank, suit)
    }

    /// Reads a card from its two-character text, such as `As` or `td`: a
    /// rank character then a suit character, either in any case. Any other
    /// text gives `None`.
    pub fn parse(s: &str) -> (r: Option<Self>)
        ensures
            r is Some <==> parse_spec(s@) is Some,
            r is Some ==> (r->0.rank(), r->0.suit()) == parse_spec(s@)->0,
    {
        let mut it = s.chars();
        let rank = match rank_from_char(it.next()?) {
            Some(rank) => rank,
            None => return None,
        };
        let suit = match suit_from_char(it.next()?) {
            Some(suit) => suit,
            None => return None,
        };
        if it.next().is_some() {
            return None;
        }
        Some(Self::new(rank, suit))
    }

    /// The card's rank.
    #[verifier::when_used_as_spec(spec_rank)]
    pub fn rank(&self) -> (r: Rank)
        ensures
            r == self.rank(),
    {
        self.rank
    }

    /// The card's suit.
    #[verifier::when_used_as_spec(spec_suit)]
    pub fn suit(&self) -> (r: Suit)
        ensures
            r == self.suit(),
    {
        self.suit
    }

    /// The card of the given rank and suit (the constructor that `new` uses).
    pub fn new_const(rank: Rank, suit: Suit) -> (r: Self)
        ensures
            r.rank() == rank,
            r.suit() == suit,
    {
        Self { rank, suit }
    }

    /// The card's number among the 52 (see `index`).
    pub fn to_index(&self) -> (r: usize)
        ensures
            r == self.index(),
            r < NUM_CARDS,
    {
        self.rank.ordinal() * 4 + self.suit.ordinal()
    }

    /// The card numbered `index`; the numbering of `to_index` undone.
    pub fn from_index(index: usize) -> (r: Self)
        requires
            index < NUM_CARDS,
        ensures
            r.index() == index,
            r == Card::at(index as nat),
    {
        Self { rank: ALL_RANKS[index / 4], suit: ALL_SUITS[index % 4] }
    }
}

/// The cards that the texts name, in order. Each text must name a card (see
/// `Card::parse`).
pub fn card_vec(cs: &[&str]) -> (r: Vec<Card>)
    requires
        forall|i: int| 0 <= i < cs@.len() ==> #[trigger] parse_spec(cs@[i]@) is Some,
    ensures
        r@.len() == cs@.len(),
        forall|i: int|
            0 <= i < cs@.len() ==> (#[trigger] r@[i].rank(), r@[i].suit()) == parse_spec(
                cs@[i]@,
            )->0,
{
    let mut r: Vec<Card> = Vec::new();
    let mut i: usize = 0;
    while i < cs.len()
        invariant
            i <= cs@.len(),
            r@.len() == i,
            forall|i: int| 0 <= i < cs@.len() ==> #[trigger] parse_spec(cs@[i]@) is Some,
            forall|j: int|
                0 <= j < i ==> (#[trigger] r@[j].rank(), r@[j].suit()) == parse_spec(cs@[j]@)->0,
        decreases cs.len() - i,
    {
        let c = match Card::parse(cs[i]) {
            Some(c) => c,
            None => {
                proof {
                    assert(parse_spec(cs@[i as int]@) is Some);
                }
                return r;
            }
        };
        r.push(c);
        i += 1;
    }
    r
}

} // verus!
