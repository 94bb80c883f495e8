use vstd::prelude::*;
use vstd::string::StringExecFns;

verus! {

/// The four suits, in the order in which a fresh deck holds them.
#[derive(Clone, Copy, Debug, PartialEq, Eq, Structural, PartialOrd, Ord, Hash)]
pub enum Suit {
    Diamonds,
    Clubs,
    Hearts,
    Spades,
}

/// The thirteen ranks, from deuce up to ace.
#[derive(Clone, Copy, Debug, PartialEq, Eq, Structural, PartialOrd, Ord, Hash)]
pub enum Rank {
    Two,
    Three,
    Four,
    Five,
    Six,
    Seven,
    Eight,
    Nine,
    Ten,
    Jack,
    Queen,
    King,
    Ace,
}

/// One playing card. Equality and order go by rank, then suit.
#[derive(Clone, Copy, Debug, PartialEq, Eq, Structural, PartialOrd, Ord, Hash)]
pub struct Card {
    pub rank: Rank,
    pub suit: Suit,
}

/// Numeric value of a rank: 2 through 10, then 11 (jack) to 14 (ace).
pub open spec fn rank_val(r: Rank) -> nat {
    match r {
        Rank::Two => 2,
        Rank::Three => 3,
        Rank::Four => 4,
        Rank::Five => 5,
        Rank::Six => 6,
        Rank::Seven => 7,
        Rank::Eight => 8,
        Rank::Nine => 9,
        Rank::Ten => 10,
        Rank::Jack => 11,
        Rank::Queen => 12,
        Rank::King => 13,
        Rank::Ace => 14,
    }
}

/// The rank whose value is `v` (for `v` in 2..=14).
pub open spec fn rank_with_val(v: int) -> Rank {
    if v <= 2 {
        Rank::Two
    } else if v == 3 {
        Rank::Three
    } else if v == 4 {
        Rank::Four
    } else if v == 5 {
        Rank::Five
    } else if v == 6 {
        Rank::Six
    } else if v == 7 {
        Rank::Seven
    } else if v == 8 {
        Rank::Eight
    } else if v == 9 {
        Rank::Nine
    } else if v == 10 {
        Rank::Ten
    } else if v == 11 {
        Rank::Jack
    } else if v == 12 {
        Rank::Queen
    } else if v == 13 {
        Rank::King
    } else {
        Rank::Ace
    }
}

/// The one-letter code of a suit.
pub open spec fn suit_code(s: Suit) -> char {
    match s {
        Suit::Diamonds => 'D',
        Suit::Clubs => 'C',
        Suit::Hearts => 'H',
        Suit::Spades => 'S',
    }
}

/// The text of a rank: its number for 2 to 10, else its initial.
pub open spec fn rank_text(r: Rank) -> Seq<char> {
    match r {
        Rank::Two => seq!['2'],
        Rank::Three => seq!['3'],
        Rank::Four => seq!['4'],
        Rank::Five => seq!['5'],
        Rank::Six => seq!['6'],
        Rank::Seven => seq!['7'],
        Rank::Eight => seq!['8'],
        Rank::Nine => seq!['9'],
        Rank::Ten => seq!['1', '0'],
        Rank::Jack => seq!['J'],
        Rank::Queen => seq!['Q'],
        Rank::King => seq!['K'],
        Rank::Ace => seq!['A'],
    }
}

/// The compact text of a card: rank text followed by the suit code.
pub open spec fn card_text(c: Card) -> Seq<char> {
    rank_text(c.rank).push(suit_code(c.suit))
}

/// Rank values lie in 2..=14, and the value determines the rank.
pub proof fn lemma_rank_val_range(r: Rank)
    ensures
        2 <= rank_val(r) <= 14,
        rank_with_val(rank_val(r) as int) == r,
{
}

impl Rank {
    /// The text of this rank, as a string slice.
    pub fn text(&self) -> (r: &'static str)
        ensures
            r@ == rank_text(*self),
    {
        proof {
            reveal_strlit("2");
            reveal_strlit("3");
            reveal_strlit("4");
            reveal_strlit("5");
            reveal_strlit("6");
            reveal_strlit("7");
            reveal_strlit("8");
            reveal_strlit("9");
            reveal_strlit("10");
            reveal_strlit("J");
            reveal_strlit("Q");
            reveal_strlit("K");
            reveal_strlit("A");
        }
        let r = match self {
            Rank::Two => "2",
            Rank::Three => "3",
            Rank::Four => "4",
            Rank::Five => "5",
            Rank::Six => "6",
            Rank::Seven => "7",
            Rank::Eight => "8",
            Rank::Nine => "9",
            Rank::Ten => "10",
            Rank::Jack => "J",
            Rank::Queen => "Q",
            Rank::King => "K",
            Rank::Ace => "A",
        };
        assert(r@ =~= rank_text(*self));
        r
    }
}

impl Card {
    pub fn new(rank: Rank, suit: Suit) -> (c: Card)
        ensures
            c.rank == rank,
            c.suit == suit,
    {
        Card { rank, suit }
    }

    /// Numeric rank value, ace high (2..=14).
    pub fn rank_value(&self) -> (v: usize)
        ensures
            v as nat == rank_val(self.rank),
    {
        match self.rank {
            Rank::Two => 2,
            Rank::Three => 3,
            Rank::Four => 4,
            Rank::Five => 5,
            Rank::Six => 6,
            Rank::Seven => 7,
            Rank::Eight => 8,
            Rank::Nine => 9,
            Rank::Ten => 10,
            Rank::Jack => 11,
            Rank::Queen => 12,
            Rank::King => 13,
            Rank::Ace => 14,
        }
    }

    /// One-letter code of the suit: D, C, H or S.
    pub fn suit_char(&self) -> (ch: char)
        ensures
            ch == suit_code(self.suit),
    {
        match self.suit {
            Suit::Diamonds => 'D',
            Suit::Clubs => 'C',
            Suit::Hearts => 'H',
            Suit::Spades => 'S',
        }
    }

    /// Compact text of the card, such as `10H` or `AS`.
    pub fn card_string(&self) -> (s: String)
        ensures
            s@ == card_text(*self),
    {
        proof {
            reveal_strlit("D");
            reveal_strlit("C");
            reveal_strlit("H");
            reveal_strlit("S");
        }
        let mut s = String::from_str(self.rank.text());
        let code = match self.suit {
            Suit::Diamonds => "D",
            Suit::Clubs => "C",
            Suit::Hearts => "H",
            Suit::Spades => "S",
        };
        assert(code@ =~= seq![suit_code(self.suit)]);
        s.append(code);
        assert(s@ =~= card_text(*self));
        s
    }
}

} // verus!
