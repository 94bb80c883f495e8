use vstd::prelude::*;
use vstd::string::{StringExecFns, StrSliceExecFns};
use crate::card::{Card, card_text};
use crate::hand::{Hand, HandType};

verus! {

/// Width of the column that holds a hand's cards in a display line.
pub const CARDS_COLUMN: usize = 20;

/// The cards' texts, separated by single spaces.
pub open spec fn joined(s: Seq<Card>) -> Seq<char>
    decreases s.len(),
{
    if s.len() == 0 {
        Seq::empty()
    } else if s.len() == 1 {
        card_text(s[0])
    } else {
        joined(s.drop_last()).push(' ') + card_text(s.last())
    }
}

/// `s` followed by spaces up to `width` characters; longer text is kept whole.
pub open spec fn padded(s: Seq<char>, width: nat) -> Seq<char> {
    if s.len() >= width {
        s
    } else {
        s + Seq::new((width - s.len()) as nat, |i: int| ' ')
    }
}

/// The name of a category, as the enumeration spells it.
pub open spec fn category_name(t: HandType) -> Seq<char> {
    match t {
        HandType::RoyalFlush => "RoyalFlush"@,
        HandType::StraightFlush => "StraightFlush"@,
        HandType::FourOfAKind => "FourOfAKind"@,
        HandType::FullHouse => "FullHouse"@,
        HandType::Flush => "Flush"@,
        HandType::Straight => "Straight"@,
        HandType::ThreeOfAKind => "ThreeOfAKind"@,
        HandType::TwoPair => "TwoPair"@,
        HandType::OnePair => "OnePair"@,
        HandType::HighCard => "HighCard"@,
    }
}

/// A display line: the joined cards padded to the column width, ` - `, and
/// the category name.
pub open spec fn line_text(h: Hand) -> Seq<char> {
    padded(joined(h.cards@), CARDS_COLUMN as nat) + " - "@ + category_name(h.hand_type)
}

impl HandType {
    /// The category's name.
    pub fn name(&self) -> (r: &'static str)
        ensures
            r@ == category_name(*self),
    {
        match self {
            HandType::RoyalFlush => "RoyalFlush",
            HandType::StraightFlush => "StraightFlush",
            HandType::FourOfAKind => "FourOfAKind",
            HandType::FullHouse => "FullHouse",
            HandType::Flush => "Flush",
            HandType::Straight => "Straight",
            HandType::ThreeOfAKind => "ThreeOfAKind",
            HandType::TwoPair => "TwoPair",
            HandType::OnePair => "OnePair",
            HandType::HighCard => "HighCard",
        }
    }
}

/// The hand's cards as compact texts separated by single spaces.
pub fn hand_string(hand: &Hand) -> (r: String)
    ensures
        r@ == joined(hand.cards@),
{
    let mut out = hand.cards[0].card_string();
    assert(hand.cards@.subrange(0, 1) =~= seq![hand.cards@[0]]);
    assert(out@ == joined(hand.cards@.subrange(0, 1)));
    let mut i: usize = 1;
    while i < 5
        invariant
            1 <= i <= 5,
            out@ == joined(hand.cards@.subrange(0, i as int)),
        decreases 5 - i,
    {
        let text = hand.cards[i].card_string();
        let ghost prev = out@;
        proof {
            reveal_strlit(" ");
        }
        assert(" "@ =~= seq![' ']);
        out.append(" ");
        out.append(text.as_str());
        let ghost next = hand.cards@.subrange(0, i as int + 1);
        assert(next.drop_last() =~= hand.cards@.subrange(0, i as int));
        assert(next.last() == hand.cards@[i as int]);
        assert(joined(next) == joined(next.drop_last()).push(' ') + card_text(next.last()));
        assert(out@ =~= joined(next));
        i = i + 1;
    }
    assert(hand.cards@.subrange(0, 5) =~= hand.cards@);
    out
}

/// One display line for a hand: its cards, padded to a fixed column, then
/// ` - ` and the category name.
pub fn hand_line(hand: &Hand) -> (r: String)
    ensures
        r@ == line_text(*hand),
{
    let mut out = hand_string(hand);
    let ghost cards = out@;
    let mut n = out.as_str().unicode_len();
    while n < CARDS_COLUMN
        invariant
            cards.len() <= n <= CARDS_COLUMN || (n == cards.len() && n >= CARDS_COLUMN),
            out@.len() == n,
            out@ == cards + Seq::new((n - cards.len()) as nat, |i: int| ' '),
        decreases CARDS_COLUMN - n,
    {
        proof {
            reveal_strlit(" ");
        }
        assert(" "@ =~= seq![' ']);
        out.append(" ");
        assert(out@ =~= cards + Seq::new((n + 1 - cards.len()) as nat, |i: int| ' '));
        n = n + 1;
    }
    proof {
        if cards.len() >= CARDS_COLUMN as nat {
            assert(out@ =~= cards);
        }
    }
    assert(out@ =~= padded(cards, CARDS_COLUMN as nat));
    out.append(" - ");
    out.append(hand.hand_type.name());
    out
}

} // verus!
