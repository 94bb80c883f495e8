use vstd::prelude::*;
use crate::card::{Card, Rank, Suit, rank_val, rank_with_val, lemma_rank_val_range};

verus! {

/// The suit of the `k`-th block of thirteen cards in a fresh deck.
pub open spec fn suit_at(k: int) -> Suit {
    if k <= 0 {
        Suit::Diamonds
    } else if k == 1 {
        Suit::Clubs
    } else if k == 2 {
        Suit::Hearts
    } else {
        Suit::Spades
    }
}

/// Position of a suit's block in a fresh deck.
pub open spec fn suit_index(s: Suit) -> int {
    match s {
        Suit::Diamonds => 0,
        Suit::Clubs => 1,
        Suit::Hearts => 2,
        Suit::Spades => 3,
    }
}

/// The fresh deck: suits in order Diamonds, Clubs, Hearts, Spades, and within
/// each suit the ranks from 2 up to the ace.
pub open spec fn full_deck() -> Seq<Card> {
    Seq::new(52, |i: int| Card { rank: rank_with_val(i % 13 + 2), suit: suit_at(i / 13) })
}

proof fn lemma_position(s: int, r: int)
    requires
        0 <= s < 4,
        0 <= r < 13,
    ensures
        (13 * s + r) / 13 == s,
        (13 * s + r) % 13 == r,
        0 <= 13 * s + r < 52,
{
    assert((13 * s + r) / 13 == s && (13 * s + r) % 13 == r) by (nonlinear_arith)
        requires
            0 <= s < 4,
            0 <= r < 13,
    ;
}

/// The fresh deck has 52 cards, no two alike, and holds every card there is.
pub proof fn lemma_full_deck_complete()
    ensures
        full_deck().len() == 52,
        full_deck().no_duplicates(),
        forall|c: Card| #[trigger] full_deck().contains(c),
{
    let d = full_deck();
    assert forall|c: Card| #[trigger] d.contains(c) by {
        lemma_rank_val_range(c.rank);
        let s = suit_index(c.suit);
        let r = rank_val(c.rank) - 2;
        lemma_position(s, r);
        assert(d[13 * s + r] == c);
    }
    assert forall|i: int, j: int| 0 <= i < 52 && 0 <= j < 52 && i != j implies d[i] != d[j] by {
        lemma_position(i / 13, i % 13);
        lemma_position(j / 13, j % 13);
        assert(i == 13 * (i / 13) + i % 13);
        assert(j == 13 * (j / 13) + j % 13);
    }
}

/// Builds the 52 cards in the fresh-deck order.
pub fn generate_deck() -> (deck: Vec<Card>)
    ensures
        deck@ == full_deck(),
        deck@.len() == 52,
        deck@.no_duplicates(),
        forall|c: Card| #[trigger] deck@.contains(c),
{
    proof {
        lemma_full_deck_complete();
    }
    let suits: [Suit; 4] = [Suit::Diamonds, Suit::Clubs, Suit::Hearts, Suit::Spades];
    let ranks: [Rank; 13] = [
        Rank::Two,
        Rank::Three,
        Rank::Four,
        Rank::Five,
        Rank::Six,
        Rank::Seven,
        Rank::Eight,
        Rank::Nine,
        Rank::Ten,
        Rank::Jack,
        Rank::Queen,
        Rank::King,
        Rank::Ace,
    ];
    assert(forall|k: int| 0 <= k < 4 ==> #[trigger] suits@[k] == suit_at(k));
    assert(forall|k: int| 0 <= k < 13 ==> #[trigger] ranks@[k] == rank_with_val(k + 2));
    let mut deck: Vec<Card> = Vec::new();
    let mut s: usize = 0;
    while s < 4
        invariant
            s <= 4,
            deck@.len() == 13 * s,
            deck@ == full_deck().subrange(0, 13 * s),
            forall|k: int| 0 <= k < 4 ==> #[trigger] suits@[k] == suit_at(k),
            forall|k: int| 0 <= k < 13 ==> #[trigger] ranks@[k] == rank_with_val(k + 2),
        decreases 4 - s,
    {
        let mut r: usize = 0;
        while r < 13
            invariant
                s < 4,
                r <= 13,
                deck@.len() == 13 * s + r,
                deck@ == full_deck().subrange(0, 13 * s + r),
                forall|k: int| 0 <= k < 4 ==> #[trigger] suits@[k] == suit_at(k),
                forall|k: int| 0 <= k < 13 ==> #[trigger] ranks@[k] == rank_with_val(k + 2),
            decreases 13 - r,
        {
            proof {
                lemma_position(s as int, r as int);
            }
            deck.push(Card::new(ranks[r], suits[s]));
            assert(deck@ =~= full_deck().subrange(0, 13 * s + r + 1));
            r = r + 1;
        }
        s = s + 1;
    }
    deck
}

} // verus!
