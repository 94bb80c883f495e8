use vstd::prelude::*;
use crate::card::Card;
use crate::hand::{Hand, analyze_hand, classify};

verus! {

/// Why a deal could not be made.
#[derive(Clone, Copy, Debug, PartialEq, Eq, Structural)]
pub enum DealError {
    /// A hand holds exactly five cards; another size was asked for.
    UnsupportedHandSize,
    /// The deck holds fewer cards than the hands need.
    NotEnoughCards,
}

/// The five cards of the `i`-th hand: positions `5 * i .. 5 * i + 5` of the deck.
pub open spec fn hand_slice(deck: Seq<Card>, i: int) -> Seq<Card> {
    deck.subrange(5 * i, 5 * i + 5)
}

/// The cards of the first `count` hands, one hand after another.
pub open spec fn dealt_cards(deck: Seq<Card>, count: nat) -> Seq<Card>
    decreases count,
{
    if count == 0 {
        Seq::empty()
    } else {
        dealt_cards(deck, (count - 1) as nat) + hand_slice(deck, count - 1)
    }
}

/// `hands` are the first `count` hands dealt from `deck`, each classified.
pub open spec fn deals_from(hands: Seq<Hand>, deck: Seq<Card>, count: nat) -> bool {
    &&& hands.len() == count
    &&& forall|i: int|
        0 <= i < count ==> (#[trigger] hands[i]).cards@ == hand_slice(deck, i)
            && hands[i].hand_type == classify(hands[i].cards@)
}

/// Deals `hand_count` hands of `hand_size` cards from the top of the deck, hand
/// `i` taking the contiguous cards `i * hand_size .. (i + 1) * hand_size`, and
/// classifies each. Cards past the last hand are left unused.
pub fn deal_hands(deck: &[Card], hand_count: usize, hand_size: usize) -> (r: Result<
    Vec<Hand>,
    DealError,
>)
    ensures
        hand_size != 5 ==> r == Err::<Vec<Hand>, DealError>(DealError::UnsupportedHandSize),
        hand_size == 5 && hand_count * 5 > deck@.len() ==> r == Err::<Vec<Hand>, DealError>(
            DealError::NotEnoughCards,
        ),
        hand_size == 5 && hand_count * 5 <= deck@.len() ==> r is Ok && deals_from(
            r->Ok_0@,
            deck@,
            hand_count as nat,
        ),
{
    if hand_size != 5 {
        return Err(DealError::UnsupportedHandSize);
    }
    let n = deck.len();
    assert(hand_count * 5 > n <==> hand_count > n / 5) by (nonlinear_arith);
    if hand_count > n / 5 {
        return Err(DealError::NotEnoughCards);
    }
    let mut hands: Vec<Hand> = Vec::new();
    let mut i: usize = 0;
    while i < hand_count
        invariant
            i <= hand_count,
            hand_count * 5 <= n,
            n == deck@.len(),
            deals_from(hands@, deck@, i as nat),
        decreases hand_count - i,
    {
        assert(i * 5 + 5 <= hand_count * 5) by (nonlinear_arith)
            requires
                i < hand_count,
        ;
        let start = i * 5;
        let cards: [Card; 5] = [
            deck[start],
            deck[start + 1],
            deck[start + 2],
            deck[start + 3],
            deck[start + 4],
        ];
        assert(cards@ =~= hand_slice(deck@, i as int));
        let hand_type = analyze_hand(&cards);
        hands.push(Hand { cards, hand_type });
        i = i + 1;
    }
    Ok(hands)
}

proof fn lemma_dealt_cards_prefix(deck: Seq<Card>, count: nat)
    requires
        5 * count <= deck.len(),
    ensures
        dealt_cards(deck, count) == deck.subrange(0, 5 * count as int),
    decreases count,
{
    if count > 0 {
        lemma_dealt_cards_prefix(deck, (count - 1) as nat);
        assert(dealt_cards(deck, count) =~= deck.subrange(0, 5 * count as int));
    }
}

/// Dealing from a deck with no repeated card gives hands of five cards that
/// share no card, and the dealt cards, hand after hand, are the top
/// `5 * count` cards of the deck in their order.
pub proof fn lemma_deal_disjoint(deck: Seq<Card>, count: nat)
    requires
        deck.no_duplicates(),
        5 * count <= deck.len(),
    ensures
        forall|i: int| 0 <= i < count ==> (#[trigger] hand_slice(deck, i)).len() == 5,
        forall|i: int, j: int, a: int, b: int|
            0 <= i < count && 0 <= j < count && i != j && 0 <= a < 5 && 0 <= b < 5
                ==> #[trigger] hand_slice(deck, i)[a] != #[trigger] hand_slice(deck, j)[b],
        dealt_cards(deck, count) == deck.subrange(0, 5 * count as int),
{
    lemma_dealt_cards_prefix(deck, count);
    assert forall|i: int, j: int, a: int, b: int|
        0 <= i < count && 0 <= j < count && i != j && 0 <= a < 5 && 0 <= b < 5 implies #[trigger] hand_slice(
        deck,
        i,
    )[a] != #[trigger] hand_slice(deck, j)[b] by {
        assert(5 * i + a != 5 * j + b) by (nonlinear_arith)
            requires
                i != j,
                0 <= a < 5,
                0 <= b < 5,
        ;
        assert(5 * i + a < deck.len() && 5 * j + b < deck.len()) by (nonlinear_arith)
            requires
                0 <= i < count,
                0 <= j < count,
                0 <= a < 5,
                0 <= b < 5,
                5 * count <= deck.len(),
        ;
        assert(hand_slice(deck, i)[a] == deck[5 * i + a]);
        assert(hand_slice(deck, j)[b] == deck[5 * j + b]);
    }
    assert forall|i: int| 0 <= i < count implies (#[trigger] hand_slice(deck, i)).len() == 5 by {
        assert(5 * i + 5 <= deck.len()) by (nonlinear_arith)
            requires
                0 <= i < count,
                5 * count <= deck.len(),
        ;
    }
}

} // verus!
