use vstd::prelude::*;
use crate::card::{Card, rank_val, lemma_rank_val_range};

verus! {

/// Poker hand categories, declared from strongest to weakest.
#[derive(Clone, Copy, Debug, PartialEq, Eq, Structural, PartialOrd, Ord, Hash)]
pub enum HandType {
    RoyalFlush,
    StraightFlush,
    FourOfAKind,
    FullHouse,
    Flush,
    Straight,
    ThreeOfAKind,
    TwoPair,
    OnePair,
    HighCard,
}

/// Place of a category in the strongest-first order: 0 for a royal flush,
/// 9 for a high card. A smaller place is a stronger hand.
pub open spec fn place(t: HandType) -> nat {
    match t {
        HandType::RoyalFlush => 0,
        HandType::StraightFlush => 1,
        HandType::FourOfAKind => 2,
        HandType::FullHouse => 3,
        HandType::Flush => 4,
        HandType::Straight => 5,
        HandType::ThreeOfAKind => 6,
        HandType::TwoPair => 7,
        HandType::OnePair => 8,
        HandType::HighCard => 9,
    }
}

/// A dealt hand: five cards and the category computed for them when dealt.
#[derive(Clone, Copy, Debug, PartialEq, Eq)]
pub struct Hand {
    pub cards: [Card; 5],
    pub hand_type: HandType,
}

/// How many cards of `s` have rank value `v`.
pub open spec fn count_val(s: Seq<Card>, v: int) -> nat
    decreases s.len(),
{
    if s.len() == 0 {
        0
    } else {
        count_val(s.drop_last(), v) + if rank_val(s.last().rank) == v {
            1nat
        } else {
            0nat
        }
    }
}

/// All cards share one suit.
pub open spec fn is_flush(s: Seq<Card>) -> bool {
    forall|i: int| 0 <= i < s.len() ==> #[trigger] s[i].suit == s[0].suit
}

/// Each of the five values `low .. low + 5` occurs exactly once.
pub open spec fn runs_from(s: Seq<Card>, low: int) -> bool {
    forall|v: int| low <= v < low + 5 ==> #[trigger] count_val(s, v) == 1
}

/// Ace, 2, 3, 4 and 5 each occur exactly once: the ace plays low.
pub open spec fn is_wheel(s: Seq<Card>) -> bool {
    &&& count_val(s, 2) == 1
    &&& count_val(s, 3) == 1
    &&& count_val(s, 4) == 1
    &&& count_val(s, 5) == 1
    &&& count_val(s, 14) == 1
}

/// Five consecutive values, the ace either high or (in the wheel) low.
pub open spec fn is_straight(s: Seq<Card>) -> bool {
    ||| exists|low: int| 2 <= low <= 10 && #[trigger] runs_from(s, low)
    ||| is_wheel(s)
}

/// The smallest rank value in `s` is `v`.
pub open spec fn lowest_is(s: Seq<Card>, v: int) -> bool {
    &&& exists|i: int| 0 <= i < s.len() && rank_val(#[trigger] s[i].rank) == v
    &&& forall|j: int| 0 <= j < s.len() ==> rank_val(#[trigger] s[j].rank) >= v
}

/// Some rank present in `s` occurs exactly `k` times.
pub open spec fn has_count(s: Seq<Card>, k: nat) -> bool {
    exists|i: int| 0 <= i < s.len() && count_val(s, rank_val(#[trigger] s[i].rank) as int) == k
}

/// Two different ranks each occur exactly twice.
pub open spec fn has_two_pairs(s: Seq<Card>) -> bool {
    exists|i: int, j: int|
        0 <= i < s.len() && 0 <= j < s.len() && #[trigger] s[i].rank != #[trigger] s[j].rank
            && count_val(s, rank_val(s[i].rank) as int) == 2 && count_val(
            s,
            rank_val(s[j].rank) as int,
        ) == 2
}

/// The category of a five-card hand: the first test that holds, from the
/// strongest category down.
pub open spec fn classify(s: Seq<Card>) -> HandType {
    if is_straight(s) && is_flush(s) && lowest_is(s, 10) {
        HandType::RoyalFlush
    } else if is_straight(s) && is_flush(s) {
        HandType::StraightFlush
    } else if has_count(s, 4) {
        HandType::FourOfAKind
    } else if has_count(s, 3) && has_count(s, 2) {
        HandType::FullHouse
    } else if is_flush(s) {
        HandType::Flush
    } else if is_straight(s) {
        HandType::Straight
    } else if has_count(s, 3) {
        HandType::ThreeOfAKind
    } else if has_two_pairs(s) {
        HandType::TwoPair
    } else if has_count(s, 2) {
        HandType::OnePair
    } else {
        HandType::HighCard
    }
}

proof fn lemma_count_bound(s: Seq<Card>, v: int)
    ensures
        count_val(s, v) <= s.len(),
    decreases s.len(),
{
    if s.len() > 0 {
        lemma_count_bound(s.drop_last(), v);
    }
}

/// Number of cards of each rank value, indexed by value (0..15).
fn rank_counts(cards: &[Card; 5]) -> (counts: Vec<u8>)
    ensures
        counts@.len() == 15,
        forall|v: int| 0 <= v < 15 ==> #[trigger] counts@[v] as int == count_val(cards@, v),
{
    let mut counts: Vec<u8> = Vec::new();
    let mut k: usize = 0;
    while k < 15
        invariant
            k <= 15,
            counts@.len() == k,
            forall|v: int| 0 <= v < k ==> #[trigger] counts@[v] == 0,
        decreases 15 - k,
    {
        counts.push(0);
        k = k + 1;
    }
    let mut i: usize = 0;
    while i < 5
        invariant
            i <= 5,
            counts@.len() == 15,
            forall|v: int|
                0 <= v < 15 ==> #[trigger] counts@[v] as int == count_val(
                    cards@.subrange(0, i as int),
                    v,
                ),
        decreases 5 - i,
    {
        let ghost pre = cards@.subrange(0, i as int);
        let ghost next = cards@.subrange(0, i as int + 1);
        assert(next.drop_last() =~= pre);
        let v = cards[i].rank_value();
        proof {
            lemma_rank_val_range(cards[i as int].rank);
            lemma_count_bound(pre, v as int);
        }
        let c = counts[v];
        counts.set(v, c + 1);
        assert forall|w: int| 0 <= w < 15 implies #[trigger] counts@[w] as int == count_val(
            next,
            w,
        ) by {
            assert(next.last() == cards@[i as int]);
        }
        i = i + 1;
    }
    assert(cards@.subrange(0, 5) =~= cards@);
    counts
}

/// Whether some rank present in the hand occurs exactly `k` times.
fn any_rank_count(cards: &[Card; 5], counts: &Vec<u8>, k: u8) -> (r: bool)
    requires
        counts@.len() == 15,
        forall|v: int| 0 <= v < 15 ==> #[trigger] counts@[v] as int == count_val(cards@, v),
    ensures
        r == has_count(cards@, k as nat),
{
    let mut i: usize = 0;
    while i < 5
        invariant
            i <= 5,
            counts@.len() == 15,
            forall|v: int| 0 <= v < 15 ==> #[trigger] counts@[v] as int == count_val(cards@, v),
            forall|j: int|
                0 <= j < i ==> count_val(cards@, rank_val(#[trigger] cards@[j].rank) as int) != k,
        decreases 5 - i,
    {
        let v = cards[i].rank_value();
        proof {
            lemma_rank_val_range(cards[i as int].rank);
        }
        if counts[v] == k {
            return true;
        }
        i = i + 1;
    }
    false
}

/// Whether two different ranks each occur exactly twice.
fn two_ranks_paired(cards: &[Card; 5], counts: &Vec<u8>) -> (r: bool)
    requires
        counts@.len() == 15,
        forall|v: int| 0 <= v < 15 ==> #[trigger] counts@[v] as int == count_val(cards@, v),
    ensures
        r == has_two_pairs(cards@),
{
    let mut i: usize = 0;
    while i < 5
        invariant
            i <= 5,
            counts@.len() == 15,
            forall|v: int| 0 <= v < 15 ==> #[trigger] counts@[v] as int == count_val(cards@, v),
            forall|a: int, b: int|
                0 <= a < i && 0 <= b < 5 ==> !(#[trigger] cards@[a].rank != #[trigger] cards@[b].rank
                    && count_val(cards@, rank_val(cards@[a].rank) as int) == 2 && count_val(
                    cards@,
                    rank_val(cards@[b].rank) as int,
                ) == 2),
        decreases 5 - i,
    {
        let vi = cards[i].rank_value();
        proof {
            lemma_rank_val_range(cards[i as int].rank);
        }
        let mut j: usize = 0;
        while j < 5
            invariant
                i < 5,
                j <= 5,
                vi as nat == rank_val(cards@[i as int].rank),
                2 <= vi <= 14,
                counts@.len() == 15,
                forall|v: int|
                    0 <= v < 15 ==> #[trigger] counts@[v] as int == count_val(cards@, v),
                forall|b: int|
                    0 <= b < j ==> !(cards@[i as int].rank != #[trigger] cards@[b].rank
                        && count_val(cards@, rank_val(cards@[i as int].rank) as int) == 2
                        && count_val(cards@, rank_val(cards@[b].rank) as int) == 2),
            decreases 5 - j,
        {
            let vj = cards[j].rank_value();
            proof {
                lemma_rank_val_range(cards[j as int].rank);
                lemma_rank_val_range(cards[i as int].rank);
            }
            if vi != vj && counts[vi] == 2 && counts[vj] == 2 {
                assert(cards@[i as int].rank != cards@[j as int].rank);
                return true;
            }
            proof {
                if cards@[i as int].rank != cards@[j as int].rank {
                    assert(rank_val(cards@[i as int].rank) != rank_val(cards@[j as int].rank));
                }
            }
            j = j + 1;
        }
        i = i + 1;
    }
    false
}

/// Whether every card has the suit of the first.
fn all_same_suit(cards: &[Card; 5]) -> (r: bool)
    ensures
        r == is_flush(cards@),
{
    let first = cards[0].suit;
    let mut i: usize = 0;
    while i < 5
        invariant
            i <= 5,
            first == cards@[0].suit,
            forall|j: int| 0 <= j < i ==> #[trigger] cards@[j].suit == first,
        decreases 5 - i,
    {
        if cards[i].suit != first {
            return false;
        }
        i = i + 1;
    }
    true
}

/// Whether the counts show five consecutive values or the wheel.
fn has_straight(cards: &[Card; 5], counts: &Vec<u8>) -> (r: bool)
    requires
        counts@.len() == 15,
        forall|v: int| 0 <= v < 15 ==> #[trigger] counts@[v] as int == count_val(cards@, v),
    ensures
        r == is_straight(cards@),
{
    if counts[2] == 1 && counts[3] == 1 && counts[4] == 1 && counts[5] == 1 && counts[14] == 1 {
        return true;
    }
    let mut low: usize = 2;
    while low <= 10
        invariant
            2 <= low <= 11,
            counts@.len() == 15,
            forall|v: int| 0 <= v < 15 ==> #[trigger] counts@[v] as int == count_val(cards@, v),
            forall|l: int| 2 <= l < low ==> !#[trigger] runs_from(cards@, l),
        decreases 11 - low,
    {
        if counts[low] == 1 && counts[low + 1] == 1 && counts[low + 2] == 1 && counts[low + 3] == 1
            && counts[low + 4] == 1 {
            assert forall|v: int| low <= v < low + 5 implies #[trigger] count_val(cards@, v)
                == 1 by {
                assert(counts@[v] == 1);
            }
            assert(runs_from(cards@, low as int));
            return true;
        }
        proof {
            if runs_from(cards@, low as int) {
                assert(count_val(cards@, low as int) == 1);
                assert(count_val(cards@, low as int + 1) == 1);
                assert(count_val(cards@, low as int + 2) == 1);
                assert(count_val(cards@, low as int + 3) == 1);
                assert(count_val(cards@, low as int + 4) == 1);
            }
        }
        low = low + 1;
    }
    false
}

/// The smallest rank value in the hand.
fn lowest_value(cards: &[Card; 5]) -> (m: usize)
    ensures
        lowest_is(cards@, m as int),
{
    let mut m = cards[0].rank_value();
    let mut i: usize = 1;
    assert(rank_val(cards@[0].rank) == m);
    while i < 5
        invariant
            1 <= i <= 5,
            exists|k: int| 0 <= k < i && rank_val(#[trigger] cards@[k].rank) == m,
            forall|j: int| 0 <= j < i ==> rank_val(#[trigger] cards@[j].rank) >= m,
        decreases 5 - i,
    {
        let v = cards[i].rank_value();
        if v < m {
            m = v;
            assert(rank_val(cards@[i as int].rank) == m);
        }
        i = i + 1;
    }
    m
}

/// Category of a five-card hand. The tests run from the strongest category
/// down and the first that holds decides.
pub fn analyze_hand(cards: &[Card; 5]) -> (t: HandType)
    ensures
        t == classify(cards@),
{
    let counts = rank_counts(cards);
    let flush = all_same_suit(cards);
    let straight = has_straight(cards, &counts);
    let lowest = lowest_value(cards);
    proof {
        if lowest_is(cards@, 10) {
            assert(lowest == 10) by {
                let k = choose|k: int| 0 <= k < 5 && rank_val(#[trigger] cards@[k].rank) == lowest;
                let k2 = choose|k: int| 0 <= k < 5 && rank_val(#[trigger] cards@[k].rank) == 10;
                assert(rank_val(cards@[k].rank) >= 10);
                assert(rank_val(cards@[k2].rank) >= lowest);
            }
        }
    }
    if straight && flush && lowest == 10 {
        HandType::RoyalFlush
    } else if straight && flush {
        HandType::StraightFlush
    } else if any_rank_count(cards, &counts, 4) {
        HandType::FourOfAKind
    } else if any_rank_count(cards, &counts, 3) && any_rank_count(cards, &counts, 2) {
        HandType::FullHouse
    } else if flush {
        HandType::Flush
    } else if straight {
        HandType::Straight
    } else if any_rank_count(cards, &counts, 3) {
        HandType::ThreeOfAKind
    } else if two_ranks_paired(cards, &counts) {
        HandType::TwoPair
    } else if any_rank_count(cards, &counts, 2) {
        HandType::OnePair
    } else {
        HandType::HighCard
    }
}

} // verus!
