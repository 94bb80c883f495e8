use vstd::prelude::*;
use vstd::seq_lib::lemma_multiset_commutative;
use crate::hand::{Hand, HandType, place};

verus! {

impl HandType {
    /// Place of this category in the strongest-first order (0 = royal flush).
    pub fn position(&self) -> (p: u8)
        ensures
            p as nat == place(*self),
    {
        match self {
            HandType::RoyalFlush => 0,
            HandType::StraightFlush => 1,
            HandType::FourOfAKind => 2,
            HandType::FullHouse => 3,
            HandType::Flush => 4,
            HandType::Straight => 5,
            HandType::ThreeOfAKind => 6,
            HandType::TwoPair => 7,
            HandType::OnePair => 8,
            HandType::HighCard => 9,
        }
    }
}

/// The hands of `s` whose category has place `k`, in their order in `s`.
pub open spec fn of_place(s: Seq<Hand>, k: nat) -> Seq<Hand>
    decreases s.len(),
{
    if s.len() == 0 {
        Seq::empty()
    } else if place(s.last().hand_type) == k {
        of_place(s.drop_last(), k).push(s.last())
    } else {
        of_place(s.drop_last(), k)
    }
}

/// The hands of the `k` strongest categories: first all hands of place 0,
/// then all of place 1, and so on, each group in its order in `s`.
pub open spec fn ranked_upto(s: Seq<Hand>, k: nat) -> Seq<Hand>
    decreases k,
{
    if k == 0 {
        Seq::empty()
    } else {
        ranked_upto(s, (k - 1) as nat) + of_place(s, (k - 1) as nat)
    }
}

/// The hands ordered from the strongest category to the weakest; hands of
/// one category keep their relative order.
pub open spec fn ranked(s: Seq<Hand>) -> Seq<Hand> {
    ranked_upto(s, 10)
}

proof fn lemma_place_bound(t: HandType)
    ensures
        place(t) < 10,
{
}

proof fn lemma_of_place_add(a: Seq<Hand>, b: Seq<Hand>, k: nat)
    ensures
        of_place(a + b, k) == of_place(a, k) + of_place(b, k),
    decreases b.len(),
{
    if b.len() == 0 {
        assert(a + b =~= a);
        assert(of_place(a, k) + of_place(b, k) =~= of_place(a, k));
    } else {
        lemma_of_place_add(a, b.drop_last(), k);
        assert((a + b).drop_last() =~= a + b.drop_last());
        assert((a + b).last() == b.last());
        if place(b.last().hand_type) == k {
            assert(of_place(a + b, k) =~= of_place(a, k) + of_place(b, k));
        }
    }
}

proof fn lemma_of_place_places(s: Seq<Hand>, k: nat)
    ensures
        forall|i: int|
            0 <= i < of_place(s, k).len() ==> place((#[trigger] of_place(s, k)[i]).hand_type) == k,
    decreases s.len(),
{
    if s.len() > 0 {
        lemma_of_place_places(s.drop_last(), k);
    }
}

/// Filtering a group by place again keeps it whole or empties it.
proof fn lemma_of_place_of_place(s: Seq<Hand>, j: nat, k: nat)
    ensures
        of_place(of_place(s, j), k) == if j == k {
            of_place(s, k)
        } else {
            Seq::<Hand>::empty()
        },
    decreases s.len(),
{
    if s.len() > 0 {
        lemma_of_place_of_place(s.drop_last(), j, k);
        let g = of_place(s.drop_last(), j);
        if place(s.last().hand_type) == j {
            assert(of_place(s, j).drop_last() =~= g);
        }
    }
}

proof fn lemma_ranked_upto_group(s: Seq<Hand>, m: nat, k: nat)
    ensures
        of_place(ranked_upto(s, m), k) == if k < m {
            of_place(s, k)
        } else {
            Seq::<Hand>::empty()
        },
    decreases m,
{
    if m > 0 {
        lemma_ranked_upto_group(s, (m - 1) as nat, k);
        lemma_of_place_add(ranked_upto(s, (m - 1) as nat), of_place(s, (m - 1) as nat), k);
        lemma_of_place_of_place(s, (m - 1) as nat, k);
        if k < m - 1 {
            assert(of_place(s, k) + Seq::<Hand>::empty() =~= of_place(s, k));
        } else if k == m - 1 {
            assert(Seq::<Hand>::empty() + of_place(s, k) =~= of_place(s, k));
        } else {
            assert(Seq::<Hand>::empty() + Seq::<Hand>::empty() =~= Seq::<Hand>::empty());
        }
    }
}

proof fn lemma_ranked_upto_sorted(s: Seq<Hand>, m: nat)
    ensures
        forall|i: int|
            0 <= i < ranked_upto(s, m).len() ==> place(
                (#[trigger] ranked_upto(s, m)[i]).hand_type,
            ) < m,
        forall|i: int, j: int|
            0 <= i < j < ranked_upto(s, m).len() ==> place(
                (#[trigger] ranked_upto(s, m)[i]).hand_type,
            ) <= place((#[trigger] ranked_upto(s, m)[j]).hand_type),
    decreases m,
{
    if m > 0 {
        let prev = ranked_upto(s, (m - 1) as nat);
        let grp = of_place(s, (m - 1) as nat);
        lemma_ranked_upto_sorted(s, (m - 1) as nat);
        lemma_of_place_places(s, (m - 1) as nat);
        let r = ranked_upto(s, m);
        assert(r == prev + grp);
        assert forall|i: int| 0 <= i < r.len() implies place((#[trigger] r[i]).hand_type) < m by {
            if i >= prev.len() {
                assert(r[i] == grp[i - prev.len()]);
            }
        }
        assert forall|i: int, j: int| 0 <= i < j < r.len() implies place(
            (#[trigger] r[i]).hand_type,
        ) <= place((#[trigger] r[j]).hand_type) by {
            if j >= prev.len() {
                assert(r[j] == grp[j - prev.len()]);
                if i >= prev.len() {
                    assert(r[i] == grp[i - prev.len()]);
                } else {
                    assert(r[i] == prev[i]);
                }
            } else {
                assert(r[i] == prev[i]);
                assert(r[j] == prev[j]);
            }
        }
    }
}

proof fn lemma_ranked_upto_push(s: Seq<Hand>, h: Hand, m: nat)
    ensures
        ranked_upto(s.push(h), m).to_multiset() == if place(h.hand_type) < m {
            ranked_upto(s, m).to_multiset().insert(h)
        } else {
            ranked_upto(s, m).to_multiset()
        },
    decreases m,
{
    broadcast use vstd::multiset::group_multiset_axioms;
    broadcast use vstd::seq_lib::group_to_multiset_ensures;

    if m > 0 {
        let k = (m - 1) as nat;
        lemma_ranked_upto_push(s, h, k);
        let a = ranked_upto(s, k);
        let a2 = ranked_upto(s.push(h), k);
        let b = of_place(s, k);
        let b2 = of_place(s.push(h), k);
        assert(s.push(h).drop_last() =~= s);
        lemma_multiset_commutative(a, b);
        lemma_multiset_commutative(a2, b2);
        if place(h.hand_type) == k {
            assert(b2 == b.push(h));
        } else {
            assert(b2 == b);
        }
        assert(ranked_upto(s.push(h), m).to_multiset() =~= if place(h.hand_type) < m {
            ranked_upto(s, m).to_multiset().insert(h)
        } else {
            ranked_upto(s, m).to_multiset()
        });
    }
}

/// Ranking is a permutation of the hands.
pub proof fn lemma_ranked_permutation(s: Seq<Hand>)
    ensures
        ranked(s).to_multiset() == s.to_multiset(),
        ranked(s).len() == s.len(),
    decreases s.len(),
{
    broadcast use vstd::multiset::group_multiset_axioms;
    broadcast use vstd::seq_lib::group_to_multiset_ensures;

    if s.len() == 0 {
        assert(ranked_upto(s, 10) =~= Seq::<Hand>::empty()) by {
            reveal_with_fuel(ranked_upto, 11);
        }
        assert(ranked(s).to_multiset() =~= s.to_multiset());
    } else {
        let rest = s.drop_last();
        let h = s.last();
        lemma_ranked_permutation(rest);
        assert(rest.push(h) =~= s);
        lemma_place_bound(h.hand_type);
        lemma_ranked_upto_push(rest, h, 10);
        assert(ranked(s).to_multiset() =~= s.to_multiset());
    }
    assert(ranked(s).to_multiset().len() == ranked(s).len());
    assert(s.to_multiset().len() == s.len());
}

/// The ranked hands run from the strongest category to the weakest, and the
/// hands of each category appear in the same relative order as in the input.
pub proof fn lemma_ranked_ordered_and_stable(s: Seq<Hand>)
    ensures
        forall|i: int, j: int|
            0 <= i < j < ranked(s).len() ==> place((#[trigger] ranked(s)[i]).hand_type) <= place(
                (#[trigger] ranked(s)[j]).hand_type,
            ),
        forall|k: nat| k < 10 ==> #[trigger] of_place(ranked(s), k) == of_place(s, k),
{
    lemma_ranked_upto_sorted(s, 10);
    assert forall|k: nat| k < 10 implies #[trigger] of_place(ranked(s), k) == of_place(s, k) by {
        lemma_ranked_upto_group(s, 10, k);
    }
}

/// Orders hands from the strongest category to the weakest. The sort is
/// stable: hands of one category keep the order they had.
pub fn rank_order(hands: &[Hand]) -> (r: Vec<Hand>)
    ensures
        r@ == ranked(hands@),
        r@.to_multiset() == hands@.to_multiset(),
        forall|i: int, j: int|
            0 <= i < j < r@.len() ==> place((#[trigger] r@[i]).hand_type) <= place(
                (#[trigger] r@[j]).hand_type,
            ),
        forall|k: nat| k < 10 ==> #[trigger] of_place(r@, k) == of_place(hands@, k),
{
    proof {
        lemma_ranked_permutation(hands@);
        lemma_ranked_ordered_and_stable(hands@);
    }
    let ghost s = hands@;
    let mut out: Vec<Hand> = Vec::new();
    let mut k: u8 = 0;
    while k < 10
        invariant
            k <= 10,
            s == hands@,
            out@ == ranked_upto(s, k as nat),
        decreases 10 - k,
    {
        let mut i: usize = 0;
        while i < hands.len()
            invariant
                k < 10,
                i <= hands@.len(),
                s == hands@,
                out@ == ranked_upto(s, k as nat) + of_place(s.subrange(0, i as int), k as nat),
            decreases hands@.len() - i,
        {
            let ghost pre = s.subrange(0, i as int);
            assert(s.subrange(0, i as int + 1).drop_last() =~= pre);
            let h = hands[i];
            if h.hand_type.position() == k {
                out.push(h);
                assert(out@ =~= ranked_upto(s, k as nat) + of_place(
                    s.subrange(0, i as int + 1),
                    k as nat,
                ));
            }
            i = i + 1;
        }
        assert(s.subrange(0, hands@.len() as int) =~= s);
        k = k + 1;
    }
    out
}

} // verus!
