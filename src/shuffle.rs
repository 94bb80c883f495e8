use vstd::prelude::*;
use vstd::seq_lib::lemma_multiset_commutative;
use crate::card::Card;

verus! {

/// Takes the first element, then the last, then repeats on what lies between;
/// a single element left in the middle comes last.
pub open spec fn interleave(s: Seq<Card>) -> Seq<Card>
    decreases s.len(),
{
    if s.len() >= 2 {
        seq![s.first(), s.last()] + interleave(s.subrange(1, s.len() - 1))
    } else {
        s
    }
}

/// The deterministic shuffle: reverse the deck, then interleave it from both ends.
pub open spec fn shuffled(d: Seq<Card>) -> Seq<Card> {
    interleave(d.reverse())
}

proof fn lemma_interleave_multiset(s: Seq<Card>)
    ensures
        interleave(s).to_multiset() == s.to_multiset(),
    decreases s.len(),
{
    if s.len() >= 2 {
        let mid = s.subrange(1, s.len() - 1);
        lemma_interleave_multiset(mid);
        let a = seq![s.first()];
        let b = seq![s.last()];
        assert(s =~= a + (mid + b));
        assert(seq![s.first(), s.last()] =~= a + b);
        lemma_multiset_commutative(a, mid + b);
        lemma_multiset_commutative(mid, b);
        lemma_multiset_commutative(a, b);
        lemma_multiset_commutative(a + b, interleave(mid));
        assert(interleave(s).to_multiset() =~= s.to_multiset());
    }
}

/// The shuffle is a permutation: it keeps every card, with its multiplicity,
/// and adds none.
pub proof fn lemma_shuffle_permutation(d: Seq<Card>)
    ensures
        shuffled(d).to_multiset() == d.to_multiset(),
        shuffled(d).len() == d.len(),
{
    lemma_interleave_multiset(d.reverse());
    d.lemma_reverse_to_multiset();
    lemma_interleave_len(d.reverse());
}

proof fn lemma_interleave_len(s: Seq<Card>)
    ensures
        interleave(s).len() == s.len(),
    decreases s.len(),
{
    if s.len() >= 2 {
        lemma_interleave_len(s.subrange(1, s.len() - 1));
    }
}

/// Reorders the deck: reverse it, then repeatedly take the front card and the
/// back card; a last single card comes at the end.
pub fn shuffle_deck(deck: Vec<Card>) -> (r: Vec<Card>)
    ensures
        r@ == shuffled(deck@),
        r@.to_multiset() == deck@.to_multiset(),
{
    proof {
        lemma_shuffle_permutation(deck@);
    }
    let ghost orig = deck@;
    let mut deck = deck;
    let mut work: Vec<Card> = Vec::new();
    while deck.len() > 0
        invariant
            deck@.len() + work@.len() == orig.len(),
            deck@ == orig.subrange(0, deck@.len() as int),
            work@ == orig.reverse().subrange(0, work@.len() as int),
        decreases deck@.len(),
    {
        let c = deck.pop().unwrap();
        work.push(c);
        assert(work@ =~= orig.reverse().subrange(0, work@.len() as int));
    }
    assert(work@ =~= orig.reverse());
    let mut out: Vec<Card> = Vec::new();
    while work.len() >= 2
        invariant
            out@ + interleave(work@) == shuffled(orig),
        decreases work@.len(),
    {
        let ghost w = work@;
        let ghost before = out@;
        let front = work.remove(0);
        let back = work.pop().unwrap();
        assert(work@ =~= w.subrange(1, w.len() - 1));
        out.push(front);
        out.push(back);
        assert(out@ + interleave(work@) =~= before + interleave(w));
    }
    if work.len() == 1 {
        let last = work.pop().unwrap();
        out.push(last);
    }
    assert(out@ =~= shuffled(orig));
    out
}

} // verus!
