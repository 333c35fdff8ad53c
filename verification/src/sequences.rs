//! Sequences of particle indices: how often an index occurs, and what
//! filtering does to a sequence.
use vstd::prelude::*;

verus! {

/// The test for an index other than `index`.
pub open spec fn not_index(index: usize) -> spec_fn(usize) -> bool {
    |i: usize| i != index
}

/// How often `x` occurs in `s`.
pub open spec fn occurrences(s: Seq<usize>, x: usize) -> nat
    decreases s.len(),
{
    if s.len() == 0 {
        0
    } else {
        occurrences(s.drop_last(), x) + if s.last() == x {
            1nat
        } else {
            0nat
        }
    }
}

/// One more element is one more occurrence of that element.
pub proof fn lemma_occurrences_push(s: Seq<usize>, y: usize, x: usize)
    ensures
        occurrences(s.push(y), x) == occurrences(s, x) + if y == x {
            1nat
        } else {
            0nat
        },
{
    assert(s.push(y).drop_last() =~= s);
}

/// The occurrences in a concatenation are those in its two parts.
pub proof fn lemma_occurrences_add(a: Seq<usize>, b: Seq<usize>, x: usize)
    ensures
        occurrences(a + b, x) == occurrences(a, x) + occurrences(b, x),
    decreases b.len(),
{
    if b.len() == 0 {
        assert(a + b =~= a);
    } else {
        lemma_occurrences_add(a, b.drop_last(), x);
        assert((a + b).drop_last() =~= a + b.drop_last());
    }
}

/// Filtering keeps the occurrences of what passes and none of what fails.
pub proof fn lemma_occurrences_filter(s: Seq<usize>, wanted: spec_fn(usize) -> bool, x: usize)
    ensures
        occurrences(s.filter(wanted), x) == if wanted(x) {
            occurrences(s, x)
        } else {
            0
        },
    decreases s.len(),
{
    reveal(Seq::filter);
    if s.len() > 0 {
        lemma_occurrences_filter(s.drop_last(), wanted, x);
        if wanted(s.last()) {
            lemma_occurrences_push(s.drop_last().filter(wanted), s.last(), x);
        }
    }
}

/// What occurs in a sequence is contained in it, and the other way round.
pub proof fn lemma_occurrences_contains(s: Seq<usize>, x: usize)
    ensures
        occurrences(s, x) > 0 <==> s.contains(x),
    decreases s.len(),
{
    if s.len() > 0 {
        lemma_occurrences_contains(s.drop_last(), x);
        if s.last() == x {
            assert(s[s.len() - 1] == x);
        } else if s.contains(x) {
            let i = choose|i: int| 0 <= i < s.len() && s[i] == x;
            assert(s.drop_last()[i] == x);
        } else if s.drop_last().contains(x) {
            let i = choose|i: int| 0 <= i < s.drop_last().len() && s.drop_last()[i] == x;
            assert(s[i] == x);
        }
    }
}

/// A sequence in which nothing occurs twice has no duplicates.
pub proof fn lemma_occurrences_no_duplicates(s: Seq<usize>)
    requires
        forall|x: usize| occurrences(s, x) <= 1,
    ensures
        s.no_duplicates(),
    decreases s.len(),
{
    if s.len() > 0 {
        assert forall|x: usize| occurrences(s.drop_last(), x) <= 1 by {
            assert(occurrences(s, x) <= 1);
        }
        lemma_occurrences_no_duplicates(s.drop_last());
        assert forall|i: int, j: int| 0 <= i < s.len() && 0 <= j < s.len() && i != j implies s[i] != s[j] by {
            let last = s.len() - 1;
            if i < last && j < last {
                assert(s.drop_last()[i] != s.drop_last()[j]);
            } else {
                let other = if i == last {
                    j
                } else {
                    i
                };
                assert(occurrences(s, s.last()) <= 1);
                lemma_occurrences_contains(s.drop_last(), s.last());
                if s[other] == s.last() {
                    assert(s.drop_last()[other] == s.last());
                }
            }
        }
    }
}

/// In a sequence without duplicates nothing occurs twice.
pub proof fn lemma_no_duplicates_occurrences(s: Seq<usize>, x: usize)
    requires
        s.no_duplicates(),
    ensures
        occurrences(s, x) <= 1,
    decreases s.len(),
{
    if s.len() > 0 {
        assert(s.drop_last().no_duplicates()) by {
            assert forall|i: int, j: int|
                0 <= i < s.drop_last().len() && 0 <= j < s.drop_last().len() && i != j implies s.drop_last()[i]
                != s.drop_last()[j] by {
                assert(s[i] != s[j]);
            }
        }
        lemma_no_duplicates_occurrences(s.drop_last(), x);
        if s.last() == x {
            lemma_occurrences_contains(s.drop_last(), x);
            if s.drop_last().contains(x) {
                let i = choose|i: int| 0 <= i < s.drop_last().len() && s.drop_last()[i] == x;
                assert(s[i] == s[s.len() - 1]);
            }
        }
    }
}

/// Filtering a sequence without duplicates leaves a sequence without
/// duplicates, which contains what the sequence contained and passes.
pub proof fn lemma_filter_exact(s: Seq<usize>, wanted: spec_fn(usize) -> bool)
    requires
        s.no_duplicates(),
    ensures
        s.filter(wanted).no_duplicates(),
        forall|x: usize| s.filter(wanted).contains(x) <==> s.contains(x) && wanted(x),
{
    assert forall|x: usize| occurrences(s.filter(wanted), x) <= 1 by {
        lemma_occurrences_filter(s, wanted, x);
        lemma_no_duplicates_occurrences(s, x);
    }
    lemma_occurrences_no_duplicates(s.filter(wanted));
    assert forall|x: usize| s.filter(wanted).contains(x) <==> s.contains(x) && wanted(x) by {
        lemma_occurrences_filter(s, wanted, x);
        lemma_occurrences_contains(s, x);
        lemma_occurrences_contains(s.filter(wanted), x);
    }
}

/// Filtering one element more of a sequence filters the elements before it
/// and then decides on that element.
pub proof fn lemma_filter_step(items: Seq<usize>, j: int, wanted: spec_fn(usize) -> bool)
    requires
        0 <= j < items.len(),
    ensures
        items.take(j + 1).filter(wanted) == if wanted(items[j]) {
            items.take(j).filter(wanted).push(items[j])
        } else {
            items.take(j).filter(wanted)
        },
{
    assert(items.take(j + 1) =~= items.take(j).push(items[j]));
    Seq::lemma_filter_push(items.take(j), items[j], wanted);
}

} // verus!
