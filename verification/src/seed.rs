//! Seeding: the extremes of a sample set, and centroids put in ascending
//! order.
//!
//! The seed for one cluster is the midpoint of the least and the greatest
//! sample; the seed for two clusters is that pair itself. Which samples these
//! are is decided here; the midpoint is the caller's to compute.
use vstd::prelude::*;
use vstd::seq_lib::{to_multiset_build, to_multiset_insert};
use crate::binary64::{all_numbers, at_most, below, less, nan, rank};
use crate::error::InputError;
use crate::TwoMeans1D;

verus! {

/// Whether `lo` is the first position of a least element.
pub open spec fn is_least(s: Seq<u64>, lo: int) -> bool {
    &&& 0 <= lo < s.len()
    &&& forall|j: int| 0 <= j < s.len() ==> rank(s[lo]) <= rank(#[trigger] s[j])
    &&& forall|j: int| 0 <= j < lo ==> rank(s[lo]) < rank(#[trigger] s[j])
}

/// Whether `hi` is the last position of a greatest element.
pub open spec fn is_greatest(s: Seq<u64>, hi: int) -> bool {
    &&& 0 <= hi < s.len()
    &&& forall|j: int| 0 <= j < s.len() ==> rank(#[trigger] s[j]) <= rank(s[hi])
    &&& forall|j: int| hi < j < s.len() ==> rank(#[trigger] s[j]) < rank(s[hi])
}

/// Where `x` enters an ascending sequence: behind the last element that it is
/// not below.
pub open spec fn slot(s: Seq<u64>, x: u64) -> int
    decreases s.len(),
{
    if s.len() > 0 && below(x, s.last()) {
        slot(s.drop_last(), x)
    } else {
        s.len() as int
    }
}

/// The sequence in ascending order, elements of equal rank in the order in
/// which they came.
pub open spec fn ascending(s: Seq<u64>) -> Seq<u64>
    decreases s.len(),
{
    if s.len() == 0 {
        s
    } else {
        let front = ascending(s.drop_last());
        front.insert(slot(front, s.last()), s.last())
    }
}

/// Whether no element is numerically greater than a later one.
pub open spec fn non_decreasing(s: Seq<u64>) -> bool {
    forall|i: int, j: int| 0 <= i < j < s.len() ==> rank(s[i]) <= rank(s[j])
}

/// The slot lies within the sequence or at its end; every element from the
/// slot on is above `x`, and the one before the slot is not.
pub proof fn lemma_slot(s: Seq<u64>, x: u64)
    ensures
        0 <= slot(s, x) <= s.len(),
        forall|j: int| slot(s, x) <= j < s.len() ==> below(x, #[trigger] s[j]),
        slot(s, x) > 0 ==> !below(x, s[slot(s, x) - 1]),
    decreases s.len(),
{
    if s.len() > 0 && below(x, s.last()) {
        let head = s.drop_last();
        lemma_slot(head, x);
        assert forall|j: int| slot(s, x) <= j < s.len() implies below(x, #[trigger] s[j]) by {
            if j < head.len() {
                assert(s[j] == head[j]);
            }
        }
        if slot(s, x) > 0 {
            assert(s[slot(s, x) - 1] == head[slot(head, x) - 1]);
        }
    }
}

/// Putting a sequence in ascending order rearranges it and loses nothing;
/// where every element is a number, the result is non-decreasing.
pub proof fn lemma_ascending(s: Seq<u64>)
    ensures
        ascending(s).len() == s.len(),
        ascending(s).to_multiset() == s.to_multiset(),
        all_numbers(s) ==> all_numbers(ascending(s)) && non_decreasing(ascending(s)),
    decreases s.len(),
{
    if s.len() > 0 {
        let head = s.drop_last();
        let x = s.last();
        let front = ascending(head);
        let p = slot(front, x);
        lemma_ascending(head);
        lemma_slot(front, x);
        to_multiset_insert(front, p, x);
        to_multiset_build(head, x);
        assert(head.push(x) =~= s);
        if all_numbers(s) {
            assert(all_numbers(head)) by {
                assert forall|i: int| 0 <= i < head.len() implies !nan(#[trigger] head[i]) by {
                    assert(head[i] == s[i]);
                }
            }
            let out = front.insert(p, x);
            assert forall|i: int| 0 <= i < out.len() implies !nan(#[trigger] out[i]) by {
                if i < p {
                    assert(out[i] == front[i]);
                } else if i > p {
                    assert(out[i] == front[i - 1]);
                }
            }
            assert forall|i: int, j: int| 0 <= i < j < out.len() implies rank(out[i]) <= rank(
                out[j],
            ) by {
                if j < p {
                    assert(out[i] == front[i] && out[j] == front[j]);
                } else if j == p {
                    assert(out[i] == front[i]);
                    assert(!nan(front[i]));
                    if p > 0 {
                        assert(!nan(front[p - 1]));
                        assert(rank(front[i]) <= rank(front[p - 1]));
                    }
                } else if i < p {
                    assert(out[i] == front[i] && out[j] == front[j - 1]);
                } else if i == p {
                    assert(out[j] == front[j - 1]);
                    assert(below(x, front[j - 1]));
                } else {
                    assert(out[i] == front[i - 1] && out[j] == front[j - 1]);
                }
            }
        }
    }
}

/// A sequence that is already in order stays as it is. So the least and the
/// greatest sample, in this order, are a seed that needs no rearranging.
pub proof fn lemma_ascending_fixed(s: Seq<u64>)
    requires
        all_numbers(s),
        non_decreasing(s),
    ensures
        ascending(s) == s,
    decreases s.len(),
{
    if s.len() > 0 {
        let head = s.drop_last();
        assert forall|i: int| 0 <= i < head.len() implies !nan(#[trigger] head[i]) by {
            assert(head[i] == s[i]);
        }
        assert(non_decreasing(head)) by {
            assert forall|i: int, j: int| 0 <= i < j < head.len() implies rank(head[i]) <= rank(
                head[j],
            ) by {
                assert(head[i] == s[i] && head[j] == s[j]);
            }
        }
        lemma_ascending_fixed(head);
        if head.len() > 0 {
            assert(head.last() == s[s.len() - 2]);
            assert(!nan(s[s.len() - 2]));
            assert(!below(s.last(), head.last()));
        }
        assert(slot(head, s.last()) == head.len());
        assert(head.insert(head.len() as int, s.last()) =~= s);
    }
}

/// The least sample is not above the greatest, so the pair of them is a seed
/// that is in order as it stands.
pub proof fn lemma_extremes_ordered(s: Seq<u64>, lo: int, hi: int)
    requires
        all_numbers(s),
        is_least(s, lo),
        is_greatest(s, hi),
    ensures
        at_most(s[lo], s[hi]),
        ascending(seq![s[lo], s[hi]]) == seq![s[lo], s[hi]],
{
    assert(rank(s[lo]) <= rank(s[hi]));
    lemma_ascending_fixed(seq![s[lo], s[hi]]);
}

impl TwoMeans1D {
    /// Finds the positions of the least and of the greatest sample. Among
    /// samples of equal value the first counts as the least and the last as
    /// the greatest. Fewer than two samples are refused. Where a sample is
    /// not a number the positions are within range and otherwise unspecified.
    pub fn extremes(samples: &[u64]) -> (r: Result<(usize, usize), InputError>)
        ensures
            samples@.len() < 2 <==> r == Err::<(usize, usize), InputError>(
                InputError::TooFewSamples,
            ),
            samples@.len() >= 2 <==> r is Ok,
            r matches Ok((lo, hi)) ==> lo < samples@.len() && hi < samples@.len(),
            r matches Ok((lo, hi)) ==> all_numbers(samples@) ==> is_least(samples@, lo as int)
                && is_greatest(samples@, hi as int),
    {
        if samples.len() < 2 {
            return Err(InputError::TooFewSamples);
        }
        let mut lo: usize = 0;
        let mut hi: usize = 0;
        let mut j: usize = 1;
        while j < samples.len()
            invariant
                1 <= j <= samples@.len(),
                lo < j,
                hi < j,
                all_numbers(samples@) ==> is_least(samples@.take(j as int), lo as int),
                all_numbers(samples@) ==> is_greatest(samples@.take(j as int), hi as int),
            decreases samples@.len() - j,
        {
            let x: u64 = samples[j];
            let ghost lo0 = lo;
            let ghost hi0 = hi;
            if less(x, samples[lo]) {
                lo = j;
            }
            if !less(x, samples[hi]) {
                hi = j;
            }
            proof {
                if all_numbers(samples@) {
                    let before = samples@.take(j as int);
                    let after = samples@.take(j + 1);
                    assert(!nan(samples@[j as int]));
                    assert(!nan(samples@[lo0 as int]));
                    assert(!nan(samples@[hi0 as int]));
                    assert forall|i: int| 0 <= i < after.len() implies rank(after[lo as int])
                        <= rank(#[trigger] after[i]) by {
                        if i < j {
                            assert(before[i] == after[i]);
                        }
                    }
                    assert forall|i: int| 0 <= i < lo implies rank(after[lo as int]) < rank(
                        #[trigger] after[i],
                    ) by {
                        assert(before[i] == after[i]);
                    }
                    assert forall|i: int| 0 <= i < after.len() implies rank(#[trigger] after[i])
                        <= rank(after[hi as int]) by {
                        if i < j {
                            assert(before[i] == after[i]);
                        }
                    }
                    assert forall|i: int| hi < i < after.len() implies rank(#[trigger] after[i])
                        < rank(after[hi as int]) by {
                        if i < j {
                            assert(before[i] == after[i]);
                        }
                    }
                }
            }
            j += 1;
        }
        proof {
            assert(samples@.take(j as int) =~= samples@);
        }
        Ok((lo, hi))
    }

    /// Puts centroids in ascending order. Centroids of equal value keep the
    /// order in which they came.
    pub fn ascending(centroids: &[u64]) -> (sorted: Vec<u64>)
        ensures
            sorted@ == ascending(centroids@),
            sorted@.len() == centroids@.len(),
            sorted@.to_multiset() == centroids@.to_multiset(),
            all_numbers(centroids@) ==> non_decreasing(sorted@),
    {
        let mut sorted: Vec<u64> = Vec::new();
        let mut i: usize = 0;
        while i < centroids.len()
            invariant
                i <= centroids@.len(),
                sorted@ == ascending(centroids@.take(i as int)),
                sorted@.len() == i,
            decreases centroids@.len() - i,
        {
            let x: u64 = centroids[i];
            let mut j: usize = sorted.len();
            proof {
                assert(sorted@.take(j as int) =~= sorted@);
            }
            while j > 0 && less(x, sorted[j - 1])
                invariant
                    j <= sorted@.len(),
                    slot(sorted@, x) == slot(sorted@.take(j as int), x),
                decreases j,
            {
                proof {
                    assert(sorted@.take(j as int).drop_last() =~= sorted@.take(j - 1));
                }
                j -= 1;
            }
            proof {
                assert(centroids@.take(i + 1).drop_last() =~= centroids@.take(i as int));
            }
            sorted.insert(j, x);
            i += 1;
        }
        proof {
            assert(centroids@.take(i as int) =~= centroids@);
            lemma_ascending(centroids@);
        }
        sorted
    }
}

} // verus!
