//! The assignment step: which centroid a sample belongs to, and which
//! samples a centroid has.
//!
//! A distance is the pattern of the absolute difference between a sample and
//! a centroid. Only a distance below the greatest finite value can claim a
//! sample; an infinite distance, or one that is not a number, never does.
use vstd::prelude::*;
use crate::binary64::{below, less, rank, LARGEST};
use crate::TwoMeans1D;

verus! {

/// Whether a distance can claim a sample.
pub open spec fn eligible(d: u64) -> bool {
    below(d, LARGEST)
}

/// Whether some distance of the row can claim the sample.
pub open spec fn has_eligible(row: Seq<u64>) -> bool {
    exists|k: int| 0 <= k < row.len() && eligible(#[trigger] row[k])
}

/// Whether `label` is the cluster of a sample whose distances to the
/// centroids are `row` and whose cluster was `current`: the first centroid at
/// the least eligible distance, or `current` where no distance is eligible.
pub open spec fn is_nearest(row: Seq<u64>, current: int, label: int) -> bool {
    if has_eligible(row) {
        &&& 0 <= label < row.len()
        &&& eligible(row[label])
        &&& forall|j: int|
            0 <= j < row.len() && eligible(#[trigger] row[j]) ==> rank(row[label]) <= rank(row[j])
        &&& forall|j: int|
            0 <= j < label && eligible(#[trigger] row[j]) ==> rank(row[label]) < rank(row[j])
    } else {
        label == current
    }
}

/// Whether `after` is the assignment that the distance rows make of samples
/// whose clusters were `before`.
pub open spec fn is_assignment(rows: Seq<Vec<u64>>, before: Seq<usize>, after: Seq<usize>) -> bool {
    &&& after.len() == before.len()
    &&& forall|n: int|
        0 <= n < before.len() ==> is_nearest(rows[n]@, before[n] as int, #[trigger] after[n] as int)
}

/// How many of the labels name the cluster.
pub open spec fn population(labels: Seq<usize>, cluster: usize) -> nat
    decreases labels.len(),
{
    if labels.len() == 0 {
        0
    } else {
        population(labels.drop_last(), cluster) + if labels.last() == cluster {
            1nat
        } else {
            0nat
        }
    }
}

/// Whether `members` lists, in ascending order, exactly the positions that
/// the labels give to the cluster.
pub open spec fn is_membership(labels: Seq<usize>, cluster: usize, members: Seq<usize>) -> bool {
    &&& forall|i: int|
        0 <= i < members.len() ==> (#[trigger] members[i]) < labels.len()
            && labels[members[i] as int] == cluster
    &&& forall|i: int, j: int| 0 <= i < j < members.len() ==> members[i] < members[j]
    &&& forall|n: int|
        0 <= n < labels.len() && #[trigger] labels[n] == cluster ==> members.contains(n as usize)
    &&& members.len() == population(labels, cluster)
}

/// Whether every label names one of `clusters` clusters. Where there is no
/// cluster at all, every label is zero.
pub open spec fn labels_within(labels: Seq<usize>, clusters: nat) -> bool {
    forall|n: int| 0 <= n < labels.len() ==> (#[trigger] labels[n]) < clusters || labels[n] == 0
}

/// A row of distances determines the cluster.
pub proof fn lemma_nearest_unique(row: Seq<u64>, current: int, first: int, second: int)
    requires
        is_nearest(row, current, first),
        is_nearest(row, current, second),
    ensures
        first == second,
{
    if has_eligible(row) {
        if first < second {
            assert(eligible(row[first]));
        } else if second < first {
            assert(eligible(row[second]));
        }
    }
}

/// Assignment is idempotent: a sample that is assigned again on the same
/// distances keeps its cluster. Where some distance is eligible, the cluster
/// does not depend on the one the sample had.
pub proof fn lemma_nearest_stable(row: Seq<u64>, current: int, label: int, other: int)
    requires
        is_nearest(row, current, label),
    ensures
        is_nearest(row, label, label),
        has_eligible(row) ==> is_nearest(row, other, label),
{
}

/// An assignment made again on the same distances changes no label.
pub proof fn lemma_assignment_idempotent(rows: Seq<Vec<u64>>, before: Seq<usize>, after: Seq<usize>)
    requires
        is_assignment(rows, before, after),
    ensures
        is_assignment(rows, after, after),
{
    assert forall|n: int| 0 <= n < after.len() implies is_nearest(
        rows[n]@,
        after[n] as int,
        #[trigger] after[n] as int,
    ) by {
        lemma_nearest_stable(rows[n]@, before[n] as int, after[n] as int, 0);
    }
}

/// Where every sample has an eligible distance, the assignment does not
/// depend on the labels that the samples had.
pub proof fn lemma_assignment_fresh(
    rows: Seq<Vec<u64>>,
    before: Seq<usize>,
    after: Seq<usize>,
    other: Seq<usize>,
)
    requires
        is_assignment(rows, before, after),
        other.len() == before.len(),
        forall|n: int| 0 <= n < before.len() ==> has_eligible((#[trigger] rows[n])@),
    ensures
        is_assignment(rows, other, after),
{
    assert forall|n: int| 0 <= n < other.len() implies is_nearest(
        rows[n]@,
        other[n] as int,
        #[trigger] after[n] as int,
    ) by {
        assert(has_eligible(rows[n]@));
        lemma_nearest_stable(rows[n]@, before[n] as int, after[n] as int, other[n] as int);
    }
}

/// Labels that name centroids still do so after an assignment on rows of
/// one distance for each centroid.
pub proof fn lemma_assignment_within(
    rows: Seq<Vec<u64>>,
    before: Seq<usize>,
    after: Seq<usize>,
    clusters: nat,
)
    requires
        is_assignment(rows, before, after),
        labels_within(before, clusters),
        forall|n: int| 0 <= n < before.len() ==> (#[trigger] rows[n])@.len() == clusters,
    ensures
        labels_within(after, clusters),
{
    assert forall|n: int| 0 <= n < after.len() implies (#[trigger] after[n]) < clusters || after[n]
        == 0 by {
        assert(rows[n]@.len() == clusters);
        assert(before[n] < clusters || before[n] == 0);
    }
}

/// The cluster of a sample is one of the centroids, or the cluster it had.
pub proof fn lemma_nearest_within(row: Seq<u64>, current: int, label: int)
    requires
        is_nearest(row, current, label),
    ensures
        0 <= label < row.len() || label == current,
{
}

/// The populations of the clusters below `clusters` add up to the number of
/// labels within them.
pub open spec fn populations(labels: Seq<usize>, clusters: nat) -> nat
    decreases clusters,
{
    if clusters == 0 {
        0
    } else {
        populations(labels, (clusters - 1) as nat) + population(labels, (clusters - 1) as usize)
    }
}

/// No sample is lost or counted twice: where every label is below `clusters`,
/// the populations of the clusters add up to the number of samples.
pub proof fn lemma_populations_cover(labels: Seq<usize>, clusters: nat)
    requires
        clusters <= usize::MAX,
        forall|n: int| 0 <= n < labels.len() ==> (#[trigger] labels[n]) < clusters,
    ensures
        populations(labels, clusters) == labels.len(),
    decreases labels.len(),
{
    if labels.len() == 0 {
        lemma_populations_empty(labels, clusters);
    } else {
        let front = labels.drop_last();
        lemma_populations_cover(front, clusters);
        lemma_populations_step(labels, clusters);
    }
}

proof fn lemma_populations_empty(labels: Seq<usize>, clusters: nat)
    requires
        labels.len() == 0,
    ensures
        populations(labels, clusters) == 0,
    decreases clusters,
{
    if clusters > 0 {
        lemma_populations_empty(labels, (clusters - 1) as nat);
    }
}

proof fn lemma_populations_step(labels: Seq<usize>, clusters: nat)
    requires
        labels.len() > 0,
        clusters <= usize::MAX,
    ensures
        populations(labels, clusters) == populations(labels.drop_last(), clusters) + if labels.last()
            < clusters {
            1nat
        } else {
            0nat
        },
    decreases clusters,
{
    if clusters > 0 {
        lemma_populations_step(labels, (clusters - 1) as nat);
    }
}

impl TwoMeans1D {
    /// Picks the cluster of one sample from its distances to the centroids,
    /// in the order of the centroids. The first centroid at the least
    /// distance wins: a later one replaces it only by being strictly nearer.
    pub fn nearest(distances: &[u64], current: usize) -> (label: usize)
        ensures
            is_nearest(distances@, current as int, label as int),
    {
        let mut best: u64 = LARGEST;
        let mut label: usize = current;
        let ghost mut seen: bool = false;
        let mut k: usize = 0;
        while k < distances.len()
            invariant
                k <= distances.len(),
                !seen ==> best == LARGEST && label == current,
                !seen ==> forall|j: int| 0 <= j < k ==> !eligible(#[trigger] distances@[j]),
                seen ==> label < k && best == distances@[label as int] && eligible(best),
                seen ==> forall|j: int|
                    0 <= j < k && eligible(#[trigger] distances@[j]) ==> rank(best) <= rank(
                        distances@[j],
                    ),
                seen ==> forall|j: int|
                    0 <= j < label && eligible(#[trigger] distances@[j]) ==> rank(best) < rank(
                        distances@[j],
                    ),
            decreases distances.len() - k,
        {
            let d: u64 = distances[k];
            if less(d, best) {
                best = d;
                label = k;
                proof {
                    seen = true;
                }
            }
            k += 1;
        }
        proof {
            if seen {
                assert(eligible(distances@[label as int]));
            }
        }
        label
    }

    /// Assigns every sample anew. Row `n` of `distances` holds the distances
    /// of sample `n` to the centroids.
    pub fn assign(distances: &[Vec<u64>], labels: &mut Vec<usize>)
        requires
            distances@.len() == old(labels)@.len(),
        ensures
            is_assignment(distances@, old(labels)@, final(labels)@),
    {
        let mut n: usize = 0;
        while n < labels.len()
            invariant
                n <= labels@.len(),
                labels@.len() == old(labels)@.len(),
                distances@.len() == labels@.len(),
                forall|m: int|
                    0 <= m < n ==> is_nearest(
                        distances@[m]@,
                        old(labels)@[m] as int,
                        #[trigger] labels@[m] as int,
                    ),
                forall|m: int| n <= m < labels@.len() ==> labels@[m] == old(labels)@[m],
            decreases labels@.len() - n,
        {
            let label: usize = Self::nearest(distances[n].as_slice(), labels[n]);
            labels.set(n, label);
            n += 1;
        }
    }

    /// Counts the samples that the labels give to the cluster.
    pub fn population(labels: &[usize], cluster: usize) -> (count: usize)
        ensures
            count == population(labels@, cluster),
            count <= labels@.len(),
    {
        let mut count: usize = 0;
        let mut n: usize = 0;
        while n < labels.len()
            invariant
                n <= labels@.len(),
                count <= n,
                count == population(labels@.take(n as int), cluster),
            decreases labels@.len() - n,
        {
            proof {
                assert(labels@.take(n + 1).drop_last() =~= labels@.take(n as int));
            }
            if labels[n] == cluster {
                count += 1;
            }
            n += 1;
        }
        proof {
            assert(labels@.take(n as int) =~= labels@);
        }
        count
    }

    /// Lists the positions of the samples that the labels give to the
    /// cluster, in ascending order.
    pub fn members(labels: &[usize], cluster: usize) -> (members: Vec<usize>)
        ensures
            is_membership(labels@, cluster, members@),
    {
        let mut members: Vec<usize> = Vec::new();
        let mut n: usize = 0;
        while n < labels.len()
            invariant
                n <= labels@.len(),
                is_membership(labels@.take(n as int), cluster, members@),
            decreases labels@.len() - n,
        {
            let ghost before = members@;
            let ghost front = labels@.take(n as int);
            let ghost next = labels@.take(n + 1);
            proof {
                assert(next.drop_last() =~= front);
                assert(next.last() == labels@[n as int]);
            }
            if labels[n] == cluster {
                members.push(n);
                proof {
                    assert(members@.last() == n);
                    assert forall|m: int|
                        0 <= m < next.len() && #[trigger] next[m] == cluster implies members@.contains(
                        m as usize,
                    ) by {
                        if m < n {
                            assert(front[m] == cluster);
                            let i = choose|i: int| 0 <= i < before.len() && before[i] == m as usize;
                            assert(members@[i] == m as usize);
                        } else {
                            assert(members@[members@.len() - 1] == m as usize);
                        }
                    }
                }
            } else {
                proof {
                    assert forall|m: int|
                        0 <= m < next.len() && #[trigger] next[m] == cluster implies members@.contains(
                        m as usize,
                    ) by {
                        assert(front[m] == cluster);
                    }
                }
            }
            n += 1;
        }
        proof {
            assert(labels@.take(n as int) =~= labels@);
        }
        members
    }
}

} // verus!
