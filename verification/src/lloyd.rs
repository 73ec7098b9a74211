//! Lloyd's iteration as a machine that the caller drives.
//!
//! One round has two moves. The caller computes the distances of every sample
//! to every centroid and hands them to `assign`, which labels the samples.
//! Then it computes, for each cluster, the mean of its members and the
//! distance from the centroid to that mean, and hands both to `update`, which
//! moves the centroids and says whether another round is due. The machine
//! keeps the labels, the centroids and the count of rounds, and applies the
//! rules: an empty cluster keeps its centroid, the iteration ends once no
//! centroid moved by as much as machine epsilon, and it ends after
//! `MAX_ROUNDS` rounds in any case.
use vstd::prelude::*;
use crate::assign::{
    has_eligible, is_assignment, is_membership, labels_within, lemma_assignment_fresh,
    lemma_assignment_within, population,
};
use crate::binary64::{all_numbers, below, less, EPSILON};
use crate::error::InputError;
use crate::seed::{ascending, lemma_ascending_fixed, non_decreasing};
use crate::TwoMeans1D;

verus! {

/// The greatest number of rounds that a fit takes.
pub const MAX_ROUNDS: usize = 100;

/// What the caller of `update` does next.
#[derive(Debug, Clone, Copy, PartialEq, Eq, Structural)]
pub enum Step {
    /// Another round is due.
    Continue,
    /// The fit is over.
    Stop,
}

/// The outcome of a fit: a cluster for every sample, and the centroids.
#[derive(Debug)]
pub struct Fit {
    pub labels: Vec<usize>,
    pub centroids: Vec<u64>,
}

/// The state of a fit as mathematical values.
pub struct LloydView {
    pub labels: Seq<usize>,
    pub centroids: Seq<u64>,
    pub rounds: nat,
}

/// A fit in progress.
pub struct Lloyd {
    labels: Vec<usize>,
    centroids: Vec<u64>,
    rounds: usize,
}

impl View for Lloyd {
    type V = LloydView;

    closed spec fn view(&self) -> LloydView {
        LloydView { labels: self.labels@, centroids: self.centroids@, rounds: self.rounds as nat }
    }
}

/// The centroids after an update: the mean for a cluster that has members,
/// the centroid as it was for one that has none.
pub open spec fn updated(labels: Seq<usize>, centroids: Seq<u64>, means: Seq<u64>) -> Seq<u64> {
    Seq::new(
        centroids.len(),
        |k: int|
            if population(labels, k as usize) > 0 {
                means[k]
            } else {
                centroids[k]
            },
    )
}

/// Whether no centroid moved by as much as machine epsilon. A cluster
/// without members does not move.
pub open spec fn settled(labels: Seq<usize>, shifts: Seq<u64>) -> bool {
    forall|k: int|
        0 <= k < shifts.len() && population(labels, k as usize) > 0 ==> below(
            #[trigger] shifts[k],
            EPSILON,
        )
}

/// The count of rounds after one more.
pub open spec fn next_round(rounds: nat) -> nat {
    if rounds < MAX_ROUNDS {
        rounds + 1
    } else {
        rounds
    }
}

/// A round on a fixed point changes nothing. Where the mean of every
/// cluster that has members is its centroid, the update leaves the centroids
/// as they are; and since every shift is then zero, the fit is settled.
pub proof fn lemma_update_fixed(
    labels: Seq<usize>,
    centroids: Seq<u64>,
    means: Seq<u64>,
    shifts: Seq<u64>,
)
    requires
        means.len() == centroids.len(),
        shifts.len() == centroids.len(),
        forall|k: int|
            0 <= k < centroids.len() && population(labels, k as usize) > 0 ==> #[trigger] means[k]
                == centroids[k],
        forall|k: int|
            0 <= k < centroids.len() && population(labels, k as usize) > 0 ==> #[trigger] shifts[k]
                == 0,
    ensures
        updated(labels, centroids, means) == centroids,
        settled(labels, shifts),
{
    assert(updated(labels, centroids, means) =~= centroids);
}

/// A fit begun again from its own outcome repeats it. Let a fit have ended
/// with the given labels and centroids, the centroids in ascending order.
/// Where the distances to these centroids are those on which the labels were
/// assigned, each sample with an eligible one, and the mean of every cluster
/// that has members is its centroid, the second fit keeps the seed as it is,
/// assigns the same labels to samples that start in cluster zero, leaves the
/// centroids where they are, and is settled after that round.
pub proof fn lemma_refit_fixed(
    labels: Seq<usize>,
    centroids: Seq<u64>,
    rows: Seq<Vec<u64>>,
    earlier: Seq<usize>,
    means: Seq<u64>,
    shifts: Seq<u64>,
)
    requires
        all_numbers(centroids),
        non_decreasing(centroids),
        is_assignment(rows, earlier, labels),
        forall|n: int| 0 <= n < labels.len() ==> has_eligible((#[trigger] rows[n])@),
        means.len() == centroids.len(),
        shifts.len() == centroids.len(),
        forall|k: int|
            0 <= k < centroids.len() && population(labels, k as usize) > 0 ==> #[trigger] means[k]
                == centroids[k],
        forall|k: int|
            0 <= k < centroids.len() && population(labels, k as usize) > 0 ==> #[trigger] shifts[k]
                == 0,
    ensures
        ascending(centroids) == centroids,
        is_assignment(rows, Seq::new(labels.len(), |n: int| 0usize), labels),
        updated(labels, centroids, means) == centroids,
        settled(labels, shifts),
{
    lemma_ascending_fixed(centroids);
    lemma_assignment_fresh(rows, earlier, labels, Seq::new(labels.len(), |n: int| 0usize));
    lemma_update_fixed(labels, centroids, means, shifts);
}

impl Lloyd {
    /// Every label names a centroid, and the rounds are within their bound.
    pub open spec fn wf(&self) -> bool {
        &&& self@.rounds <= MAX_ROUNDS
        &&& labels_within(self@.labels, self@.centroids.len())
    }

    /// Begins a fit of `samples` samples from the seed centroids, which are
    /// put in ascending order. Every sample starts in cluster zero. Fewer
    /// than two samples are refused.
    pub fn start(samples: usize, seed: &[u64]) -> (r: Result<Lloyd, InputError>)
        ensures
            samples < 2 <==> r == Err::<Lloyd, InputError>(InputError::TooFewSamples),
            samples >= 2 <==> r is Ok,
            r matches Ok(lloyd) ==> {
                &&& lloyd.wf()
                &&& lloyd@.rounds == 0
                &&& lloyd@.labels == Seq::new(samples as nat, |n: int| 0usize)
                &&& lloyd@.centroids == ascending(seed@)
                &&& lloyd@.centroids.len() == seed@.len()
                &&& all_numbers(seed@) ==> non_decreasing(lloyd@.centroids)
            },
    {
        if samples < 2 {
            return Err(InputError::TooFewSamples);
        }
        let mut labels: Vec<usize> = Vec::new();
        let mut n: usize = 0;
        while n < samples
            invariant
                n <= samples,
                labels@ == Seq::new(n as nat, |m: int| 0usize),
            decreases samples - n,
        {
            labels.push(0);
            n += 1;
            proof {
                assert(labels@ =~= Seq::new(n as nat, |m: int| 0usize));
            }
        }
        let centroids: Vec<u64> = TwoMeans1D::ascending(seed);
        Ok(Lloyd { labels, centroids, rounds: 0 })
    }

    /// The cluster of every sample.
    pub fn labels(&self) -> (labels: &Vec<usize>)
        ensures
            labels@ == self@.labels,
    {
        &self.labels
    }

    /// The centroids, in the order in which labels name them.
    pub fn centroids(&self) -> (centroids: &Vec<u64>)
        ensures
            centroids@ == self@.centroids,
    {
        &self.centroids
    }

    /// The number of rounds completed.
    pub fn rounds(&self) -> (rounds: usize)
        ensures
            rounds == self@.rounds,
    {
        self.rounds
    }

    /// The positions of the samples of one cluster, in ascending order.
    pub fn members(&self, cluster: usize) -> (members: Vec<usize>)
        ensures
            is_membership(self@.labels, cluster, members@),
    {
        TwoMeans1D::members(self.labels.as_slice(), cluster)
    }

    /// First move of a round: labels every sample anew. Row `n` of
    /// `distances` holds the distances of sample `n` to the centroids, in
    /// their order.
    pub fn assign(&mut self, distances: &[Vec<u64>])
        requires
            old(self).wf(),
            distances@.len() == old(self)@.labels.len(),
            forall|n: int|
                0 <= n < distances@.len() ==> (#[trigger] distances@[n])@.len() == old(
                    self,
                )@.centroids.len(),
        ensures
            final(self).wf(),
            is_assignment(distances@, old(self)@.labels, final(self)@.labels),
            final(self)@.centroids == old(self)@.centroids,
            final(self)@.rounds == old(self)@.rounds,
    {
        TwoMeans1D::assign(distances, &mut self.labels);
        proof {
            lemma_assignment_within(
                distances@,
                old(self)@.labels,
                self@.labels,
                self@.centroids.len(),
            );
        }
    }

    /// Second move of a round: moves the centroids and counts the round.
    /// `means[k]` is the mean of the members of cluster `k`, and `shifts[k]`
    /// the distance from centroid `k` to that mean; neither is read for a
    /// cluster without members.
    pub fn update(&mut self, means: &[u64], shifts: &[u64]) -> (step: Step)
        requires
            old(self).wf(),
            means@.len() == old(self)@.centroids.len(),
            shifts@.len() == old(self)@.centroids.len(),
        ensures
            final(self).wf(),
            final(self)@.labels == old(self)@.labels,
            final(self)@.centroids == updated(old(self)@.labels, old(self)@.centroids, means@),
            final(self)@.rounds == next_round(old(self)@.rounds),
            step == Step::Stop <==> final(self)@.rounds >= MAX_ROUNDS || settled(
                old(self)@.labels,
                shifts@,
            ),
    {
        let mut still: bool = true;
        let mut k: usize = 0;
        while k < self.centroids.len()
            invariant
                k <= self.centroids@.len(),
                self.labels@ == old(self).labels@,
                self.rounds == old(self).rounds,
                self.centroids@.len() == old(self).centroids@.len(),
                means@.len() == self.centroids@.len(),
                shifts@.len() == self.centroids@.len(),
                forall|j: int|
                    0 <= j < k ==> #[trigger] self.centroids@[j] == updated(
                        old(self).labels@,
                        old(self).centroids@,
                        means@,
                    )[j],
                forall|j: int|
                    k <= j < self.centroids@.len() ==> self.centroids@[j] == old(
                        self,
                    ).centroids@[j],
                still <==> forall|j: int|
                    0 <= j < k && population(old(self).labels@, j as usize) > 0 ==> below(
                        #[trigger] shifts@[j],
                        EPSILON,
                    ),
            decreases self.centroids@.len() - k,
        {
            if TwoMeans1D::population(self.labels.as_slice(), k) > 0 {
                self.centroids.set(k, means[k]);
                if !less(shifts[k], EPSILON) {
                    still = false;
                }
            }
            k += 1;
        }
        if self.rounds < MAX_ROUNDS {
            self.rounds += 1;
        }
        proof {
            assert(self.centroids@ =~= updated(
                old(self).labels@,
                old(self).centroids@,
                means@,
            ));
        }
        if still || self.rounds >= MAX_ROUNDS {
            Step::Stop
        } else {
            Step::Continue
        }
    }

    /// Ends the fit and hands out its outcome. Every label names one of the
    /// centroids.
    pub fn finish(self) -> (fit: Fit)
        requires
            self.wf(),
        ensures
            fit.labels@ == self@.labels,
            fit.centroids@ == self@.centroids,
            labels_within(fit.labels@, fit.centroids@.len()),
            fit.centroids@.len() >= 1 ==> forall|n: int|
                0 <= n < fit.labels@.len() ==> (#[trigger] fit.labels@[n]) < fit.centroids@.len(),
    {
        Fit { labels: self.labels, centroids: self.centroids }
    }
}

} // verus!
