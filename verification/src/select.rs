//! Model selection: the samples of each cluster, and the choice between the
//! fit with one cluster and the fit with two.
//!
//! Each fit has a score, its Bayesian information criterion, and the lower
//! score wins. Computing a score is the caller's part. A score is undefined
//! for a cluster with fewer than two members, which has no variance; such a
//! fit is given positive infinity, so that it loses.
use vstd::prelude::*;
use crate::assign::population;
use crate::binary64::{at_most, below, less, less_or_equal};
use crate::lloyd::Fit;
use crate::TwoMeans1D;

verus! {

/// The model chosen, with the scores of both candidates.
#[derive(Debug)]
pub struct Model {
    pub labels: Vec<usize>,
    pub centroids: Vec<u64>,
    /// Score of the fit with one cluster.
    pub bic_k1: u64,
    /// Score of the fit with two clusters.
    pub bic_k2: u64,
}

/// The samples that the labels give to the cluster, in their order. Label
/// `n` speaks of sample `n`.
pub open spec fn picked(data: Seq<u64>, labels: Seq<usize>, cluster: usize) -> Seq<u64>
    recommends
        labels.len() <= data.len(),
    decreases labels.len(),
{
    if labels.len() == 0 {
        Seq::empty()
    } else {
        let front = picked(data, labels.drop_last(), cluster);
        if labels.last() == cluster {
            front.push(data[labels.len() - 1])
        } else {
            front
        }
    }
}

/// Whether a fit with two clusters has a cluster too small to have a
/// variance.
pub open spec fn is_degenerate(labels: Seq<usize>) -> bool {
    population(labels, 0) < 2 || population(labels, 1) < 2
}

/// A cluster holds as many samples as labels name it.
pub proof fn lemma_picked_len(data: Seq<u64>, labels: Seq<usize>, cluster: usize)
    ensures
        picked(data, labels, cluster).len() == population(labels, cluster),
    decreases labels.len(),
{
    if labels.len() > 0 {
        lemma_picked_len(data, labels.drop_last(), cluster);
    }
}

/// The two clusters of a fit with two centroids divide the samples between
/// them: none is left out and none is in both.
pub proof fn lemma_split_covers(data: Seq<u64>, labels: Seq<usize>)
    requires
        forall|n: int| 0 <= n < labels.len() ==> (#[trigger] labels[n]) < 2,
    ensures
        picked(data, labels, 0).len() + picked(data, labels, 1).len() == labels.len(),
    decreases labels.len(),
{
    if labels.len() > 0 {
        let front = labels.drop_last();
        assert forall|n: int| 0 <= n < front.len() implies (#[trigger] front[n]) < 2 by {
            assert(front[n] == labels[n]);
        }
        lemma_split_covers(data, front);
        assert(labels.last() == labels[labels.len() - 1]);
    }
}

impl TwoMeans1D {
    /// Separates the samples of cluster zero from those of cluster one. A
    /// sample with any other label is in neither.
    pub fn split(data: &[u64], labels: &[usize]) -> (parts: (Vec<u64>, Vec<u64>))
        requires
            labels@.len() <= data@.len(),
        ensures
            parts.0@ == picked(data@, labels@, 0),
            parts.1@ == picked(data@, labels@, 1),
    {
        let mut first: Vec<u64> = Vec::new();
        let mut second: Vec<u64> = Vec::new();
        let mut n: usize = 0;
        while n < labels.len()
            invariant
                n <= labels@.len(),
                labels@.len() <= data@.len(),
                first@ == picked(data@, labels@.take(n as int), 0),
                second@ == picked(data@, labels@.take(n as int), 1),
            decreases labels@.len() - n,
        {
            proof {
                assert(labels@.take(n + 1).drop_last() =~= labels@.take(n as int));
            }
            if labels[n] == 0 {
                first.push(data[n]);
            }
            if labels[n] == 1 {
                second.push(data[n]);
            }
            n += 1;
        }
        proof {
            assert(labels@.take(n as int) =~= labels@);
        }
        (first, second)
    }

    /// Tells whether one of the two clusters has fewer than two members, so
    /// that the fit with two clusters has no defined score.
    pub fn degenerate(labels: &[usize]) -> (r: bool)
        ensures
            r == is_degenerate(labels@),
    {
        Self::population(labels, 0) < 2 || Self::population(labels, 1) < 2
    }

    /// Tells whether both variances are strictly positive. Only then is the
    /// separation of two clusters measured against their spread; otherwise
    /// they count as wholly overlapping.
    pub fn measurable(first: u64, second: u64) -> (r: bool)
        ensures
            r == (below(0, first) && below(0, second)),
    {
        less(0, first) && less(0, second)
    }

    /// Chooses between the fit with one cluster, of score `prior`, and the
    /// fit with two, of score `post`. The fit with one cluster is chosen
    /// where its score is at most the other: a tie favours the simpler model.
    /// The fit chosen is handed on as it is, together with both scores.
    pub fn select(single: Fit, pair: Fit, prior: u64, post: u64) -> (model: Model)
        ensures
            model.bic_k1 == prior,
            model.bic_k2 == post,
            at_most(prior, post) ==> model.labels@ == single.labels@ && model.centroids@
                == single.centroids@,
            !at_most(prior, post) ==> model.labels@ == pair.labels@ && model.centroids@
                == pair.centroids@,
    {
        if less_or_equal(prior, post) {
            Model { labels: single.labels, centroids: single.centroids, bic_k1: prior, bic_k2: post }
        } else {
            Model { labels: pair.labels, centroids: pair.centroids, bic_k1: prior, bic_k2: post }
        }
    }
}

} // verus!
