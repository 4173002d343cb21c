//! The two decisions around the power iteration that turns pairwise scores into weights:
//! when to stop iterating, and the order of the players once every player has a weight.
//!
//! The iteration itself is floating-point arithmetic and is the caller's. The caller says
//! after each multiplication whether the vector has settled, and hands over the weights
//! as integers that are ordered as the weights are.

use crate::error::Error;
use vstd::prelude::*;

verus! {

/// The number of multiplications after which a vector that has not settled is given up.
pub const ITERATION_CAP: u32 = 1000;

/// How many multiplications of a power iteration have been made, and how many may be.
#[derive(Clone, Copy, Debug, PartialEq, Eq, Structural)]
pub struct PowerIteration {
    pub done: u32,
    pub cap: u32,
}

/// What follows a multiplication after `done` earlier ones: the vector is taken where it
/// has settled within the cap; the ranking is undefined where the cap is reached without
/// that; otherwise the iteration goes on.
pub open spec fn verdict(done: u32, cap: u32, settled: bool) -> Result<bool, Error> {
    if done < cap && settled {
        Ok(true)
    } else if done + 1 >= cap {
        Err(Error::RankingUndefined)
    } else {
        Ok(false)
    }
}

impl PowerIteration {
    /// An iteration of which nothing has been done yet.
    pub fn new(cap: u32) -> (r: PowerIteration)
        ensures
            r == (PowerIteration { done: 0, cap }),
    {
        PowerIteration { done: 0, cap }
    }

    /// Takes note of one more multiplication. `settled` says whether the vector changed
    /// by less than the threshold. The result is `Ok(true)` where the vector is to be
    /// taken, `Ok(false)` where the iteration goes on, and `RankingUndefined` where the
    /// cap is reached and the vector has not settled.
    pub fn step(&mut self, settled: bool) -> (r: Result<bool, Error>)
        ensures
            r == verdict(old(self).done, old(self).cap, settled),
            final(self).cap == old(self).cap,
            final(self).done == if old(self).done < u32::MAX {
                old(self).done + 1
            } else {
                old(self).done as int
            },
    {
        let before = self.done;
        if before < u32::MAX {
            self.done = before + 1;
        }
        if before < self.cap && settled {
            Ok(true)
        } else if before >= self.cap || self.cap - before <= 1 {
            Err(Error::RankingUndefined)
        } else {
            Ok(false)
        }
    }
}

/// The player at position `i` comes before the one at position `j`: the weight is
/// larger, or it is the same and `i` is the earlier position.
pub open spec fn outranks(weights: Seq<i64>, i: usize, j: usize) -> bool {
    weights[i as int] > weights[j as int] || (weights[i as int] == weights[j as int] && i < j)
}

/// `order` holds the first `upto` positions, each once, the larger weight first.
pub open spec fn is_ranking(weights: Seq<i64>, order: Seq<usize>, upto: int) -> bool {
    &&& order.len() == upto
    &&& forall|k: int| 0 <= k < order.len() ==> (#[trigger] order[k]) < upto
    &&& forall|i: usize| i < upto ==> #[trigger] order.contains(i)
    &&& forall|a: int, b: int|
        0 <= a < b < order.len() ==> outranks(weights, #[trigger] order[a], #[trigger] order[b])
}

/// The positions of the weights in descending order of the weights; of equal weights the
/// earlier position comes first.
pub fn rank_order(weights: &Vec<i64>) -> (order: Vec<usize>)
    ensures
        is_ranking(weights@, order@, weights.len() as int),
        order@ == ranking_of(weights@),
{
    let mut order: Vec<usize> = Vec::new();
    let mut i: usize = 0;
    while i < weights.len()
        invariant
            i <= weights.len(),
            is_ranking(weights@, order@, i as int),
        decreases weights.len() - i,
    {
        let ghost start = order@;
        let mut p: usize = 0;
        while p < order.len() && !(weights[i] > weights[order[p]])
            invariant
                p <= order.len(),
                i < weights.len(),
                order@ == start,
                is_ranking(weights@, start, i as int),
                forall|k: int| 0 <= k < p ==> outranks(weights@, #[trigger] start[k], i),
            decreases order.len() - p,
        {
            p += 1;
        }
        order.insert(p, i);
        proof {
            let end = order@;
            assert(end[p as int] == i);
            assert forall|k: usize| k < i + 1 implies #[trigger] end.contains(k) by {
                if k < i {
                    assert(start.contains(k));
                    let at = choose|at: int| 0 <= at < start.len() && start[at] == k;
                    if at < p {
                        assert(end[at] == k);
                    } else {
                        assert(end[at + 1] == k);
                    }
                }
            }
        }
        i += 1;
    }
    proof {
        lemma_ranking_is(weights@, order@);
    }
    order
}

/// The positions of the weights in descending order of the weights.
pub open spec fn ranking_of(weights: Seq<i64>) -> Seq<usize> {
    choose|order: Seq<usize>| is_ranking(weights, order, weights.len() as int)
}

/// Two lists that hold the same positions, each once and the larger weight first, are the
/// same list.
pub proof fn lemma_ranking_unique(weights: Seq<i64>, a: Seq<usize>, b: Seq<usize>)
    requires
        a.len() == b.len(),
        forall|x: usize| a.contains(x) <==> b.contains(x),
        forall|i: int, j: int|
            0 <= i < j < a.len() ==> outranks(weights, #[trigger] a[i], #[trigger] a[j]),
        forall|i: int, j: int|
            0 <= i < j < b.len() ==> outranks(weights, #[trigger] b[i], #[trigger] b[j]),
    ensures
        a == b,
    decreases a.len(),
{
    if a.len() > 0 {
        let n = a.len() - 1;
        assert(a.contains(a[n]));
        assert(b.contains(b[n]));
        let a0 = a.drop_last();
        let b0 = b.drop_last();
        assert forall|x: usize| a0.contains(x) <==> b0.contains(x) by {
            if a0.contains(x) {
                assert(a.contains(x));
                let j = choose|j: int| 0 <= j < b.len() && b[j] == x;
                assert(b0[j] == x);
            }
            if b0.contains(x) {
                assert(b.contains(x));
                let j = choose|j: int| 0 <= j < a.len() && a[j] == x;
                assert(a0[j] == x);
            }
        }
        lemma_ranking_unique(weights, a0, b0);
        assert(b =~= b0.push(b[n]));
    }
}

/// There is one descending order of the positions, and `order` is it.
pub proof fn lemma_ranking_is(weights: Seq<i64>, order: Seq<usize>)
    requires
        is_ranking(weights, order, weights.len() as int),
    ensures
        order == ranking_of(weights),
{
    let other = ranking_of(weights);
    lemma_ranking_unique(weights, order, other);
}

/// The players in descending order of their weights, where `weights` has a weight for
/// each of `players`; a player comes before another of the same weight that stands later
/// in `players`. `None` where the two lists differ in length.
pub fn ranked_by(players: &Vec<i64>, weights: &Vec<i64>) -> (r: Option<Vec<i64>>)
    ensures
        r is Some <==> players.len() == weights.len(),
        r matches Some(list) ==> list@ == ranking_of(weights@).map_values(
            |i: usize| players[i as int],
        ),
{
    if players.len() != weights.len() {
        return None;
    }
    let order = rank_order(weights);
    let ghost place = |i: usize| players[i as int];
    let mut list: Vec<i64> = Vec::new();
    let mut k: usize = 0;
    while k < order.len()
        invariant
            k <= order.len(),
            players.len() == weights.len(),
            is_ranking(weights@, order@, weights.len() as int),
            place == |i: usize| players[i as int],
            list@ == order@.take(k as int).map_values(place),
        decreases order.len() - k,
    {
        list.push(players[order[k]]);
        proof {
            assert(order@.take(k + 1) =~= order@.take(k as int).push(order[k as int]));
            assert(list@ =~= order@.take(k + 1).map_values(place));
        }
        k += 1;
    }
    proof {
        assert(order@.take(k as int) =~= order@);
    }
    Some(list)
}

} // verus!
