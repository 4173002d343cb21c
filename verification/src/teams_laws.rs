//! What holds of a split of a roster and of the split with its two groups exchanged.

use crate::teams::{
    before, candidate, complement, group, imbalance, in_b, mask_count, signed_sum, worth_a,
    worth_b, Rated, Scoring, MAX_ROSTER,
};
use vstd::prelude::*;

verus! {

/// The complement of a mask puts a player in group B where the mask puts the player in
/// group A, and the other way round.
pub proof fn lemma_complement_flips(mask: u32, n: int, i: int)
    requires
        0 <= i < n <= 31,
    ensures
        in_b(complement(mask, n), i) == !in_b(mask, i),
{
    let k = n as u32;
    let j = i as u32;
    assert(((mask ^ (((1u32 << k) - 1) as u32)) >> j) & 1u32 == 1u32 <==> !((mask >> j) & 1u32
        == 1u32)) by (bit_vector)
        requires
            j < k,
            k <= 31,
    ;
}

/// Every player of the roster is worth the same in either group: the scoring is
/// symmetric, or each player's two scores are equal.
pub open spec fn same_worth(roster: Seq<Rated>, scoring: Scoring) -> bool {
    forall|i: int|
        0 <= i < roster.len() ==> worth_a((#[trigger] roster[i]).1, scoring) == worth_b(
            roster[i].1,
            scoring,
        )
}

/// Where every player is worth the same in either group, the split with the groups
/// exchanged has the opposite signed sum.
pub proof fn lemma_swap_signed_sum(
    roster: Seq<Rated>,
    scoring: Scoring,
    mask: u32,
    n: int,
    upto: int,
)
    requires
        same_worth(roster, scoring),
        0 <= upto <= n <= 31,
        upto <= roster.len(),
    ensures
        signed_sum(roster, scoring, complement(mask, n), upto) == -signed_sum(
            roster,
            scoring,
            mask,
            upto,
        ),
    decreases upto,
{
    if upto > 0 {
        lemma_swap_signed_sum(roster, scoring, mask, n, upto - 1);
        lemma_complement_flips(mask, n, upto - 1);
        assert(worth_a(roster[upto - 1].1, scoring) == worth_b(roster[upto - 1].1, scoring));
    }
}

/// Where every player is worth the same in either group, exchanging the two groups of a
/// split leaves its imbalance as it is.
pub proof fn lemma_swap_imbalance(roster: Seq<Rated>, scoring: Scoring, mask: u32)
    requires
        same_worth(roster, scoring),
        roster.len() <= MAX_ROSTER,
    ensures
        imbalance(roster, scoring, complement(mask, roster.len() as int)) == imbalance(
            roster,
            scoring,
            mask,
        ),
{
    lemma_swap_signed_sum(roster, scoring, mask, roster.len() as int, roster.len() as int);
}

/// With symmetric scoring every player is worth the same in either group.
pub proof fn lemma_symmetric_same_worth(roster: Seq<Rated>)
    ensures
        same_worth(roster, Scoring::Symmetric),
{
}

/// The complement of a mask has the two groups of the mask exchanged.
pub proof fn lemma_swap_groups(roster: Seq<Rated>, mask: u32, n: int, upto: int, side_b: bool)
    requires
        0 <= upto <= n <= 31,
    ensures
        group(roster, complement(mask, n), side_b, upto) == group(roster, mask, !side_b, upto),
    decreases upto,
{
    if upto > 0 {
        lemma_swap_groups(roster, mask, n, upto - 1, side_b);
        lemma_complement_flips(mask, n, upto - 1);
    }
}

/// A mask that is looked at puts the last player in group A.
pub proof fn lemma_last_in_a(mask: u32, n: int)
    requires
        1 <= n <= MAX_ROSTER,
        mask < mask_count(n),
    ensures
        !in_b(mask, n - 1),
{
    let k = (n - 1) as u32;
    assert((mask >> k) & 1u32 != 1u32) by (bit_vector)
        requires
            k < 20,
            mask < (1u32 << k),
    ;
}

/// The complement of a mask that is looked at is not looked at: of a split and the split
/// with its groups exchanged only one is ever a candidate.
pub proof fn lemma_complement_not_candidate(mask: u32, n: int)
    requires
        1 <= n <= MAX_ROSTER,
        mask < mask_count(n),
    ensures
        complement(mask, n) >= mask_count(n),
        !candidate(complement(mask, n), n),
{
    let k = (n - 1) as u32;
    assert((mask ^ (((1u32 << ((k + 1) as u32)) - 1) as u32)) >= (1u32 << k)) by (bit_vector)
        requires
            k < 20,
            mask < (1u32 << k),
    ;
}

/// The order of the suggestions is a strict total order of the masks.
pub proof fn lemma_before_total(roster: Seq<Rated>, scoring: Scoring, a: u32, b: u32, c: u32)
    ensures
        !before(roster, scoring, a, a),
        a != b ==> before(roster, scoring, a, b) || before(roster, scoring, b, a),
        before(roster, scoring, a, b) && before(roster, scoring, b, c) ==> before(
            roster,
            scoring,
            a,
            c,
        ),
{
}

} // verus!
