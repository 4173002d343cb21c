//! Balanced team suggestions: the splits of a roster into two groups of nearly equal size
//! that divide the players' scores most evenly.
//!
//! A split is a bit mask over the roster: the player at position `i` is in group A where
//! bit `i` is 0 and in group B where it is 1. The last player is always in group A, so no
//! split is looked at twice with its groups exchanged.

use crate::error::Error;
use crate::input_types::SteamId;
use crate::stat::Stat;
use crate::teams_laws::lemma_complement_not_candidate;
use vstd::prelude::*;

verus! {

/// The largest roster that is searched: every split of it is looked at.
pub const MAX_ROSTER: usize = 20;

/// How a player's score is read.
#[derive(Clone, Copy, Debug, PartialEq, Eq, Structural)]
pub enum Scoring {
    /// A player is worth the same in either group: the total score.
    Symmetric,
    /// A player is worth the marine score in group A and the alien score in group B.
    SideAware,
}

/// A player of a roster with the player's score.
pub type Rated = (SteamId, Stat<i64>);

/// One split of a roster into two groups.
#[derive(Clone, Debug, PartialEq, Eq)]
pub struct TeamAssignment {
    /// The split as a bit mask over the roster.
    pub mask: u32,
    /// The players of group A, in the order of the roster.
    pub group_a: Vec<SteamId>,
    /// The players of group B, in the order of the roster.
    pub group_b: Vec<SteamId>,
    /// How unevenly the split divides the scores.
    pub imbalance: u128,
}

/// Whether `mask` puts the player at position `i` in group B.
pub open spec fn in_b(mask: u32, i: int) -> bool {
    (mask >> (i as u32)) & 1u32 == 1u32
}

/// What a player is worth in group A.
pub open spec fn worth_a(score: Stat<i64>, scoring: Scoring) -> int {
    match scoring {
        Scoring::Symmetric => score.total as int,
        Scoring::SideAware => score.marines as int,
    }
}

/// What a player is worth in group B.
pub open spec fn worth_b(score: Stat<i64>, scoring: Scoring) -> int {
    match scoring {
        Scoring::Symmetric => score.total as int,
        Scoring::SideAware => score.aliens as int,
    }
}

/// What the player at position `i` adds to the signed sum of a split: the worth in group
/// A, or the worth in group B with the opposite sign.
pub open spec fn share(roster: Seq<Rated>, scoring: Scoring, mask: u32, i: int) -> int {
    if in_b(mask, i) {
        -worth_b(roster[i].1, scoring)
    } else {
        worth_a(roster[i].1, scoring)
    }
}

/// The signed sum of a split over the first `n` players: what group A is worth less what
/// group B is worth.
pub open spec fn signed_sum(roster: Seq<Rated>, scoring: Scoring, mask: u32, n: int) -> int
    decreases n,
{
    if n <= 0 {
        0
    } else {
        signed_sum(roster, scoring, mask, n - 1) + share(roster, scoring, mask, n - 1)
    }
}

/// How unevenly a split divides the scores: the absolute value of its signed sum.
pub open spec fn imbalance(roster: Seq<Rated>, scoring: Scoring, mask: u32) -> int {
    let sum = signed_sum(roster, scoring, mask, roster.len() as int);
    if sum < 0 {
        -sum
    } else {
        sum
    }
}

/// The number of the first `n` players that `mask` puts in group B.
pub open spec fn ones(mask: u32, n: int) -> int
    decreases n,
{
    if n <= 0 {
        0
    } else {
        ones(mask, n - 1) + if in_b(mask, n - 1) { 1int } else { 0int }
    }
}

/// The players among the first `n` that `mask` puts in group B (`side_b`) or in group A,
/// in the order of the roster.
pub open spec fn group(roster: Seq<Rated>, mask: u32, side_b: bool, n: int) -> Seq<SteamId>
    decreases n,
{
    if n <= 0 {
        Seq::empty()
    } else {
        let before = group(roster, mask, side_b, n - 1);
        if in_b(mask, n - 1) == side_b {
            before.push(roster[n - 1].0)
        } else {
            before
        }
    }
}

/// The sizes of the two groups of a split of `n` players differ by one at most.
pub open spec fn even_sizes(mask: u32, n: int) -> bool {
    -1 <= n - 2 * ones(mask, n) <= 1
}

/// The number of masks that are looked at for a roster of `n` players: two to the power
/// of `n - 1`, and one for the empty roster.
pub open spec fn mask_count(n: int) -> int {
    if n <= 0 {
        1
    } else {
        (1u32 << ((n - 1) as u32)) as int
    }
}

/// A mask that is looked at, whose groups differ in size by one at most.
pub open spec fn candidate(mask: u32, n: int) -> bool {
    mask < mask_count(n) && even_sizes(mask, n)
}

/// The order of the suggestions: the more even split first, and of two that are equally
/// even the one with the smaller mask.
pub open spec fn before(roster: Seq<Rated>, scoring: Scoring, m1: u32, m2: u32) -> bool {
    imbalance(roster, scoring, m1) < imbalance(roster, scoring, m2) || (imbalance(
        roster,
        scoring,
        m1,
    ) == imbalance(roster, scoring, m2) && m1 < m2)
}

/// `masks` are the first `limit` candidates in the order of the suggestions, or all of
/// them where there are fewer.
pub open spec fn is_top(roster: Seq<Rated>, scoring: Scoring, limit: int, masks: Seq<u32>) -> bool {
    &&& masks.len() <= limit
    &&& forall|i: int| 0 <= i < masks.len() ==> candidate(#[trigger] masks[i], roster.len() as int)
    &&& forall|i: int, j: int|
        0 <= i < j < masks.len() ==> before(roster, scoring, #[trigger] masks[i], #[trigger] masks[j])
    &&& forall|m: u32| #[trigger]
        candidate(m, roster.len() as int) ==> masks.contains(m) || (masks.len() == limit
            && forall|i: int|
            0 <= i < masks.len() ==> before(roster, scoring, #[trigger] masks[i], m))
}

/// Whether `mask` puts the player at position `i` in group B.
pub fn is_in_b(mask: u32, i: usize) -> (r: bool)
    requires
        i < 32,
    ensures
        r == in_b(mask, i as int),
{
    (mask >> (i as u32)) & 1u32 == 1u32
}

/// What a player is worth in group A.
pub fn worth_in_a(score: &Stat<i64>, scoring: Scoring) -> (r: i64)
    ensures
        r == worth_a(*score, scoring),
{
    match scoring {
        Scoring::Symmetric => score.total,
        Scoring::SideAware => score.marines,
    }
}

/// What a player is worth in group B.
pub fn worth_in_b(score: &Stat<i64>, scoring: Scoring) -> (r: i64)
    ensures
        r == worth_b(*score, scoring),
{
    match scoring {
        Scoring::Symmetric => score.total,
        Scoring::SideAware => score.aliens,
    }
}

/// The signed sum of a split: what group A is worth less what group B is worth.
pub fn signed_sum_of(roster: &Vec<Rated>, scoring: Scoring, mask: u32) -> (sum: i128)
    requires
        roster.len() <= 32,
    ensures
        sum == signed_sum(roster@, scoring, mask, roster.len() as int),
{
    let mut sum: i128 = 0;
    let mut i: usize = 0;
    while i < roster.len()
        invariant
            i <= roster.len() <= 32,
            sum == signed_sum(roster@, scoring, mask, i as int),
            -(i * 0x8000_0000_0000_0000) <= sum <= i * 0x8000_0000_0000_0000,
        decreases roster.len() - i,
    {
        if is_in_b(mask, i) {
            sum = sum - worth_in_b(&roster[i].1, scoring) as i128;
        } else {
            sum = sum + worth_in_a(&roster[i].1, scoring) as i128;
        }
        i += 1;
    }
    sum
}

/// How unevenly a split divides the scores.
pub fn imbalance_of(roster: &Vec<Rated>, scoring: Scoring, mask: u32) -> (r: u128)
    requires
        roster.len() <= 32,
    ensures
        r == imbalance(roster@, scoring, mask),
{
    let sum = signed_sum_of(roster, scoring, mask);
    proof {
        lemma_signed_sum_bound(roster@, scoring, mask, roster.len() as int);
    }
    if sum < 0 {
        (-sum) as u128
    } else {
        sum as u128
    }
}

/// A signed sum over `n` players is no larger than `n` scores can make it.
pub proof fn lemma_signed_sum_bound(roster: Seq<Rated>, scoring: Scoring, mask: u32, n: int)
    requires
        0 <= n <= roster.len(),
    ensures
        -(n * 0x8000_0000_0000_0000) <= signed_sum(roster, scoring, mask, n) <= n
            * 0x8000_0000_0000_0000,
    decreases n,
{
    if n > 0 {
        lemma_signed_sum_bound(roster, scoring, mask, n - 1);
    }
}

/// Whether the sizes of the two groups of a split of `n` players differ by one at most.
pub fn has_even_sizes(mask: u32, n: usize) -> (r: bool)
    requires
        n <= 32,
    ensures
        r == even_sizes(mask, n as int),
{
    let mut count: usize = 0;
    let mut i: usize = 0;
    while i < n
        invariant
            i <= n <= 32,
            count <= i,
            count == ones(mask, i as int),
        decreases n - i,
    {
        if is_in_b(mask, i) {
            count += 1;
        }
        i += 1;
    }
    if n >= 2 * count {
        n - 2 * count <= 1
    } else {
        2 * count - n <= 1
    }
}

/// Whether the list of splits holds `mask`.
pub open spec fn holds(best: Seq<(u128, u32)>, mask: u32) -> bool {
    exists|i: int| 0 <= i < best.len() && (#[trigger] best[i]).1 == mask
}

/// `mask` is in the list, or the list is full and `mask` comes after all of it.
pub open spec fn covers(
    roster: Seq<Rated>,
    scoring: Scoring,
    limit: int,
    best: Seq<(u128, u32)>,
    mask: u32,
) -> bool {
    holds(best, mask) || (best.len() == limit && forall|i: int|
        0 <= i < best.len() ==> before(roster, scoring, (#[trigger] best[i]).1, mask))
}

/// The list holds splits with their imbalance, in the order of the suggestions, and no
/// more than `limit` of them.
pub open spec fn ranked(roster: Seq<Rated>, scoring: Scoring, limit: int, best: Seq<(u128, u32)>) -> bool {
    &&& best.len() <= limit
    &&& forall|i: int|
        0 <= i < best.len() ==> (#[trigger] best[i]).0 == imbalance(roster, scoring, best[i].1)
    &&& forall|i: int, j: int|
        0 <= i < j < best.len() ==> before(
            roster,
            scoring,
            (#[trigger] best[i]).1,
            (#[trigger] best[j]).1,
        )
}

/// Puts a split into the list at its place in the order of the suggestions; where the
/// list is full, the last split leaves it.
fn insert_ranked(
    best: &mut Vec<(u128, u32)>,
    limit: usize,
    imbalance_of_mask: u128,
    mask: u32,
    Ghost(roster): Ghost<Seq<Rated>>,
    Ghost(scoring): Ghost<Scoring>,
)
    requires
        ranked(roster, scoring, limit as int, old(best)@),
        imbalance_of_mask == imbalance(roster, scoring, mask),
        !holds(old(best)@, mask),
    ensures
        ranked(roster, scoring, limit as int, final(best)@),
        forall|m: u32| holds(final(best)@, m) ==> holds(old(best)@, m) || m == mask,
        covers(roster, scoring, limit as int, final(best)@, mask),
        forall|m: u32|
            covers(roster, scoring, limit as int, old(best)@, m) ==> covers(
                roster,
                scoring,
                limit as int,
                final(best)@,
                m,
            ),
{
    let ghost start = best@;
    let mut p: usize = 0;
    while p < best.len() && !(imbalance_of_mask < best[p].0 || (imbalance_of_mask == best[p].0
        && mask < best[p].1))
        invariant
            p <= best.len(),
            best@ == start,
            ranked(roster, scoring, limit as int, start),
            imbalance_of_mask == imbalance(roster, scoring, mask),
            !holds(start, mask),
            forall|i: int| 0 <= i < p ==> before(roster, scoring, (#[trigger] start[i]).1, mask),
        decreases best.len() - p,
    {
        p += 1;
    }
    if p == best.len() {
        if best.len() < limit {
            best.push((imbalance_of_mask, mask));
            proof {
                let end = best@;
                assert(end[end.len() - 1].1 == mask);
                assert forall|m: u32| holds(start, m) implies holds(end, m) by {
                    let i = choose|i: int| 0 <= i < start.len() && (#[trigger] start[i]).1 == m;
                    assert(end[i].1 == m);
                }
            }
        }
    } else {
        best.insert(p, (imbalance_of_mask, mask));
        let ghost grown = best@;
        proof {
            assert forall|m: u32| holds(start, m) implies holds(grown, m) by {
                let i = choose|i: int| 0 <= i < start.len() && (#[trigger] start[i]).1 == m;
                if i < p {
                    assert(grown[i].1 == m);
                } else {
                    assert(grown[i + 1].1 == m);
                }
            }
        }
        if best.len() > limit {
            best.pop();
            proof {
                let end = best@;
                assert forall|m: u32| holds(grown, m) implies covers(
                    roster,
                    scoring,
                    limit as int,
                    end,
                    m,
                ) by {
                    let i = choose|i: int| 0 <= i < grown.len() && (#[trigger] grown[i]).1 == m;
                    if i < end.len() {
                        assert(end[i].1 == m);
                    }
                }
                assert(grown[p as int].1 == mask);
                assert(holds(grown, mask));
            }
        } else {
            proof {
                assert(grown[p as int].1 == mask);
            }
        }
    }
}

/// The mask with the lowest `n` bits set.
pub open spec fn low_bits(n: int) -> u32 {
    ((1u32 << (n as u32)) - 1) as u32
}

/// The mask that puts each of `n` players in the other group than `mask` does.
pub open spec fn complement(mask: u32, n: int) -> u32 {
    mask ^ low_bits(n)
}

/// The masks of a list of splits.
pub open spec fn assignment_masks(list: Seq<TeamAssignment>) -> Seq<u32> {
    list.map_values(|a: TeamAssignment| a.mask)
}

/// The groups and the imbalance of `a` are those of its mask.
pub open spec fn shows(roster: Seq<Rated>, scoring: Scoring, a: TeamAssignment) -> bool {
    &&& a.group_a@ == group(roster, a.mask, false, roster.len() as int)
    &&& a.group_b@ == group(roster, a.mask, true, roster.len() as int)
    &&& a.imbalance == imbalance(roster, scoring, a.mask)
}

/// Group B has as many players as the mask has bits set, and group A has the others.
pub proof fn lemma_group_sizes(roster: Seq<Rated>, mask: u32, n: int)
    requires
        0 <= n,
    ensures
        group(roster, mask, true, n).len() == ones(mask, n),
        group(roster, mask, false, n).len() == n - ones(mask, n),
    decreases n,
{
    if n > 0 {
        lemma_group_sizes(roster, mask, n - 1);
    }
}

/// Writes out the two groups of a split.
pub fn assignment_of(roster: &Vec<Rated>, scoring: Scoring, mask: u32) -> (a: TeamAssignment)
    requires
        roster.len() <= 32,
    ensures
        a.mask == mask,
        shows(roster@, scoring, a),
{
    let mut group_a: Vec<SteamId> = Vec::new();
    let mut group_b: Vec<SteamId> = Vec::new();
    let mut i: usize = 0;
    while i < roster.len()
        invariant
            i <= roster.len() <= 32,
            group_a@ == group(roster@, mask, false, i as int),
            group_b@ == group(roster@, mask, true, i as int),
        decreases roster.len() - i,
    {
        if is_in_b(mask, i) {
            group_b.push(roster[i].0);
        } else {
            group_a.push(roster[i].0);
        }
        i += 1;
    }
    TeamAssignment { mask, group_a, group_b, imbalance: imbalance_of(roster, scoring, mask) }
}

/// The number of masks that are looked at for a roster of `n` players.
pub fn count_masks(n: usize) -> (count: u32)
    requires
        n <= MAX_ROSTER,
    ensures
        count == mask_count(n as int),
        count >= 1,
{
    if n == 0 {
        1
    } else {
        let k: u32 = (n - 1) as u32;
        assert((1u32 << k) >= 1) by (bit_vector)
            requires
                k < 20,
        ;
        1u32 << k
    }
}

/// Suggests balanced teams: the splits of the roster into two groups whose sizes differ
/// by one at most, the most even split first and of equally even ones the one with the
/// smaller mask, `max_suggestions` of them at most. A roster of more than `MAX_ROSTER`
/// players is refused with `InputTooLarge` before any split is looked at.
pub fn balanced_partitioning(roster: &Vec<Rated>, scoring: Scoring, max_suggestions: usize) -> (r:
    Result<Vec<TeamAssignment>, Error>)
    ensures
        r is Err <==> roster.len() > MAX_ROSTER,
        r matches Err(e) ==> e == Error::InputTooLarge,
        r matches Ok(list) ==> {
            &&& is_top(roster@, scoring, max_suggestions as int, assignment_masks(list@))
            &&& forall|i: int| 0 <= i < list.len() ==> shows(roster@, scoring, #[trigger] list[i])
            &&& forall|i: int|
                0 <= i < list.len() ==> -1 <= (#[trigger] list[i]).group_a.len()
                    - list[i].group_b.len() <= 1
            &&& forall|i: int, j: int|
                0 <= i < list.len() && 0 <= j < list.len() && i != j ==> (
                #[trigger] list[i]).mask != complement(
                    (#[trigger] list[j]).mask,
                    roster.len() as int,
                )
        },
{
    let n = roster.len();
    if n > MAX_ROSTER {
        return Err(Error::InputTooLarge);
    }
    let count = count_masks(n);
    let mut best: Vec<(u128, u32)> = Vec::new();
    let mut mask: u32 = 0;
    while mask < count
        invariant
            mask <= count,
            n == roster.len(),
            n <= MAX_ROSTER,
            count == mask_count(n as int),
            ranked(roster@, scoring, max_suggestions as int, best@),
            forall|i: int|
                0 <= i < best.len() ==> candidate((#[trigger] best[i]).1, n as int) && best[i].1
                    < mask,
            forall|m: u32| #[trigger]
                candidate(m, n as int) && m < mask ==> covers(
                    roster@,
                    scoring,
                    max_suggestions as int,
                    best@,
                    m,
                ),
        decreases count - mask,
    {
        if has_even_sizes(mask, n) {
            let ghost start = best@;
            let weight = imbalance_of(roster, scoring, mask);
            insert_ranked(&mut best, max_suggestions, weight, mask, Ghost(roster@), Ghost(scoring));
            proof {
                assert forall|i: int| 0 <= i < best.len() implies candidate(
                    (#[trigger] best[i]).1,
                    n as int,
                ) && best[i].1 < mask + 1 by {
                    let m = best[i].1;
                    assert(holds(best@, m));
                    if m != mask {
                        let k = choose|k: int| 0 <= k < start.len() && (#[trigger] start[k]).1 == m;
                    }
                }
            }
        }
        mask += 1;
    }
    let mut list: Vec<TeamAssignment> = Vec::new();
    let mut i: usize = 0;
    while i < best.len()
        invariant
            i <= best.len(),
            n == roster.len(),
            n <= MAX_ROSTER,
            list.len() == i,
            forall|k: int|
                0 <= k < i ==> (#[trigger] list[k]).mask == best[k].1 && shows(
                    roster@,
                    scoring,
                    list[k],
                ),
        decreases best.len() - i,
    {
        list.push(assignment_of(roster, scoring, best[i].1));
        i += 1;
    }
    proof {
        let masks = assignment_masks(list@);
        assert(masks.len() == best.len());
        assert forall|k: int| 0 <= k < masks.len() implies #[trigger] masks[k] == best[k].1 by {}
        assert forall|m: u32| #[trigger] candidate(m, n as int) implies masks.contains(m) || (
        masks.len() == max_suggestions && forall|k: int|
            0 <= k < masks.len() ==> before(roster@, scoring, #[trigger] masks[k], m)) by {
            assert(covers(roster@, scoring, max_suggestions as int, best@, m));
            if holds(best@, m) {
                let k = choose|k: int| 0 <= k < best.len() && (#[trigger] best[k]).1 == m;
                assert(masks[k] == m);
            } else {
                assert forall|k: int| 0 <= k < masks.len() implies before(
                    roster@,
                    scoring,
                    #[trigger] masks[k],
                    m,
                ) by {
                    assert(before(roster@, scoring, best[k].1, m));
                }
            }
        }
        assert forall|k: int| 0 <= k < list.len() implies -1 <= (#[trigger] list[k]).group_a.len()
            - list[k].group_b.len() <= 1 by {
            lemma_group_sizes(roster@, list[k].mask, n as int);
            assert(candidate(best[k].1, n as int));
        }
        assert forall|i: int, j: int|
            0 <= i < list.len() && 0 <= j < list.len() && i != j implies (#[trigger] list[i]).mask
            != complement((#[trigger] list[j]).mask, n as int) by {
            assert(candidate(best[i].1, n as int));
            assert(candidate(best[j].1, n as int));
            if n >= 1 {
                lemma_complement_not_candidate(list[j].mask, n as int);
            } else if i < j {
                assert(before(roster@, scoring, best[i].1, best[j].1));
            } else {
                assert(before(roster@, scoring, best[j].1, best[i].1));
            }
        }
    }
    Ok(list)
}

} // verus!
