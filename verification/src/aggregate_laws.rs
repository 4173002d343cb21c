//! What holds of merging snapshots and of folding matches into them.

use crate::aggregate::{
    compute_totals, game_totals, merge_maps, merge_players, Totals, UserTotals,
};
use crate::input_types::{GameStats, SteamId};
use vstd::prelude::*;

verus! {

/// Merging with the numbers of no match changes nothing.
pub proof fn lemma_plus_zero(a: Totals)
    ensures
        a.plus(Totals::zero()) == a,
        Totals::zero().plus(a) == a,
{
}

/// The order of the two snapshots of a merge does not matter.
pub proof fn lemma_plus_commutative(a: Totals, b: Totals)
    ensures
        a.plus(b) == b.plus(a),
{
}

/// Merging is associative.
pub proof fn lemma_plus_associative(a: Totals, b: Totals, c: Totals)
    ensures
        a.plus(b).plus(c) == a.plus(b.plus(c)),
{
}

/// The numbers of one match alone are those the match adds.
pub proof fn lemma_compute_single(game: GameStats)
    ensures
        compute_totals(seq![game]) == game_totals(game),
{
    let s = seq![game];
    assert(compute_totals(s.drop_last()) == Totals::zero());
}

/// Folding two sequences of matches one after the other gives the merge of what each
/// gives alone: a snapshot can be computed in parts and the parts merged.
pub proof fn lemma_compute_concat(a: Seq<GameStats>, b: Seq<GameStats>)
    ensures
        compute_totals(a + b) == compute_totals(a).plus(compute_totals(b)),
    decreases b.len(),
{
    if b.len() > 0 {
        assert((a + b).drop_last() =~= a + b.drop_last());
        lemma_compute_concat(a, b.drop_last());
        lemma_plus_associative(
            compute_totals(a),
            compute_totals(b.drop_last()),
            game_totals(b.last()),
        );
    }
}

/// Which of two parts is folded first does not matter.
pub proof fn lemma_compute_swap(a: Seq<GameStats>, b: Seq<GameStats>)
    ensures
        compute_totals(a + b) == compute_totals(b + a),
{
    lemma_compute_concat(a, b);
    lemma_compute_concat(b, a);
}

/// The numbers of a sequence of matches are those of the sequence without one of its
/// matches, merged with those of that match.
pub proof fn lemma_compute_remove(games: Seq<GameStats>, i: int)
    requires
        0 <= i < games.len(),
    ensures
        compute_totals(games) == compute_totals(games.remove(i)).plus(game_totals(games[i])),
{
    let before = games.take(i);
    let after = games.skip(i + 1);
    let one = seq![games[i]];
    assert(games =~= before + one + after);
    lemma_compute_concat(before + one, after);
    lemma_compute_concat(before, one);
    lemma_compute_single(games[i]);
    lemma_compute_concat(before, after);
    let cb = compute_totals(before);
    let ca = compute_totals(after);
    let g = game_totals(games[i]);
    lemma_plus_associative(cb, g, ca);
    lemma_plus_commutative(g, ca);
    lemma_plus_associative(cb, ca, g);
}

/// The order of the matches does not matter: two sequences that hold the same matches
/// equally often give the same numbers.
pub proof fn lemma_compute_permutation(a: Seq<GameStats>, b: Seq<GameStats>)
    requires
        a.to_multiset() == b.to_multiset(),
    ensures
        compute_totals(a) == compute_totals(b),
    decreases a.len(),
{
    a.to_multiset_ensures();
    b.to_multiset_ensures();
    if a.len() > 0 {
        let last = a.last();
        vstd::seq_lib::to_multiset_contains(a, last);
        vstd::seq_lib::to_multiset_contains(b, last);
        let j = choose|j: int| 0 <= j < b.len() && b[j] == last;
        vstd::seq_lib::to_multiset_remove(a, a.len() - 1);
        vstd::seq_lib::to_multiset_remove(b, j);
        lemma_compute_permutation(a.drop_last(), b.remove(j));
        lemma_compute_remove(b, j);
    }
}

/// However a set of matches is divided into two parts, the numbers of the whole are the
/// merge of the numbers of the parts.
pub proof fn lemma_compute_partition(all: Seq<GameStats>, a: Seq<GameStats>, b: Seq<GameStats>)
    requires
        all.to_multiset() == a.to_multiset().add(b.to_multiset()),
    ensures
        compute_totals(all) == compute_totals(a).plus(compute_totals(b)),
{
    vstd::seq_lib::lemma_multiset_commutative(a, b);
    lemma_compute_permutation(all, a + b);
    lemma_compute_concat(a, b);
}

/// A match that arrives later can be merged into the running snapshot: the result is
/// that of folding all the matches anew.
pub proof fn lemma_compute_push(games: Seq<GameStats>, game: GameStats)
    ensures
        compute_totals(games.push(game)) == compute_totals(games).plus(game_totals(game)),
{
    assert(games.push(game).drop_last() =~= games);
}

/// In the numbers of any sequence of matches, every player's total of every counter is
/// what the player's two sides have together.
pub proof fn lemma_compute_consistent(games: Seq<GameStats>)
    requires
        forall|i: int| 0 <= i < games.len() ==> (#[trigger] games[i]).wf(),
    ensures
        compute_totals(games).consistent(),
    decreases games.len(),
{
    if games.len() > 0 {
        lemma_compute_consistent(games.drop_last());
    }
}

/// What consistency says of one player's kills, assists, deaths, score, hits and
/// misses, written out.
pub proof fn lemma_consistent_counters(totals: Totals, id: SteamId)
    requires
        totals.consistent(),
        totals.players.dom().contains(id),
    ensures
        ({
            let user: UserTotals = totals.players[id];
            &&& user.kills.total == user.kills.marines + user.kills.aliens
            &&& user.assists.total == user.assists.marines + user.assists.aliens
            &&& user.deaths.total == user.deaths.marines + user.deaths.aliens
            &&& user.score.total == user.score.marines + user.score.aliens
            &&& user.hits.total == user.hits.marines + user.hits.aliens
            &&& user.misses.total == user.misses.marines + user.misses.aliens
        }),
{
}

} // verus!
