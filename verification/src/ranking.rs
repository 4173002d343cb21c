//! The pairwise scores from which players are ranked: who killed whom how often, among
//! the players that were seen often enough.

use crate::filter::{genuine_game, is_genuine};
use crate::input_types::{GameStats, KillFeed, PlayerClass, SteamId};
use crate::stat::Ratio;
use vstd::prelude::*;

verus! {

/// A kill: the killer and the victim.
pub type Kill = (SteamId, SteamId);

/// A kill of the feed counts where its killer is known and was no commander.
pub open spec fn counts(entry: KillFeed) -> bool {
    entry.killer_steam_id is Some && entry.killer_class != Some(PlayerClass::Commander)
}

/// The kills of a feed that count, in their order.
pub open spec fn feed_kills(feed: Seq<KillFeed>) -> Seq<Kill>
    decreases feed.len(),
{
    if feed.len() == 0 {
        Seq::empty()
    } else {
        let before = feed_kills(feed.drop_last());
        let entry = feed.last();
        if counts(entry) {
            before.push((entry.killer_steam_id->0, entry.victim_steam_id))
        } else {
            before
        }
    }
}

/// Whether a match is looked at: every match, or the genuine ones only.
pub open spec fn selected(game: GameStats, genuine_only: bool) -> bool {
    !genuine_only || genuine_game(game)
}

/// The kills that count of the matches that are looked at, in their order.
pub open spec fn kill_pairs(games: Seq<GameStats>, genuine_only: bool) -> Seq<Kill>
    decreases games.len(),
{
    if games.len() == 0 {
        Seq::empty()
    } else {
        let before = kill_pairs(games.drop_last(), genuine_only);
        if selected(games.last(), genuine_only) {
            before + feed_kills(games.last().kill_feed@)
        } else {
            before
        }
    }
}

/// How often `killer` killed `victim`.
pub open spec fn kills(pairs: Seq<Kill>, killer: SteamId, victim: SteamId) -> nat
    decreases pairs.len(),
{
    if pairs.len() == 0 {
        0
    } else {
        kills(pairs.drop_last(), killer, victim) + if pairs.last() == (killer, victim) {
            1nat
        } else {
            0nat
        }
    }
}

/// How often `victim` was killed.
pub open spec fn deaths(pairs: Seq<Kill>, victim: SteamId) -> nat
    decreases pairs.len(),
{
    if pairs.len() == 0 {
        0
    } else {
        deaths(pairs.drop_last(), victim) + if pairs.last().1 == victim {
            1nat
        } else {
            0nat
        }
    }
}

/// Whether `player` killed or was killed.
pub open spec fn takes_part(pairs: Seq<Kill>, player: SteamId) -> bool {
    exists|i: int|
        0 <= i < pairs.len() && ((#[trigger] pairs[i]).0 == player || pairs[i].1 == player)
}

/// A player is kept for the ranking who took part and was killed `min_encounters` times
/// at least.
pub open spec fn retained(pairs: Seq<Kill>, min_encounters: u32, player: SteamId) -> bool {
    takes_part(pairs, player) && deaths(pairs, player) >= min_encounters
}

/// The identifiers stand in strictly ascending order.
pub open spec fn ascending(ids: Seq<SteamId>) -> bool {
    forall|i: int, j: int| 0 <= i < j < ids.len() ==> ids[i] < ids[j]
}

/// Nobody killed anybody more often than there are kills.
pub proof fn lemma_kills_bound(pairs: Seq<Kill>, killer: SteamId, victim: SteamId)
    ensures
        kills(pairs, killer, victim) <= pairs.len(),
    decreases pairs.len(),
{
    if pairs.len() > 0 {
        lemma_kills_bound(pairs.drop_last(), killer, victim);
    }
}

/// Whether a kill of the feed counts.
pub fn is_counted(entry: &KillFeed) -> (r: bool)
    ensures
        r == counts(*entry),
{
    match entry.killer_steam_id {
        Some(_) => match entry.killer_class {
            Some(PlayerClass::Commander) => false,
            _ => true,
        },
        None => false,
    }
}

/// Collects the kills that count from the matches: from every match, or from the genuine
/// ones only.
pub fn counted_kills(games: &Vec<GameStats>, genuine_only: bool) -> (pairs: Vec<Kill>)
    ensures
        pairs@ == kill_pairs(games@, genuine_only),
{
    let mut pairs: Vec<Kill> = Vec::new();
    let mut g: usize = 0;
    while g < games.len()
        invariant
            g <= games.len(),
            pairs@ == kill_pairs(games@.take(g as int), genuine_only),
        decreases games.len() - g,
    {
        let game = &games[g];
        let ghost done = pairs@;
        proof {
            assert(games@.take(g + 1).drop_last() =~= games@.take(g as int));
        }
        if !genuine_only || is_genuine(game) {
            let feed = &game.kill_feed;
            let mut e: usize = 0;
            while e < feed.len()
                invariant
                    e <= feed.len(),
                    pairs@ == done + feed_kills(feed@.take(e as int)),
                decreases feed.len() - e,
            {
                proof {
                    assert(feed@.take(e + 1).drop_last() =~= feed@.take(e as int));
                }
                if is_counted(&feed[e]) {
                    let killer = match feed[e].killer_steam_id {
                        Some(id) => id,
                        None => 0,
                    };
                    pairs.push((killer, feed[e].victim_steam_id));
                }
                e += 1;
            }
            proof {
                assert(feed@.take(e as int) =~= feed@);
            }
        }
        g += 1;
    }
    proof {
        assert(games@.take(g as int) =~= games@);
    }
    pairs
}

/// Puts `id` into a list of identifiers in ascending order, unless it is there.
fn insert_id(ids: &mut Vec<SteamId>, id: SteamId)
    requires
        ascending(old(ids)@),
    ensures
        ascending(final(ids)@),
        forall|x: SteamId| final(ids)@.contains(x) <==> old(ids)@.contains(x) || x == id,
{
    let ghost start = ids@;
    let mut p: usize = 0;
    while p < ids.len() && ids[p] < id
        invariant
            p <= ids.len(),
            ids@ == start,
            ascending(start),
            forall|i: int| 0 <= i < p ==> start[i] < id,
        decreases ids.len() - p,
    {
        p += 1;
    }
    if p < ids.len() && ids[p] == id {
        return;
    }
    ids.insert(p, id);
    proof {
        let end = ids@;
        assert(end[p as int] == id);
        assert forall|x: SteamId| end.contains(x) <==> start.contains(x) || x == id by {
            if start.contains(x) {
                let i = choose|i: int| 0 <= i < start.len() && start[i] == x;
                if i < p {
                    assert(end[i] == x);
                } else {
                    assert(end[i + 1] == x);
                }
            }
        }
    }
}

/// The players that killed or were killed, each once, in ascending order.
pub fn participants(pairs: &Vec<Kill>) -> (ids: Vec<SteamId>)
    ensures
        ascending(ids@),
        forall|p: SteamId| ids@.contains(p) <==> takes_part(pairs@, p),
{
    let mut ids: Vec<SteamId> = Vec::new();
    let mut e: usize = 0;
    while e < pairs.len()
        invariant
            e <= pairs.len(),
            ascending(ids@),
            forall|p: SteamId| ids@.contains(p) <==> takes_part(pairs@.take(e as int), p),
        decreases pairs.len() - e,
    {
        let ghost seen = pairs@.take(e as int);
        let ghost next = pairs@.take(e + 1);
        insert_id(&mut ids, pairs[e].0);
        insert_id(&mut ids, pairs[e].1);
        proof {
            assert forall|p: SteamId| ids@.contains(p) <==> takes_part(next, p) by {
                if takes_part(next, p) {
                    let i = choose|i: int|
                        0 <= i < next.len() && ((#[trigger] next[i]).0 == p || next[i].1 == p);
                    if i < e {
                        assert(seen[i] == next[i]);
                    }
                }
                if takes_part(seen, p) {
                    let i = choose|i: int|
                        0 <= i < seen.len() && ((#[trigger] seen[i]).0 == p || seen[i].1 == p);
                    assert(next[i] == seen[i]);
                }
                if p == pairs[e as int].0 || p == pairs[e as int].1 {
                    assert(next[e as int] == pairs[e as int]);
                }
            }
        }
        e += 1;
    }
    proof {
        assert(pairs@.take(e as int) =~= pairs@);
    }
    ids
}

/// Counts how often `victim` was killed.
pub fn count_deaths(pairs: &Vec<Kill>, victim: SteamId) -> (n: usize)
    ensures
        n == deaths(pairs@, victim),
{
    let mut n: usize = 0;
    let mut e: usize = 0;
    while e < pairs.len()
        invariant
            e <= pairs.len(),
            n <= e,
            n == deaths(pairs@.take(e as int), victim),
        decreases pairs.len() - e,
    {
        proof {
            assert(pairs@.take(e + 1).drop_last() =~= pairs@.take(e as int));
        }
        if pairs[e].1 == victim {
            n += 1;
        }
        e += 1;
    }
    proof {
        assert(pairs@.take(e as int) =~= pairs@);
    }
    n
}

/// The players that are kept for the ranking, in ascending order: those that took part
/// and were killed `min_encounters` times at least.
pub fn retained_players(pairs: &Vec<Kill>, min_encounters: u32) -> (kept: Vec<SteamId>)
    ensures
        ascending(kept@),
        forall|p: SteamId| kept@.contains(p) <==> retained(pairs@, min_encounters, p),
{
    let all = participants(pairs);
    let mut kept: Vec<SteamId> = Vec::new();
    let mut i: usize = 0;
    while i < all.len()
        invariant
            i <= all.len(),
            ascending(all@),
            ascending(kept@),
            forall|p: SteamId| all@.contains(p) <==> takes_part(pairs@, p),
            forall|k: int| 0 <= k < kept.len() && i < all.len() ==> kept[k] < all[i as int],
            forall|p: SteamId|
                kept@.contains(p) <==> all@.take(i as int).contains(p) && deaths(pairs@, p)
                    >= min_encounters,
        decreases all.len() - i,
    {
        let player = all[i];
        let ghost start = kept@;
        let ghost seen = all@.take(i as int);
        let ghost next = all@.take(i + 1);
        assert(next =~= seen.push(player));
        let often = count_deaths(pairs, player) >= min_encounters as usize;
        if often {
            kept.push(player);
        }
        proof {
            assert forall|p: SteamId|
                kept@.contains(p) <==> next.contains(p) && deaths(pairs@, p)
                    >= min_encounters by {
                if kept@.contains(p) {
                    let k = choose|k: int| 0 <= k < kept@.len() && kept@[k] == p;
                    if k < start.len() {
                        assert(start[k] == p);
                        assert(start.contains(p));
                        let j = choose|j: int| 0 <= j < seen.len() && seen[j] == p;
                        assert(next[j] == p);
                    } else {
                        assert(next[i as int] == p);
                    }
                }
                if next.contains(p) && deaths(pairs@, p) >= min_encounters {
                    let j = choose|j: int| 0 <= j < next.len() && next[j] == p;
                    if j < i {
                        assert(seen[j] == p);
                        assert(start.contains(p));
                        let k = choose|k: int| 0 <= k < start.len() && start[k] == p;
                        assert(kept@[k] == p);
                    } else {
                        assert(kept@[kept@.len() - 1] == p);
                    }
                }
            }
            assert forall|k: int| 0 <= k < kept.len() && i + 1 < all.len() implies kept[k] < all[i
                + 1] by {
                if k < start.len() {
                    assert(start[k] < all[i as int]);
                }
            }
        }
        i += 1;
    }
    proof {
        assert(all@.take(i as int) =~= all@);
    }
    kept
}

/// Two lists in ascending order that hold the same identifiers are the same list.
pub proof fn lemma_ascending_unique(a: Seq<SteamId>, b: Seq<SteamId>)
    requires
        ascending(a),
        ascending(b),
        forall|p: SteamId| a.contains(p) <==> b.contains(p),
    ensures
        a == b,
    decreases a.len(),
{
    if a.len() == 0 {
        if b.len() > 0 {
            assert(b.contains(b[0]));
        }
    } else {
        assert(b.contains(a.last()));
        assert(a.contains(b.last()));
        let a0 = a.drop_last();
        let b0 = b.drop_last();
        assert forall|p: SteamId| a0.contains(p) <==> b0.contains(p) by {
            if a0.contains(p) {
                assert(a.contains(p));
                let j = choose|j: int| 0 <= j < b.len() && b[j] == p;
                assert(b0[j] == p);
            }
            if b0.contains(p) {
                assert(b.contains(p));
                let j = choose|j: int| 0 <= j < a.len() && a[j] == p;
                assert(a0[j] == p);
            }
        }
        lemma_ascending_unique(a0, b0);
        assert(b =~= b0.push(b.last()));
    }
}

/// A player counts as poorly connected who has met this many players fewer than the
/// player who has met the most.
pub const ENCOUNTER_SLACK: usize = 3;

/// The score that stands for no signal between two players.
pub open spec fn no_score() -> Ratio {
    Ratio { num: 0, den: 1 }
}

/// There is a signal between two players of whom one killed the other `a` times and was
/// killed by the other `b` times: both numbers are positive and together they reach
/// `min_pair_encounters`.
pub open spec fn has_signal(a: nat, b: nat, min_pair_encounters: u32) -> bool {
    a > 0 && b > 0 && a + b >= min_pair_encounters
}

/// The pairwise score of `p` against `q`: how often `q` killed `p`, over how often `p`
/// killed `q`, where there is a signal between the two, and no score otherwise. A player
/// has no score against himself.
pub open spec fn score(pairs: Seq<Kill>, min_pair_encounters: u32, p: SteamId, q: SteamId) -> Ratio {
    let a = kills(pairs, p, q);
    let b = kills(pairs, q, p);
    if p != q && has_signal(a, b, min_pair_encounters) {
        Ratio { num: b as u64, den: a as u64 }
    } else {
        no_score()
    }
}

/// The number of the first `upto` of `players` against whom `p` has a score.
pub open spec fn encounters(
    pairs: Seq<Kill>,
    min_pair_encounters: u32,
    players: Seq<SteamId>,
    p: SteamId,
    upto: int,
) -> nat
    decreases upto,
{
    if upto <= 0 {
        0
    } else {
        encounters(pairs, min_pair_encounters, players, p, upto - 1) + if score(
            pairs,
            min_pair_encounters,
            p,
            players[upto - 1],
        ).num > 0 {
            1nat
        } else {
            0nat
        }
    }
}

/// The largest number of players that one of the first `upto` of `players` has a score
/// against.
pub open spec fn most_encounters(
    pairs: Seq<Kill>,
    min_pair_encounters: u32,
    players: Seq<SteamId>,
    upto: int,
) -> nat
    decreases upto,
{
    if upto <= 0 {
        0
    } else {
        let before = most_encounters(pairs, min_pair_encounters, players, upto - 1);
        let here = encounters(
            pairs,
            min_pair_encounters,
            players,
            players[upto - 1],
            players.len() as int,
        );
        if here > before {
            here
        } else {
            before
        }
    }
}

/// A player is well connected who has a score against nearly as many of `players` as
/// the one who has the most: three fewer at most.
pub open spec fn well_connected(
    pairs: Seq<Kill>,
    min_pair_encounters: u32,
    players: Seq<SteamId>,
    p: SteamId,
) -> bool {
    encounters(pairs, min_pair_encounters, players, p, players.len() as int) + ENCOUNTER_SLACK
        >= most_encounters(pairs, min_pair_encounters, players, players.len() as int)
}

/// The well connected of `players`, in their order.
pub open spec fn ranked_players(
    pairs: Seq<Kill>,
    min_pair_encounters: u32,
    players: Seq<SteamId>,
) -> Seq<SteamId> {
    players.filter(|p: SteamId| well_connected(pairs, min_pair_encounters, players, p))
}

/// The players that are kept for the ranking, in ascending order.
pub open spec fn retained_list(pairs: Seq<Kill>, min_encounters: u32) -> Seq<SteamId> {
    choose|kept: Seq<SteamId>|
        ascending(kept) && forall|p: SteamId|
            kept.contains(p) <==> retained(pairs, min_encounters, p)
}

/// `rows` holds, for each two of `players`, how often the one killed the other.
pub open spec fn counts_kills(pairs: Seq<Kill>, players: Seq<SteamId>, rows: Seq<Vec<usize>>) -> bool {
    &&& rows.len() == players.len()
    &&& forall|i: int| 0 <= i < rows.len() ==> (#[trigger] rows[i]).len() == players.len()
    &&& forall|i: int, j: int|
        0 <= i < players.len() && 0 <= j < players.len() ==> (#[trigger] rows[i])[j] == kills(
            pairs,
            players[i],
            #[trigger] players[j],
        )
}

/// The position of `id` in the list.
pub fn find_id(ids: &Vec<SteamId>, id: SteamId) -> (r: Option<usize>)
    ensures
        r matches Some(i) ==> i < ids.len() && ids[i as int] == id,
        r is None ==> !ids@.contains(id),
{
    let mut i: usize = 0;
    while i < ids.len()
        invariant
            i <= ids.len(),
            forall|k: int| 0 <= k < i ==> ids[k] != id,
        decreases ids.len() - i,
    {
        if ids[i] == id {
            return Some(i);
        }
        i += 1;
    }
    None
}

/// Counts how often `killer` killed each of `players`.
pub fn kills_row(pairs: &Vec<Kill>, players: &Vec<SteamId>, killer: SteamId) -> (row: Vec<usize>)
    ensures
        row.len() == players.len(),
        forall|j: int| 0 <= j < players.len() ==> row[j] == kills(pairs@, killer, players[j]),
{
    let mut row: Vec<usize> = Vec::new();
    let mut j: usize = 0;
    while j < players.len()
        invariant
            j <= players.len(),
            row.len() == j,
            forall|k: int| 0 <= k < j ==> row[k] == 0,
        decreases players.len() - j,
    {
        row.push(0);
        j += 1;
    }
    let mut e: usize = 0;
    while e < pairs.len()
        invariant
            e <= pairs.len(),
            row.len() == players.len(),
            forall|k: int|
                0 <= k < players.len() ==> row[k] == kills(
                    pairs@.take(e as int),
                    killer,
                    players[k],
                ),
        decreases pairs.len() - e,
    {
        proof {
            assert(pairs@.take(e + 1).drop_last() =~= pairs@.take(e as int));
        }
        if pairs[e].0 == killer {
            let victim = pairs[e].1;
            let mut j: usize = 0;
            while j < players.len()
                invariant
                    j <= players.len(),
                    e < pairs.len(),
                    row.len() == players.len(),
                    pairs[e as int] == (killer, victim),
                    pairs@.take(e + 1).drop_last() == pairs@.take(e as int),
                    pairs@.take(e + 1).last() == pairs[e as int],
                    forall|k: int|
                        0 <= k < j ==> row[k] == kills(pairs@.take(e + 1), killer, players[k]),
                    forall|k: int|
                        j <= k < players.len() ==> row[k] == kills(
                            pairs@.take(e as int),
                            killer,
                            players[k],
                        ),
                decreases players.len() - j,
            {
                if players[j] == victim {
                    proof {
                        lemma_kills_bound(pairs@.take(e as int), killer, players[j as int]);
                    }
                    let n = row[j];
                    row.set(j, n + 1);
                }
                j += 1;
            }
        }
        e += 1;
    }
    proof {
        assert(pairs@.take(e as int) =~= pairs@);
    }
    row
}

/// Counts, for each two of `players`, how often the one killed the other.
pub fn kill_matrix(pairs: &Vec<Kill>, players: &Vec<SteamId>) -> (rows: Vec<Vec<usize>>)
    ensures
        counts_kills(pairs@, players@, rows@),
{
    let mut rows: Vec<Vec<usize>> = Vec::new();
    let mut i: usize = 0;
    while i < players.len()
        invariant
            i <= players.len(),
            rows.len() == i,
            forall|a: int| 0 <= a < i ==> (#[trigger] rows[a]).len() == players.len(),
            forall|a: int, b: int|
                0 <= a < i && 0 <= b < players.len() ==> (#[trigger] rows[a])[b] == kills(
                    pairs@,
                    players[a],
                    #[trigger] players[b],
                ),
        decreases players.len() - i,
    {
        rows.push(kills_row(pairs, players, players[i]));
        i += 1;
    }
    rows
}

/// The pairwise score of a player who killed another `a` times and was killed by the
/// other `b` times; `apart` says that the two are different players.
pub fn score_of(a: usize, b: usize, apart: bool, min_pair_encounters: u32) -> (r: Ratio)
    ensures
        r == if apart && has_signal(a as nat, b as nat, min_pair_encounters) {
            Ratio { num: b as u64, den: a as u64 }
        } else {
            no_score()
        },
{
    if apart && a > 0 && b > 0 && a as u128 + b as u128 >= min_pair_encounters as u128 {
        Ratio { num: b as u64, den: a as u64 }
    } else {
        Ratio { num: 0, den: 1 }
    }
}

/// The pairwise scores of the players that are ranked.
#[derive(Clone, Debug, PartialEq, Eq)]
pub struct SkillMatrix {
    /// The players, in ascending order.
    pub players: Vec<SteamId>,
    /// For each player a row with the score against each player.
    pub entries: Vec<Vec<Ratio>>,
}

impl SkillMatrix {
    /// The matrix is square and holds the pairwise score of each of its players against
    /// each.
    pub open spec fn scores(self, pairs: Seq<Kill>, min_pair_encounters: u32) -> bool {
        &&& self.entries.len() == self.players.len()
        &&& forall|i: int|
            0 <= i < self.entries.len() ==> (#[trigger] self.entries[i]).len()
                == self.players.len()
        &&& forall|i: int, j: int|
            0 <= i < self.players.len() && 0 <= j < self.players.len() ==> (
            #[trigger] self.entries[i])[j] == score(
                pairs,
                min_pair_encounters,
                self.players[i],
                #[trigger] self.players[j],
            )
    }
}

/// Counts the players against whom the player at position `i` has a score.
fn count_encounters(
    rows: &Vec<Vec<usize>>,
    players: &Vec<SteamId>,
    i: usize,
    min_pair_encounters: u32,
    Ghost(pairs): Ghost<Seq<Kill>>,
) -> (n: usize)
    requires
        counts_kills(pairs, players@, rows@),
        i < players.len(),
    ensures
        n == encounters(
            pairs,
            min_pair_encounters,
            players@,
            players[i as int],
            players.len() as int,
        ),
{
    let size = rows.len();
    let mut n: usize = 0;
    let mut j: usize = 0;
    while j < size
        invariant
            j <= size,
            size == players.len(),
            i < size,
            counts_kills(pairs, players@, rows@),
            n <= j,
            n == encounters(pairs, min_pair_encounters, players@, players[i as int], j as int),
        decreases size - j,
    {
        let s = score_of(rows[i][j], rows[j][i], players[i] != players[j], min_pair_encounters);
        if s.num > 0 {
            n += 1;
        }
        j += 1;
    }
    n
}

/// The most that a player has is no less than what any player has.
pub proof fn lemma_most_encounters(
    pairs: Seq<Kill>,
    min_pair_encounters: u32,
    players: Seq<SteamId>,
    upto: int,
    i: int,
)
    requires
        0 <= i < upto <= players.len(),
    ensures
        encounters(pairs, min_pair_encounters, players, players[i], players.len() as int)
            <= most_encounters(pairs, min_pair_encounters, players, upto),
    decreases upto,
{
    if i < upto - 1 {
        lemma_most_encounters(pairs, min_pair_encounters, players, upto - 1, i);
    }
}

/// The pairwise scores among the well connected of `players`: those that have a score
/// against nearly as many of `players` as the one who has the most.
pub fn pruned_matrix(pairs: &Vec<Kill>, players: &Vec<SteamId>, min_pair_encounters: u32) -> (m:
    SkillMatrix)
    ensures
        m.players@ == ranked_players(pairs@, min_pair_encounters, players@),
        m.scores(pairs@, min_pair_encounters),
{
    let rows = kill_matrix(pairs, players);
    let size = players.len();
    let mut met: Vec<usize> = Vec::new();
    let mut most: usize = 0;
    let mut i: usize = 0;
    while i < size
        invariant
            i <= size,
            size == players.len(),
            counts_kills(pairs@, players@, rows@),
            met.len() == i,
            forall|k: int|
                0 <= k < i ==> met[k] == encounters(
                    pairs@,
                    min_pair_encounters,
                    players@,
                    players[k],
                    size as int,
                ),
            most == most_encounters(pairs@, min_pair_encounters, players@, i as int),
        decreases size - i,
    {
        let here = count_encounters(&rows, players, i, min_pair_encounters, Ghost(pairs@));
        if here > most {
            most = here;
        }
        met.push(here);
        i += 1;
    }
    let ghost pred = |p: SteamId| well_connected(pairs@, min_pair_encounters, players@, p);
    let mut chosen: Vec<usize> = Vec::new();
    let mut names: Vec<SteamId> = Vec::new();
    let mut i: usize = 0;
    proof {
        reveal(Seq::filter);
    }
    while i < size
        invariant
            i <= size,
            size == players.len(),
            met.len() == size,
            forall|k: int|
                0 <= k < size ==> met[k] == encounters(
                    pairs@,
                    min_pair_encounters,
                    players@,
                    players[k],
                    size as int,
                ),
            most == most_encounters(pairs@, min_pair_encounters, players@, size as int),
            pred == |p: SteamId| well_connected(pairs@, min_pair_encounters, players@, p),
            names@ == players@.take(i as int).filter(pred),
            chosen.len() == names.len(),
            forall|k: int|
                0 <= k < chosen.len() ==> (#[trigger] chosen[k]) < size && players[chosen[k] as int]
                    == names[k],
        decreases size - i,
    {
        proof {
            assert(players@.take(i + 1) =~= players@.take(i as int).push(players[i as int]));
            players@.take(i as int).lemma_filter_push(players[i as int], pred);
            lemma_most_encounters(pairs@, min_pair_encounters, players@, size as int, i as int);
        }
        if most - met[i] <= ENCOUNTER_SLACK {
            chosen.push(i);
            names.push(players[i]);
        }
        i += 1;
    }
    proof {
        assert(players@.take(i as int) =~= players@);
    }
    let count = chosen.len();
    let mut entries: Vec<Vec<Ratio>> = Vec::new();
    let mut x: usize = 0;
    while x < count
        invariant
            x <= count,
            count == chosen.len(),
            count == names.len(),
            size == players.len(),
            counts_kills(pairs@, players@, rows@),
            forall|k: int|
                0 <= k < chosen.len() ==> (#[trigger] chosen[k]) < size && players[chosen[k] as int]
                    == names[k],
            entries.len() == x,
            forall|a: int| 0 <= a < x ==> (#[trigger] entries[a]).len() == count,
            forall|a: int, b: int|
                0 <= a < x && 0 <= b < count ==> (#[trigger] entries[a])[b] == score(
                    pairs@,
                    min_pair_encounters,
                    names[a],
                    #[trigger] names[b],
                ),
        decreases count - x,
    {
        let from = chosen[x];
        let mut row: Vec<Ratio> = Vec::new();
        let mut y: usize = 0;
        while y < count
            invariant
                y <= count,
                x < count,
                count == chosen.len(),
                count == names.len(),
                size == players.len(),
                from == chosen[x as int],
                counts_kills(pairs@, players@, rows@),
                forall|k: int|
                    0 <= k < chosen.len() ==> (#[trigger] chosen[k]) < size && players[chosen[k] as int]
                        == names[k],
                row.len() == y,
                forall|b: int|
                    0 <= b < y ==> row[b] == score(
                        pairs@,
                        min_pair_encounters,
                        names[x as int],
                        names[b],
                    ),
            decreases count - y,
        {
            let to = chosen[y];
            let s = score_of(
                rows[from][to],
                rows[to][from],
                players[from] != players[to],
                min_pair_encounters,
            );
            row.push(s);
            y += 1;
        }
        entries.push(row);
        x += 1;
    }
    SkillMatrix { players: names, entries }
}

/// The pairwise scores from which the players are ranked. The kills that count are
/// taken from every match, or from the genuine ones only; the players are kept that were
/// killed `min_encounters` times at least; of these the well connected remain, and the
/// matrix holds the score of each against each.
pub fn skill_matrix(
    games: &Vec<GameStats>,
    genuine_only: bool,
    min_encounters: u32,
    min_pair_encounters: u32,
) -> (m: SkillMatrix)
    ensures
        m.players@ == ranked_players(
            kill_pairs(games@, genuine_only),
            min_pair_encounters,
            retained_list(kill_pairs(games@, genuine_only), min_encounters),
        ),
        m.scores(kill_pairs(games@, genuine_only), min_pair_encounters),
{
    let pairs = counted_kills(games, genuine_only);
    let kept = retained_players(&pairs, min_encounters);
    proof {
        let found = retained_list(pairs@, min_encounters);
        lemma_ascending_unique(kept@, found);
    }
    pruned_matrix(&pairs, &kept, min_pair_encounters)
}

} // verus!
