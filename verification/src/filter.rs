//! Which matches count: those that were long enough and were not played against bots.

use crate::input_types::{GameStats, Millis, PlayerStat, Team};
use vstd::prelude::*;

verus! {

/// The shortest round that counts: five minutes.
pub const MIN_ROUND_LENGTH: Millis = 300_000;

/// A side needs more players than this for the match to count.
pub const BOT_GAME_PLAYERS: usize = 2;

/// The number of players who spent any time on `team`.
pub open spec fn played_on(players: Seq<PlayerStat>, team: Team) -> nat
    decreases players.len(),
{
    if players.len() == 0 {
        0
    } else {
        played_on(players.drop_last(), team) + if players.last().side(team).time_played > 0 {
            1nat
        } else {
            0nat
        }
    }
}

/// The round took at least `min_length`.
pub open spec fn long_enough(game: GameStats, min_length: Millis) -> bool {
    game.round_info.round_length >= min_length
}

/// More than two players spent time on each of the two sides.
pub open spec fn played_by_people(game: GameStats) -> bool {
    played_on(game.player_stats@, Team::Marines) > BOT_GAME_PLAYERS && played_on(
        game.player_stats@,
        Team::Aliens,
    ) > BOT_GAME_PLAYERS
}

/// A match is genuine when it took at least five minutes and more than two players spent
/// time on each side.
pub open spec fn genuine_game(game: GameStats) -> bool {
    long_enough(game, MIN_ROUND_LENGTH) && played_by_people(game)
}

/// The genuine matches of a sequence, in their order.
pub open spec fn genuine_games(games: Seq<GameStats>) -> Seq<GameStats> {
    games.filter(|g: GameStats| genuine_game(g))
}

/// Counts the players who spent any time on `team`.
pub fn count_played(players: &Vec<PlayerStat>, team: Team) -> (n: usize)
    ensures
        n == played_on(players@, team),
{
    let mut n: usize = 0;
    let mut i: usize = 0;
    while i < players.len()
        invariant
            i <= players.len(),
            n <= i,
            n == played_on(players@.take(i as int), team),
        decreases players.len() - i,
    {
        proof {
            assert(players@.take(i + 1).drop_last() =~= players@.take(i as int));
        }
        if players[i].stats(team).time_played > 0 {
            n += 1;
        }
        i += 1;
    }
    proof {
        assert(players@.take(i as int) =~= players@);
    }
    n
}

/// Whether more than two players spent time on each of the two sides.
pub fn is_played_by_people(game: &GameStats) -> (r: bool)
    ensures
        r == played_by_people(*game),
{
    count_played(&game.player_stats, Team::Marines) > BOT_GAME_PLAYERS && count_played(
        &game.player_stats,
        Team::Aliens,
    ) > BOT_GAME_PLAYERS
}

/// Whether a match is genuine.
pub fn is_genuine(game: &GameStats) -> (r: bool)
    ensures
        r == genuine_game(*game),
{
    game.round_info.round_length >= MIN_ROUND_LENGTH && is_played_by_people(game)
}

/// Keeps the matches that took at least `min_length`, in their order.
pub fn filter_by_length(games: Vec<GameStats>, min_length: Millis) -> (kept: Vec<GameStats>)
    ensures
        kept@ == games@.filter(|g: GameStats| long_enough(g, min_length)),
{
    let ghost all = games@;
    let ghost pred = |g: GameStats| long_enough(g, min_length);
    let mut kept: Vec<GameStats> = Vec::new();
    proof {
        reveal(Seq::filter);
    }
    for game in it: games
        invariant
            it.seq() == all,
            pred == |g: GameStats| long_enough(g, min_length),
            kept@ == all.take(it.index() as int).filter(pred),
    {
        proof {
            assert(all.take(it.index() + 1) =~= all.take(it.index() as int).push(game));
            all.take(it.index() as int).lemma_filter_push(game, pred);
        }
        if game.round_info.round_length >= min_length {
            kept.push(game);
        }
    }
    proof {
        assert(all.take(all.len() as int) =~= all);
    }
    kept
}

/// Keeps the matches in which more than two players spent time on each side, in their
/// order.
pub fn filter_bot_games(games: Vec<GameStats>) -> (kept: Vec<GameStats>)
    ensures
        kept@ == games@.filter(|g: GameStats| played_by_people(g)),
{
    let ghost all = games@;
    let ghost pred = |g: GameStats| played_by_people(g);
    let mut kept: Vec<GameStats> = Vec::new();
    proof {
        reveal(Seq::filter);
    }
    for game in it: games
        invariant
            it.seq() == all,
            pred == |g: GameStats| played_by_people(g),
            kept@ == all.take(it.index() as int).filter(pred),
    {
        proof {
            assert(all.take(it.index() + 1) =~= all.take(it.index() as int).push(game));
            all.take(it.index() as int).lemma_filter_push(game, pred);
        }
        if is_played_by_people(&game) {
            kept.push(game);
        }
    }
    proof {
        assert(all.take(all.len() as int) =~= all);
    }
    kept
}

/// Keeps the genuine matches, in their order: first those that were long enough, and of
/// these the ones that were not played against bots.
pub fn genuine(games: Vec<GameStats>) -> (kept: Vec<GameStats>)
    ensures
        kept@ == genuine_games(games@),
        forall|i: int| 0 <= i < kept.len() ==> genuine_game(#[trigger] kept[i]),
{
    let ghost all = games@;
    let kept = filter_bot_games(filter_by_length(games, MIN_ROUND_LENGTH));
    proof {
        let long = |g: GameStats| long_enough(g, MIN_ROUND_LENGTH);
        let people = |g: GameStats| played_by_people(g);
        let both = |g: GameStats| genuine_game(g);
        lemma_filter_twice(all, long, people, both);
    }
    kept
}

/// Filtering by one test and then by another keeps what passes both.
pub proof fn lemma_filter_twice<A>(
    s: Seq<A>,
    first: spec_fn(A) -> bool,
    second: spec_fn(A) -> bool,
    both: spec_fn(A) -> bool,
)
    requires
        forall|x: A| #[trigger] both(x) == (first(x) && second(x)),
    ensures
        s.filter(first).filter(second) == s.filter(both),
    decreases s.len(),
{
    reveal(Seq::filter);
    if s.len() > 0 {
        lemma_filter_twice(s.drop_last(), first, second, both);
        if first(s.last()) {
            s.drop_last().filter(first).lemma_filter_push(s.last(), second);
        }
    }
}

/// A sequence whose members all pass the test is left as it is.
pub proof fn lemma_filter_all<A>(s: Seq<A>, pred: spec_fn(A) -> bool)
    requires
        forall|i: int| 0 <= i < s.len() ==> pred(#[trigger] s[i]),
    ensures
        s.filter(pred) == s,
    decreases s.len(),
{
    reveal(Seq::filter);
    if s.len() > 0 {
        lemma_filter_all(s.drop_last(), pred);
    }
}

/// Filtering the genuine matches of a sequence once more changes nothing.
pub proof fn lemma_genuine_idempotent(games: Seq<GameStats>)
    ensures
        genuine_games(genuine_games(games)) == genuine_games(games),
{
    let pred = |g: GameStats| genuine_game(g);
    lemma_filter_all(games.filter(pred), pred);
}

/// A sequence of genuine matches is left as it is.
pub proof fn lemma_genuine_fixed(games: Seq<GameStats>)
    requires
        forall|i: int| 0 <= i < games.len() ==> genuine_game(#[trigger] games[i]),
    ensures
        genuine_games(games) == games,
{
    lemma_filter_all(games, |g: GameStats| genuine_game(g));
}

} // verus!
