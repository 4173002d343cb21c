//! Cumulative numbers per player and per map, folded from matches and merged.

use crate::error::Error;
use crate::input_types::{GameStats, PlayerStat, SteamId, Team, WinningTeam};
use crate::keyed::{
    keyed, lemma_keyed_at, lemma_keyed_push,
    lemma_keyed_take, lemma_keyed_update,
};
use crate::stat::{ratio_of, ratios, Ratio, Stat};
use vstd::prelude::*;

verus! {

/// What is counted of one player.
#[derive(Clone, Copy, Debug, PartialEq, Eq)]
pub struct User {
    /// The number of games played.
    pub games: Stat<u32>,
    /// The number of games played as commander.
    pub commander: Stat<u32>,
    pub wins: Stat<u32>,
    pub kills: Stat<u32>,
    pub assists: Stat<u32>,
    pub deaths: Stat<u32>,
    pub score: Stat<u32>,
    pub hits: Stat<u32>,
    pub misses: Stat<u32>,
}

/// The numbers of one player, as natural numbers.
pub struct UserTotals {
    pub games: Stat<nat>,
    pub commander: Stat<nat>,
    pub wins: Stat<nat>,
    pub kills: Stat<nat>,
    pub assists: Stat<nat>,
    pub deaths: Stat<nat>,
    pub score: Stat<nat>,
    pub hits: Stat<nat>,
    pub misses: Stat<nat>,
}

impl UserTotals {
    /// A player of whom nothing is counted.
    pub open spec fn zero() -> UserTotals {
        UserTotals {
            games: Stat::zero(),
            commander: Stat::zero(),
            wins: Stat::zero(),
            kills: Stat::zero(),
            assists: Stat::zero(),
            deaths: Stat::zero(),
            score: Stat::zero(),
            hits: Stat::zero(),
            misses: Stat::zero(),
        }
    }

    /// The sum, counter by counter.
    pub open spec fn plus(self, other: UserTotals) -> UserTotals {
        UserTotals {
            games: self.games.plus(other.games),
            commander: self.commander.plus(other.commander),
            wins: self.wins.plus(other.wins),
            kills: self.kills.plus(other.kills),
            assists: self.assists.plus(other.assists),
            deaths: self.deaths.plus(other.deaths),
            score: self.score.plus(other.score),
            hits: self.hits.plus(other.hits),
            misses: self.misses.plus(other.misses),
        }
    }

    /// In every counter the total is what the two sides have together.
    pub open spec fn consistent(self) -> bool {
        &&& self.games.consistent()
        &&& self.commander.consistent()
        &&& self.wins.consistent()
        &&& self.kills.consistent()
        &&& self.assists.consistent()
        &&& self.deaths.consistent()
        &&& self.score.consistent()
        &&& self.hits.consistent()
        &&& self.misses.consistent()
    }

    /// Every counter can be held in 32 bits.
    pub open spec fn fits(self) -> bool {
        &&& self.games.fits()
        &&& self.commander.fits()
        &&& self.wins.fits()
        &&& self.kills.fits()
        &&& self.assists.fits()
        &&& self.deaths.fits()
        &&& self.score.fits()
        &&& self.hits.fits()
        &&& self.misses.fits()
    }
}

impl View for User {
    type V = UserTotals;

    open spec fn view(&self) -> UserTotals {
        UserTotals {
            games: self.games@,
            commander: self.commander@,
            wins: self.wins@,
            kills: self.kills@,
            assists: self.assists@,
            deaths: self.deaths@,
            score: self.score@,
            hits: self.hits@,
            misses: self.misses@,
        }
    }
}

/// What one match adds to the numbers of one of its players: a game, and a win where
/// the side won, on the side the player is credited to; a game as commander on each side
/// the player commanded; and what the player did on either side, each on its own side.
pub open spec fn player_totals(
    player: PlayerStat,
    winner: WinningTeam,
    marine_commander: bool,
    alien_commander: bool,
) -> UserTotals {
    let side = player.attribution();
    UserTotals {
        games: Stat::credit(side, 1),
        commander: Stat::sides(
            if marine_commander { 1 } else { 0 },
            if alien_commander { 1 } else { 0 },
        ),
        wins: if winner.is_team(side) { Stat::credit(side, 1) } else { Stat::zero() },
        kills: Stat::sides(player.marines.kills as nat, player.aliens.kills as nat),
        assists: Stat::sides(player.marines.assists as nat, player.aliens.assists as nat),
        deaths: Stat::sides(player.marines.deaths as nat, player.aliens.deaths as nat),
        score: Stat::sides(player.marines.score as nat, player.aliens.score as nat),
        hits: Stat::sides(player.marines.hits as nat, player.aliens.hits as nat),
        misses: Stat::sides(player.marines.misses as nat, player.aliens.misses as nat),
    }
}

/// A counter with its numbers as integers.
pub open spec fn stat_ints(s: Stat<u32>) -> Stat<int> {
    Stat { total: s.total as int, marines: s.marines as int, aliens: s.aliens as int }
}

/// The sums of two counters as integers, side by side.
pub open spec fn stat_sums(a: Stat<u32>, b: Stat<u32>) -> Stat<int> {
    Stat { total: a.total + b.total, marines: a.marines + b.marines, aliens: a.aliens + b.aliens }
}

/// A counter in 64 bits.
pub fn widen(s: Stat<u32>) -> (r: Stat<u64>)
    ensures
        r.total == s.total,
        r.marines == s.marines,
        r.aliens == s.aliens,
{
    Stat { total: s.total as u64, marines: s.marines as u64, aliens: s.aliens as u64 }
}

/// The sums of two counters in 64 bits, side by side.
pub fn widen_sum(a: Stat<u32>, b: Stat<u32>) -> (r: Stat<u64>)
    ensures
        r.total == a.total + b.total,
        r.marines == a.marines + b.marines,
        r.aliens == a.aliens + b.aliens,
{
    Stat {
        total: a.total as u64 + b.total as u64,
        marines: a.marines as u64 + b.marines as u64,
        aliens: a.aliens as u64 + b.aliens as u64,
    }
}

impl User {
    /// Kills over deaths, in total and for each side.
    pub fn kd(&self) -> (r: Stat<Ratio>)
        ensures
            r == ratios(stat_ints(self.kills), stat_ints(self.deaths)),
    {
        widen(self.kills).zip(widen(self.deaths)).map(ratio_of)
    }

    /// Kills and assists over deaths, in total and for each side.
    pub fn kda(&self) -> (r: Stat<Ratio>)
        ensures
            r == ratios(stat_sums(self.kills, self.assists), stat_ints(self.deaths)),
    {
        widen_sum(self.kills, self.assists).zip(widen(self.deaths)).map(ratio_of)
    }

    /// Score over games, in total and for each side.
    pub fn average_score(&self) -> (r: Stat<Ratio>)
        ensures
            r == ratios(stat_ints(self.score), stat_ints(self.games)),
    {
        widen(self.score).zip(widen(self.games)).map(ratio_of)
    }

    /// Hits over hits and misses, in total and for each side.
    pub fn accuracy(&self) -> (r: Stat<Ratio>)
        ensures
            r == ratios(stat_ints(self.hits), stat_sums(self.hits, self.misses)),
    {
        widen(self.hits).zip(widen_sum(self.hits, self.misses)).map(ratio_of)
    }

    /// A player of whom nothing is counted yet.
    pub fn new() -> (r: User)
        ensures
            r@ == UserTotals::zero(),
    {
        User {
            games: Stat::new(),
            commander: Stat::new(),
            wins: Stat::new(),
            kills: Stat::new(),
            assists: Stat::new(),
            deaths: Stat::new(),
            score: Stat::new(),
            hits: Stat::new(),
            misses: Stat::new(),
        }
    }

    /// The sum of two players' numbers, or `None` where a counter cannot hold it.
    pub fn sum(&self, other: &User) -> (r: Option<User>)
        ensures
            r is Some <==> self@.plus(other@).fits(),
            r matches Some(s) ==> s@ == self@.plus(other@),
    {
        Some(
            User {
                games: self.games.sum(&other.games)?,
                commander: self.commander.sum(&other.commander)?,
                wins: self.wins.sum(&other.wins)?,
                kills: self.kills.sum(&other.kills)?,
                assists: self.assists.sum(&other.assists)?,
                deaths: self.deaths.sum(&other.deaths)?,
                score: self.score.sum(&other.score)?,
                hits: self.hits.sum(&other.hits)?,
                misses: self.misses.sum(&other.misses)?,
            },
        )
    }

    /// What one match adds to the numbers of `player`, or `None` where a counter cannot
    /// hold it.
    pub fn of_player(
        player: &PlayerStat,
        winner: WinningTeam,
        marine_commander: bool,
        alien_commander: bool,
    ) -> (r: Option<User>)
        ensures
            r is Some <==> player_totals(
                *player,
                winner,
                marine_commander,
                alien_commander,
            ).fits(),
            r matches Some(u) ==> u@ == player_totals(
                *player,
                winner,
                marine_commander,
                alien_commander,
            ),
    {
        let side = player.team();
        let mut games = Stat::new();
        games.add(side, 1);
        let mut wins = Stat::new();
        if winner.won_by(side) {
            wins.add(side, 1);
        }
        let commander = Stat {
            total: if marine_commander { 1u32 } else { 0u32 } + if alien_commander {
                1u32
            } else {
                0u32
            },
            marines: if marine_commander { 1u32 } else { 0u32 },
            aliens: if alien_commander { 1u32 } else { 0u32 },
        };
        Some(
            User {
                games,
                commander,
                wins,
                kills: Stat::of_sides(player.marines.kills, player.aliens.kills)?,
                assists: Stat::of_sides(player.marines.assists, player.aliens.assists)?,
                deaths: Stat::of_sides(player.marines.deaths, player.aliens.deaths)?,
                score: Stat::of_sides(player.marines.score, player.aliens.score)?,
                hits: Stat::of_sides(player.marines.hits, player.aliens.hits)?,
                misses: Stat::of_sides(player.marines.misses, player.aliens.misses)?,
            },
        )
    }
}

/// What is counted of one map.
#[derive(Clone, Copy, Debug, PartialEq, Eq)]
pub struct MapStats {
    pub total_games: u32,
    pub marine_wins: u32,
    pub alien_wins: u32,
}

/// The numbers of one map, as natural numbers.
pub struct MapTotals {
    pub total_games: nat,
    pub marine_wins: nat,
    pub alien_wins: nat,
}

impl MapTotals {
    /// A map on which nothing was played.
    pub open spec fn zero() -> MapTotals {
        MapTotals { total_games: 0, marine_wins: 0, alien_wins: 0 }
    }

    /// One game with the given winner.
    pub open spec fn outcome(winner: WinningTeam) -> MapTotals {
        MapTotals {
            total_games: 1,
            marine_wins: if winner == WinningTeam::Marines { 1 } else { 0 },
            alien_wins: if winner == WinningTeam::Aliens { 1 } else { 0 },
        }
    }

    /// The sum, counter by counter.
    pub open spec fn plus(self, other: MapTotals) -> MapTotals {
        MapTotals {
            total_games: self.total_games + other.total_games,
            marine_wins: self.marine_wins + other.marine_wins,
            alien_wins: self.alien_wins + other.alien_wins,
        }
    }

    /// Every counter can be held in 32 bits.
    pub open spec fn fits(self) -> bool {
        self.total_games <= u32::MAX && self.marine_wins <= u32::MAX && self.alien_wins
            <= u32::MAX
    }
}

impl View for MapStats {
    type V = MapTotals;

    open spec fn view(&self) -> MapTotals {
        MapTotals {
            total_games: self.total_games as nat,
            marine_wins: self.marine_wins as nat,
            alien_wins: self.alien_wins as nat,
        }
    }
}

impl MapStats {
    /// The numbers of a map after one game with the given winner.
    pub fn of_winner(winner: WinningTeam) -> (r: MapStats)
        ensures
            r@ == MapTotals::outcome(winner),
    {
        MapStats {
            total_games: 1,
            marine_wins: if winner == WinningTeam::Marines { 1 } else { 0 },
            alien_wins: if winner == WinningTeam::Aliens { 1 } else { 0 },
        }
    }

    /// The sum of the numbers of two maps, or `None` where a counter cannot hold it.
    pub fn sum(&self, other: &MapStats) -> (r: Option<MapStats>)
        ensures
            r is Some <==> self@.plus(other@).fits(),
            r matches Some(s) ==> s@ == self@.plus(other@),
    {
        Some(
            MapStats {
                total_games: self.total_games.checked_add(other.total_games)?,
                marine_wins: self.marine_wins.checked_add(other.marine_wins)?,
                alien_wins: self.alien_wins.checked_add(other.alien_wins)?,
            },
        )
    }
}

/// The numbers of a snapshot: natural numbers, and maps from the players' identifiers and
/// from the maps' names.
#[verifier::ext_equal]
pub struct Totals {
    pub latest_game: nat,
    pub players: Map<SteamId, UserTotals>,
    pub maps: Map<Seq<char>, MapTotals>,
    pub total_games: nat,
    pub marine_wins: nat,
    pub alien_wins: nat,
}

/// The numbers of player `id`, all zero where the map holds none.
pub open spec fn user_or_zero(players: Map<SteamId, UserTotals>, id: SteamId) -> UserTotals {
    if players.dom().contains(id) {
        players[id]
    } else {
        UserTotals::zero()
    }
}

/// The numbers of the map called `name`, all zero where the map holds none.
pub open spec fn map_or_zero(maps: Map<Seq<char>, MapTotals>, name: Seq<char>) -> MapTotals {
    if maps.dom().contains(name) {
        maps[name]
    } else {
        MapTotals::zero()
    }
}

/// The players of either map, each with the sum of what the two maps hold.
pub open spec fn merge_players(
    a: Map<SteamId, UserTotals>,
    b: Map<SteamId, UserTotals>,
) -> Map<SteamId, UserTotals> {
    Map::new(
        |id: SteamId| a.dom().contains(id) || b.dom().contains(id),
        |id: SteamId| user_or_zero(a, id).plus(user_or_zero(b, id)),
    )
}

/// The maps of either map, each with the sum of what the two hold.
pub open spec fn merge_maps(
    a: Map<Seq<char>, MapTotals>,
    b: Map<Seq<char>, MapTotals>,
) -> Map<Seq<char>, MapTotals> {
    Map::new(
        |name: Seq<char>| a.dom().contains(name) || b.dom().contains(name),
        |name: Seq<char>| map_or_zero(a, name).plus(map_or_zero(b, name)),
    )
}

/// Every counter of every player can be held in 32 bits.
pub open spec fn players_fit(players: Map<SteamId, UserTotals>) -> bool {
    forall|id: SteamId| players.dom().contains(id) ==> (#[trigger] players[id]).fits()
}

/// Every counter of every map can be held in 32 bits.
pub open spec fn maps_fit(maps: Map<Seq<char>, MapTotals>) -> bool {
    forall|name: Seq<char>| maps.dom().contains(name) ==> (#[trigger] maps[name]).fits()
}

/// For every player and every counter, the total is what the two sides have together.
pub open spec fn players_consistent(players: Map<SteamId, UserTotals>) -> bool {
    forall|id: SteamId| players.dom().contains(id) ==> (#[trigger] players[id]).consistent()
}

impl Totals {
    /// The numbers of no match at all.
    pub open spec fn zero() -> Totals {
        Totals {
            latest_game: 0,
            players: Map::empty(),
            maps: Map::empty(),
            total_games: 0,
            marine_wins: 0,
            alien_wins: 0,
        }
    }

    /// The merge of two snapshots: every counter summed, players and maps joined by
    /// their keys, and the later of the two latest dates.
    pub open spec fn plus(self, other: Totals) -> Totals {
        Totals {
            latest_game: if self.latest_game >= other.latest_game {
                self.latest_game
            } else {
                other.latest_game
            },
            players: merge_players(self.players, other.players),
            maps: merge_maps(self.maps, other.maps),
            total_games: self.total_games + other.total_games,
            marine_wins: self.marine_wins + other.marine_wins,
            alien_wins: self.alien_wins + other.alien_wins,
        }
    }

    /// Every number can be held in 32 bits.
    pub open spec fn fits(self) -> bool {
        &&& self.latest_game <= u32::MAX
        &&& self.total_games <= u32::MAX
        &&& self.marine_wins <= u32::MAX
        &&& self.alien_wins <= u32::MAX
        &&& players_fit(self.players)
        &&& maps_fit(self.maps)
    }

    /// For every player and every counter, the total is what the two sides have
    /// together.
    pub open spec fn consistent(self) -> bool {
        players_consistent(self.players)
    }
}

/// Player `i` commands `team` in a match when nobody spent more time as its commander,
/// and nobody before `i` as much.
pub open spec fn is_commander(players: Seq<PlayerStat>, team: Team, i: int) -> bool {
    &&& 0 <= i < players.len()
    &&& forall|j: int|
        0 <= j < players.len() ==> (#[trigger] players[j]).side(team).commander_time
            <= players[i].side(team).commander_time
    &&& forall|j: int|
        0 <= j < i ==> (#[trigger] players[j]).side(team).commander_time < players[i].side(
            team,
        ).commander_time
}

/// The identifiers of the players, in their order.
pub open spec fn player_ids(players: Seq<PlayerStat>) -> Seq<SteamId> {
    players.map_values(|p: PlayerStat| p.steam_id)
}

/// What a match adds to the numbers of each of its players, in their order.
pub open spec fn game_player_totals(game: GameStats) -> Seq<UserTotals> {
    Seq::new(
        game.player_stats@.len(),
        |i: int|
            player_totals(
                game.player_stats@[i],
                game.round_info.winning_team,
                is_commander(game.player_stats@, Team::Marines, i),
                is_commander(game.player_stats@, Team::Aliens, i),
            ),
    )
}

/// The numbers of a single match.
pub open spec fn game_totals(game: GameStats) -> Totals {
    let outcome = MapTotals::outcome(game.round_info.winning_team);
    Totals {
        latest_game: game.round_info.round_date as nat,
        players: keyed(player_ids(game.player_stats@), game_player_totals(game)),
        maps: Map::<Seq<char>, MapTotals>::empty().insert(game.round_info.map_name@, outcome),
        total_games: outcome.total_games,
        marine_wins: outcome.marine_wins,
        alien_wins: outcome.alien_wins,
    }
}

/// The numbers of a sequence of matches: those of each match, merged one after the
/// other.
pub open spec fn compute_totals(games: Seq<GameStats>) -> Totals
    decreases games.len(),
{
    if games.len() == 0 {
        Totals::zero()
    } else {
        compute_totals(games.drop_last()).plus(game_totals(games.last()))
    }
}

/// The identifiers of a list of players' numbers.
pub open spec fn entry_ids(users: Seq<(SteamId, User)>) -> Seq<SteamId> {
    users.map_values(|e: (SteamId, User)| e.0)
}

/// The numbers of a list of players' numbers.
pub open spec fn entry_users(users: Seq<(SteamId, User)>) -> Seq<UserTotals> {
    users.map_values(|e: (SteamId, User)| e.1@)
}

/// A list of players' numbers as a map from their identifiers.
pub open spec fn users_view(users: Seq<(SteamId, User)>) -> Map<SteamId, UserTotals> {
    keyed(entry_ids(users), entry_users(users))
}

/// The names of a list of maps' numbers.
pub open spec fn entry_names(maps: Seq<(String, MapStats)>) -> Seq<Seq<char>> {
    maps.map_values(|e: (String, MapStats)| e.0@)
}

/// The numbers of a list of maps' numbers.
pub open spec fn entry_maps(maps: Seq<(String, MapStats)>) -> Seq<MapTotals> {
    maps.map_values(|e: (String, MapStats)| e.1@)
}

/// A list of maps' numbers as a map from their names.
pub open spec fn maps_view(maps: Seq<(String, MapStats)>) -> Map<Seq<char>, MapTotals> {
    keyed(entry_names(maps), entry_maps(maps))
}

/// The cumulative numbers of a set of matches. No player and no map occurs twice in it,
/// and for every player and every counter the total is what the two sides have
/// together.
#[derive(Debug, PartialEq, Eq)]
pub struct NS2Stats {
    latest_game: u32,
    users: Vec<(SteamId, User)>,
    maps: Vec<(String, MapStats)>,
    total_games: u32,
    marine_wins: u32,
    alien_wins: u32,
}

impl View for NS2Stats {
    type V = Totals;

    closed spec fn view(&self) -> Totals {
        Totals {
            latest_game: self.latest_game as nat,
            players: users_view(self.users@),
            maps: maps_view(self.maps@),
            total_games: self.total_games as nat,
            marine_wins: self.marine_wins as nat,
            alien_wins: self.alien_wins as nat,
        }
    }
}

/// The position of player `id` in the list.
fn find_user(users: &Vec<(SteamId, User)>, id: SteamId) -> (r: Option<usize>)
    ensures
        r matches Some(i) ==> i < users.len() && users[i as int].0 == id,
        r is None ==> !entry_ids(users@).contains(id),
{
    let mut i: usize = 0;
    while i < users.len()
        invariant
            i <= users.len(),
            forall|k: int| 0 <= k < i ==> (#[trigger] users[k]).0 != id,
        decreases users.len() - i,
    {
        if users[i].0 == id {
            return Some(i);
        }
        i += 1;
    }
    None
}

/// The position of the map called `name` in the list.
fn find_map(maps: &Vec<(String, MapStats)>, name: &String) -> (r: Option<usize>)
    ensures
        r matches Some(i) ==> i < maps.len() && maps[i as int].0@ == name@,
        r is None ==> !entry_names(maps@).contains(name@),
{
    let mut i: usize = 0;
    while i < maps.len()
        invariant
            i <= maps.len(),
            forall|k: int| 0 <= k < i ==> (#[trigger] maps[k]).0@ != name@,
        decreases maps.len() - i,
    {
        if maps[i].0 == *name {
            return Some(i);
        }
        i += 1;
    }
    None
}

/// Adds the players' numbers of `other` to those of `list`, player by player.
fn merge_user_lists(list: Vec<(SteamId, User)>, other: &Vec<(SteamId, User)>) -> (r: Option<
    Vec<(SteamId, User)>,
>)
    requires
        entry_ids(list@).no_duplicates(),
        entry_ids(other@).no_duplicates(),
    ensures
        r is Some <==> players_fit(merge_players(users_view(list@), users_view(other@))),
        r matches Some(l) ==> entry_ids(l@).no_duplicates() && users_view(l@) == merge_players(
            users_view(list@),
            users_view(other@),
        ),
{
    let ghost a = users_view(list@);
    let ghost b = users_view(other@);
    let mut acc = list;
    let mut j: usize = 0;
    while j < other.len()
        invariant
            j <= other.len(),
            entry_ids(acc@).no_duplicates(),
            entry_ids(other@).no_duplicates(),
            users_view(acc@) == merge_players(a, users_view(other@.take(j as int))),
            a == users_view(list@),
            b == users_view(other@),
        decreases other.len() - j,
    {
        let id = other[j].0;
        let user = other[j].1;
        proof {
            lemma_keyed_take(entry_ids(other@), entry_users(other@), j as int);
            assert(entry_ids(other@).take(j as int) =~= entry_ids(other@.take(j as int)));
            assert(entry_ids(other@).take(j + 1) =~= entry_ids(other@.take(j + 1)));
            assert(entry_users(other@).take(j + 1) =~= entry_users(other@.take(j + 1)));
        }
        match find_user(&acc, id) {
            Some(i) => {
                let held = acc[i].1;
                proof {
                    lemma_keyed_at(entry_ids(acc@), entry_users(acc@), i as int);
                }
                match held.sum(&user) {
                    Some(s) => {
                        let ghost before = acc@;
                        acc.set(i, (id, s));
                        proof {
                            assert(entry_ids(acc@) =~= entry_ids(before));
                            assert(entry_users(acc@) =~= entry_users(before).update(
                                i as int,
                                s@,
                            ));
                            lemma_keyed_update(
                                entry_ids(before),
                                entry_users(before),
                                i as int,
                                s@,
                            );
                        }
                    },
                    None => {
                        proof {
                            let m = merge_players(a, b);
                            assert(m[id] == held@.plus(user@));
                        }
                        return None;
                    },
                }
            },
            None => {
                let ghost before = acc@;
                acc.push((id, user));
                proof {
                    assert(!users_view(before).dom().contains(id));
                    assert(entry_ids(acc@) =~= entry_ids(before).push(id));
                    assert(entry_users(acc@) =~= entry_users(before).push(user@));
                    lemma_keyed_push(entry_ids(before), entry_users(before), id, user@);
                }
            },
        }
        j += 1;
    }
    proof {
        assert(other@.take(j as int) =~= other@);
    }
    Some(acc)
}

/// Adds the maps' numbers of `other` to those of `list`, map by map.
fn merge_map_lists(list: Vec<(String, MapStats)>, other: &Vec<(String, MapStats)>) -> (r:
    Option<Vec<(String, MapStats)>>)
    requires
        entry_names(list@).no_duplicates(),
        entry_names(other@).no_duplicates(),
    ensures
        r is Some <==> maps_fit(merge_maps(maps_view(list@), maps_view(other@))),
        r matches Some(l) ==> entry_names(l@).no_duplicates() && maps_view(l@) == merge_maps(
            maps_view(list@),
            maps_view(other@),
        ),
{
    let ghost a = maps_view(list@);
    let ghost b = maps_view(other@);
    let mut acc = list;
    let mut j: usize = 0;
    while j < other.len()
        invariant
            j <= other.len(),
            entry_names(acc@).no_duplicates(),
            entry_names(other@).no_duplicates(),
            maps_view(acc@) == merge_maps(a, maps_view(other@.take(j as int))),
            a == maps_view(list@),
            b == maps_view(other@),
        decreases other.len() - j,
    {
        let name = other[j].0.clone();
        let stats = other[j].1;
        proof {
            lemma_keyed_take(entry_names(other@), entry_maps(other@), j as int);
            assert(entry_names(other@).take(j as int) =~= entry_names(other@.take(j as int)));
            assert(entry_names(other@).take(j + 1) =~= entry_names(other@.take(j + 1)));
            assert(entry_maps(other@).take(j + 1) =~= entry_maps(other@.take(j + 1)));
        }
        match find_map(&acc, &name) {
            Some(i) => {
                let held = acc[i].1;
                proof {
                    lemma_keyed_at(entry_names(acc@), entry_maps(acc@), i as int);
                }
                match held.sum(&stats) {
                    Some(s) => {
                        let ghost before = acc@;
                        acc.set(i, (name, s));
                        proof {
                            assert(entry_names(acc@) =~= entry_names(before));
                            assert(entry_maps(acc@) =~= entry_maps(before).update(i as int, s@));
                            lemma_keyed_update(
                                entry_names(before),
                                entry_maps(before),
                                i as int,
                                s@,
                            );
                        }
                    },
                    None => {
                        proof {
                            let m = merge_maps(a, b);
                            assert(m[name@] == held@.plus(stats@));
                        }
                        return None;
                    },
                }
            },
            None => {
                let ghost before = acc@;
                let ghost key = name@;
                acc.push((name, stats));
                proof {
                    assert(!maps_view(before).dom().contains(key));
                    assert(entry_names(acc@) =~= entry_names(before).push(key));
                    assert(entry_maps(acc@) =~= entry_maps(before).push(stats@));
                    lemma_keyed_push(entry_names(before), entry_maps(before), key, stats@);
                }
            },
        }
        j += 1;
    }
    proof {
        assert(other@.take(j as int) =~= other@);
    }
    Some(acc)
}

/// The commander of `team` in a match: the position of the player who spent the most time
/// as its commander, the first of them where several did. A match without players has
/// none.
pub fn get_commander(team: Team, player_stats: &Vec<PlayerStat>) -> (r: Option<usize>)
    ensures
        r is None <==> player_stats.len() == 0,
        r matches Some(i) ==> is_commander(player_stats@, team, i as int),
{
    let n = player_stats.len();
    if n == 0 {
        return None;
    }
    let mut best: usize = 0;
    let mut i: usize = 1;
    while i < n
        invariant
            1 <= i <= n,
            n == player_stats.len(),
            best < i,
            forall|j: int|
                0 <= j < i ==> (#[trigger] player_stats[j]).side(team).commander_time
                    <= player_stats[best as int].side(team).commander_time,
            forall|j: int|
                0 <= j < best ==> (#[trigger] player_stats[j]).side(team).commander_time
                    < player_stats[best as int].side(team).commander_time,
        decreases n - i,
    {
        if player_stats[i].stats(team).commander_time > player_stats[best].stats(
            team,
        ).commander_time {
            best = i;
        }
        i += 1;
    }
    Some(best)
}

/// A match has at most one commander on each side.
pub proof fn lemma_commander_unique(players: Seq<PlayerStat>, team: Team, i: int, j: int)
    requires
        is_commander(players, team, i),
        is_commander(players, team, j),
    ensures
        i == j,
{
    if i < j {
        assert(players[j].side(team).commander_time <= players[i].side(team).commander_time);
    }
    if j < i {
        assert(players[i].side(team).commander_time <= players[j].side(team).commander_time);
    }
}

/// Merging keeps the total of every counter equal to its two sides together.
pub proof fn lemma_plus_consistent(a: Totals, b: Totals)
    requires
        a.consistent(),
        b.consistent(),
    ensures
        a.plus(b).consistent(),
{
}

/// In the numbers of a single match every total is its two sides together.
pub proof fn lemma_game_consistent(game: GameStats)
    requires
        game.wf(),
    ensures
        game_totals(game).consistent(),
{
}

/// Where a merge fits in 32-bit counters, so does each of its two parts.
pub proof fn lemma_plus_fits(a: Totals, b: Totals)
    requires
        a.plus(b).fits(),
    ensures
        a.fits(),
        b.fits(),
{
    let m = a.plus(b);
    assert forall|id: SteamId| a.players.dom().contains(id) implies (
    #[trigger] a.players[id]).fits() by {
        assert(m.players[id].fits());
    }
    assert forall|id: SteamId| b.players.dom().contains(id) implies (
    #[trigger] b.players[id]).fits() by {
        assert(m.players[id].fits());
    }
    assert forall|name: Seq<char>| a.maps.dom().contains(name) implies (
    #[trigger] a.maps[name]).fits() by {
        assert(m.maps[name].fits());
    }
    assert forall|name: Seq<char>| b.maps.dom().contains(name) implies (
    #[trigger] b.maps[name]).fits() by {
        assert(m.maps[name].fits());
    }
}

/// Where the numbers of a sequence of matches fit in 32-bit counters, so do those of
/// each of its matches and of each of its beginnings.
pub proof fn lemma_compute_prefix_fits(games: Seq<GameStats>, i: int)
    requires
        compute_totals(games).fits(),
        0 <= i <= games.len(),
    ensures
        compute_totals(games.take(i)).fits(),
        i < games.len() ==> game_totals(games[i]).fits(),
    decreases games.len(),
{
    if i == games.len() {
        assert(games.take(i) =~= games);
    } else {
        lemma_plus_fits(compute_totals(games.drop_last()), game_totals(games.last()));
        if i < games.len() - 1 {
            lemma_compute_prefix_fits(games.drop_last(), i);
            assert(games.drop_last().take(i) =~= games.take(i));
        }
    }
}

impl Clone for NS2Stats {
    fn clone(&self) -> (r: NS2Stats)
        ensures
            r@ == self@,
    {
        self.duplicate()
    }
}

/// Every one of the records is well formed.
pub open spec fn all_well_formed(games: Seq<GameStats>) -> bool {
    forall|i: int| 0 <= i < games.len() ==> (#[trigger] games[i]).wf()
}

/// Tests whether every one of the records is well formed.
pub fn are_well_formed(games: &Vec<GameStats>) -> (r: bool)
    ensures
        r == all_well_formed(games@),
{
    let mut i: usize = 0;
    while i < games.len()
        invariant
            i <= games.len(),
            forall|k: int| 0 <= k < i ==> (#[trigger] games[k]).wf(),
        decreases games.len() - i,
    {
        if !games[i].is_well_formed() {
            return false;
        }
        i += 1;
    }
    true
}

impl NS2Stats {
    #[verifier::type_invariant]
    spec fn wf(self) -> bool {
        &&& entry_ids(self.users@).no_duplicates()
        &&& entry_names(self.maps@).no_duplicates()
        &&& players_consistent(users_view(self.users@))
    }

    /// The numbers of no match at all.
    pub fn new() -> (r: NS2Stats)
        ensures
            r@ == Totals::zero(),
            r@.fits(),
            r@.consistent(),
    {
        let users: Vec<(SteamId, User)> = Vec::new();
        let maps: Vec<(String, MapStats)> = Vec::new();
        let r = NS2Stats {
            latest_game: 0,
            users,
            maps,
            total_games: 0,
            marine_wins: 0,
            alien_wins: 0,
        };
        r
    }

    /// The numbers of a single match. A record whose players are not in order is refused
    /// with `MalformedRecord`; `CounterOverflow` says that 32 bits cannot hold one of the
    /// numbers.
    pub fn of_game(game: &GameStats) -> (r: Result<NS2Stats, Error>)
        ensures
            r is Ok <==> game.wf() && game_totals(*game).fits(),
            r matches Ok(s) ==> s@ == game_totals(*game) && s@.consistent(),
            r matches Err(e) ==> e == if game.wf() {
                Error::CounterOverflow
            } else {
                Error::MalformedRecord
            },
    {
        if !game.is_well_formed() {
            return Err(Error::MalformedRecord);
        }
        let players = &game.player_stats;
        let winner = game.round_info.winning_team;
        let marine_commander = get_commander(Team::Marines, players);
        let alien_commander = get_commander(Team::Aliens, players);
        let ghost ids = player_ids(players@);
        let ghost vals = game_player_totals(*game);
        let mut users: Vec<(SteamId, User)> = Vec::new();
        let mut i: usize = 0;
        while i < players.len()
            invariant
                i <= players.len(),
                game.wf(),
                players == &game.player_stats,
                winner == game.round_info.winning_team,
                ids == player_ids(players@),
                vals == game_player_totals(*game),
                ids.no_duplicates(),
                users@.len() == i,
                marine_commander matches Some(m) ==> is_commander(
                    players@,
                    Team::Marines,
                    m as int,
                ),
                alien_commander matches Some(m) ==> is_commander(
                    players@,
                    Team::Aliens,
                    m as int,
                ),
                marine_commander is None ==> players.len() == 0,
                alien_commander is None ==> players.len() == 0,
                forall|k: int|
                    0 <= k < i ==> (#[trigger] users[k]).0 == ids[k] && users[k].1@ == vals[k],
            decreases players.len() - i,
        {
            let leads_marines = match marine_commander {
                Some(m) => m == i,
                None => false,
            };
            let leads_aliens = match alien_commander {
                Some(m) => m == i,
                None => false,
            };
            match User::of_player(&players[i], winner, leads_marines, leads_aliens) {
                Some(user) => {
                    users.push((players[i].steam_id, user));
                },
                None => {
                    proof {
                        lemma_keyed_at(ids, vals, i as int);
                    }
                    return Err(Error::CounterOverflow);
                },
            }
            i += 1;
        }
        let mut maps: Vec<(String, MapStats)> = Vec::new();
        let ghost none = maps@;
        maps.push((game.round_info.map_name.clone(), MapStats::of_winner(winner)));
        let tally = MapStats::of_winner(winner);
        proof {
            assert(entry_ids(users@) =~= ids);
            lemma_keyed_push(
                entry_names(none),
                entry_maps(none),
                game.round_info.map_name@,
                tally@,
            );
            assert(entry_names(maps@) =~= entry_names(none).push(game.round_info.map_name@));
            assert(entry_maps(maps@) =~= entry_maps(none).push(tally@));
        }
        let r = NS2Stats {
            latest_game: game.round_info.round_date,
            users,
            maps,
            total_games: tally.total_games,
            marine_wins: tally.marine_wins,
            alien_wins: tally.alien_wins,
        };
        Ok(r)
    }

    /// The merge of two snapshots: every counter summed, players and maps joined by their
    /// keys, the later of the two latest dates; `CounterOverflow` where 32 bits cannot
    /// hold one of the sums.
    pub fn merge(self, other: &NS2Stats) -> (r: Result<NS2Stats, Error>)
        ensures
            r is Ok <==> self@.plus(other@).fits(),
            r matches Ok(s) ==> s@ == self@.plus(other@) && s@.consistent(),
            r matches Err(e) ==> e == Error::CounterOverflow,
    {
        proof {
            use_type_invariant(&self);
            use_type_invariant(other);
        }
        let latest_game = if self.latest_game >= other.latest_game {
            self.latest_game
        } else {
            other.latest_game
        };
        let total_games = match self.total_games.checked_add(other.total_games) {
            Some(n) => n,
            None => {
                return Err(Error::CounterOverflow);
            },
        };
        let marine_wins = match self.marine_wins.checked_add(other.marine_wins) {
            Some(n) => n,
            None => {
                return Err(Error::CounterOverflow);
            },
        };
        let alien_wins = match self.alien_wins.checked_add(other.alien_wins) {
            Some(n) => n,
            None => {
                return Err(Error::CounterOverflow);
            },
        };
        let users = match merge_user_lists(self.users, &other.users) {
            Some(l) => l,
            None => {
                return Err(Error::CounterOverflow);
            },
        };
        let maps = match merge_map_lists(self.maps, &other.maps) {
            Some(l) => l,
            None => {
                return Err(Error::CounterOverflow);
            },
        };
        let r = NS2Stats { latest_game, users, maps, total_games, marine_wins, alien_wins };
        Ok(r)
    }

    /// The numbers of a sequence of matches: those of each match, merged one after the
    /// other. No match gives the numbers that are all zero. Records whose players are not
    /// in order are refused with `MalformedRecord`; `CounterOverflow` says that 32 bits
    /// cannot hold one of the numbers. In the result every total of every player is
    /// what the player's two sides have together.
    pub fn compute(games: &Vec<GameStats>) -> (r: Result<NS2Stats, Error>)
        ensures
            r is Ok <==> all_well_formed(games@) && compute_totals(games@).fits(),
            r matches Ok(s) ==> s@ == compute_totals(games@) && s@.consistent(),
            r matches Err(e) ==> e == if all_well_formed(games@) {
                Error::CounterOverflow
            } else {
                Error::MalformedRecord
            },
    {
        if !are_well_formed(games) {
            return Err(Error::MalformedRecord);
        }
        let mut acc = NS2Stats::new();
        let mut i: usize = 0;
        while i < games.len()
            invariant
                i <= games.len(),
                acc@ == compute_totals(games@.take(i as int)),
                acc@.fits(),
                acc@.consistent(),
                all_well_formed(games@),
            decreases games.len() - i,
        {
            proof {
                assert(games@.take(i + 1).drop_last() =~= games@.take(i as int));
                if compute_totals(games@).fits() {
                    lemma_compute_prefix_fits(games@, i as int);
                    lemma_compute_prefix_fits(games@, i + 1);
                }
            }
            let one = match NS2Stats::of_game(&games[i]) {
                Ok(s) => s,
                Err(e) => {
                    return Err(e);
                },
            };
            acc = match acc.merge(&one) {
                Ok(s) => s,
                Err(e) => {
                    return Err(e);
                },
            };
            i += 1;
        }
        proof {
            assert(games@.take(i as int) =~= games@);
        }
        Ok(acc)
    }

    /// A second snapshot with the same numbers.
    pub fn duplicate(&self) -> (r: NS2Stats)
        ensures
            r@ == self@,
    {
        proof {
            use_type_invariant(self);
        }
        NS2Stats::new().merge(self).unwrap()
    }

    /// The date of the latest match.
    pub fn latest_game(&self) -> (r: u32)
        ensures
            r == self@.latest_game,
    {
        self.latest_game
    }

    /// The number of matches.
    pub fn total_games(&self) -> (r: u32)
        ensures
            r == self@.total_games,
    {
        self.total_games
    }

    /// The number of matches that the marines won.
    pub fn marine_wins(&self) -> (r: u32)
        ensures
            r == self@.marine_wins,
    {
        self.marine_wins
    }

    /// The number of matches that the aliens won.
    pub fn alien_wins(&self) -> (r: u32)
        ensures
            r == self@.alien_wins,
    {
        self.alien_wins
    }

    /// The players' numbers, each player once.
    pub fn users(&self) -> (r: &Vec<(SteamId, User)>)
        ensures
            entry_ids(r@).no_duplicates(),
            users_view(r@) == self@.players,
    {
        proof {
            use_type_invariant(self);
        }
        &self.users
    }

    /// The maps' numbers, each map once.
    pub fn maps(&self) -> (r: &Vec<(String, MapStats)>)
        ensures
            entry_names(r@).no_duplicates(),
            maps_view(r@) == self@.maps,
    {
        proof {
            use_type_invariant(self);
        }
        &self.maps
    }

    /// The numbers of player `id`; `UnknownPlayer` where the snapshot holds none.
    pub fn user(&self, id: SteamId) -> (r: Result<User, Error>)
        ensures
            r is Ok <==> self@.players.dom().contains(id),
            r matches Ok(u) ==> u@ == self@.players[id] && u@.consistent(),
            r matches Err(e) ==> e == Error::UnknownPlayer,
    {
        proof {
            use_type_invariant(self);
        }
        match find_user(&self.users, id) {
            Some(i) => {
                proof {
                    lemma_keyed_at(entry_ids(self.users@), entry_users(self.users@), i as int);
                }
                Ok(self.users[i].1)
            },
            None => Err(Error::UnknownPlayer),
        }
    }

    /// The numbers of the map called `name`, where the snapshot holds any.
    pub fn map(&self, name: &String) -> (r: Option<MapStats>)
        ensures
            r is Some <==> self@.maps.dom().contains(name@),
            r matches Some(m) ==> m@ == self@.maps[name@],
    {
        proof {
            use_type_invariant(self);
        }
        match find_map(&self.maps, name) {
            Some(i) => {
                proof {
                    lemma_keyed_at(entry_names(self.maps@), entry_maps(self.maps@), i as int);
                }
                Some(self.maps[i].1)
            },
            None => None,
        }
    }
}

} // verus!
