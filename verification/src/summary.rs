//! A short account of one match: who played on which side, who commanded, and how the
//! number of resource towers of each side went.

use crate::aggregate::{get_commander, is_commander};
use crate::error::Error;
use crate::input_types;
use crate::input_types::{Building, Event, GameStats, Millis, PlayerStat, PlayerTeamStats, Team};
use vstd::prelude::*;
use vstd::std_specs::convert::FromSpecImpl;
use vstd::string::StringExecFns;

verus! {

/// What one player did on the side the player is credited to.
#[derive(Clone, Copy, Debug, PartialEq, Eq, Structural)]
pub struct PlayerSummary {
    pub kills: u32,
    pub assists: u32,
    pub deaths: u32,
    pub score: u32,
    pub hits: u32,
    pub misses: u32,
}

/// One side of a match.
#[derive(Clone, Debug, PartialEq, Eq)]
pub struct TeamSummary {
    /// The players credited to the side with their names, in ascending order of their
    /// identifiers.
    pub players: Vec<(String, PlayerSummary)>,
    /// The name of the commander, if there is one.
    pub commander: Option<String>,
    /// The times at which the number of resource towers changed, each with the number it
    /// changed to.
    pub rt_graph: Vec<(Millis, u32)>,
}

impl TeamSummary {
    /// Whether `player` is the name of the commander.
    pub fn is_commander(&self, player: &String) -> (r: bool)
        ensures
            r == (self.commander matches Some(name) && name@ == player@),
    {
        match &self.commander {
            Some(name) => *name == *player,
            None => false,
        }
    }
}

/// The side that won a match, if any.
#[derive(Clone, Copy, Debug, PartialEq, Eq, Structural)]
pub enum WinningTeam {
    /// Neither side won.
    Neither,
    Aliens,
    Marines,
}

impl From<input_types::WinningTeam> for WinningTeam {
    fn from(value: input_types::WinningTeam) -> (r: WinningTeam) {
        match value {
            input_types::WinningTeam::Neither => WinningTeam::Neither,
            input_types::WinningTeam::Aliens => WinningTeam::Aliens,
            input_types::WinningTeam::Marines => WinningTeam::Marines,
        }
    }
}

impl FromSpecImpl<input_types::WinningTeam> for WinningTeam {
    open spec fn obeys_from_spec() -> bool {
        true
    }

    open spec fn from_spec(value: input_types::WinningTeam) -> WinningTeam {
        reported(value)
    }
}

/// The winner of a record as the account of a match names it.
pub open spec fn reported(winner: input_types::WinningTeam) -> WinningTeam {
    match winner {
        input_types::WinningTeam::Neither => WinningTeam::Neither,
        input_types::WinningTeam::Aliens => WinningTeam::Aliens,
        input_types::WinningTeam::Marines => WinningTeam::Marines,
    }
}

/// A short account of one match.
#[derive(Clone, Debug, PartialEq, Eq)]
pub struct GameSummary {
    /// The round date in Unix time.
    pub round_date: u32,
    pub winning_team: WinningTeam,
    pub round_length: Millis,
    pub map_name: String,
    pub aliens: TeamSummary,
    pub marines: TeamSummary,
}

/// What the building of a resource tower is called on each side.
pub open spec fn tower_name(team: Team) -> Seq<char> {
    match team {
        Team::Aliens => "Harvester"@,
        Team::Marines => "Extractor"@,
    }
}

/// An entry of the buildings that changes the number of resource towers of `team`: a
/// finished tower of the team that was built, destroyed or recycled.
pub open spec fn is_tower_event(building: Building, team: Team) -> bool {
    &&& building.team == team
    &&& building.built
    &&& building.tech_id@ == tower_name(team)
    &&& (building.event == Some(Event::Built) || building.event == Some(Event::Destroyed)
        || building.event == Some(Event::Recycled))
}

/// The number of resource towers of `team` after the first `upto` entries of the
/// buildings: one more for every tower built, one fewer for every tower lost.
pub open spec fn towers(buildings: Seq<Building>, team: Team, upto: int) -> int
    decreases upto,
{
    if upto <= 0 {
        0
    } else {
        let before = towers(buildings, team, upto - 1);
        let building = buildings[upto - 1];
        if !is_tower_event(building, team) {
            before
        } else if building.event == Some(Event::Built) {
            before + 1
        } else {
            before - 1
        }
    }
}

/// The changes of the number of resource towers of `team` among the first `upto`
/// entries of the buildings: the time of each with the number after it.
pub open spec fn tower_steps(buildings: Seq<Building>, team: Team, upto: int) -> Seq<
    (Millis, int),
>
    decreases upto,
{
    if upto <= 0 {
        Seq::empty()
    } else {
        let before = tower_steps(buildings, team, upto - 1);
        if is_tower_event(buildings[upto - 1], team) {
            before.push((buildings[upto - 1].game_time, towers(buildings, team, upto)))
        } else {
            before
        }
    }
}

/// The course of the number of resource towers of `team`: its changes and, where there
/// is any, the last number once more at the end of the round.
pub open spec fn tower_graph(buildings: Seq<Building>, team: Team, round_length: Millis) -> Seq<
    (Millis, int),
> {
    let steps = tower_steps(buildings, team, buildings.len() as int);
    if steps.len() > 0 {
        steps.push((round_length, steps.last().1))
    } else {
        steps
    }
}

/// Every number of the course can be held in 32 bits without a sign.
pub open spec fn countable(steps: Seq<(Millis, int)>) -> bool {
    forall|k: int| 0 <= k < steps.len() ==> 0 <= (#[trigger] steps[k]).1 <= u32::MAX
}

/// A course of numbers as integers.
pub open spec fn graph_view(graph: Seq<(Millis, u32)>) -> Seq<(Millis, int)> {
    graph.map_values(|e: (Millis, u32)| (e.0, e.1 as int))
}

/// Whether an entry of the buildings changes the number of resource towers of `team`.
fn changes_towers(building: &Building, team: Team, name: &String) -> (r: bool)
    requires
        name@ == tower_name(team),
    ensures
        r == is_tower_event(*building, team),
{
    let relevant = match building.event {
        Some(Event::Built) => true,
        Some(Event::Destroyed) => true,
        Some(Event::Recycled) => true,
        _ => false,
    };
    building.team == team && building.built && building.tech_id == *name && relevant
}

/// The course of the number of resource towers of `team`; `None` where the number would
/// fall below zero or grow beyond what 32 bits hold.
pub fn compute_rt_graph(team: Team, buildings: &Vec<Building>, round_length: Millis) -> (r:
    Option<Vec<(Millis, u32)>>)
    ensures
        r is Some <==> countable(tower_steps(buildings@, team, buildings.len() as int)),
        r matches Some(graph) ==> graph_view(graph@) == tower_graph(
            buildings@,
            team,
            round_length,
        ),
{
    let name = match team {
        Team::Aliens => String::from_str("Harvester"),
        Team::Marines => String::from_str("Extractor"),
    };
    let mut graph: Vec<(Millis, u32)> = Vec::new();
    let mut count: u32 = 0;
    let mut i: usize = 0;
    while i < buildings.len()
        invariant
            i <= buildings.len(),
            name@ == tower_name(team),
            count == towers(buildings@, team, i as int),
            graph_view(graph@) == tower_steps(buildings@, team, i as int),
        decreases buildings.len() - i,
    {
        if changes_towers(&buildings[i], team, &name) {
            let built = match buildings[i].event {
                Some(Event::Built) => true,
                _ => false,
            };
            let ghost steps = tower_steps(buildings@, team, i + 1);
            let ghost last = (buildings[i as int].game_time, towers(buildings@, team, i + 1));
            if built {
                if count == u32::MAX {
                    proof {
                        lemma_steps_prefix(buildings@, team, i + 1, buildings.len() as int);
                        assert(steps[steps.len() - 1] == last);
                    }
                    return None;
                }
                count = count + 1;
            } else {
                if count == 0 {
                    proof {
                        lemma_steps_prefix(buildings@, team, i + 1, buildings.len() as int);
                        assert(steps[steps.len() - 1] == last);
                    }
                    return None;
                }
                count = count - 1;
            }
            graph.push((buildings[i].game_time, count));
        }
        i += 1;
    }
    proof {
        let steps = tower_steps(buildings@, team, buildings.len() as int);
        assert forall|k: int| 0 <= k < steps.len() implies 0 <= (#[trigger] steps[k]).1
            <= u32::MAX by {
            assert(graph_view(graph@)[k] == steps[k]);
        }
    }
    if graph.len() > 0 {
        let last = graph[graph.len() - 1].1;
        graph.push((round_length, last));
    }
    Some(graph)
}

/// The changes among fewer entries are the first of the changes among more.
pub proof fn lemma_steps_prefix(buildings: Seq<Building>, team: Team, fewer: int, more: int)
    requires
        0 <= fewer <= more,
    ensures
        tower_steps(buildings, team, fewer).len() <= tower_steps(buildings, team, more).len(),
        forall|k: int|
            0 <= k < tower_steps(buildings, team, fewer).len() ==> tower_steps(
                buildings,
                team,
                more,
            )[k] == #[trigger] tower_steps(buildings, team, fewer)[k],
    decreases more,
{
    if fewer < more {
        lemma_steps_prefix(buildings, team, fewer, more - 1);
    }
}

/// What a player did on one side, in short.
pub open spec fn summary_of(stats: PlayerTeamStats) -> PlayerSummary {
    PlayerSummary {
        kills: stats.kills,
        assists: stats.assists,
        deaths: stats.deaths,
        score: stats.score,
        hits: stats.hits,
        misses: stats.misses,
    }
}

/// The players that are credited to `team`, in their order.
pub open spec fn members(players: Seq<PlayerStat>, team: Team) -> Seq<PlayerStat> {
    players.filter(|p: PlayerStat| p.attribution() == team)
}

/// `listed` holds the name of each of `players` and what the player did on `team`.
pub open spec fn lists(
    players: Seq<PlayerStat>,
    team: Team,
    listed: Seq<(String, PlayerSummary)>,
) -> bool {
    &&& listed.len() == players.len()
    &&& forall|k: int|
        0 <= k < listed.len() ==> (#[trigger] listed[k]).0@ == players[k].player_name@
            && listed[k].1 == summary_of(players[k].side(team))
}

/// `name` is the name of the commander of `team`, if the match has players.
pub open spec fn names_commander(players: Seq<PlayerStat>, team: Team, name: Option<String>) -> bool {
    match name {
        None => players.len() == 0,
        Some(name) => exists|i: int| #[trigger]
            is_commander(players, team, i) && name@ == players[i].player_name@,
    }
}

/// `summary` is the account of `team` in `game`.
pub open spec fn describes(game: GameStats, team: Team, summary: TeamSummary) -> bool {
    &&& lists(members(game.player_stats@, team), team, summary.players@)
    &&& names_commander(game.player_stats@, team, summary.commander)
    &&& graph_view(summary.rt_graph@) == tower_graph(
        game.buildings@,
        team,
        game.round_info.round_length,
    )
}

/// The account of one side of a match; `None` where the number of its resource towers
/// would fall below zero or grow beyond what 32 bits hold.
pub fn summarize_team(game: &GameStats, team: Team) -> (r: Option<TeamSummary>)
    ensures
        r is Some <==> countable(
            tower_steps(game.buildings@, team, game.buildings.len() as int),
        ),
        r matches Some(s) ==> describes(*game, team, s),
{
    let rt_graph = compute_rt_graph(team, &game.buildings, game.round_info.round_length)?;
    let all = &game.player_stats;
    let ghost pred = |p: PlayerStat| p.attribution() == team;
    let mut players: Vec<(String, PlayerSummary)> = Vec::new();
    let mut i: usize = 0;
    proof {
        reveal(Seq::filter);
    }
    while i < all.len()
        invariant
            i <= all.len(),
            pred == |p: PlayerStat| p.attribution() == team,
            lists(all@.take(i as int).filter(pred), team, players@),
        decreases all.len() - i,
    {
        let player = &all[i];
        proof {
            assert(all@.take(i + 1) =~= all@.take(i as int).push(*player));
            all@.take(i as int).lemma_filter_push(*player, pred);
        }
        if player.team() == team {
            let stats = player.stats(team);
            players.push(
                (
                    player.player_name.clone(),
                    PlayerSummary {
                        kills: stats.kills,
                        assists: stats.assists,
                        deaths: stats.deaths,
                        score: stats.score,
                        hits: stats.hits,
                        misses: stats.misses,
                    },
                ),
            );
        }
        i += 1;
    }
    proof {
        assert(all@.take(i as int) =~= all@);
    }
    let commander = match get_commander(team, all) {
        Some(at) => Some(all[at].player_name.clone()),
        None => None,
    };
    Some(TeamSummary { players, commander, rt_graph })
}

/// The account of a match; `CounterOverflow` where the number of resource towers of a
/// side would fall below zero or grow beyond what 32 bits hold.
pub fn summarize_game(game: &GameStats) -> (r: Result<GameSummary, Error>)
    ensures
        r is Ok <==> countable(
            tower_steps(game.buildings@, Team::Aliens, game.buildings.len() as int),
        ) && countable(tower_steps(game.buildings@, Team::Marines, game.buildings.len() as int)),
        r matches Err(e) ==> e == Error::CounterOverflow,
        r matches Ok(s) ==> {
            &&& s.round_date == game.round_info.round_date
            &&& s.winning_team == reported(game.round_info.winning_team)
            &&& s.round_length == game.round_info.round_length
            &&& s.map_name@ == game.round_info.map_name@
            &&& describes(*game, Team::Aliens, s.aliens)
            &&& describes(*game, Team::Marines, s.marines)
        },
{
    let aliens = match summarize_team(game, Team::Aliens) {
        Some(t) => t,
        None => {
            return Err(Error::CounterOverflow);
        },
    };
    let marines = match summarize_team(game, Team::Marines) {
        Some(t) => t,
        None => {
            return Err(Error::CounterOverflow);
        },
    };
    Ok(
        GameSummary {
            round_date: game.round_info.round_date,
            winning_team: WinningTeam::from(game.round_info.winning_team),
            round_length: game.round_info.round_length,
            map_name: game.round_info.map_name.clone(),
            aliens,
            marines,
        },
    )
}

} // verus!
