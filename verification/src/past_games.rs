//! The matches of the past that a given roster played: who was on which side and who
//! commanded, the longest match first.

use crate::input_types::{GameStats, Millis, PlayerStat, SteamId, Team, WinningTeam};
use crate::ranking::find_id;
use crate::ranking_order::{rank_order, ranking_of};
use vstd::prelude::*;

verus! {

/// One side of a past match.
#[derive(Clone, Debug, PartialEq, Eq)]
pub struct PastTeam {
    /// The player of the side who commanded it for the longest time, if any did.
    pub commander: Option<SteamId>,
    /// The players of the side, in ascending order of their identifiers.
    pub players: Vec<SteamId>,
}

/// A past match.
#[derive(Clone, Debug, PartialEq, Eq)]
pub struct PastGame {
    pub length: Millis,
    pub winner: WinningTeam,
    pub marines: PastTeam,
    pub aliens: PastTeam,
}

/// One side of a past match, with its players as a sequence.
pub struct PastTeamView {
    pub commander: Option<SteamId>,
    pub players: Seq<SteamId>,
}

/// A past match, with its players as sequences.
pub struct PastGameView {
    pub length: Millis,
    pub winner: WinningTeam,
    pub marines: PastTeamView,
    pub aliens: PastTeamView,
}

impl View for PastTeam {
    type V = PastTeamView;

    open spec fn view(&self) -> PastTeamView {
        PastTeamView { commander: self.commander, players: self.players@ }
    }
}

impl View for PastGame {
    type V = PastGameView;

    open spec fn view(&self) -> PastGameView {
        PastGameView {
            length: self.length,
            winner: self.winner,
            marines: self.marines@,
            aliens: self.aliens@,
        }
    }
}

/// The players among the first `upto` that are credited to `team`, in their order.
pub open spec fn side_players(players: Seq<PlayerStat>, team: Team, upto: int) -> Seq<SteamId>
    decreases upto,
{
    if upto <= 0 {
        Seq::empty()
    } else {
        let before = side_players(players, team, upto - 1);
        if players[upto - 1].attribution() == team {
            before.push(players[upto - 1].steam_id)
        } else {
            before
        }
    }
}

/// The position of the commander of `team` among the first `upto` players: the first
/// player of the side that commanded it for longer than every player before, and for
/// some time at all.
pub open spec fn leader(players: Seq<PlayerStat>, team: Team, upto: int) -> Option<int>
    decreases upto,
{
    if upto <= 0 {
        None
    } else {
        let before = leader(players, team, upto - 1);
        let most = match before {
            Some(at) => players[at].side(team).commander_time,
            None => 0,
        };
        if players[upto - 1].attribution() == team && players[upto - 1].side(team).commander_time
            > most {
            Some(upto - 1)
        } else {
            before
        }
    }
}

/// One side of a match as a past match has it.
pub open spec fn past_team(players: Seq<PlayerStat>, team: Team) -> PastTeamView {
    PastTeamView {
        commander: match leader(players, team, players.len() as int) {
            Some(at) => Some(players[at].steam_id),
            None => None,
        },
        players: side_players(players, team, players.len() as int),
    }
}

/// A match as a past match.
pub open spec fn past_view(game: GameStats) -> PastGameView {
    PastGameView {
        length: game.round_info.round_length,
        winner: game.round_info.winning_team,
        marines: past_team(game.player_stats@, Team::Marines),
        aliens: past_team(game.player_stats@, Team::Aliens),
    }
}

/// One side of a match as a past match has it.
pub fn past_team_of(players: &Vec<PlayerStat>, team: Team) -> (r: PastTeam)
    ensures
        r@ == past_team(players@, team),
{
    let mut list: Vec<SteamId> = Vec::new();
    let mut commander: Option<SteamId> = None;
    let mut most: Millis = 0;
    let mut i: usize = 0;
    while i < players.len()
        invariant
            i <= players.len(),
            list@ == side_players(players@, team, i as int),
            commander == match leader(players@, team, i as int) {
                Some(at) => Some(players[at].steam_id),
                None => None,
            },
            most == match leader(players@, team, i as int) {
                Some(at) => players[at].side(team).commander_time,
                None => 0,
            },
            leader(players@, team, i as int) matches Some(at) ==> 0 <= at < i,
        decreases players.len() - i,
    {
        let player = &players[i];
        if player.team() == team {
            list.push(player.steam_id);
            if player.stats(team).commander_time > most {
                most = player.stats(team).commander_time;
                commander = Some(player.steam_id);
            }
        }
        i += 1;
    }
    PastTeam { commander, players: list }
}

/// A match as a past match.
pub fn past_game(game: &GameStats) -> (r: PastGame)
    ensures
        r@ == past_view(*game),
{
    PastGame {
        length: game.round_info.round_length,
        winner: game.round_info.winning_team,
        marines: past_team_of(&game.player_stats, Team::Marines),
        aliens: past_team_of(&game.player_stats, Team::Aliens),
    }
}

/// The commander that was asked for, if one was, is the commander that was.
pub open spec fn commander_fits(asked: Option<SteamId>, was: Option<SteamId>) -> bool {
    asked matches Some(id) ==> was == Some(id)
}

/// A past match was played by the roster: by as many players as the roster has, by every
/// player of the roster, and with the commanders that were asked for.
pub open spec fn played_by(
    game: PastGameView,
    roster: Seq<SteamId>,
    marine_commander: Option<SteamId>,
    alien_commander: Option<SteamId>,
) -> bool {
    &&& roster.len() == game.marines.players.len() + game.aliens.players.len()
    &&& commander_fits(marine_commander, game.marines.commander)
    &&& commander_fits(alien_commander, game.aliens.commander)
    &&& forall|k: int|
        0 <= k < roster.len() ==> game.marines.players.contains(#[trigger] roster[k])
            || game.aliens.players.contains(roster[k])
}

/// Whether the commander that was asked for, if one was, is the commander that was.
pub fn is_commander_fit(asked: Option<SteamId>, was: Option<SteamId>) -> (r: bool)
    ensures
        r == commander_fits(asked, was),
{
    match asked {
        None => true,
        Some(id) => match was {
            Some(other) => other == id,
            None => false,
        },
    }
}

/// Whether a past match was played by the roster.
pub fn is_played_by(
    game: &PastGame,
    roster: &Vec<SteamId>,
    marine_commander: Option<SteamId>,
    alien_commander: Option<SteamId>,
) -> (r: bool)
    ensures
        r == played_by(game@, roster@, marine_commander, alien_commander),
{
    let marines = game.marines.players.len();
    let aliens = game.aliens.players.len();
    if roster.len() < marines || roster.len() - marines != aliens {
        return false;
    }
    if !is_commander_fit(marine_commander, game.marines.commander) || !is_commander_fit(
        alien_commander,
        game.aliens.commander,
    ) {
        return false;
    }
    let mut k: usize = 0;
    while k < roster.len()
        invariant
            k <= roster.len(),
            forall|j: int|
                0 <= j < k ==> game.marines.players@.contains(#[trigger] roster[j])
                    || game.aliens.players@.contains(roster[j]),
        decreases roster.len() - k,
    {
        let on_marines = find_id(&game.marines.players, roster[k]);
        let on_aliens = find_id(&game.aliens.players, roster[k]);
        if on_marines.is_none() && on_aliens.is_none() {
            return false;
        }
        k += 1;
    }
    true
}

/// The lengths of the matches.
pub open spec fn lengths(games: Seq<GameStats>) -> Seq<i64> {
    games.map_values(|g: GameStats| g.round_info.round_length as i64)
}

/// The positions of the matches that the roster played, the longest match first and of
/// equally long ones the earlier.
pub open spec fn roster_games(
    games: Seq<GameStats>,
    roster: Seq<SteamId>,
    marine_commander: Option<SteamId>,
    alien_commander: Option<SteamId>,
) -> Seq<usize> {
    ranking_of(lengths(games)).filter(
        |i: usize| played_by(past_view(games[i as int]), roster, marine_commander, alien_commander),
    )
}

/// The views of a list of past matches.
pub open spec fn past_views(list: Seq<PastGame>) -> Seq<PastGameView> {
    list.map_values(|g: PastGame| g@)
}

/// The past matches that the roster played, with the commanders that were asked for,
/// the longest match first and of equally long ones the earlier.
pub fn analyze_past_games(
    games: &Vec<GameStats>,
    roster: &Vec<SteamId>,
    marine_commander: Option<SteamId>,
    alien_commander: Option<SteamId>,
) -> (list: Vec<PastGame>)
    ensures
        past_views(list@) == roster_games(
            games@,
            roster@,
            marine_commander,
            alien_commander,
        ).map_values(|i: usize| past_view(games[i as int])),
{
    let mut times: Vec<i64> = Vec::new();
    let mut i: usize = 0;
    while i < games.len()
        invariant
            i <= games.len(),
            times@ == lengths(games@).take(i as int),
        decreases games.len() - i,
    {
        times.push(games[i].round_info.round_length as i64);
        i += 1;
    }
    proof {
        assert(times@ =~= lengths(games@));
    }
    let order = rank_order(&times);
    let ghost pred = |i: usize|
        played_by(past_view(games[i as int]), roster@, marine_commander, alien_commander);
    let ghost show = |i: usize| past_view(games[i as int]);
    let mut list: Vec<PastGame> = Vec::new();
    let mut k: usize = 0;
    proof {
        reveal(Seq::filter);
    }
    while k < order.len()
        invariant
            k <= order.len(),
            order.len() == games.len(),
            forall|j: int| 0 <= j < order.len() ==> (#[trigger] order[j]) < games.len(),
            pred == |i: usize|
                played_by(past_view(games[i as int]), roster@, marine_commander, alien_commander),
            show == |i: usize| past_view(games[i as int]),
            past_views(list@) == order@.take(k as int).filter(pred).map_values(show),
        decreases order.len() - k,
    {
        let at = order[k];
        let game = past_game(&games[at]);
        let ghost seen = order@.take(k as int);
        proof {
            assert(order@.take(k + 1) =~= seen.push(at));
            seen.lemma_filter_push(at, pred);
        }
        if is_played_by(&game, roster, marine_commander, alien_commander) {
            list.push(game);
            proof {
                assert(seen.filter(pred).push(at).map_values(show) =~= seen.filter(
                    pred,
                ).map_values(show).push(show(at)));
            }
        }
        k += 1;
    }
    proof {
        assert(order@.take(k as int) =~= order@);
    }
    list
}

} // verus!
