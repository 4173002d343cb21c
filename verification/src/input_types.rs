//! The record of one completed match, as the loader hands it to the library.
//!
//! Every duration is a whole number of milliseconds. The players of a match are kept in a
//! vector ordered by their identifier, so that walking them is the same on every run.

use vstd::prelude::*;

verus! {

/// The stable identifier of a player.
pub type SteamId = i64;

/// An index into the location names of a match.
pub type Location = usize;

/// A duration or a point in game time, in milliseconds.
pub type Millis = u32;

/// One of the two sides of a match.
#[derive(Clone, Copy, Debug, PartialEq, Eq, Hash, Structural)]
pub enum Team {
    Marines,
    Aliens,
}

/// The side that won a match, if any.
#[derive(Clone, Copy, Debug, PartialEq, Eq, Hash, Structural)]
pub enum WinningTeam {
    /// Neither side won.
    Neither,
    Marines,
    Aliens,
}

impl WinningTeam {
    /// Whether `team` won.
    pub open spec fn is_team(self, team: Team) -> bool {
        match team {
            Team::Marines => self == WinningTeam::Marines,
            Team::Aliens => self == WinningTeam::Aliens,
        }
    }

    /// Whether `team` won.
    pub fn won_by(self, team: Team) -> (r: bool)
        ensures
            r == self.is_team(team),
    {
        match team {
            Team::Marines => self == WinningTeam::Marines,
            Team::Aliens => self == WinningTeam::Aliens,
        }
    }
}

/// What happened to a building.
#[derive(Clone, Copy, Debug, PartialEq, Eq, Hash, Structural)]
pub enum Event {
    Built,
    Destroyed,
    Placed,
    Recycled,
    Teleported,
}

/// The class a player (or the entity credited with a kill) had.
#[derive(Clone, Copy, Debug, PartialEq, Eq, Hash, Structural)]
pub enum PlayerClass {
    CommandStation,
    Commander,
    Dead,
    DeathTrigger,
    Embryo,
    Exo,
    Fade,
    FadeEgg,
    Flamethrower,
    Gorge,
    GorgeEgg,
    GrenadeLauncher,
    HeavyMachineGun,
    Lerk,
    LerkEgg,
    Mine,
    Onos,
    OnosEgg,
    Rifle,
    Sentry,
    Shotgun,
    Skulk,
    Void,
}

/// One kill of the kill feed.
#[derive(Clone, Debug, PartialEq, Eq)]
pub struct KillFeed {
    /// Weapon used for the kill.
    pub killer_weapon: String,
    /// The killer, where one is known.
    pub killer_steam_id: Option<SteamId>,
    pub killer_location: Option<Location>,
    /// The killer's class.
    pub killer_class: Option<PlayerClass>,
    /// Location of the entity that made the kill (grenades, turrets, hydras).
    pub doer_location: Option<Location>,
    /// Team that got awarded this kill.
    pub killer_team: Team,
    pub victim_location: Option<Location>,
    pub victim_steam_id: SteamId,
    pub victim_class: PlayerClass,
    /// Game time of the kill.
    pub game_time: Millis,
}

/// A building completion, death or recycle.
#[derive(Clone, Debug, PartialEq, Eq)]
pub struct Building {
    /// Team that owns the building.
    pub team: Team,
    /// Game time at which this happened.
    pub game_time: Millis,
    /// Whether the building was completely built when this happened.
    pub built: bool,
    pub recycled: bool,
    pub destroyed: bool,
    /// Name of the building.
    pub tech_id: String,
    /// How much biomass was lost (only when a hive dies).
    pub biomass: Option<u8>,
    pub entity_id: Option<u32>,
    pub event: Option<Event>,
}

/// Catpacks dropped by a marine commander.
#[derive(Clone, Copy, Debug, PartialEq, Eq)]
pub struct Catpack {
    /// Number of catpacks picked up by players.
    pub picks: u32,
    /// Number of catpacks that were never picked up.
    pub misses: u32,
}

/// What one player did on one side during a match.
#[derive(Clone, Copy, Debug, PartialEq, Eq)]
pub struct PlayerTeamStats {
    pub kills: u32,
    pub deaths: u32,
    pub assists: u32,
    /// Player score for the round.
    pub score: u32,
    /// Time spent building.
    pub time_building: Millis,
    /// Number of attacks that hit (including Onos hits).
    pub hits: u32,
    pub onos_hits: u32,
    /// Number of attacks that missed.
    pub misses: u32,
    /// Best killstreak during the round.
    pub killstreak: u32,
    /// Time the player was on this side.
    pub time_played: Millis,
    /// Time the player spent as commander of this side.
    pub commander_time: Millis,
}

/// One player of a match.
#[derive(Clone, Debug, PartialEq, Eq)]
pub struct PlayerStat {
    pub steam_id: SteamId,
    pub marines: PlayerTeamStats,
    pub aliens: PlayerTeamStats,
    pub is_rookie: bool,
    /// Last team the player belonged to.
    pub last_team: Team,
    pub hive_skill: u32,
    pub player_name: String,
    pub commander_skill_offset: Option<i32>,
    pub commander_skill: Option<u32>,
    pub player_skill_offset: Option<i32>,
}

impl PlayerTeamStats {
    /// The numbers of a player who did nothing.
    pub open spec fn idle() -> PlayerTeamStats {
        PlayerTeamStats {
            kills: 0,
            deaths: 0,
            assists: 0,
            score: 0,
            time_building: 0,
            hits: 0,
            onos_hits: 0,
            misses: 0,
            killstreak: 0,
            time_played: 0,
            commander_time: 0,
        }
    }

    /// The numbers of a player who did nothing.
    pub fn new() -> (r: PlayerTeamStats)
        ensures
            r == PlayerTeamStats::idle(),
    {
        PlayerTeamStats {
            kills: 0,
            deaths: 0,
            assists: 0,
            score: 0,
            time_building: 0,
            hits: 0,
            onos_hits: 0,
            misses: 0,
            killstreak: 0,
            time_played: 0,
            commander_time: 0,
        }
    }
}

impl PlayerStat {
    /// A player who did nothing on either side.
    pub fn new(steam_id: SteamId, player_name: String) -> (r: PlayerStat)
        ensures
            r.steam_id == steam_id,
            r.player_name@ == player_name@,
            r.marines == PlayerTeamStats::idle(),
            r.aliens == PlayerTeamStats::idle(),
    {
        PlayerStat {
            steam_id,
            marines: PlayerTeamStats::new(),
            aliens: PlayerTeamStats::new(),
            is_rookie: false,
            last_team: Team::Marines,
            hive_skill: 0,
            player_name,
            commander_skill_offset: None,
            commander_skill: None,
            player_skill_offset: None,
        }
    }

    /// The player's numbers on `team`.
    pub open spec fn side(self, team: Team) -> PlayerTeamStats {
        match team {
            Team::Marines => self.marines,
            Team::Aliens => self.aliens,
        }
    }

    /// The player's numbers on `team`.
    pub fn stats(&self, team: Team) -> (r: &PlayerTeamStats)
        ensures
            *r == self.side(team),
    {
        match team {
            Team::Marines => &self.marines,
            Team::Aliens => &self.aliens,
        }
    }

    /// The side the player is credited to: the one played on for longer, the aliens
    /// where both times are equal.
    pub open spec fn attribution(self) -> Team {
        if self.marines.time_played > self.aliens.time_played {
            Team::Marines
        } else {
            Team::Aliens
        }
    }

    /// The side the player is credited to.
    pub fn team(&self) -> (r: Team)
        ensures
            r == self.attribution(),
    {
        if self.marines.time_played > self.aliens.time_played {
            Team::Marines
        } else {
            Team::Aliens
        }
    }
}

#[derive(Clone, Debug, PartialEq, Eq)]
pub struct MinimapExtents {
    pub origin: String,
    pub scale: String,
}

/// Where each side started.
#[derive(Clone, Copy, Debug, PartialEq, Eq)]
pub struct StartingLocations {
    pub marines: Location,
    pub aliens: Location,
}

#[derive(Clone, Debug, PartialEq, Eq)]
pub struct RoundInfo {
    /// Unix time of the round.
    pub round_date: u32,
    /// The largest number of marine players during the round.
    pub max_players_marines: u32,
    /// The largest number of alien players during the round.
    pub max_players_aliens: u32,
    pub minimap_extents: MinimapExtents,
    pub starting_locations: StartingLocations,
    pub winning_team: WinningTeam,
    pub tournament_mode: bool,
    /// How long the round took.
    pub round_length: Millis,
    /// Name of the map played.
    pub map_name: String,
}

#[derive(Clone, Debug, PartialEq, Eq)]
pub struct Mod {
    pub mod_id: String,
    pub name: String,
}

#[derive(Clone, Debug, PartialEq, Eq)]
pub struct ServerInfo {
    /// The mods active on the server.
    pub mods: Vec<Mod>,
    pub slots: u32,
    pub rookie_only: bool,
    pub build_number: u32,
    pub ip: String,
    pub name: String,
    pub port: u16,
}

/// One completed match.
#[derive(Clone, Debug, PartialEq, Eq)]
pub struct GameStats {
    pub kill_feed: Vec<KillFeed>,
    /// The location names; the locations elsewhere are indices into this vector.
    pub locations: Vec<String>,
    pub buildings: Vec<Building>,
    /// The players, in strictly ascending order of their identifiers.
    pub player_stats: Vec<PlayerStat>,
    pub round_info: RoundInfo,
    pub server_info: ServerInfo,
    /// Catpack numbers of the marine commanders, with their names.
    pub marine_comm_stats: Vec<(String, Catpack)>,
}

/// Whether the players stand in strictly ascending order of their identifiers.
pub open spec fn ordered_by_id(players: Seq<PlayerStat>) -> bool {
    forall|i: int, j: int|
        0 <= i < j < players.len() ==> (#[trigger] players[i]).steam_id < (
        #[trigger] players[j]).steam_id
}

/// Whether one of the players has the identifier `id`.
pub open spec fn has_player(players: Seq<PlayerStat>, id: SteamId) -> bool {
    exists|i: int| 0 <= i < players.len() && (#[trigger] players[i]).steam_id == id
}

impl GameStats {
    /// A match of which only the date, the map, the winner and the length are known.
    pub fn new(round_date: u32, map_name: String, winning_team: WinningTeam, round_length: Millis) -> (r: GameStats)
        ensures
            r.wf(),
            r.round_info.round_date == round_date,
            r.round_info.map_name@ == map_name@,
            r.round_info.winning_team == winning_team,
            r.round_info.round_length == round_length,
            r.player_stats@.len() == 0,
            r.kill_feed@.len() == 0,
            r.buildings@.len() == 0,
    {
        GameStats {
            kill_feed: Vec::new(),
            locations: Vec::new(),
            buildings: Vec::new(),
            player_stats: Vec::new(),
            round_info: RoundInfo {
                round_date,
                max_players_marines: 0,
                max_players_aliens: 0,
                minimap_extents: MinimapExtents { origin: String::new(), scale: String::new() },
                starting_locations: StartingLocations { marines: 0, aliens: 0 },
                winning_team,
                tournament_mode: false,
                round_length,
                map_name,
            },
            server_info: ServerInfo {
                mods: Vec::new(),
                slots: 0,
                rookie_only: false,
                build_number: 0,
                ip: String::new(),
                name: String::new(),
                port: 0,
            },
            marine_comm_stats: Vec::new(),
        }
    }

    /// Puts a player into the record at the place of its identifier; a player that the
    /// record holds under the same identifier is replaced. A record that is not well
    /// formed is left as it is, and the result says so.
    pub fn add_player(&mut self, player: PlayerStat) -> (done: bool)
        ensures
            done == old(self).wf(),
            !done ==> *final(self) == *old(self),
            done ==> final(self).wf(),
            done ==> forall|id: SteamId|
                has_player(final(self).player_stats@, id) <==> has_player(
                    old(self).player_stats@,
                    id,
                ) || id == player.steam_id,
            done ==> forall|i: int|
                0 <= i < final(self).player_stats.len() ==> #[trigger] final(self).player_stats[i]
                    == player || (exists|k: int|
                    0 <= k < old(self).player_stats.len() && old(self).player_stats[k]
                        == final(self).player_stats[i]),
            done ==> exists|i: int|
                0 <= i < final(self).player_stats.len() && final(self).player_stats[i] == player,
            final(self).kill_feed == old(self).kill_feed,
            final(self).locations == old(self).locations,
            final(self).buildings == old(self).buildings,
            final(self).round_info == old(self).round_info,
            final(self).server_info == old(self).server_info,
            final(self).marine_comm_stats == old(self).marine_comm_stats,
    {
        if !self.is_well_formed() {
            return false;
        }
        let ghost start = self.player_stats@;
        let id = player.steam_id;
        let mut p: usize = 0;
        while p < self.player_stats.len() && self.player_stats[p].steam_id < id
            invariant
                p <= self.player_stats.len(),
                *self == *old(self),
                self.player_stats@ == start,
                ordered_by_id(start),
                forall|i: int| 0 <= i < p ==> (#[trigger] start[i]).steam_id < id,
            decreases self.player_stats.len() - p,
        {
            p += 1;
        }
        if p < self.player_stats.len() && self.player_stats[p].steam_id == id {
            self.player_stats.set(p, player);
            proof {
                let end = self.player_stats@;
                assert(end[p as int] == player);
                assert forall|i: int| 0 <= i < end.len() && i != p implies end[i] == start[i] by {}
                assert forall|i: int, j: int| 0 <= i < j < end.len() implies (
                #[trigger] end[i]).steam_id < (#[trigger] end[j]).steam_id by {
                    assert(start[i].steam_id < start[j].steam_id);
                }
                assert forall|x: SteamId|
                    has_player(end, x) <==> has_player(start, x) || x == id by {
                    if has_player(end, x) {
                        let i = choose|i: int|
                            0 <= i < end.len() && (#[trigger] end[i]).steam_id == x;
                        assert(start[i].steam_id == x);
                    }
                    if has_player(start, x) {
                        let i = choose|i: int|
                            0 <= i < start.len() && (#[trigger] start[i]).steam_id == x;
                        assert(end[i].steam_id == x);
                    }
                }
            }
        } else {
            self.player_stats.insert(p, player);
            proof {
                let end = self.player_stats@;
                assert(end.len() == start.len() + 1);
                assert(end[p as int] == player);
                assert forall|i: int| 0 <= i < p implies end[i] == start[i] by {}
                assert forall|i: int| p < i < end.len() implies end[i] == start[i - 1] by {}
                assert forall|i: int, j: int| 0 <= i < j < end.len() implies (
                #[trigger] end[i]).steam_id < (#[trigger] end[j]).steam_id by {
                    if j > p && i != p {
                        if i < p {
                            if j - 1 > i {
                                assert(start[i].steam_id < start[j - 1].steam_id);
                            }
                        } else {
                            assert(start[i - 1].steam_id < start[j - 1].steam_id);
                        }
                    } else if i == p {
                        if j - 1 > p {
                            assert(start[p as int].steam_id < start[j - 1].steam_id);
                        }
                    }
                }
                assert forall|x: SteamId|
                    has_player(end, x) <==> has_player(start, x) || x == id by {
                    if has_player(end, x) {
                        let i = choose|i: int|
                            0 <= i < end.len() && (#[trigger] end[i]).steam_id == x;
                        if i < p {
                            assert(start[i].steam_id == x);
                        } else if i > p {
                            assert(start[i - 1].steam_id == x);
                        }
                    }
                    if has_player(start, x) {
                        let i = choose|i: int|
                            0 <= i < start.len() && (#[trigger] start[i]).steam_id == x;
                        if i < p {
                            assert(end[i].steam_id == x);
                        } else {
                            assert(end[i + 1].steam_id == x);
                        }
                    }
                }
                assert forall|i: int| 0 <= i < end.len() implies #[trigger] end[i] == player || (
                exists|k: int| 0 <= k < start.len() && start[k] == end[i]) by {
                    if i < p {
                        assert(start[i] == end[i]);
                    } else if i > p {
                        assert(start[i - 1] == end[i]);
                    }
                }
            }
        }
        true
    }

    /// A record is well formed when no player occurs twice and the players are in order.
    pub open spec fn wf(self) -> bool {
        ordered_by_id(self.player_stats@)
    }

    /// Tests whether the record is well formed.
    pub fn is_well_formed(&self) -> (r: bool)
        ensures
            r == self.wf(),
    {
        let n = self.player_stats.len();
        if n == 0 {
            return true;
        }
        let mut i: usize = 1;
        while i < n
            invariant
                1 <= i <= n,
                n == self.player_stats.len(),
                forall|a: int, b: int|
                    0 <= a < b < i ==> (#[trigger] self.player_stats[a]).steam_id < (
                    #[trigger] self.player_stats[b]).steam_id,
            decreases n - i,
        {
            if self.player_stats[i - 1].steam_id >= self.player_stats[i].steam_id {
                return false;
            }
            i += 1;
        }
        true
    }
}

} // verus!
