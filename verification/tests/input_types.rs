use ns2_stat::input_types::{GameStats, PlayerStat, PlayerTeamStats, Team, WinningTeam};

fn named(id: i64, name: &str) -> PlayerStat {
    PlayerStat::new(id, name.to_string())
}

#[test]
fn a_new_player_has_done_nothing() {
    let p = named(7, "seven");
    assert_eq!(p.steam_id, 7);
    assert_eq!(p.player_name, "seven");
    assert_eq!(p.marines, PlayerTeamStats::new());
    assert_eq!(p.aliens.kills, 0);
    assert_eq!(p.aliens.time_played, 0);
}

#[test]
fn players_are_kept_in_order_of_their_identifiers() {
    let mut g = GameStats::new(5, "ns2_tram".to_string(), WinningTeam::Neither, 1);
    assert!(g.is_well_formed());
    g.add_player(named(30, "c"));
    g.add_player(named(-10, "a"));
    g.add_player(named(20, "b"));
    let ids: Vec<i64> = g.player_stats.iter().map(|p| p.steam_id).collect();
    assert_eq!(ids, vec![-10, 20, 30]);
    assert!(g.is_well_formed());
    assert_eq!(g.round_info.round_date, 5);
    assert_eq!(g.round_info.map_name, "ns2_tram");
}

#[test]
fn a_player_with_a_known_identifier_is_replaced() {
    let mut g = GameStats::new(5, "ns2_tram".to_string(), WinningTeam::Neither, 1);
    g.add_player(named(1, "old"));
    g.add_player(named(2, "other"));
    g.add_player(named(1, "new"));
    assert_eq!(g.player_stats.len(), 2);
    assert_eq!(g.player_stats[0].player_name, "new");
    assert_eq!(g.player_stats[1].player_name, "other");
}

#[test]
fn a_record_out_of_order_takes_no_player() {
    let mut g = GameStats::new(5, "ns2_tram".to_string(), WinningTeam::Neither, 1);
    assert!(g.add_player(named(2, "b")));
    g.player_stats.push(named(1, "a"));
    let before = g.clone();
    assert!(!g.add_player(named(3, "c")));
    assert_eq!(g, before);
}

#[test]
fn a_record_out_of_order_is_not_well_formed() {
    let mut g = GameStats::new(5, "ns2_tram".to_string(), WinningTeam::Neither, 1);
    g.player_stats.push(named(2, "b"));
    g.player_stats.push(named(1, "a"));
    assert!(!g.is_well_formed());
    let mut h = GameStats::new(5, "ns2_tram".to_string(), WinningTeam::Neither, 1);
    h.player_stats.push(named(1, "a"));
    h.player_stats.push(named(1, "a"));
    assert!(!h.is_well_formed());
}

#[test]
fn the_longer_time_decides_the_side_and_a_tie_goes_to_the_aliens() {
    let mut p = named(1, "p");
    p.marines.time_played = 10;
    p.aliens.time_played = 9;
    assert_eq!(p.team(), Team::Marines);
    p.aliens.time_played = 10;
    assert_eq!(p.team(), Team::Aliens);
    p.aliens.time_played = 11;
    assert_eq!(p.team(), Team::Aliens);
    p.marines.kills = 3;
    assert_eq!(p.stats(Team::Marines).kills, 3);
    assert_eq!(p.stats(Team::Aliens).kills, 0);
}

#[test]
fn the_winner_is_the_team_that_won() {
    assert!(WinningTeam::Marines.won_by(Team::Marines));
    assert!(!WinningTeam::Marines.won_by(Team::Aliens));
    assert!(WinningTeam::Aliens.won_by(Team::Aliens));
    assert!(!WinningTeam::Neither.won_by(Team::Marines));
    assert!(!WinningTeam::Neither.won_by(Team::Aliens));
}
