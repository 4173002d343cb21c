use ns2_stat::aggregate::{get_commander, MapStats, NS2Stats, User};
use ns2_stat::error::Error;
use ns2_stat::input_types::{GameStats, PlayerStat, Team, WinningTeam};
use ns2_stat::names::{player_names, unknown_players};
use ns2_stat::stat::{Ratio, Stat};

fn player(id: i64, marine_ms: u32, alien_ms: u32) -> PlayerStat {
    let mut p = PlayerStat::new(id, format!("player{}", id));
    p.marines.time_played = marine_ms;
    p.aliens.time_played = alien_ms;
    p
}

fn scenario(date: u32, map: &str, winner: WinningTeam) -> GameStats {
    let mut g = GameStats::new(date, map.to_string(), winner, 600_000);
    for id in 1..=6 {
        g.add_player(player(id, 400_000, 0));
    }
    for id in 11..=15 {
        g.add_player(player(id, 0, 400_000));
    }
    g
}

fn stat(total: u32, marines: u32, aliens: u32) -> Stat<u32> {
    Stat { total, marines, aliens }
}

fn busy_game() -> GameStats {
    let mut g = GameStats::new(100, "ns2_summit".to_string(), WinningTeam::Aliens, 900_000);
    let mut a = player(1, 500_000, 100_000);
    a.marines.kills = 10;
    a.marines.deaths = 4;
    a.marines.assists = 3;
    a.marines.score = 120;
    a.marines.hits = 50;
    a.marines.misses = 150;
    a.marines.commander_time = 0;
    a.aliens.kills = 2;
    a.aliens.deaths = 1;
    a.aliens.assists = 1;
    a.aliens.score = 20;
    a.aliens.hits = 5;
    a.aliens.misses = 15;
    let mut b = player(2, 0, 600_000);
    b.aliens.kills = 7;
    b.aliens.deaths = 9;
    b.aliens.commander_time = 300_000;
    let mut c = player(3, 600_000, 0);
    c.marines.commander_time = 550_000;
    let mut d = player(4, 300_000, 300_000);
    d.marines.commander_time = 550_000;
    d.aliens.commander_time = 300_000;
    g.add_player(a);
    g.add_player(b);
    g.add_player(c);
    g.add_player(d);
    g
}

#[test]
fn one_genuine_match_is_one_game_on_its_map() {
    let g = scenario(1_600_000_000, "ns2_veil", WinningTeam::Marines);
    let stats = NS2Stats::compute(&vec![g]).unwrap();
    assert_eq!(stats.total_games(), 1);
    assert_eq!(stats.marine_wins(), 1);
    assert_eq!(stats.alien_wins(), 0);
    assert_eq!(stats.latest_game(), 1_600_000_000);
    assert_eq!(stats.maps().len(), 1);
    assert_eq!(
        stats.map(&"ns2_veil".to_string()),
        Some(MapStats { total_games: 1, marine_wins: 1, alien_wins: 0 })
    );
    assert_eq!(stats.map(&"ns2_tram".to_string()), None);
    assert_eq!(stats.users().len(), 11);
    let marine = stats.user(1).unwrap();
    assert_eq!(marine.games, stat(1, 1, 0));
    assert_eq!(marine.wins, stat(1, 1, 0));
    let alien = stats.user(11).unwrap();
    assert_eq!(alien.games, stat(1, 0, 1));
    assert_eq!(alien.wins, stat(0, 0, 0));
}

#[test]
fn a_match_without_a_winner_counts_for_no_side() {
    let g = scenario(10, "ns2_veil", WinningTeam::Neither);
    let stats = NS2Stats::compute(&vec![g]).unwrap();
    assert_eq!(stats.total_games(), 1);
    assert_eq!(stats.marine_wins(), 0);
    assert_eq!(stats.alien_wins(), 0);
    assert_eq!(
        stats.map(&"ns2_veil".to_string()),
        Some(MapStats { total_games: 1, marine_wins: 0, alien_wins: 0 })
    );
    assert_eq!(stats.user(1).unwrap().wins, stat(0, 0, 0));
}

#[test]
fn no_matches_give_the_numbers_that_are_all_zero() {
    let stats = NS2Stats::compute(&Vec::new()).unwrap();
    assert_eq!(stats, NS2Stats::new());
    assert_eq!(stats.latest_game(), 0);
    assert_eq!(stats.total_games(), 0);
    assert_eq!(stats.marine_wins(), 0);
    assert_eq!(stats.alien_wins(), 0);
    assert!(stats.users().is_empty());
    assert!(stats.maps().is_empty());
}

#[test]
fn both_sides_of_a_player_are_counted_each_on_its_own() {
    let stats = NS2Stats::of_game(&busy_game()).unwrap();
    let a = stats.user(1).unwrap();
    assert_eq!(a.games, stat(1, 1, 0));
    assert_eq!(a.wins, stat(0, 0, 0));
    assert_eq!(a.kills, stat(12, 10, 2));
    assert_eq!(a.deaths, stat(5, 4, 1));
    assert_eq!(a.assists, stat(4, 3, 1));
    assert_eq!(a.score, stat(140, 120, 20));
    assert_eq!(a.hits, stat(55, 50, 5));
    assert_eq!(a.misses, stat(165, 150, 15));
    assert_eq!(a.commander, stat(0, 0, 0));
    let b = stats.user(2).unwrap();
    assert_eq!(b.games, stat(1, 0, 1));
    assert_eq!(b.wins, stat(1, 0, 1));
    assert_eq!(b.kills, stat(7, 0, 7));
}

#[test]
fn the_first_of_the_longest_commanders_commands() {
    let g = busy_game();
    assert_eq!(get_commander(Team::Marines, &g.player_stats), Some(2));
    assert_eq!(get_commander(Team::Aliens, &g.player_stats), Some(1));
    assert_eq!(get_commander(Team::Marines, &Vec::new()), None);
    let stats = NS2Stats::of_game(&g).unwrap();
    assert_eq!(stats.user(3).unwrap().commander, stat(1, 1, 0));
    assert_eq!(stats.user(2).unwrap().commander, stat(1, 0, 1));
    assert_eq!(stats.user(4).unwrap().commander, stat(0, 0, 0));
    assert_eq!(stats.user(1).unwrap().commander, stat(0, 0, 0));
}

#[test]
fn where_nobody_commanded_the_first_player_is_the_commander() {
    let g = scenario(1, "ns2_veil", WinningTeam::Marines);
    assert_eq!(get_commander(Team::Marines, &g.player_stats), Some(0));
    let stats = NS2Stats::of_game(&g).unwrap();
    assert_eq!(stats.user(1).unwrap().commander, stat(2, 1, 1));
    assert_eq!(stats.user(2).unwrap().commander, stat(0, 0, 0));
}

#[test]
fn a_tie_of_the_times_credits_the_aliens() {
    let stats = NS2Stats::of_game(&busy_game()).unwrap();
    let d = stats.user(4).unwrap();
    assert_eq!(d.games, stat(1, 0, 1));
    assert_eq!(d.wins, stat(1, 0, 1));
}

#[test]
fn every_total_is_what_the_two_sides_have_together() {
    let games = vec![
        busy_game(),
        scenario(5, "ns2_veil", WinningTeam::Marines),
        busy_game(),
        scenario(7, "ns2_summit", WinningTeam::Aliens),
    ];
    let stats = NS2Stats::compute(&games).unwrap();
    assert!(!stats.users().is_empty());
    for (_, user) in stats.users().iter() {
        for s in [
            user.games,
            user.commander,
            user.wins,
            user.kills,
            user.assists,
            user.deaths,
            user.score,
            user.hits,
            user.misses,
        ] {
            assert_eq!(s.total, s.marines + s.aliens);
        }
    }
}

#[test]
fn computing_in_parts_and_merging_is_computing_at_once() {
    let a = vec![busy_game(), scenario(5, "ns2_veil", WinningTeam::Marines)];
    let b = vec![scenario(7, "ns2_summit", WinningTeam::Aliens), busy_game()];
    let mut all = a.clone();
    all.extend(b.clone());
    let whole = NS2Stats::compute(&all).unwrap();
    let left = NS2Stats::compute(&a).unwrap();
    let right = NS2Stats::compute(&b).unwrap();
    let merged = left.merge(&right).unwrap();
    assert_eq!(merged.total_games(), 4);
    assert_eq!(merged.latest_game(), 100);
    assert_eq!(merged.total_games(), whole.total_games());
    assert_eq!(merged.marine_wins(), whole.marine_wins());
    assert_eq!(merged.alien_wins(), whole.alien_wins());
    assert_eq!(merged.latest_game(), whole.latest_game());
    assert_eq!(merged.users().len(), whole.users().len());
    assert_eq!(merged.maps().len(), whole.maps().len());
    for (id, user) in whole.users().iter() {
        assert_eq!(merged.user(*id), Ok(*user));
    }
    for (name, map) in whole.maps().iter() {
        assert_eq!(merged.map(name), Some(*map));
    }
    assert_eq!(whole.user(1).unwrap().kills, stat(24, 20, 4));
    assert_eq!(
        whole.map(&"ns2_summit".to_string()),
        Some(MapStats { total_games: 3, marine_wins: 0, alien_wins: 3 })
    );
}

#[test]
fn merging_a_new_match_into_a_running_snapshot_is_computing_anew() {
    let games = vec![busy_game(), scenario(5, "ns2_veil", WinningTeam::Marines), busy_game()];
    let mut running = NS2Stats::new();
    for g in games.iter() {
        running = running.merge(&NS2Stats::of_game(g).unwrap()).unwrap();
    }
    assert_eq!(running, NS2Stats::compute(&games).unwrap());
}

#[test]
fn the_order_of_a_merge_does_not_change_the_numbers() {
    let a = NS2Stats::compute(&vec![busy_game()]).unwrap();
    let b = NS2Stats::compute(&vec![scenario(5, "ns2_veil", WinningTeam::Marines)]).unwrap();
    let ab = a.duplicate().merge(&b).unwrap();
    let ba = b.duplicate().merge(&a).unwrap();
    assert_eq!(ab.latest_game(), 100);
    assert_eq!(ba.latest_game(), 100);
    assert_eq!(ab.users().len(), ba.users().len());
    for (id, user) in ab.users().iter() {
        assert_eq!(ba.user(*id), Ok(*user));
    }
    for (name, map) in ab.maps().iter() {
        assert_eq!(ba.map(name), Some(*map));
    }
}

#[test]
fn merging_with_nothing_changes_nothing() {
    let a = NS2Stats::compute(&vec![busy_game()]).unwrap();
    assert_eq!(a.duplicate().merge(&NS2Stats::new()).unwrap(), a);
    assert_eq!(NS2Stats::new().merge(&a).unwrap(), a);
    assert_eq!(a.duplicate(), a);
    assert_eq!(a.clone(), a);
}

#[test]
fn a_counter_that_would_overflow_is_reported() {
    let mut g = GameStats::new(1, "ns2_veil".to_string(), WinningTeam::Marines, 600_000);
    let mut p = player(1, 10, 0);
    p.marines.kills = u32::MAX;
    p.aliens.kills = 1;
    g.add_player(p);
    assert_eq!(NS2Stats::of_game(&g), Err(Error::CounterOverflow));
    assert_eq!(NS2Stats::compute(&vec![g]), Err(Error::CounterOverflow));

    let mut h = GameStats::new(1, "ns2_veil".to_string(), WinningTeam::Marines, 600_000);
    let mut q = player(1, 10, 0);
    q.marines.hits = u32::MAX;
    h.add_player(q);
    let one = NS2Stats::of_game(&h).unwrap();
    assert_eq!(one.user(1).unwrap().hits, stat(u32::MAX, u32::MAX, 0));
    assert_eq!(one.duplicate().merge(&one), Err(Error::CounterOverflow));
    assert_eq!(NS2Stats::compute(&vec![h.clone(), h]), Err(Error::CounterOverflow));
}

#[test]
fn records_out_of_order_are_refused() {
    let mut g = GameStats::new(1, "ns2_veil".to_string(), WinningTeam::Marines, 600_000);
    g.player_stats.push(player(2, 1, 0));
    g.player_stats.push(player(1, 1, 0));
    assert_eq!(NS2Stats::of_game(&g), Err(Error::MalformedRecord));
    assert_eq!(NS2Stats::compute(&vec![busy_game(), g.clone()]), Err(Error::MalformedRecord));
    let mut h = GameStats::new(1, "ns2_veil".to_string(), WinningTeam::Marines, 600_000);
    let mut p = player(1, 10, 0);
    p.marines.kills = u32::MAX;
    p.aliens.kills = 1;
    h.add_player(p);
    assert_eq!(NS2Stats::compute(&vec![h.clone(), g.clone()]), Err(Error::MalformedRecord));
    assert_eq!(NS2Stats::compute(&vec![g, h]), Err(Error::MalformedRecord));
}

#[test]
fn a_player_that_is_not_there_is_reported() {
    let stats = NS2Stats::compute(&vec![busy_game()]).unwrap();
    assert_eq!(stats.user(99), Err(Error::UnknownPlayer));
    assert!(stats.user(1).is_ok());
    assert_eq!(unknown_players(&stats, &vec![1, 99, 2, -5, 99]), vec![99, -5, 99]);
    assert_eq!(unknown_players(&stats, &vec![1, 2, 3, 4]), Vec::<i64>::new());
}

#[test]
fn sums_of_players_and_maps_are_counter_by_counter() {
    let mut a = User::new();
    a.kills = stat(3, 1, 2);
    let mut b = User::new();
    b.kills = stat(10, 10, 0);
    b.deaths = stat(1, 0, 1);
    let s = a.sum(&b).unwrap();
    assert_eq!(s.kills, stat(13, 11, 2));
    assert_eq!(s.deaths, stat(1, 0, 1));
    b.kills = stat(u32::MAX, u32::MAX, 0);
    assert_eq!(a.sum(&b), None);
    let m = MapStats { total_games: 2, marine_wins: 1, alien_wins: 1 };
    assert_eq!(
        m.sum(&MapStats::of_winner(WinningTeam::Aliens)),
        Some(MapStats { total_games: 3, marine_wins: 1, alien_wins: 2 })
    );
    let full = MapStats { total_games: u32::MAX, marine_wins: 0, alien_wins: 0 };
    assert_eq!(full.sum(&MapStats::of_winner(WinningTeam::Neither)), None);
}

#[test]
fn ratios_are_kept_as_their_two_parts() {
    let stats = NS2Stats::of_game(&busy_game()).unwrap();
    let a = stats.user(1).unwrap();
    assert_eq!(a.kd().total, Ratio { num: 12, den: 5 });
    assert_eq!(a.kd().marines, Ratio { num: 10, den: 4 });
    assert_eq!(a.kd().aliens, Ratio { num: 2, den: 1 });
    assert_eq!(a.kda().total, Ratio { num: 16, den: 5 });
    assert_eq!(a.kda().marines, Ratio { num: 13, den: 4 });
    assert_eq!(a.accuracy().total, Ratio { num: 55, den: 220 });
    assert_eq!(a.accuracy().aliens, Ratio { num: 5, den: 20 });
    assert_eq!(a.average_score().total, Ratio { num: 140, den: 1 });
    assert_eq!(a.average_score().aliens, Ratio { num: 20, den: 0 });
    let c = stats.user(3).unwrap();
    assert_eq!(c.kd().total, Ratio { num: 0, den: 0 });
}

#[test]
fn counters_count_for_a_side_and_in_total() {
    let mut s: Stat<u32> = Stat::new();
    s.add(Team::Marines, 2);
    s.add(Team::Aliens, 5);
    assert_eq!(s, stat(7, 2, 5));
    assert!(s.try_add(Team::Aliens, 1));
    assert_eq!(s, stat(8, 2, 6));
    assert!(!s.try_add(Team::Marines, u32::MAX - 7));
    assert_eq!(s, stat(8, 2, 6));
    assert!(s.try_add(Team::Marines, u32::MAX - 8));
    assert_eq!(s, stat(u32::MAX, u32::MAX - 6, 6));
    assert_eq!(Stat::of_sides(3, 4), Some(stat(7, 3, 4)));
    assert_eq!(Stat::of_sides(u32::MAX, 1), None);
    assert_eq!(stat(1, 1, 0).sum(&stat(2, 0, 2)), Some(stat(3, 1, 2)));
    assert_eq!(stat(u32::MAX, 0, 0).sum(&stat(1, 0, 0)), None);
    let doubled = stat(1, 2, 3).map(|n| n * 2);
    assert_eq!(doubled, stat(2, 4, 6));
    assert_eq!(stat(1, 2, 3).zip(stat(4, 5, 6)).marines, (2, 5));
}

#[test]
fn every_player_has_the_name_of_the_latest_match() {
    let mut first = GameStats::new(1, "ns2_veil".to_string(), WinningTeam::Marines, 600_000);
    first.add_player(PlayerStat::new(1, "one".to_string()));
    first.add_player(PlayerStat::new(2, "two".to_string()));
    let mut second = GameStats::new(2, "ns2_veil".to_string(), WinningTeam::Marines, 600_000);
    second.add_player(PlayerStat::new(3, "three".to_string()));
    second.add_player(PlayerStat::new(1, "uno".to_string()));
    let names = player_names(&vec![first, second]);
    assert_eq!(
        names,
        vec![(1, "uno".to_string()), (2, "two".to_string()), (3, "three".to_string())]
    );
    assert!(player_names(&Vec::new()).is_empty());
}
