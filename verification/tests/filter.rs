use ns2_stat::filter::{
    count_played, filter_bot_games, filter_by_length, genuine, is_genuine, is_played_by_people,
    MIN_ROUND_LENGTH,
};
use ns2_stat::input_types::{GameStats, PlayerStat, Team, WinningTeam};

fn player(id: i64, marine_ms: u32, alien_ms: u32) -> PlayerStat {
    let mut p = PlayerStat::new(id, format!("player{}", id));
    p.marines.time_played = marine_ms;
    p.aliens.time_played = alien_ms;
    p
}

fn game(date: u32, length_ms: u32, marines: i64, aliens: i64) -> GameStats {
    let mut g = GameStats::new(date, "ns2_veil".to_string(), WinningTeam::Marines, length_ms);
    for id in 0..marines {
        g.add_player(player(id, 400_000, 0));
    }
    for id in 0..aliens {
        g.add_player(player(100 + id, 0, 400_000));
    }
    g
}

#[test]
fn six_against_five_for_ten_minutes_is_genuine() {
    let g = game(1, 600_000, 6, 5);
    assert!(g.is_well_formed());
    assert_eq!(count_played(&g.player_stats, Team::Marines), 6);
    assert_eq!(count_played(&g.player_stats, Team::Aliens), 5);
    assert!(is_genuine(&g));
}

#[test]
fn round_length_threshold_is_five_minutes() {
    assert_eq!(MIN_ROUND_LENGTH, 300_000);
    assert!(is_genuine(&game(1, 300_000, 3, 3)));
    assert!(!is_genuine(&game(1, 299_999, 3, 3)));
    assert!(!is_genuine(&game(1, 0, 6, 6)));
}

#[test]
fn each_side_needs_more_than_two_players() {
    assert!(is_played_by_people(&game(1, 600_000, 3, 3)));
    assert!(!is_played_by_people(&game(1, 600_000, 2, 3)));
    assert!(!is_played_by_people(&game(1, 600_000, 3, 2)));
    assert!(!is_played_by_people(&game(1, 600_000, 2, 2)));
    assert!(!is_genuine(&game(1, 600_000, 6, 2)));
}

#[test]
fn a_match_without_players_is_not_genuine() {
    let g = game(1, 600_000, 0, 0);
    assert_eq!(count_played(&g.player_stats, Team::Marines), 0);
    assert!(!is_genuine(&g));
}

#[test]
fn a_player_counts_on_every_side_with_time_played() {
    let mut g = GameStats::new(1, "ns2_veil".to_string(), WinningTeam::Aliens, 600_000);
    g.add_player(player(1, 10, 20));
    g.add_player(player(2, 1, 1));
    g.add_player(player(3, 5, 0));
    g.add_player(player(4, 0, 7));
    assert_eq!(count_played(&g.player_stats, Team::Marines), 3);
    assert_eq!(count_played(&g.player_stats, Team::Aliens), 3);
    assert!(is_genuine(&g));
}

#[test]
fn genuine_keeps_the_genuine_matches_in_order() {
    let games = vec![
        game(1, 600_000, 6, 5),
        game(2, 100_000, 6, 5),
        game(3, 600_000, 1, 5),
        game(4, 300_000, 3, 3),
    ];
    let kept = genuine(games);
    let dates: Vec<u32> = kept.iter().map(|g| g.round_info.round_date).collect();
    assert_eq!(dates, vec![1, 4]);
}

#[test]
fn filtering_genuine_matches_again_changes_nothing() {
    let games = vec![
        game(1, 600_000, 6, 5),
        game(2, 100_000, 6, 5),
        game(3, 600_000, 1, 5),
        game(4, 300_000, 3, 3),
    ];
    let once = genuine(games);
    let twice = genuine(once.clone());
    assert_eq!(once, twice);
}

#[test]
fn the_two_filters_can_be_used_alone() {
    let games = vec![game(1, 600_000, 1, 1), game(2, 100, 6, 6), game(3, 400_000, 4, 4)];
    let long = filter_by_length(games.clone(), 400_000);
    assert_eq!(long.iter().map(|g| g.round_info.round_date).collect::<Vec<_>>(), vec![1, 3]);
    let peopled = filter_bot_games(games);
    assert_eq!(peopled.iter().map(|g| g.round_info.round_date).collect::<Vec<_>>(), vec![2, 3]);
}

#[test]
fn no_matches_give_no_matches() {
    assert_eq!(genuine(Vec::new()), Vec::<GameStats>::new());
}
