use ns2_stat::error::Error;
use ns2_stat::input_types;
use ns2_stat::input_types::{Building, Event, GameStats, PlayerStat, Team};
use ns2_stat::summary::{
    compute_rt_graph, summarize_game, summarize_team, PlayerSummary, TeamSummary, WinningTeam,
};

fn building(team: Team, time: u32, built: bool, tech: &str, event: Option<Event>) -> Building {
    Building {
        team,
        game_time: time,
        built,
        recycled: false,
        destroyed: false,
        tech_id: tech.to_string(),
        biomass: None,
        entity_id: None,
        event,
    }
}

fn extractor(time: u32, event: Event) -> Building {
    building(Team::Marines, time, true, "Extractor", Some(event))
}

fn sample() -> GameStats {
    let mut g = GameStats::new(77, "ns2_docking".to_string(), input_types::WinningTeam::Aliens, 900_000);
    let mut a = PlayerStat::new(3, "ann".to_string());
    a.marines.time_played = 800_000;
    a.marines.kills = 9;
    a.marines.assists = 2;
    a.marines.deaths = 5;
    a.marines.score = 90;
    a.marines.hits = 40;
    a.marines.misses = 60;
    a.marines.commander_time = 100;
    a.aliens.kills = 1000;
    let mut b = PlayerStat::new(1, "bob".to_string());
    b.aliens.time_played = 800_000;
    b.aliens.kills = 4;
    b.aliens.commander_time = 700_000;
    let mut c = PlayerStat::new(2, "cy".to_string());
    c.marines.time_played = 5;
    c.aliens.time_played = 5;
    c.marines.commander_time = 100;
    g.add_player(a);
    g.add_player(b);
    g.add_player(c);
    g.buildings = vec![
        extractor(10_000, Event::Built),
        building(Team::Aliens, 12_000, true, "Harvester", Some(Event::Built)),
        extractor(20_000, Event::Built),
        extractor(25_000, Event::Placed),
        building(Team::Marines, 26_000, false, "Extractor", Some(Event::Destroyed)),
        building(Team::Marines, 27_000, true, "Armory", Some(Event::Built)),
        building(Team::Marines, 28_000, true, "Extractor", None),
        extractor(30_000, Event::Destroyed),
        extractor(40_000, Event::Recycled),
        extractor(50_000, Event::Built),
        building(Team::Aliens, 60_000, true, "Harvester", Some(Event::Teleported)),
    ];
    g
}

#[test]
fn the_tower_graph_follows_the_towers_built_and_lost() {
    let g = sample();
    assert_eq!(
        compute_rt_graph(Team::Marines, &g.buildings, 900_000),
        Some(vec![
            (10_000, 1),
            (20_000, 2),
            (30_000, 1),
            (40_000, 0),
            (50_000, 1),
            (900_000, 1)
        ])
    );
    assert_eq!(
        compute_rt_graph(Team::Aliens, &g.buildings, 900_000),
        Some(vec![(12_000, 1), (900_000, 1)])
    );
    assert_eq!(compute_rt_graph(Team::Aliens, &Vec::new(), 900_000), Some(Vec::new()));
    assert_eq!(
        compute_rt_graph(Team::Aliens, &vec![extractor(1, Event::Built)], 5),
        Some(Vec::new())
    );
}

#[test]
fn a_tower_lost_that_was_never_built_is_reported() {
    let buildings = vec![extractor(1, Event::Built), extractor(2, Event::Destroyed), extractor(3, Event::Recycled)];
    assert_eq!(compute_rt_graph(Team::Marines, &buildings, 10), None);
    let mut g = sample();
    g.buildings = buildings;
    assert_eq!(summarize_game(&g), Err(Error::CounterOverflow));
    assert_eq!(summarize_team(&g, Team::Marines), None);
    assert!(summarize_team(&g, Team::Aliens).is_some());
}

#[test]
fn a_match_is_summed_up_side_by_side() {
    let s = summarize_game(&sample()).unwrap();
    assert_eq!(s.round_date, 77);
    assert_eq!(s.winning_team, WinningTeam::Aliens);
    assert_eq!(s.round_length, 900_000);
    assert_eq!(s.map_name, "ns2_docking");
    assert_eq!(
        s.marines.players,
        vec![(
            "ann".to_string(),
            PlayerSummary { kills: 9, assists: 2, deaths: 5, score: 90, hits: 40, misses: 60 }
        )]
    );
    assert_eq!(
        s.aliens.players,
        vec![
            (
                "bob".to_string(),
                PlayerSummary { kills: 4, assists: 0, deaths: 0, score: 0, hits: 0, misses: 0 }
            ),
            (
                "cy".to_string(),
                PlayerSummary { kills: 0, assists: 0, deaths: 0, score: 0, hits: 0, misses: 0 }
            )
        ]
    );
    assert_eq!(s.marines.commander, Some("cy".to_string()));
    assert_eq!(s.aliens.commander, Some("bob".to_string()));
    assert!(s.aliens.is_commander(&"bob".to_string()));
    assert!(!s.aliens.is_commander(&"ann".to_string()));
    assert_eq!(s.aliens.rt_graph, vec![(12_000, 1), (900_000, 1)]);
    assert_eq!(s.marines.rt_graph.len(), 6);
}

#[test]
fn a_match_without_players_has_no_commander() {
    let g = GameStats::new(1, "ns2_veil".to_string(), input_types::WinningTeam::Neither, 5);
    let s = summarize_game(&g).unwrap();
    assert_eq!(s.winning_team, WinningTeam::Neither);
    assert_eq!(s.marines.commander, None);
    assert!(s.marines.players.is_empty());
    assert!(s.marines.rt_graph.is_empty());
    let nobody = TeamSummary { players: Vec::new(), commander: None, rt_graph: Vec::new() };
    assert!(!nobody.is_commander(&"".to_string()));
}

#[test]
fn the_winner_of_a_record_is_the_winner_of_its_account() {
    assert_eq!(WinningTeam::from(input_types::WinningTeam::Neither), WinningTeam::Neither);
    assert_eq!(WinningTeam::from(input_types::WinningTeam::Marines), WinningTeam::Marines);
    assert_eq!(WinningTeam::from(input_types::WinningTeam::Aliens), WinningTeam::Aliens);
}
