use groks_fantasy::config::SleeperConfig;
use groks_fantasy::providers::espn::{
    self, base_url, cookie_header, default_position_id_to_position, pro_team, slot_id_to_position, EspnDraftPick,
    EspnEntry, EspnPlayerInfo, EspnScheduleEntry, EspnTeam,
};
use groks_fantasy::providers::sleeper::{
    self, draft_to_read, find_my_roster, free_agents, league_to_read, matchup_pairs, slot_counts, user_to_resolve, SleeperDraftData,
    SleeperMatchupEntry, SleeperPickData, SleeperPlayerData, SleeperRosterData, SleeperUserData,
};
use groks_fantasy::providers::yahoo::{self, parse_yahoo_players, YahooEntry, YahooItem};
use groks_fantasy::providers::{EspnConfig, ProviderError, YahooConfig};
use groks_fantasy::types::{PlayerStatus, Position};

fn info(id: u64, name: &str, pos: u32, team: u32, injury: Option<&str>) -> EspnPlayerInfo {
    EspnPlayerInfo {
        id,
        full_name: name.to_string(),
        default_position_id: pos,
        pro_team_id: team,
        injury_status: injury.map(|s| s.to_string()),
    }
}

fn espn_team(id: u32, loc: Option<&str>, nick: Option<&str>, name: Option<&str>, entries: Vec<EspnEntry>) -> EspnTeam {
    EspnTeam {
        id,
        name: name.map(|s| s.to_string()),
        location: loc.map(|s| s.to_string()),
        nickname: nick.map(|s| s.to_string()),
        record: Some((3, 2, 1)),
        entries,
    }
}

fn espn_cfg(team_id: Option<u32>) -> EspnConfig {
    EspnConfig { league_id: 77, season: 2025, team_id, swid: String::new(), espn_s2: String::new() }
}

#[test]
fn espn_codes() {
    assert_eq!(base_url(2025, 12345), "https://lm-api-reads.fantasy.espn.com/apis/v3/games/ffl/seasons/2025/segments/0/leagues/12345");
    assert_eq!(slot_id_to_position(0), Position::QB);
    assert_eq!(slot_id_to_position(23), Position::FLEX);
    assert_eq!(slot_id_to_position(7), Position::SUPERFLEX);
    assert_eq!(slot_id_to_position(20), Position::BENCH);
    assert_eq!(slot_id_to_position(99), Position::Unknown);
    assert_eq!(default_position_id_to_position(16), Position::DST);
    assert_eq!(default_position_id_to_position(6), Position::Unknown);
    assert_eq!(pro_team(12), "KC");
    assert_eq!(pro_team(0), "FA");
    assert_eq!(pro_team(33), "BAL");
    assert_eq!(pro_team(31), "");
}

#[test]
fn espn_cookies_need_both_parts() {
    let mut c = espn_cfg(None);
    assert_eq!(cookie_header(&c), None);
    c.swid = "{ABC}".to_string();
    assert_eq!(cookie_header(&c), None);
    c.espn_s2 = "xyz".to_string();
    assert_eq!(cookie_header(&c), Some("SWID={ABC}; espn_s2=xyz".to_string()));
}

#[test]
fn espn_teams_and_players() {
    let entries = vec![
        EspnEntry { lineup_slot_id: 0, player: Some(info(3139477, "Patrick Mahomes", 1, 12, None)) },
        EspnEntry { lineup_slot_id: 20, player: None },
        EspnEntry { lineup_slot_id: 21, player: Some(info(42, "Hurt Guy", 2, 99, Some("OUT"))) },
    ];
    let t = espn_team(4, Some("Kansas "), Some("Chiefs "), Some("ignored"), entries);
    assert_eq!(espn::team_name(&t), "Kansas  Chiefs");
    let r = espn::build_team(&t);
    assert_eq!(r.team_id, "4");
    assert_eq!(r.owner, None);
    assert_eq!((r.wins, r.losses, r.ties), (3, 2, 1));
    assert_eq!(r.players.len(), 2);
    assert_eq!(r.players[0].id, "3139477");
    assert_eq!(r.players[0].position, Position::QB);
    assert_eq!(r.players[0].roster_slot, Position::QB);
    assert_eq!(r.players[0].team, "KC");
    assert_eq!(r.players[0].status, PlayerStatus::Healthy);
    assert_eq!(r.players[1].roster_slot, Position::IR);
    assert_eq!(r.players[1].status, PlayerStatus::Out);
    assert_eq!(r.players[1].team, "");
    let unnamed = espn_team(9, None, Some("X"), None, vec![]);
    assert_eq!(espn::team_name(&unnamed), "Team 9");
}

#[test]
fn espn_settings_week_and_roster() {
    let counts = vec![("0".to_string(), 1), ("2".to_string(), 2), ("20".to_string(), 6), ("99".to_string(), 1), ("4".to_string(), 0), ("x".to_string(), 3)];
    let s = espn::league_settings(None, Some(12), &counts);
    assert_eq!(s.scoring, "ppr");
    assert_eq!(s.team_count, 12);
    assert_eq!(s.roster_slots, vec![(Position::QB, 1), (Position::RB, 2), (Position::BENCH, 6)]);
    assert_eq!(espn::current_week(Some(5), Some(3)), 5);
    assert_eq!(espn::current_week(None, Some(3)), 3);
    assert_eq!(espn::current_week(None, None), 1);
    assert_eq!(espn::current_week(Some(0), None), 1);
    let teams = vec![espn_team(1, None, None, Some("One"), vec![]), espn_team(2, None, None, Some("Two"), vec![])];
    assert!(matches!(espn::my_roster(&espn_cfg(None), &teams), Err(ProviderError::EspnTeamIdRequired)));
    assert!(matches!(espn::my_roster(&espn_cfg(Some(5)), &teams), Err(ProviderError::EspnTeamNotFound(5))));
    assert_eq!(espn::my_roster(&espn_cfg(Some(2)), &teams).unwrap().team_name, "Two");
}

#[test]
fn espn_matchups_of_a_week() {
    let teams = vec![espn_team(1, None, None, Some("One"), vec![]), espn_team(2, None, None, Some("Two"), vec![])];
    let schedule = vec![
        EspnScheduleEntry { matchup_period_id: 1, home_team_id: Some(1), away_team_id: Some(2) },
        EspnScheduleEntry { matchup_period_id: 2, home_team_id: Some(2), away_team_id: Some(3) },
        EspnScheduleEntry { matchup_period_id: 2, home_team_id: Some(1), away_team_id: None },
    ];
    let m = espn::matchups(&teams, &schedule, 2);
    assert_eq!(m.len(), 1);
    assert_eq!(m[0].entry, 1);
    assert_eq!(m[0].home_team, "Two");
    assert_eq!(m[0].away_team, "Team 3");
}

#[test]
fn espn_draft_board() {
    let teams = vec![espn_team(
        1,
        None,
        None,
        Some("One"),
        vec![EspnEntry { lineup_slot_id: 0, player: Some(info(10, "Ten Player", 3, 1, None)) }],
    )];
    let picks = vec![
        EspnDraftPick { overall_pick_number: 1, round_id: 1, team_id: 1, player_id: 10 },
        EspnDraftPick { overall_pick_number: 2, round_id: 2, team_id: 5, player_id: 11 },
    ];
    let d = espn::draft_state(&picks, &teams, true, true, None);
    assert_eq!(d.picks.len(), 2);
    assert_eq!(d.picks[0].team_name, "One");
    assert_eq!(d.picks[0].player_name, Some("Ten Player".to_string()));
    assert_eq!(d.picks[0].position, Some(Position::WR));
    assert_eq!(d.picks[1].team_name, "Team 5");
    assert_eq!(d.picks[1].player_id, Some("11".to_string()));
    assert_eq!(d.picks[1].player_name, None);
    assert_eq!(d.current_pick, 3);
    assert_eq!(d.total_rounds, 2);
    assert_eq!(d.team_count, 10);
    assert!(!d.completed);
    let empty = espn::draft_state(&vec![], &teams, true, false, Some(8));
    assert_eq!(empty.current_pick, 1);
    assert_eq!(empty.total_rounds, 15);
    assert_eq!(empty.team_count, 8);
    assert!(empty.completed);
}

fn sp(id: &str, name: &str, pos: &str, team: Option<&str>) -> SleeperPlayerData {
    SleeperPlayerData {
        player_id: id.to_string(),
        full_name: Some(name.to_string()),
        first_name: None,
        last_name: None,
        position: Some(pos.to_string()),
        team: team.map(|s| s.to_string()),
        injury_status: None,
        injury_notes: None,
    }
}

fn roster_data(id: u32, owner: Option<&str>, players: &[&str]) -> SleeperRosterData {
    SleeperRosterData {
        roster_id: id,
        owner_id: owner.map(|s| s.to_string()),
        players: Some(players.iter().map(|s| s.to_string()).collect()),
        starters: None,
        has_settings: false,
        wins: None,
        losses: None,
        ties: None,
    }
}

#[test]
fn sleeper_players() {
    let mut d = SleeperPlayerData {
        player_id: "4034".into(),
        full_name: None,
        first_name: Some("Christian".into()),
        last_name: Some("McCaffrey".into()),
        position: Some("rb".into()),
        team: Some("SF".into()),
        injury_status: Some("Questionable".into()),
        injury_notes: Some("  ".into()),
    };
    let p = sleeper::build_player(&d);
    assert_eq!(p.name, "Christian McCaffrey");
    assert_eq!(p.position, Position::RB);
    assert_eq!(p.roster_slot, Position::BENCH);
    assert_eq!(p.status, PlayerStatus::Questionable);
    assert!(p.news.is_empty());
    d.injury_notes = Some("Achilles".into());
    d.first_name = None;
    assert_eq!(sleeper::build_player(&d).news, vec!["Achilles".to_string()]);
    assert_eq!(sleeper::build_player(&d).name, "4034");
}

#[test]
fn sleeper_identity_and_roster() {
    let cfg = SleeperConfig { username: String::new(), league_id: "1".into(), draft_id: String::new() };
    assert_eq!(user_to_resolve(&cfg), Err(ProviderError::SleeperUserRequired));
    let cfg2 = SleeperConfig { username: "me".into(), league_id: "1".into(), draft_id: String::new() };
    assert_eq!(user_to_resolve(&cfg2), Ok("me".to_string()));
    let rosters = vec![roster_data(1, Some("u1"), &[]), roster_data(2, Some("u2"), &[]), roster_data(3, Some("u2"), &[])];
    assert_eq!(find_my_roster(&rosters, &"u2".to_string()), Ok(1));
    assert_eq!(find_my_roster(&rosters, &"u9".to_string()), Err(ProviderError::SleeperRosterNotFound("u9".into())));
}

#[test]
fn sleeper_build_roster() {
    let users = vec![SleeperUserData { user_id: "u1".into(), display_name: Some("Dee".into()), team_name: None }];
    let catalog = vec![
        ("p1".to_string(), sp("p1", "Player One", "QB", Some("KC"))),
        ("p2".to_string(), sp("p2", "Player Two", "WR", Some("BUF"))),
    ];
    let mut r = roster_data(5, Some("u1"), &["p1", "0", "p2", "missing"]);
    r.starters = Some(vec!["p1".to_string()]);
    r.has_settings = true;
    r.wins = Some(4);
    let built = sleeper::build_roster(&r, &users, &catalog);
    assert_eq!(built.team_id, "5");
    assert_eq!(built.team_name, "Dee");
    assert_eq!(built.owner, Some("Dee".to_string()));
    assert_eq!(built.players.len(), 2);
    assert_eq!(built.players[0].roster_slot, Position::QB);
    assert_eq!(built.players[1].roster_slot, Position::BENCH);
    assert_eq!(built.wins, 4);
    assert_eq!(built.losses, 0);
}

#[test]
fn sleeper_slot_counts() {
    let names: Vec<String> = ["QB", "RB", "RB", "WR", "FLEX", "SUPER_FLEX", "BN", "BN", "IDP"].iter().map(|s| s.to_string()).collect();
    let c = slot_counts(&names);
    assert_eq!(
        c,
        vec![
            (Position::QB, 1),
            (Position::RB, 2),
            (Position::WR, 1),
            (Position::FLEX, 1),
            (Position::SUPERFLEX, 1),
            (Position::BENCH, 2)
        ]
    );
}

#[test]
fn sleeper_matchups_pair_entries() {
    let entries = vec![
        SleeperMatchupEntry { matchup_id: Some(2), roster_id: 1 },
        SleeperMatchupEntry { matchup_id: Some(1), roster_id: 2 },
        SleeperMatchupEntry { matchup_id: None, roster_id: 3 },
        SleeperMatchupEntry { matchup_id: Some(2), roster_id: 4 },
        SleeperMatchupEntry { matchup_id: Some(1), roster_id: 5 },
        SleeperMatchupEntry { matchup_id: Some(3), roster_id: 6 },
    ];
    let rosters = vec![roster_data(1, Some("u1"), &[])];
    let users = vec![SleeperUserData { user_id: "u1".into(), display_name: Some("Dee".into()), team_name: None }];
    let m = matchup_pairs(&entries, &rosters, &users);
    assert_eq!(m.len(), 2);
    assert_eq!((m[0].home, m[0].away), (0, 3));
    assert_eq!(m[0].home_team, "Dee");
    assert_eq!(m[0].away_team, "Team 4");
    assert_eq!((m[1].home, m[1].away), (1, 4));
}

#[test]
fn sleeper_free_agents_sorted_by_name() {
    let catalog = vec![
        sp("a", "Zed", "WR", Some("KC")),
        sp("b", "Amy", "WR", Some("BUF")),
        sp("c", "Bob", "WR", None),
        sp("d", "Cal", "RB", Some("SF")),
        sp("e", "Abe", "WR", Some("NYJ")),
        sp("f", "Amy", "WR", Some("MIA")),
    ];
    let rosters = vec![roster_data(1, None, &["e"])];
    let all = free_agents(&catalog, &rosters, None, 10);
    let names: Vec<(String, String)> = all.iter().map(|p| (p.name.clone(), p.id.clone())).collect();
    assert_eq!(
        names,
        vec![
            ("Amy".to_string(), "b".to_string()),
            ("Amy".to_string(), "f".to_string()),
            ("Cal".to_string(), "d".to_string()),
            ("Zed".to_string(), "a".to_string())
        ]
    );
    let wr = free_agents(&catalog, &rosters, Some(Position::WR), 2);
    assert_eq!(wr.iter().map(|p| p.id.clone()).collect::<Vec<_>>(), vec!["b".to_string(), "f".to_string()]);
    assert!(free_agents(&catalog, &rosters, Some(Position::K), 5).is_empty());
}

#[test]
fn sleeper_draft_board() {
    let users = vec![SleeperUserData { user_id: "u1".into(), display_name: Some("Dee".into()), team_name: None }];
    let catalog = vec![("p1".to_string(), sp("p1", "Player One", "QB", Some("KC")))];
    let picks = vec![
        SleeperPickData { pick_no: 1, round: 1, roster_id: Some(3), picked_by: Some("u1".into()), player_id: "p1".into() },
        SleeperPickData { pick_no: 2, round: 1, roster_id: Some(4), picked_by: None, player_id: "p9".into() },
        SleeperPickData { pick_no: 3, round: 1, roster_id: None, picked_by: Some("nobody".into()), player_id: "p8".into() },
    ];
    let draft = SleeperDraftData { status: "drafting".into(), rounds: Some(16), teams: Some(12) };
    let d = sleeper::draft_state(&draft, &picks, &users, &catalog);
    assert_eq!(d.picks[0].team_name, "Dee");
    assert_eq!(d.picks[0].team_id, "3");
    assert_eq!(d.picks[0].player_name, Some("Player One".to_string()));
    assert_eq!(d.picks[0].position, Some(Position::QB));
    assert_eq!(d.picks[1].team_name, "Team Some(4)");
    assert_eq!(d.picks[1].player_name, None);
    assert_eq!(d.picks[2].team_name, "Team None");
    assert_eq!(d.picks[2].team_id, "");
    assert_eq!(d.current_pick, 4);
    assert_eq!(d.total_rounds, 16);
    assert_eq!(d.team_count, 12);
    assert!(!d.completed);
    let done = SleeperDraftData { status: "complete".into(), rounds: None, teams: None };
    let e = sleeper::draft_state(&done, &vec![], &users, &catalog);
    assert!(e.completed);
    assert_eq!((e.current_pick, e.total_rounds, e.team_count), (1, 15, 10));
}

fn item(name: Option<Option<&str>>, pos: Option<&str>, team: Option<&str>, id: Option<&str>, status: Option<&str>) -> YahooItem {
    YahooItem {
        name: name.map(|n| n.map(|s| s.to_string())),
        display_position: pos.map(|s| s.to_string()),
        team_abbr: team.map(|s| s.to_string()),
        player_id: id.map(|s| s.to_string()),
        status: status.map(|s| s.to_string()),
    }
}

#[test]
fn yahoo_players_and_teams() {
    let entries = vec![
        YahooEntry {
            key: "0".into(),
            items: Some(vec![
                item(None, None, None, Some("100"), None),
                item(Some(Some("Josh Allen")), Some("QB"), Some("Buf"), None, Some("Q")),
            ]),
            selected_position: Some("QB".into()),
        },
        YahooEntry { key: "count".into(), items: Some(vec![]), selected_position: None },
        YahooEntry { key: "1".into(), items: None, selected_position: None },
        YahooEntry { key: "2".into(), items: Some(vec![item(Some(None), None, None, None, None)]), selected_position: None },
    ];
    let ps = parse_yahoo_players(&entries);
    assert_eq!(ps.len(), 2);
    assert_eq!(ps[0].id, "100");
    assert_eq!(ps[0].name, "Josh Allen");
    assert_eq!(ps[0].position, Position::QB);
    assert_eq!(ps[0].team, "Buf");
    assert_eq!(ps[0].roster_slot, Position::QB);
    assert_eq!(ps[1].name, "");
    assert_eq!(ps[1].roster_slot, Position::BENCH);
    assert_eq!(ps[1].status, PlayerStatus::Healthy);
    let s = yahoo::league_settings(Some("head".into()), None);
    assert_eq!(s.scoring, "head");
    assert_eq!(s.team_count, 10);
    assert_eq!(yahoo::current_week(None), 1);
    assert_eq!(yahoo::current_week(Some(6)), 6);
    let cfg = YahooConfig { league_key: "423.l.1".into(), team_key: None, access_token: "t".into() };
    assert!(matches!(yahoo::my_roster(&cfg, None, vec![]), Err(ProviderError::YahooTeamKeyRequired)));
    let cfg2 = YahooConfig { league_key: "423.l.1".into(), team_key: Some("423.l.1.t.3".into()), access_token: "t".into() };
    let r = yahoo::my_roster(&cfg2, None, ps).unwrap();
    assert_eq!(r.team_name, "My Team");
    assert_eq!(r.team_id, "423.l.1.t.3");
    assert_eq!(r.players.len(), 2);
    let t = yahoo::team_roster(None, Some("Rivals".into()));
    assert_eq!(t.team_id, "");
    assert_eq!(t.team_name, "Rivals");
    let d = yahoo::draft_state();
    assert_eq!((d.current_pick, d.total_rounds, d.team_count, d.completed), (1, 15, 10, false));
}

#[test]
fn espn_names_in_schedules_come_from_the_last_team_with_the_id() {
    let teams = vec![espn_team(1, None, None, Some("First"), vec![]), espn_team(1, None, None, Some("Second"), vec![])];
    let schedule = vec![EspnScheduleEntry { matchup_period_id: 1, home_team_id: Some(1), away_team_id: Some(1) }];
    assert_eq!(espn::resolve_team(&teams, 1), "Second");
    assert_eq!(espn::matchups(&teams, &schedule, 1)[0].home_team, "Second");
    assert_eq!(espn::my_roster(&espn_cfg(Some(1)), &teams).unwrap().team_name, "First");
}

#[test]
fn sleeper_league_and_draft_discovery() {
    let open = SleeperConfig { username: "me".into(), league_id: String::new(), draft_id: String::new() };
    let leagues = vec!["111".to_string(), "222".to_string()];
    assert_eq!(league_to_read(&open, &leagues), Ok("111".to_string()));
    assert_eq!(league_to_read(&open, &vec![]), Err(ProviderError::SleeperNoLeague));
    assert_eq!(ProviderError::SleeperNoLeague.message(), "no sleeper league found for this user");
    let fixed = SleeperConfig { username: "me".into(), league_id: "999".into(), draft_id: "d7".into() };
    assert_eq!(league_to_read(&fixed, &leagues), Ok("999".to_string()));
    assert_eq!(draft_to_read(&fixed, Some("d1".into())), Ok("d7".to_string()));
    assert_eq!(draft_to_read(&open, Some("d1".into())), Ok("d1".to_string()));
    assert_eq!(draft_to_read(&open, None), Err(ProviderError::SleeperNoDraft));
}
