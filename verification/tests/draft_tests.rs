use groks_fantasy::draft::{
    available_hints, current_round, draft_request, is_my_turn, my_pick_slot, parse_suggestions, snake_is_my_turn,
    snake_slot, team_picks, undrafted_hints, watch_step, WatchStep,
};
use groks_fantasy::news::NewsItem;
use groks_fantasy::types::{DraftPick, DraftState, Position, Strategy};

fn pick(no: u32, round: u32, team: &str, player: Option<&str>) -> DraftPick {
    DraftPick {
        pick_number: no,
        round,
        team_id: team.to_lowercase(),
        team_name: team.to_string(),
        player_id: player.map(|p| p.to_lowercase()),
        player_name: player.map(|p| p.to_string()),
        position: None,
    }
}

fn state(picks: Vec<DraftPick>, current: u32, teams: u32) -> DraftState {
    DraftState {
        picks,
        current_pick: current,
        on_the_clock_team: None,
        total_rounds: 15,
        team_count: teams,
        completed: false,
    }
}

#[test]
fn suggestions_are_read_from_numbered_lines() {
    let reply = "Here are my picks:\n1. Bijan Robinson (RB) — elite volume\n 2. Ja'Marr Chase (wr) - target hog\n3. Sam LaPorta\n4. Not read (QB) — beyond three\n";
    let picks = parse_suggestions(reply);
    assert_eq!(picks.len(), 3);
    assert_eq!(picks[0].rank, 1);
    assert_eq!(picks[0].name, "Bijan Robinson");
    assert_eq!(picks[0].position, Some(Position::RB));
    assert_eq!(picks[0].rationale, "elite volume");
    assert_eq!(picks[1].rank, 2);
    assert_eq!(picks[1].name, "Ja'Marr Chase");
    assert_eq!(picks[1].position, Some(Position::WR));
    assert_eq!(picks[1].rationale, "target hog");
    assert_eq!(picks[2].rank, 3);
    assert_eq!(picks[2].name, "Sam LaPorta");
    assert_eq!(picks[2].position, None);
    assert_eq!(picks[2].rationale, "");
}

#[test]
fn unknown_position_in_parentheses_gives_none() {
    let picks = parse_suggestions("1. Someone (XYZ) — why");
    assert_eq!(picks[0].name, "Someone");
    assert_eq!(picks[0].position, None);
    assert!(parse_suggestions("").is_empty());
}

#[test]
fn turn_ignores_ascii_case() {
    let mut s = state(vec![], 1, 10);
    assert!(!is_my_turn(&s, "Team A"));
    s.on_the_clock_team = Some("TEAM a".to_string());
    assert!(is_my_turn(&s, "team A"));
    assert!(!is_my_turn(&s, "Team B"));
}

#[test]
fn rounds_and_snake_slots() {
    assert_eq!(current_round(1, 10), 1);
    assert_eq!(current_round(10, 10), 1);
    assert_eq!(current_round(11, 10), 2);
    assert_eq!(current_round(0, 0), 1);
    // odd rounds run left to right, even rounds right to left
    assert_eq!(snake_slot(1, 10), 0);
    assert_eq!(snake_slot(10, 10), 9);
    assert_eq!(snake_slot(11, 10), 9);
    assert_eq!(snake_slot(20, 10), 0);
    assert_eq!(snake_slot(21, 10), 0);
    assert_eq!(snake_slot(5, 0), 0);
}

#[test]
fn pick_slot_comes_from_the_first_round() {
    let s = state(
        vec![pick(1, 1, "Alpha", Some("A1")), pick(2, 1, "Beta", Some("B1")), pick(3, 2, "Gamma", Some("G1"))],
        4,
        3,
    );
    assert_eq!(my_pick_slot(&s, "beta"), Some(1));
    assert_eq!(my_pick_slot(&s, "Gamma"), None);
    assert_eq!(my_pick_slot(&s, "Delta"), None);
}

#[test]
fn snake_turn_in_second_round() {
    // three teams; picks 1..3 made; pick 4 opens round two from the right
    let s = state(
        vec![pick(1, 1, "Alpha", Some("A1")), pick(2, 1, "Beta", Some("B1")), pick(3, 1, "Gamma", Some("G1"))],
        4,
        3,
    );
    assert!(snake_is_my_turn(&s, "gamma"));
    assert!(!snake_is_my_turn(&s, "Alpha"));
    assert!(!snake_is_my_turn(&s, "Nobody"));
}

#[test]
fn team_picks_in_order() {
    let s = state(
        vec![pick(1, 1, "Alpha", Some("A1")), pick(2, 1, "Beta", Some("B1")), pick(3, 2, "ALPHA", Some("A2"))],
        4,
        2,
    );
    assert_eq!(team_picks(&s, "alpha"), vec![0, 2]);
    assert_eq!(team_picks(&s, "Zeta"), Vec::<usize>::new());
}

#[test]
fn hints_skip_drafted_players() {
    let s = state(vec![pick(1, 1, "Alpha", Some("Bijan Robinson")), pick(2, 1, "Beta", None)], 3, 2);
    let hints = vec!["bijan robinson".to_string(), "CeeDee Lamb".to_string(), "BIJAN ROBINSON".to_string()];
    assert_eq!(available_hints(&s, &hints), vec![1]);
}

#[test]
fn hints_are_capped_at_fifty() {
    let s = state(vec![], 1, 2);
    let hints: Vec<String> = (0..60).map(|i| format!("Player {i}")).collect();
    let r = available_hints(&s, &hints);
    assert_eq!(r.len(), 50);
    assert_eq!(r[49], 49);
}

#[test]
fn watching_announces_new_picks_and_our_turn() {
    let s = state(
        vec![pick(1, 1, "Alpha", Some("A1")), pick(2, 1, "Beta", Some("B1")), pick(3, 1, "Gamma", Some("G1"))],
        4,
        3,
    );
    let step = watch_step(0, &s, "Gamma");
    assert_eq!(step, WatchStep { finished: false, announce: Some(2), last_pick: 3, on_the_clock: true });
    let again = watch_step(3, &s, "Gamma");
    assert_eq!(again.announce, None);
    assert_eq!(again.last_pick, 3);
    let mut done = s;
    done.completed = true;
    assert_eq!(
        watch_step(3, &done, "Gamma"),
        WatchStep { finished: true, announce: None, last_pick: 3, on_the_clock: false }
    );
}

#[test]
fn draft_request_texts() {
    let s = state(vec![pick(1, 1, "Alpha", Some("A1")), pick(2, 1, "Beta", None)], 3, 2);
    let hints = vec!["A1".to_string(), "Zed".to_string()];
    let news = vec![NewsItem { title: "T1".into(), summary: String::new(), source: "ESPN".into(), url: String::new() }];
    let (system, user) = draft_request(&s, "alpha", &hints, &news, Strategy::Balanced);
    assert!(system.starts_with("You are an autonomous fantasy football draft assistant. Strategy: BALANCED"));
    assert!(system.ends_with("Do NOT recommend any player that has already been drafted."));
    assert_eq!(
        user,
        "Current pick: overall #3 (round 2 of 15).\nTotal teams: 2.\nMy team: alpha\nMy picks so far:\n  R1.1 A1\n\nRecent picks (last 20):\n  R1.1 Alpha -> A1\n  R1.2 Beta -> ?\n\nAvailable pool hints:\n  1. Zed\n\nRecent news:\n- [ESPN] T1\n\nRespond in this exact format (3 entries):\n1. <Name> (<POS>) — <one-line rationale>\n2. <Name> (<POS>) — <one-line rationale>\n3. <Name> (<POS>) — <one-line rationale>"
    );
    let empty = state(vec![], 1, 10);
    let (_, u2) = draft_request(&empty, "me", &vec![], &vec![], Strategy::HighStakes);
    assert!(u2.contains("My picks so far:\n(no picks yet)\n\nRecent picks (last 20):\n\n\nAvailable pool hints:\n(use your own ranking knowledge)"));
    assert!(u2.contains("Recent news:\n(no recent news provided)"));
}

#[test]
fn draft_request_shows_the_last_twenty_picks() {
    let picks: Vec<DraftPick> = (1..=25).map(|i| pick(i, (i - 1) / 10 + 1, "T", Some("P"))).collect();
    let s = state(picks, 26, 10);
    let (_, u) = draft_request(&s, "x", &vec![], &vec![], Strategy::Conservative);
    assert!(!u.contains("R1.5 T"));
    assert!(u.contains("  R1.6 T -> P\n  R1.7 T -> P"));
    assert!(u.contains("  R3.25 T -> P\n\nAvailable"));
}

#[test]
fn undrafted_hints_skip_drafted_names() {
    let v = |x: &str| x.chars().collect::<Vec<char>>();
    let drafted = vec![v("josh allen"), v("bijan robinson")];
    let lowered = vec![v("bijan robinson"), v("puka nacua"), v("josh allen"), v("sam laporta"), v("drake london")];
    assert_eq!(undrafted_hints(&drafted, &lowered, 10), vec![1, 3, 4]);
    assert_eq!(undrafted_hints(&drafted, &lowered, 2), vec![1, 3]);
    assert!(undrafted_hints(&drafted, &lowered, 0).is_empty());
}
