use groks_fantasy::lineup::{
    format_lineup, lineup_from_reply, lineup_request, local_optimize, lower_names, match_lowered, parse_ai_lineup,
    resolve_name_exec, slot_order, LineupParseError,
};
use groks_fantasy::news::NewsItem;
use groks_fantasy::scheduler::Matchup;
use groks_fantasy::types::{
    LeagueSettings, Lineup, LineupSlot, Player, PlayerStatus, Position, Roster, Strategy,
};

fn player(id: &str, name: &str, pos: Position) -> Player {
    Player {
        id: id.to_string(),
        name: name.to_string(),
        position: pos,
        roster_slot: Position::BENCH,
        team: "KC".to_string(),
        status: PlayerStatus::Healthy,
        opponent: None,
        bye_week: None,
        news: vec![],
    }
}

fn small_settings() -> LeagueSettings {
    LeagueSettings {
        scoring: "ppr".to_string(),
        roster_slots: vec![
            (Position::QB, 1),
            (Position::RB, 1),
            (Position::WR, 1),
            (Position::FLEX, 1),
            (Position::BENCH, 3),
        ],
        team_count: 10,
    }
}

fn roster() -> Vec<Player> {
    vec![
        player("1", "Patrick Mahomes", Position::QB),
        player("2", "Bijan Robinson", Position::RB),
        player("3", "Saquon Barkley", Position::RB),
        player("4", "CeeDee Lamb", Position::WR),
        player("5", "Travis Kelce", Position::TE),
        player("6", "Josh Allen", Position::QB),
    ]
}

#[test]
fn slot_order_follows_priority() {
    let order = slot_order(&small_settings());
    assert_eq!(order, vec![Position::QB, Position::RB, Position::WR, Position::FLEX]);
    let d = slot_order(&LeagueSettings::default_settings());
    assert_eq!(
        d,
        vec![
            Position::QB,
            Position::RB,
            Position::RB,
            Position::WR,
            Position::WR,
            Position::TE,
            Position::K,
            Position::DST,
            Position::FLEX
        ]
    );
}

#[test]
fn greedy_fills_slots_by_key() {
    let players = roster();
    // keys: higher is better
    let keys = vec![200, 150, 180, 170, 90, 210];
    let l = local_optimize(&players, &small_settings(), Strategy::Balanced, &keys);
    assert_eq!(l.week, 0);
    assert_eq!(
        l.starters,
        vec![
            LineupSlot { slot: Position::QB, player: Some(5) },
            LineupSlot { slot: Position::RB, player: Some(2) },
            LineupSlot { slot: Position::WR, player: Some(3) },
            LineupSlot { slot: Position::FLEX, player: Some(1) },
        ]
    );
    assert_eq!(l.bench, vec![0, 4]);
    assert_eq!(
        l.reasoning,
        "Greedy Balanced fallback — slots filled in priority order by risk-adjusted projection."
    );
}

#[test]
fn greedy_ties_go_to_earlier_player_and_empty_slots_stay_empty() {
    let players = vec![player("a", "A", Position::RB), player("b", "B", Position::RB)];
    let keys = vec![10, 10];
    let l = local_optimize(&players, &small_settings(), Strategy::Conservative, &keys);
    assert_eq!(
        l.starters,
        vec![
            LineupSlot { slot: Position::QB, player: None },
            LineupSlot { slot: Position::RB, player: Some(0) },
            LineupSlot { slot: Position::WR, player: None },
            LineupSlot { slot: Position::FLEX, player: Some(1) },
        ]
    );
    assert!(l.bench.is_empty());
    assert!(l.reasoning.starts_with("Greedy Conservative fallback"));
}

#[test]
fn greedy_never_starts_one_id_twice() {
    // two entries share an id: only one of them may start
    let players = vec![player("x", "Twin One", Position::RB), player("x", "Twin Two", Position::WR)];
    let keys = vec![5, 7];
    let l = local_optimize(&players, &small_settings(), Strategy::HighStakes, &keys);
    let started: Vec<usize> = l.starters.iter().filter_map(|s| s.player).collect();
    // the RB slot is filled first, so the WR twin stays out
    assert_eq!(started, vec![0]);
    assert!(l.bench.is_empty());
}

const GOOD_REPLY: &str = "REASONING: Start the hot hand.\nMatchups favor Lamb.\nLINEUP:\nQB: Josh Allen\nRB: **Saquon Barkley**\nWR: ceedee lamb\nFLEX: Bijan\n";

#[test]
fn parse_accepts_a_complete_proposal() {
    let players = roster();
    let l = parse_ai_lineup(GOOD_REPLY, &players, &small_settings(), 7).unwrap();
    assert_eq!(l.week, 7);
    assert_eq!(
        l.starters,
        vec![
            LineupSlot { slot: Position::QB, player: Some(5) },
            LineupSlot { slot: Position::RB, player: Some(2) },
            LineupSlot { slot: Position::WR, player: Some(3) },
            LineupSlot { slot: Position::FLEX, player: Some(1) },
        ]
    );
    assert_eq!(l.bench, vec![0, 4]);
    assert_eq!(l.reasoning, "Start the hot hand. Matchups favor Lamb.");
}

#[test]
fn parse_without_slot_lines_is_refused() {
    let players = roster();
    let e = parse_ai_lineup("REASONING: nothing to say", &players, &small_settings(), 1).unwrap_err();
    assert!(matches!(e, LineupParseError::NoSlotLines));
    assert_eq!(e.message(), "could not parse any slot lines from AI output");
    // slot lines before LINEUP: are not read
    let e2 = parse_ai_lineup("QB: Josh Allen", &players, &small_settings(), 1).unwrap_err();
    assert!(matches!(e2, LineupParseError::NoSlotLines));
}

#[test]
fn parse_with_wrong_counts_is_refused_with_both_listings() {
    let players = roster();
    let text = "LINEUP:\nQB: Josh Allen\nQB: Patrick Mahomes\nRB: Bijan Robinson\n";
    let e = parse_ai_lineup(text, &players, &small_settings(), 3).unwrap_err();
    match &e {
        LineupParseError::SlotCountMismatch { got, required } => {
            assert_eq!(got, &vec![(Position::QB, 2), (Position::RB, 1)]);
            assert_eq!(
                required,
                &vec![(Position::QB, 1), (Position::RB, 1), (Position::WR, 1), (Position::FLEX, 1)]
            );
        }
        other => panic!("unexpected error {:?}", other),
    }
    assert_eq!(
        e.message(),
        "slot counts don't match (got {QB: 2, RB: 1}, required {QB: 1, RB: 1, WR: 1, FLEX: 1})"
    );
}

#[test]
fn parse_drops_a_repeated_player() {
    let players = roster();
    let text = "LINEUP:\nQB: Josh Allen\nRB: Josh Allen\nRB: Bijan Robinson\nWR: CeeDee Lamb\nFLEX: Unknown Guy\n";
    let l = parse_ai_lineup(text, &players, &small_settings(), 2).unwrap();
    assert_eq!(
        l.starters,
        vec![
            LineupSlot { slot: Position::QB, player: Some(5) },
            LineupSlot { slot: Position::RB, player: Some(1) },
            LineupSlot { slot: Position::WR, player: Some(3) },
            LineupSlot { slot: Position::FLEX, player: None },
        ]
    );
    assert_eq!(l.bench, vec![0, 2, 4]);
    assert_eq!(l.reasoning, "");
}

#[test]
fn names_match_without_regard_to_case_beyond_ascii() {
    // the lower-casing covers letters outside ASCII too
    let players = vec![
        player("q", "ÉMILE QB", Position::QB),
        player("r", "Runner", Position::RB),
        player("w", "Wideout", Position::WR),
        player("f", "Flexer", Position::TE),
    ];
    let text = "LINEUP:\nQB: émile qb\nRB: runner\nWR: WIDEOUT\nFLEX: flexer\n";
    let l = parse_ai_lineup(text, &players, &small_settings(), 4).unwrap();
    assert_eq!(l.starters[0], LineupSlot { slot: Position::QB, player: Some(0) });
    assert_eq!(l.starters[3], LineupSlot { slot: Position::FLEX, player: Some(3) });
}

#[test]
fn format_lists_starters() {
    let players = roster();
    let l = Lineup {
        week: 1,
        starters: vec![
            LineupSlot { slot: Position::QB, player: Some(0) },
            LineupSlot { slot: Position::FLEX, player: None },
        ],
        bench: vec![],
        reasoning: String::new(),
    };
    assert_eq!(format_lineup(&l, &players), "QB: Patrick Mahomes\nFLEX: (empty)");
}

#[test]
fn reply_fallbacks_name_the_failure() {
    let players = roster();
    let keys = vec![200, 150, 180, 170, 90, 210];
    let local = local_optimize(&players, &small_settings(), Strategy::Balanced, &keys);
    let starters = local.starters.clone();
    let (l, raw) = lineup_from_reply(Err("timeout".to_string()), local, &players, &small_settings(), 9);
    assert_eq!(l.week, 9);
    assert_eq!(l.starters, starters);
    assert_eq!(l.reasoning, "AI unavailable (timeout); using local optimizer.");
    assert_eq!(raw, "");

    let local2 = local_optimize(&players, &small_settings(), Strategy::Balanced, &keys);
    let (l2, raw2) = lineup_from_reply(Ok("no lineup here".to_string()), local2, &players, &small_settings(), 9);
    assert_eq!(
        l2.reasoning,
        "AI parse failed (could not parse any slot lines from AI output); fell back to local optimizer."
    );
    assert_eq!(l2.bench, vec![0, 4]);
    assert_eq!(raw2, "no lineup here");

    let local3 = local_optimize(&players, &small_settings(), Strategy::Balanced, &keys);
    let (l3, raw3) = lineup_from_reply(Ok(GOOD_REPLY.to_string()), local3, &players, &small_settings(), 9);
    assert_eq!(l3.reasoning, "Start the hot hand. Matchups favor Lamb.");
    assert_eq!(l3.week, 9);
    assert_eq!(raw3, GOOD_REPLY);
}

#[test]
fn lineup_request_texts() {
    let mut lamb = player("4", "CeeDee Lamb", Position::WR);
    lamb.team = "DAL".to_string();
    lamb.status = PlayerStatus::Questionable;
    let r = Roster {
        team_id: "7".to_string(),
        team_name: "Mine".to_string(),
        owner: None,
        players: vec![player("1", "Patrick Mahomes", Position::QB), lamb],
        wins: 0,
        losses: 0,
        ties: 0,
    };
    let figures = vec![("22.5".to_string(), "21.0".to_string()), ("18.0".to_string(), "17.4".to_string())];
    let matchups = vec![
        Matchup { week: 3, home_team: "Other".to_string(), away_team: "X".to_string() },
        Matchup { week: 3, home_team: "Rival".to_string(), away_team: "Mine".to_string() },
    ];
    let mfigs = vec![("1.0".to_string(), "2.0".to_string()), ("101.5".to_string(), "98.2".to_string())];
    let local = Lineup {
        week: 3,
        starters: vec![
            LineupSlot { slot: Position::QB, player: Some(0) },
            LineupSlot { slot: Position::RB, player: None },
            LineupSlot { slot: Position::WR, player: Some(1) },
        ],
        bench: vec![],
        reasoning: String::new(),
    };
    let (system, user) =
        lineup_request(&r, &figures, &small_settings(), &matchups, &mfigs, &vec![], Strategy::Balanced, 3, &local);
    assert_eq!(
        system,
        "You are an autonomous fantasy football manager. Strategy: BALANCED — weigh floor and ceiling evenly; accept modest injury risk for clear upside.\nYou will return a starting lineup, a one-paragraph rationale, and per-slot picks. Use the league settings, the current roster, and any provided news strictly. Do not hallucinate players who are not on the roster."
    );
    assert_eq!(
        user,
        "Required starting slots: QBx1, RBx1, WRx1, FLEXx1\nScoring: ppr\nWeek 3 matchup: Rival (101.5 proj) vs Mine (98.2 proj)\n\n=== ROSTER ===\n- Patrick Mahomes (QB KC) status=OK proj=22.5 avg=21.0\n- CeeDee Lamb (WR DAL) status=Q proj=18.0 avg=17.4\n\n=== RECENT NEWS ===\n(no relevant news)\n\n=== LOCAL BASELINE (greedy by risk-adjusted projection) ===\nQB: Patrick Mahomes\nRB: (empty)\nWR: CeeDee Lamb\n\nRespond in this exact format:\nREASONING: <one paragraph>\nLINEUP:\n<SLOT>: <Player Name>\n(one line per starter slot in the order given above; bench players omitted)"
    );
    // no matchup of ours: the week alone; news lines capped at fifteen
    let news: Vec<NewsItem> = (0..20)
        .map(|i| NewsItem { title: format!("t{}", i), summary: String::new(), source: "ESPN".to_string(), url: String::new() })
        .collect();
    let (_, user2) =
        lineup_request(&r, &figures, &small_settings(), &vec![], &vec![], &news, Strategy::Balanced, 5, &local);
    assert!(user2.contains("\nWeek 5\n\n=== ROSTER ==="));
    assert!(user2.contains("- [ESPN] t14\n\n=== LOCAL"));
    assert!(!user2.contains("t15"));
}

#[test]
fn names_resolve_over_lowered_names() {
    let names: Vec<Vec<char>> = vec!["josh allen".chars().collect(), "josh allen jr".chars().collect(), "josh allen".chars().collect()];
    // an exact match: the last one
    assert_eq!(match_lowered(&names, &"josh allen".chars().collect()), Some(2));
    // else the first that contains the needle or is contained in it
    assert_eq!(match_lowered(&names, &"allen jr".chars().collect()), Some(1));
    assert_eq!(match_lowered(&names, &"josh allen jr.".chars().collect()), Some(0));
    assert_eq!(match_lowered(&names, &"kelce".chars().collect()), None);
    let players = roster();
    let lowered = lower_names(&players);
    assert_eq!(lowered[3], "ceedee lamb".chars().collect::<Vec<char>>());
    assert_eq!(resolve_name_exec(&players, &lowered, &"CEEDEE LAMB".chars().collect()), Some(3));
    assert_eq!(resolve_name_exec(&players, &lowered, &"Kelce".chars().collect()), Some(4));
    assert_eq!(resolve_name_exec(&players, &lowered, &"Nobody".chars().collect()), None);
}
