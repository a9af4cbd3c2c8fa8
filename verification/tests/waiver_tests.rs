use groks_fantasy::news::NewsItem;
use groks_fantasy::types::{Player, PlayerStatus, Position, Roster, Strategy};
use groks_fantasy::waiver::{
    ai_only_candidates, metrics_pos_str, parse_ai_pickups, pickups_request, polish_request, rank_pickups,
    weakest_index, RankedPickup, WaiverCandidate,
};

fn player(name: &str, pos: Position, team: &str) -> Player {
    Player {
        id: name.to_lowercase(),
        name: name.to_string(),
        position: pos,
        roster_slot: Position::BENCH,
        team: team.to_string(),
        status: PlayerStatus::Healthy,
        opponent: None,
        bye_week: None,
        news: vec![],
    }
}

fn my_roster() -> Roster {
    Roster {
        team_id: "1".to_string(),
        team_name: "Mine".to_string(),
        owner: None,
        players: vec![player("Bijan Robinson", Position::RB, "ATL"), player("Tank Dell", Position::WR, "HOU")],
        wins: 0,
        losses: 0,
        ties: 0,
    }
}

#[test]
fn pickups_are_read_and_numbered_by_place() {
    let reply = "Top adds:\n1. Jaylen Warren (RB) — lead back now\n3. Rashid Shaheed (WR) - deep threat\nnot a pick\n9. Tucker Kraft (TE)\n";
    let p = parse_ai_pickups(reply);
    assert_eq!(p.len(), 3);
    assert_eq!(p[0].priority, 1);
    assert_eq!(p[0].name, "Jaylen Warren");
    assert_eq!(p[0].position, Position::RB);
    assert_eq!(p[0].reasoning, "lead back now");
    assert_eq!(p[1].priority, 2);
    assert_eq!(p[1].name, "Rashid Shaheed");
    assert_eq!(p[1].reasoning, "deep threat");
    assert_eq!(p[2].priority, 3);
    assert_eq!(p[2].position, Position::TE);
    assert_eq!(p[2].reasoning, "");
}

#[test]
fn pickups_stop_at_five_and_unnamed_positions_are_unknown() {
    let reply = "1. A\n2. B\n3. C\n4. D\n5. E\n6. F\n";
    let p = parse_ai_pickups(reply);
    assert_eq!(p.len(), 5);
    assert_eq!(p[4].name, "E");
    assert_eq!(p[0].position, Position::Unknown);
}

#[test]
fn position_label_or_question_mark() {
    let ps = vec![Position::WR, Position::DST];
    assert_eq!(metrics_pos_str(1, &ps), "DST");
    assert_eq!(metrics_pos_str(2, &ps), "?");
}

#[test]
fn weakest_is_the_first_lowest_droppable() {
    let positions = vec![Position::RB, Position::RB, Position::IR, Position::RB, Position::WR];
    let ros = vec![50, 20, 1, 20, 70];
    assert_eq!(weakest_index(&positions, &ros, Position::RB), Some(1));
    assert_eq!(weakest_index(&positions, &ros, Position::WR), Some(4));
    assert_eq!(weakest_index(&positions, &ros, Position::IR), None);
    assert_eq!(weakest_index(&positions, &ros, Position::QB), None);
}

#[test]
fn ranking_keeps_positive_scores_best_first() {
    let fa_positions = vec![Position::RB, Position::WR, Position::QB, Position::RB];
    let scores = vec![30, -5, 30, 45];
    let roster_positions = vec![Position::RB, Position::RB, Position::WR];
    let ros = vec![40, 10, 60];
    let r = rank_pickups(&fa_positions, &scores, &roster_positions, &ros);
    assert_eq!(
        r,
        vec![
            RankedPickup { priority: 1, candidate: 3, drop: Some(1) },
            RankedPickup { priority: 2, candidate: 0, drop: Some(1) },
            RankedPickup { priority: 3, candidate: 2, drop: None },
        ]
    );
}

#[test]
fn ranking_takes_at_most_eight() {
    let n = 12;
    let fa_positions = vec![Position::TE; n];
    let scores: Vec<i64> = (1..=n as i64).collect();
    let r = rank_pickups(&fa_positions, &scores, &vec![], &vec![]);
    assert_eq!(r.len(), 8);
    assert_eq!(r[0].candidate, 11);
    assert_eq!(r[7].candidate, 4);
    assert_eq!(r[7].priority, 8);
    assert!(rank_pickups(&vec![Position::K], &vec![0], &vec![], &vec![]).is_empty());
}

#[test]
fn proposed_pickups_become_bench_candidates() {
    let reply = "1. Jaylen Warren (RB) — lead back now\n2. Tucker Kraft (TE)\n";
    let c = ai_only_candidates(reply);
    assert_eq!(c.len(), 2);
    assert_eq!(c[0].priority, 1);
    assert_eq!(c[0].player.id, "ai:Jaylen Warren");
    assert_eq!(c[0].player.name, "Jaylen Warren");
    assert_eq!(c[0].player.position, Position::RB);
    assert_eq!(c[0].player.roster_slot, Position::BENCH);
    assert_eq!(c[0].player.team, "");
    assert_eq!(c[0].player.status, PlayerStatus::Healthy);
    assert!(c[0].player.opponent.is_none());
    assert!(c[0].drop_candidate.is_none());
    assert_eq!(c[0].reasoning, "lead back now");
    assert_eq!(c[1].player.id, "ai:Tucker Kraft");
    assert_eq!(c[1].reasoning, "");
    assert!(ai_only_candidates("nothing to add").is_empty());
}

#[test]
fn pickups_request_texts() {
    let metrics = vec!["ROS 120 | L3 14.2".to_string(), "ROS 80 | L3 9.1".to_string()];
    let news = vec![NewsItem { title: "Dell limited".into(), summary: String::new(), source: "ESPN".into(), url: String::new() }];
    let (system, user) = pickups_request(&my_roster(), &metrics, &news, Strategy::HighStakes);
    assert_eq!(
        system,
        "You are an autonomous fantasy football GM. Strategy: HIGH STAKES — chase ceiling and upside; accept injury and variance risk to win big.\nRecommend the top 5 likely-available waiver pickups for a typical league. Do not suggest players already on the user's roster. Each pickup should target a positional weakness and explain why now."
    );
    assert_eq!(
        user,
        "Roster (with metrics):\n- Bijan Robinson (RB, ATL) ROS 120 | L3 14.2\n- Tank Dell (WR, HOU) ROS 80 | L3 9.1\n\nRecent news:\n- [ESPN] Dell limited\n\nRespond with exactly 5 lines:\n1. <Name> (<POS>) — <one-line reasoning>\n(use 1-5 numbering)"
    );
}

#[test]
fn polish_request_texts() {
    let roster = my_roster();
    assert!(polish_request(&roster, &vec![], &vec![], &vec![], &vec![], Strategy::Balanced).is_none());
    let cands = vec![
        WaiverCandidate {
            priority: 1,
            player: player("Jaylen Warren", Position::RB, "PIT"),
            drop_candidate: Some(1),
            reasoning: String::new(),
        },
        WaiverCandidate { priority: 2, player: player("Tucker Kraft", Position::TE, "GB"), drop_candidate: None, reasoning: String::new() },
    ];
    let metrics = vec!["ROS 95".to_string(), "ROS 60".to_string()];
    let figs = vec![("80".to_string(), "+15".to_string()), (String::new(), String::new())];
    let (system, user) = polish_request(&roster, &cands, &metrics, &figs, &vec![], Strategy::Conservative).unwrap();
    assert_eq!(
        system,
        "You are an autonomous fantasy football GM polishing a waiver report. Strategy: CONSERVATIVE — favor high floors, healthy players and steady volume; avoid questionable starters.\nRe-rank or confirm the candidate list and add a one-paragraph summary of the recommended waiver moves and their expected impact."
    );
    assert_eq!(
        user,
        "Roster: Bijan Robinson, Tank Dell\n\nCandidates with metrics:\n1. Jaylen Warren (RB, PIT) — ROS 95 | drop Tank Dell (ROS 80, Δ +15)\n2. Tucker Kraft (TE, GB) — ROS 60 | no drop suggested\n\nRecent news:\n\n\nProvide a 2-4 sentence summary, then a re-ranked top 5 with a short rationale per pickup."
    );
}
