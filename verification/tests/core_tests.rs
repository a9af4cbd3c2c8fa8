use groks_fantasy::anthropic::{self, assemble_reply, check_config, decode_error, status_error, AnthropicError, ApiError, ContentBlock};
use groks_fantasy::config::{
    api_key_present, choose_config_location, default_max_tokens, default_model, default_news, default_refresh,
    AnthropicConfig, Config, ConfigLocation, Settings, SleeperConfig,
};
use groks_fantasy::ffi::{
    lineup_week, news_items, split_names, strategy_input, to_udraft_state, to_udraft_suggestions, trade_inputs,
    trade_request, ClientState, FfError,
};
use groks_fantasy::draft::SuggestedPick;
use groks_fantasy::providers::{build, provider_name, team_placeholder_exec, EspnConfig, ProviderConfig, ProviderError, ProviderKind, YahooConfig};
use groks_fantasy::news::{read_feed, relevant_news, NewsItem};
use groks_fantasy::scheduler::{refresh_week, AppData, Matchup, Refresh};
use groks_fantasy::server::{authorized, token_long_enough};
use groks_fantasy::text::{lowercase_chars, truncate_bytes};
use groks_fantasy::types::{DraftPick, DraftState, PlayerStatus, Position, Roster, Strategy};
use groks_fantasy::ui::{command_for, tab_after, truncate, Command, Key, Tab, UiState};

#[test]
fn position_names_and_labels() {
    assert_eq!(Position::from_str("qb"), Position::QB);
    assert_eq!(Position::from_str("DEF"), Position::DST);
    assert_eq!(Position::from_str("d/st"), Position::DST);
    assert_eq!(Position::from_str("W/R/T"), Position::FLEX);
    assert_eq!(Position::from_str("op"), Position::SUPERFLEX);
    assert_eq!(Position::from_str("Bn"), Position::BENCH);
    assert_eq!(Position::from_str("LB"), Position::Unknown);
    assert_eq!(Position::from_str(""), Position::Unknown);
    assert_eq!(Position::SUPERFLEX.label(), "SUPERFLEX");
    assert_eq!(Position::BENCH.label(), "BN");
    assert_eq!(Position::Unknown.label(), "?");
    for p in [Position::QB, Position::RB, Position::WR, Position::TE, Position::K, Position::DST, Position::FLEX, Position::SUPERFLEX, Position::BENCH, Position::IR] {
        assert_eq!(Position::from_str(&p.label()), p);
    }
}

#[test]
fn slot_eligibility() {
    assert!(Position::RB.eligible_for(Position::FLEX));
    assert!(Position::TE.eligible_for(Position::FLEX));
    assert!(!Position::QB.eligible_for(Position::FLEX));
    assert!(Position::QB.eligible_for(Position::SUPERFLEX));
    assert!(!Position::K.eligible_for(Position::SUPERFLEX));
    assert!(Position::K.eligible_for(Position::K));
    assert!(Position::QB.is_starter_slot());
    assert!(!Position::BENCH.is_starter_slot());
    assert!(!Position::IR.is_starter_slot());
}

#[test]
fn status_names() {
    assert_eq!(PlayerStatus::from_str("QUESTIONABLE"), PlayerStatus::Questionable);
    assert_eq!(PlayerStatus::from_str("weird"), PlayerStatus::Unknown);
    assert_eq!(PlayerStatus::from_str(&PlayerStatus::Out.label()), PlayerStatus::Out);
}

#[test]
fn strategy_parsing_and_cycle() {
    assert_eq!(Strategy::parse("Conservative"), Ok(Strategy::Conservative));
    assert_eq!(Strategy::parse("HIGH-STAKES"), Ok(Strategy::HighStakes));
    assert_eq!(Strategy::parse("highstakes"), Ok(Strategy::HighStakes));
    assert_eq!(
        Strategy::parse("yolo"),
        Err("unknown strategy 'yolo' (expected conservative, balanced or high_stakes)".to_string())
    );
    assert_eq!(Strategy::default_strategy(), Strategy::Balanced);
    let s = Strategy::Conservative;
    assert_eq!(s.next(), Strategy::Balanced);
    assert_eq!(s.next().next().next(), s);
    assert_eq!(Strategy::HighStakes.key(), "high_stakes");
    assert_eq!(Strategy::HighStakes.label(), "High Stakes");
    assert_eq!(Strategy::parse(&Strategy::HighStakes.key()), Ok(Strategy::HighStakes));
}

#[test]
fn display_truncation_counts_characters() {
    assert_eq!(truncate("short", 10), "short");
    assert_eq!(truncate("abcdef", 4), "abc…");
    assert_eq!(truncate("ééééé", 3), "éé…");
    assert_eq!(truncate("abc", 0), "…");
}

#[test]
fn byte_truncation_counts_bytes() {
    assert_eq!(truncate_bytes("hello", 10), "hello");
    assert_eq!(truncate_bytes("hello world", 5), "hello…");
    // 'é' takes two bytes: byte 4 ends the second one
    assert_eq!(truncate_bytes("éééé", 4), "éé…");
    assert_eq!(anthropic::truncate("hello world", 5), "hello…");
    assert_eq!(anthropic::truncate("hello", 5), "hello");
}

#[test]
fn lowercasing_covers_unicode() {
    let v: Vec<char> = "ÀBÇ Déf".chars().collect();
    let l: String = lowercase_chars(&v).into_iter().collect();
    assert_eq!(l, "àbç déf");
}

#[test]
fn configuration_defaults() {
    assert_eq!(default_model(), "");
    assert_eq!(default_max_tokens(), 2048);
    assert_eq!(default_refresh(), 900);
    assert_eq!(
        default_news(),
        vec!["https://www.espn.com/espn/rss/nfl/news".to_string(), "https://api.sleeper.app/news/nfl/rss".to_string()]
    );
    let s = Settings::default();
    assert_eq!(s.strategy, Strategy::Balanced);
    assert_eq!(s.refresh_seconds, 900);
    assert_eq!(s.news_sources.len(), 2);
    let a = AnthropicConfig::default();
    assert!(a.api_key.is_empty());
}

fn config_with_key(key: &str) -> Config {
    Config {
        anthropic: AnthropicConfig { api_key: key.to_string(), model: default_model(), max_tokens: 2048 },
        sleeper: SleeperConfig { username: "me".to_string(), league_id: "123".to_string(), draft_id: String::new() },
        settings: Settings::default(),
    }
}

#[test]
fn api_key_falls_back_to_the_environment() {
    let mut c = config_with_key("");
    c.apply_api_key_fallback(Some("sk-env".to_string()));
    assert_eq!(c.anthropic.api_key, "sk-env");
    let mut d = config_with_key("sk-file");
    d.apply_api_key_fallback(Some("sk-env".to_string()));
    assert_eq!(d.anthropic.api_key, "sk-file");
    let mut e = config_with_key("");
    e.apply_api_key_fallback(None);
    assert_eq!(e.anthropic.api_key, "");
    assert!(api_key_present(" sk "));
    assert!(!api_key_present("   "));
}

#[test]
fn config_location_order() {
    assert!(matches!(choose_config_location(Some("/x.yaml".into()), true, Some("/home".into())), ConfigLocation::Custom(p) if p == "/x.yaml"));
    assert!(matches!(choose_config_location(None, true, Some("/home".into())), ConfigLocation::Local));
    assert!(matches!(choose_config_location(None, false, Some("/home".into())), ConfigLocation::UserConfigDir(f) if f == "/home/groks_fantasy/config.yaml"));
    assert!(matches!(choose_config_location(None, false, None), ConfigLocation::Local));
}

#[test]
fn assistant_replies() {
    let cfg = AnthropicConfig { api_key: "  ".to_string(), model: default_model(), max_tokens: 10 };
    assert!(matches!(check_config(&cfg), Err(AnthropicError::MissingKey)));
    let ok = AnthropicConfig { api_key: "sk".to_string(), model: default_model(), max_tokens: 10 };
    assert!(check_config(&ok).is_ok());
    let blocks = vec![ContentBlock::Text("Hello ".into()), ContentBlock::Other, ContentBlock::Text("world".into())];
    assert_eq!(assemble_reply(&blocks, &None).unwrap(), "Hello world");
    assert!(matches!(assemble_reply(&vec![ContentBlock::Other], &None), Err(AnthropicError::Empty)));
    let err = Some(ApiError { message: "slow down".into(), kind: "rate_limit".into() });
    match assemble_reply(&blocks, &err) {
        Err(AnthropicError::Api { kind, message }) => {
            assert_eq!(kind, "rate_limit");
            assert_eq!(message, "slow down");
        }
        other => panic!("unexpected {:?}", other),
    }
    let long = "x".repeat(600);
    match status_error(429, &long) {
        AnthropicError::Status { code, body } => {
            assert_eq!(code, 429);
            assert_eq!(body.len(), 500 + '…'.len_utf8());
        }
        other => panic!("unexpected {:?}", other),
    }
    match decode_error("not json") {
        AnthropicError::Decode { body } => assert_eq!(body, "not json"),
        other => panic!("unexpected {:?}", other),
    }
}

#[test]
fn provider_setup_checks() {
    let espn = ProviderConfig::Espn(EspnConfig { league_id: 0, season: 2025, team_id: None, swid: String::new(), espn_s2: String::new() });
    assert_eq!(build(&espn), Err(ProviderError::EspnLeagueIdRequired));
    let espn_ok = ProviderConfig::Espn(EspnConfig { league_id: 42, season: 2025, team_id: Some(1), swid: String::new(), espn_s2: String::new() });
    assert_eq!(build(&espn_ok), Ok(ProviderKind::Espn));
    let bad_cookie = ProviderConfig::Espn(EspnConfig { league_id: 42, season: 2025, team_id: Some(1), swid: "{AB\u{1}}".into(), espn_s2: "s2".into() });
    assert_eq!(build(&bad_cookie), Err(ProviderError::EspnInvalidCookie));
    assert_eq!(ProviderError::EspnInvalidCookie.message(), "failed to parse header value");
    let good_cookie = ProviderConfig::Espn(EspnConfig { league_id: 42, season: 2025, team_id: Some(1), swid: "{AB-12}".into(), espn_s2: "AEé+/=".into() });
    assert_eq!(build(&good_cookie), Ok(ProviderKind::Espn));
    // the league may be left out: it is then found among the user's leagues
    let sleeper = ProviderConfig::Sleeper(SleeperConfig { username: "me".into(), league_id: String::new(), draft_id: String::new() });
    assert_eq!(build(&sleeper), Ok(ProviderKind::Sleeper));
    let nobody = ProviderConfig::Sleeper(SleeperConfig { username: String::new(), league_id: String::new(), draft_id: String::new() });
    assert_eq!(build(&nobody), Err(ProviderError::SleeperUserRequired));
    let league_only = ProviderConfig::Sleeper(SleeperConfig { username: String::new(), league_id: "99".into(), draft_id: String::new() });
    assert_eq!(build(&league_only), Ok(ProviderKind::Sleeper));
    let yahoo = ProviderConfig::Yahoo(YahooConfig { league_key: "423.l.1".into(), team_key: None, access_token: String::new() });
    assert_eq!(build(&yahoo), Err(ProviderError::YahooAccessTokenRequired));
    assert_eq!(build(&ProviderConfig::Yahoo(YahooConfig { league_key: String::new(), team_key: None, access_token: "t".into() })), Err(ProviderError::YahooLeagueKeyRequired));
    assert_eq!(provider_name(ProviderKind::Sleeper), "sleeper");
    assert_eq!(ProviderError::EspnTeamNotFound(7).message(), "team_id 7 not found in league");
    assert_eq!(ProviderError::SleeperRosterNotFound("bob".into()).message(), "could not find roster for user bob");
    assert_eq!(team_placeholder_exec(12), "Team 12");
}

#[test]
fn client_inputs() {
    assert_eq!(split_names(" Saquon Barkley, Brock Bowers ,, "), vec!["Saquon Barkley".to_string(), "Brock Bowers".to_string()]);
    assert!(split_names("").is_empty());
    let (send, recv) = trade_request("Team B", "A, B", "C").unwrap();
    assert_eq!(send, vec!["A".to_string(), "B".to_string()]);
    assert_eq!(recv, vec!["C".to_string()]);
    match trade_request("  ", "A", "C") {
        Err(FfError::Input(m)) => assert_eq!(m, "partner / send / receive must all be non-empty"),
        _ => panic!("expected an input error"),
    }
    assert!(matches!(trade_request("Team B", " , ", "C"), Err(FfError::Input(_))));
    assert!(matches!(strategy_input("balanced"), Ok(Strategy::Balanced)));
    match strategy_input("bogus") {
        Err(e) => assert_eq!(e.message(), "invalid input: unknown strategy 'bogus' (expected conservative, balanced or high_stakes)"),
        Ok(_) => panic!("expected an error"),
    }
    assert_eq!(lineup_week(Some(5), 9), 5);
    assert_eq!(lineup_week(None, 9), 9);
    assert_eq!(lineup_week(None, 0), 1);
}

#[test]
fn client_views() {
    let d = DraftState {
        picks: vec![DraftPick { pick_number: 1, round: 1, team_id: "1".into(), team_name: "A".into(), player_id: None, player_name: Some("P".into()), position: Some(Position::QB) }],
        current_pick: 2,
        on_the_clock_team: Some("B".into()),
        total_rounds: 15,
        team_count: 10,
        completed: false,
    };
    let u = to_udraft_state(&d);
    assert_eq!(u.picks.len(), 1);
    assert_eq!(u.picks[0].position, Some("QB".to_string()));
    assert_eq!(u.picks[0].player_name, Some("P".to_string()));
    assert_eq!(u.current_pick, 2);
    assert_eq!(u.team_count, 10);
    let s = to_udraft_suggestions(&vec![SuggestedPick { rank: 1, name: "N".into(), position: None, rationale: "R".into() }]);
    assert_eq!(s[0].position, None);
    assert_eq!(s[0].name, "N");
    let news = vec![
        NewsItem { title: "t1".into(), summary: "s1".into(), source: "ESPN".into(), url: "u1".into() },
        NewsItem { title: "t2".into(), summary: "s2".into(), source: "Sleeper".into(), url: "u2".into() },
    ];
    let items = news_items(&news, 1);
    assert_eq!(items.len(), 1);
    assert_eq!(items[0].source, "ESPN");
    assert_eq!(news_items(&news, 10).len(), 2);
}

#[test]
fn service_authorization() {
    assert!(authorized(Some("Bearer secret-token"), "secret-token"));
    assert!(authorized(Some("Bearer  secret-token "), "secret-token"));
    assert!(!authorized(Some("Basic secret-token"), "secret-token"));
    assert!(!authorized(None, "secret-token"));
    assert!(!authorized(Some("Bearer "), ""));
    assert!(token_long_enough("0123456789abcdef"));
    assert!(!token_long_enough("short"));
}

#[test]
fn tabs_wrap_around() {
    assert_eq!(Tab::Roster.cycle(-1), Tab::Help);
    assert_eq!(Tab::Help.cycle(1), Tab::Roster);
    assert_eq!(Tab::Lineup.cycle(1).cycle(-1), Tab::Lineup);
    assert_eq!(Tab::at(2), Tab::Draft);
    assert_eq!(Tab::News.index(), 3);
    assert_eq!(Tab::Draft.label(), "Draft");
}

#[test]
fn snapshot_updates() {
    let mut d = AppData::default();
    assert_eq!(d.week, 0);
    d.record_error("offline".to_string());
    assert_eq!(d.last_error, Some("offline".to_string()));
    assert_eq!(d.last_refresh, None);
    let r = Refresh {
        week: 4,
        settings: None,
        roster: None,
        all_rosters: vec![],
        matchups: vec![Matchup { week: 4, home_team: "A".into(), away_team: "B".into() }],
        news: vec![],
        draft: None,
    };
    d.record_refresh(r, 77);
    assert_eq!(d.week, 4);
    assert_eq!(d.matchups.len(), 1);
    assert_eq!(d.last_refresh, Some(77));
    assert_eq!(d.last_error, None);
    assert_eq!(refresh_week(None), 1);
    assert_eq!(refresh_week(Some(6)), 6);
}

#[test]
fn news_is_narrowed_to_rostered_players() {
    let feed = vec![
        NewsItem { title: "Mahomes limited".into(), summary: "".into(), source: "ESPN".into(), url: "".into() },
        NewsItem { title: "League notes".into(), summary: "nothing".into(), source: "ESPN".into(), url: "".into() },
        NewsItem { title: "Injury".into(), summary: "Kelce out".into(), source: "Sleeper".into(), url: "".into() },
    ];
    let names = vec!["Mahomes".to_string(), "Kelce".to_string()];
    let kept = relevant_news(feed.clone(), &names);
    assert_eq!(kept.iter().map(|n| n.title.clone()).collect::<Vec<_>>(), vec!["Mahomes limited".to_string(), "Injury".to_string()]);
    let none = relevant_news(feed, &vec!["Nobody".to_string()]);
    assert_eq!(none.len(), 3);
}

#[test]
fn feed_items_are_read() {
    let body = "<rss><channel><title>Feed</title>\n<item><title>Mahomes limited</title><link>https://x/1</link>\n<description><![CDATA[ Ankle <b>sore</b> ]]></description></item>\n<item><description>no title</description></item><item>\n<title> Kelce out </title></item><item><title>Unclosed";
    let items = read_feed("ESPN", body);
    assert_eq!(items.len(), 2);
    assert_eq!(items[0].title, "Mahomes limited");
    assert_eq!(items[0].url, "https://x/1");
    assert_eq!(items[0].summary, "Ankle <b>sore</b>");
    assert_eq!(items[0].source, "ESPN");
    assert_eq!(items[1].title, "Kelce out");
    assert_eq!(items[1].summary, "");
    assert!(read_feed("x", "no items here").is_empty());
}

#[test]
fn keys_map_to_commands() {
    assert_eq!(command_for(Key::Char('q')), Command::Quit);
    assert_eq!(command_for(Key::Esc), Command::Quit);
    assert_eq!(command_for(Key::Right), Command::CycleTab(1));
    assert_eq!(command_for(Key::BackTab), Command::CycleTab(-1));
    assert_eq!(command_for(Key::Char('?')), Command::Show(Tab::Help));
    assert_eq!(command_for(Key::Char('3')), Command::Show(Tab::Draft));
    assert_eq!(command_for(Key::Char('s')), Command::CycleStrategy);
    assert_eq!(command_for(Key::Char('x')), Command::Nothing);
    assert_eq!(tab_after(Tab::Roster, command_for(Key::Left)), Tab::Help);
    assert_eq!(tab_after(Tab::News, Command::Show(Tab::Lineup)), Tab::Lineup);
    assert_eq!(tab_after(Tab::News, Command::Refresh), Tab::News);
}

#[test]
fn client_key_override() {
    let mut c = config_with_key("sk-file");
    c.apply_key_override(Some(String::new()));
    assert_eq!(c.anthropic.api_key, "sk-file");
    c.apply_key_override(None);
    assert_eq!(c.anthropic.api_key, "sk-file");
    c.apply_key_override(Some("sk-client".to_string()));
    assert_eq!(c.anthropic.api_key, "sk-client");
}

#[test]
fn terminal_state_cycles_strategy_with_a_status() {
    let mut ui = UiState::new(Strategy::Conservative);
    assert_eq!(ui.tab, Tab::Roster);
    assert_eq!(ui.status, "Press 'r' to refresh, 'l' for AI lineup, 'd' for draft suggestion, 'q' to quit");
    ui.cycle_tab(1);
    ui.cycle_strategy();
    assert_eq!(ui.strategy, Strategy::Balanced);
    assert_eq!(ui.status, "Strategy → Balanced");
    assert_eq!(ui.tab, Tab::Lineup);
    ui.cycle_strategy();
    assert_eq!(ui.status, "Strategy → High Stakes");
    ui.cycle_strategy();
    assert_eq!(ui.strategy, Strategy::Conservative);
    ui.cycle_tab(-2);
    assert_eq!(ui.tab, Tab::Help);
    assert_eq!(ui.status, "Strategy → Conservative");
}

#[test]
fn client_strategy_is_kept_between_calls() {
    let mut c = ClientState { strategy: Strategy::Balanced };
    assert!(c.set_strategy("high_stakes").is_ok());
    assert_eq!(c.strategy, Strategy::HighStakes);
    assert_eq!(c.current_strategy(), "High Stakes");
    match c.set_strategy("yolo") {
        Err(FfError::Input(m)) => assert_eq!(m, "unknown strategy 'yolo' (expected conservative, balanced or high_stakes)"),
        _ => panic!("expected an input error"),
    }
    assert_eq!(c.strategy, Strategy::HighStakes);
}

#[test]
fn trades_need_a_roster_first() {
    match trade_inputs(None, "Team B", "A", "C") {
        Err(FfError::Api(m)) => assert_eq!(m, "no roster yet"),
        _ => panic!("expected an api error"),
    }
    let r = Roster { team_id: "1".into(), team_name: "Mine".into(), owner: None, players: vec![], wins: 0, losses: 0, ties: 0 };
    let (send, recv) = trade_inputs(Some(&r), "Team B", "A, B", "C").unwrap();
    assert_eq!(send, vec!["A".to_string(), "B".to_string()]);
    assert_eq!(recv, vec!["C".to_string()]);
    assert!(matches!(trade_inputs(Some(&r), "Team B", "", "C"), Err(FfError::Input(_))));
}
