//! ESPN: lineup-slot and position codes, team names, and the conversion of
//! league, roster, schedule and draft data into the league model.
use vstd::prelude::*;
use crate::providers::{EspnConfig, ProviderError, team_placeholder, team_placeholder_exec};
use crate::text::{
    chars_of, concat_chars, decimal, decimal_chars, parse_u32, parse_u32_spec, string_of, trim,
    trim_chars,
};
use crate::types::{
    DraftPick, DraftState, LeagueSettings, Player, PlayerStatus, Position, Roster, status_named,
};

verus! {

/// The league endpoint for a season and league.
pub open spec fn spec_base_url(season: u32, league_id: u64) -> Seq<char> {
    "https://lm-api-reads.fantasy.espn.com/apis/v3/games/ffl/seasons/"@ + decimal(season as nat)
        + "/segments/0/leagues/"@ + decimal(league_id as nat)
}

/// The league endpoint for a season and league.
pub fn base_url(season: u32, league_id: u64) -> (r: String)
    ensures
        r@ == spec_base_url(season, league_id),
{
    let mut v = chars_of("https://lm-api-reads.fantasy.espn.com/apis/v3/games/ffl/seasons/");
    v = concat_chars(&v, &decimal_chars(season as u64));
    v = concat_chars(&v, &chars_of("/segments/0/leagues/"));
    v = concat_chars(&v, &decimal_chars(league_id));
    string_of(&v)
}

/// The lineup slot an ESPN lineup-slot id stands for.
pub open spec fn spec_slot_id_to_position(id: u32) -> Position {
    if id == 0 {
        Position::QB
    } else if id == 2 {
        Position::RB
    } else if id == 4 {
        Position::WR
    } else if id == 6 {
        Position::TE
    } else if id == 16 {
        Position::DST
    } else if id == 17 {
        Position::K
    } else if id == 20 {
        Position::BENCH
    } else if id == 21 {
        Position::IR
    } else if id == 23 {
        Position::FLEX
    } else if id == 7 {
        Position::SUPERFLEX
    } else {
        Position::Unknown
    }
}

/// The lineup slot an ESPN lineup-slot id stands for.
pub fn slot_id_to_position(id: u32) -> (p: Position)
    ensures
        p == spec_slot_id_to_position(id),
{
    match id {
        0 => Position::QB,
        2 => Position::RB,
        4 => Position::WR,
        6 => Position::TE,
        16 => Position::DST,
        17 => Position::K,
        20 => Position::BENCH,
        21 => Position::IR,
        23 => Position::FLEX,
        7 => Position::SUPERFLEX,
        _ => Position::Unknown,
    }
}

/// The position an ESPN default-position id stands for.
pub open spec fn spec_default_position(id: u32) -> Position {
    if id == 1 {
        Position::QB
    } else if id == 2 {
        Position::RB
    } else if id == 3 {
        Position::WR
    } else if id == 4 {
        Position::TE
    } else if id == 5 {
        Position::K
    } else if id == 16 {
        Position::DST
    } else {
        Position::Unknown
    }
}

/// The default-position id ESPN gives each position it numbers: QB 1, RB 2,
/// WR 3, TE 4, K 5, D/ST 16.
pub open spec fn espn_position_id(p: Position) -> Option<u32> {
    match p {
        Position::QB => Some(1u32),
        Position::RB => Some(2u32),
        Position::WR => Some(3u32),
        Position::TE => Some(4u32),
        Position::K => Some(5u32),
        Position::DST => Some(16u32),
        _ => None,
    }
}

/// Reading an ESPN default-position id gives back the position ESPN numbers
/// with that id, and any position read back carries that id: no two ids read
/// as one position, and an id ESPN gives to no position reads as unknown.
pub proof fn lemma_default_position_ids()
    ensures
        forall|id: u32, p: Position|
            #![trigger espn_position_id(p), spec_default_position(id)]
            espn_position_id(p) == Some(id) ==> spec_default_position(id) == p,
        forall|id: u32|
            #[trigger] spec_default_position(id) != Position::Unknown ==> espn_position_id(
                spec_default_position(id),
            ) == Some(id),
        forall|a: u32, b: u32|
            a != b && #[trigger] spec_default_position(a) == #[trigger] spec_default_position(b)
                ==> spec_default_position(a) == Position::Unknown,
{
}

/// The position an ESPN default-position id stands for.
pub fn default_position_id_to_position(id: u32) -> (p: Position)
    ensures
        p == spec_default_position(id),
{
    match id {
        1 => Position::QB,
        2 => Position::RB,
        3 => Position::WR,
        4 => Position::TE,
        5 => Position::K,
        16 => Position::DST,
        _ => Position::Unknown,
    }
}

/// The abbreviation of an NFL team by ESPN id (`FA` for free agents, empty when unknown).
pub open spec fn spec_pro_team(id: u32) -> Seq<char> {
    if id == 0 {
        "FA"@
    } else if id == 1 {
        "ATL"@
    } else if id == 2 {
        "BUF"@
    } else if id == 3 {
        "CHI"@
    } else if id == 4 {
        "CIN"@
    } else if id == 5 {
        "CLE"@
    } else if id == 6 {
        "DAL"@
    } else if id == 7 {
        "DEN"@
    } else if id == 8 {
        "DET"@
    } else if id == 9 {
        "GB"@
    } else if id == 10 {
        "TEN"@
    } else if id == 11 {
        "IND"@
    } else if id == 12 {
        "KC"@
    } else if id == 13 {
        "LV"@
    } else if id == 14 {
        "LAR"@
    } else if id == 15 {
        "MIA"@
    } else if id == 16 {
        "MIN"@
    } else if id == 17 {
        "NE"@
    } else if id == 18 {
        "NO"@
    } else if id == 19 {
        "NYG"@
    } else if id == 20 {
        "NYJ"@
    } else if id == 21 {
        "PHI"@
    } else if id == 22 {
        "ARI"@
    } else if id == 23 {
        "PIT"@
    } else if id == 24 {
        "LAC"@
    } else if id == 25 {
        "SF"@
    } else if id == 26 {
        "SEA"@
    } else if id == 27 {
        "TB"@
    } else if id == 28 {
        "WSH"@
    } else if id == 29 {
        "CAR"@
    } else if id == 30 {
        "JAX"@
    } else if id == 33 {
        "BAL"@
    } else if id == 34 {
        "HOU"@
    } else {
        ""@
    }
}

/// The abbreviation of an NFL team by ESPN id.
pub fn pro_team(id: u32) -> (r: &'static str)
    ensures
        r@ == spec_pro_team(id),
{
    match id {
        0 => "FA",
        1 => "ATL",
        2 => "BUF",
        3 => "CHI",
        4 => "CIN",
        5 => "CLE",
        6 => "DAL",
        7 => "DEN",
        8 => "DET",
        9 => "GB",
        10 => "TEN",
        11 => "IND",
        12 => "KC",
        13 => "LV",
        14 => "LAR",
        15 => "MIA",
        16 => "MIN",
        17 => "NE",
        18 => "NO",
        19 => "NYG",
        20 => "NYJ",
        21 => "PHI",
        22 => "ARI",
        23 => "PIT",
        24 => "LAC",
        25 => "SF",
        26 => "SEA",
        27 => "TB",
        28 => "WSH",
        29 => "CAR",
        30 => "JAX",
        33 => "BAL",
        34 => "HOU",
        _ => "",
    }
}

/// The cookie sent for a private league, when both cookies are configured.
pub fn cookie_header(cfg: &EspnConfig) -> (r: Option<String>)
    ensures
        if cfg.swid@.len() > 0 && cfg.espn_s2@.len() > 0 {
            r matches Some(c) && c@ == "SWID="@ + cfg.swid@ + "; espn_s2="@ + cfg.espn_s2@
        } else {
            r is None
        },
{
    if !cfg.swid.as_str().is_empty() && !cfg.espn_s2.as_str().is_empty() {
        let mut v = chars_of("SWID=");
        v = concat_chars(&v, &chars_of(cfg.swid.as_str()));
        v = concat_chars(&v, &chars_of("; espn_s2="));
        v = concat_chars(&v, &chars_of(cfg.espn_s2.as_str()));
        Some(string_of(&v))
    } else {
        None
    }
}

/// What ESPN reports of a player (the figures aside).
#[derive(Clone, Debug)]
pub struct EspnPlayerInfo {
    pub id: u64,
    pub full_name: String,
    pub default_position_id: u32,
    pub pro_team_id: u32,
    pub injury_status: Option<String>,
}

/// One roster entry: its lineup slot and the player, when the entry has one.
#[derive(Clone, Debug)]
pub struct EspnEntry {
    pub lineup_slot_id: u32,
    pub player: Option<EspnPlayerInfo>,
}

/// What ESPN reports of a team (the points aside).
#[derive(Clone, Debug)]
pub struct EspnTeam {
    pub id: u32,
    pub name: Option<String>,
    pub location: Option<String>,
    pub nickname: Option<String>,
    /// Wins, losses and ties, when the team has a record.
    pub record: Option<(u32, u32, u32)>,
    pub entries: Vec<EspnEntry>,
}

/// The display name of a team: location and nickname when both are known
/// (joined by a space, trimmed), else its name, else `Team <id>`.
pub open spec fn spec_team_name(t: EspnTeam) -> Seq<char> {
    match (t.location, t.nickname) {
        (Some(l), Some(n)) => trim(l@ + " "@ + n@),
        _ => match t.name {
            Some(n) => n@,
            None => team_placeholder(t.id as nat),
        },
    }
}

/// The display name of a team.
pub fn team_name(t: &EspnTeam) -> (r: String)
    ensures
        r@ == spec_team_name(*t),
{
    match (&t.location, &t.nickname) {
        (Some(l), Some(n)) => {
            let mut v = chars_of(l.as_str());
            v = concat_chars(&v, &chars_of(" "));
            v = concat_chars(&v, &chars_of(n.as_str()));
            string_of(&trim_chars(&v))
        },
        _ => match &t.name {
            Some(n) => string_of(&chars_of(n.as_str())),
            None => team_placeholder_exec(t.id as u64),
        },
    }
}

/// A player from a roster entry: position from the default-position id, slot
/// from the lineup-slot id, team abbreviation from the pro-team id, status
/// from the injury status (healthy when none is reported).
pub open spec fn spec_player_ok(e: EspnEntry, p: Player) -> bool {
    match e.player {
        Some(info) => {
            &&& p.id@ == decimal(info.id as nat)
            &&& p.name@ == info.full_name@
            &&& p.position == spec_default_position(info.default_position_id)
            &&& p.roster_slot == spec_slot_id_to_position(e.lineup_slot_id)
            &&& p.team@ == spec_pro_team(info.pro_team_id)
            &&& p.status == match info.injury_status {
                Some(s) => status_named(s@),
                None => PlayerStatus::Healthy,
            }
            &&& p.opponent is None
            &&& p.bye_week is None
            &&& p.news@.len() == 0
        },
        None => false,
    }
}

/// The player of a roster entry, or none when the entry holds no player.
pub fn build_player(e: &EspnEntry) -> (r: Option<Player>)
    ensures
        match r {
            Some(p) => spec_player_ok(*e, p),
            None => e.player is None,
        },
{
    match &e.player {
        Some(info) => {
            let status = match &info.injury_status {
                Some(s) => PlayerStatus::from_str(s.as_str()),
                None => PlayerStatus::Healthy,
            };
            Some(
                Player {
                    id: string_of(&decimal_chars(info.id)),
                    name: string_of(&chars_of(info.full_name.as_str())),
                    position: default_position_id_to_position(info.default_position_id),
                    roster_slot: slot_id_to_position(e.lineup_slot_id),
                    team: pro_team(info.pro_team_id).to_owned(),
                    status,
                    opponent: None,
                    bye_week: None,
                    news: Vec::new(),
                },
            )
        },
        None => None,
    }
}

/// Indices of the entries (among the first `n`) that hold a player, in order.
pub open spec fn player_entries(entries: Seq<EspnEntry>, n: int) -> Seq<int>
    decreases n,
{
    if n <= 0 {
        Seq::empty()
    } else if entries[n - 1].player is Some {
        player_entries(entries, n - 1).push(n - 1)
    } else {
        player_entries(entries, n - 1)
    }
}

/// The players of the entries that hold one, in order.
pub fn build_players(entries: &Vec<EspnEntry>) -> (r: Vec<Player>)
    ensures
        r.len() == player_entries(entries@, entries.len() as int).len(),
        forall|k: int|
            0 <= k < r.len() ==> spec_player_ok(
                entries@[player_entries(entries@, entries.len() as int)[k]],
                #[trigger] r@[k],
            ),
{
    let mut r: Vec<Player> = Vec::new();
    let mut i: usize = 0;
    while i < entries.len()
        invariant
            i <= entries.len(),
            r.len() == player_entries(entries@, i as int).len(),
            forall|k: int|
                0 <= k < r.len() ==> spec_player_ok(
                    entries@[player_entries(entries@, i as int)[k]],
                    #[trigger] r@[k],
                ),
        decreases entries.len() - i,
    {
        let ghost before = player_entries(entries@, i as int);
        match build_player(&entries[i]) {
            Some(p) => {
                r.push(p);
                assert(player_entries(entries@, i + 1) == before.push(i as int));
            },
            None => {
                assert(player_entries(entries@, i + 1) == before);
            },
        }
        i = i + 1;
    }
    r
}

/// The roster of a team: id in decimal, display name, no owner, its players
/// and its record (zeros when it has none).
pub fn build_team(t: &EspnTeam) -> (r: Roster)
    ensures
        r.team_id@ == decimal(t.id as nat),
        r.team_name@ == spec_team_name(*t),
        r.owner is None,
        r.players.len() == player_entries(t.entries@, t.entries.len() as int).len(),
        forall|k: int|
            0 <= k < r.players.len() ==> spec_player_ok(
                t.entries@[player_entries(t.entries@, t.entries.len() as int)[k]],
                #[trigger] r.players@[k],
            ),
        match t.record {
            Some((w, l, x)) => r.wins == w && r.losses == l && r.ties == x,
            None => r.wins == 0 && r.losses == 0 && r.ties == 0,
        },
{
    let (wins, losses, ties) = match t.record {
        Some((w, l, x)) => (w, l, x),
        None => (0, 0, 0),
    };
    Roster {
        team_id: string_of(&decimal_chars(t.id as u64)),
        team_name: team_name(t),
        owner: None,
        players: build_players(&t.entries),
        wins,
        losses,
        ties,
    }
}

/// The current week: the scoring period, else the matchup period, else 1;
/// never below 1.
pub fn current_week(scoring_period: Option<u8>, matchup_period: Option<u8>) -> (r: u8)
    ensures
        r == ({
            let w = match scoring_period {
                Some(p) => p,
                None => match matchup_period {
                    Some(m) => m,
                    None => 1u8,
                },
            };
            if w < 1 {
                1u8
            } else {
                w
            }
        }),
        r >= 1,
{
    let w = match scoring_period {
        Some(p) => p,
        None => match matchup_period {
            Some(m) => m,
            None => 1,
        },
    };
    if w < 1 {
        1
    } else {
        w
    }
}

/// The slots among `pairs` (lineup-slot id as text, count): those whose id
/// parses, names a known slot and has a positive count.
pub open spec fn spec_slots(pairs: Seq<(String, u32)>, n: int) -> Seq<(Position, u32)>
    decreases n,
{
    if n <= 0 {
        Seq::empty()
    } else {
        let prev = spec_slots(pairs, n - 1);
        let (k, v) = pairs[n - 1];
        match parse_u32_spec(k@) {
            Some(id) => if spec_slot_id_to_position(id) != Position::Unknown && v > 0 {
                prev.push((spec_slot_id_to_position(id), v))
            } else {
                prev
            },
            None => prev,
        }
    }
}

/// League settings from ESPN: the scoring type (`ppr` when none), the league
/// size (10 when none) and the slot counts (see [`spec_slots`]).
pub fn league_settings(
    scoring_type: Option<String>,
    size: Option<u32>,
    slot_counts: &Vec<(String, u32)>,
) -> (r: LeagueSettings)
    ensures
        r.scoring@ == match scoring_type {
            Some(s) => s@,
            None => "ppr"@,
        },
        r.team_count == match size {
            Some(n) => n,
            None => 10u32,
        },
        r.roster_slots@ == spec_slots(slot_counts@, slot_counts.len() as int),
{
    let mut slots: Vec<(Position, u32)> = Vec::new();
    let mut i: usize = 0;
    while i < slot_counts.len()
        invariant
            i <= slot_counts.len(),
            slots@ == spec_slots(slot_counts@, i as int),
        decreases slot_counts.len() - i,
    {
        let (k, v) = (&slot_counts[i].0, slot_counts[i].1);
        match parse_u32(&chars_of(k.as_str())) {
            Some(id) => {
                let pos = slot_id_to_position(id);
                if pos != Position::Unknown && v > 0 {
                    slots.push((pos, v));
                }
            },
            None => {},
        }
        i = i + 1;
    }
    let scoring = match scoring_type {
        Some(s) => s,
        None => "ppr".to_owned(),
    };
    let team_count = match size {
        Some(n) => n,
        None => 10,
    };
    LeagueSettings { scoring, roster_slots: slots, team_count }
}

/// The first team with id `id`.
pub open spec fn team_with_id(teams: Seq<EspnTeam>, id: u32) -> Option<int> {
    if exists|i: int| 0 <= i < teams.len() && teams[i].id == id {
        Some(
            choose|i: int|
                0 <= i < teams.len() && teams[i].id == id && forall|k: int|
                    0 <= k < i ==> teams[k].id != id,
        )
    } else {
        None
    }
}

/// Index of the first team with id `id`.
pub fn find_team(teams: &Vec<EspnTeam>, id: u32) -> (r: Option<usize>)
    ensures
        idx_of(r) == team_with_id(teams@, id),
        r is Some ==> r->0 < teams.len(),
{
    let mut i: usize = 0;
    while i < teams.len()
        invariant
            i <= teams.len(),
            forall|k: int| 0 <= k < i ==> teams@[k].id != id,
        decreases teams.len() - i,
    {
        if teams[i].id == id {
            proof {
                let w = choose|x: int|
                    0 <= x < teams@.len() && teams@[x].id == id && forall|k: int|
                        0 <= k < x ==> teams@[k].id != id;
                assert(0 <= i < teams@.len() && teams@[i as int].id == id);
                if w < i {
                } else if w > i {
                }
            }
            return Some(i);
        }
        i = i + 1;
    }
    None
}

/// An index as a spec integer.
pub open spec fn idx_of(o: Option<usize>) -> Option<int> {
    match o {
        Some(i) => Some(i as int),
        None => None,
    }
}

/// Your roster: the team with the configured team id. Fails when no team id
/// is configured or no team has it.
pub fn my_roster(cfg: &EspnConfig, teams: &Vec<EspnTeam>) -> (r: Result<Roster, ProviderError>)
    ensures
        match cfg.team_id {
            None => r == Err::<Roster, ProviderError>(ProviderError::EspnTeamIdRequired),
            Some(id) => match team_with_id(teams@, id) {
                None => r == Err::<Roster, ProviderError>(ProviderError::EspnTeamNotFound(id)),
                Some(i) => r is Ok && r->Ok_0.team_id@ == decimal(teams@[i].id as nat)
                    && r->Ok_0.team_name@ == spec_team_name(teams@[i]),
            },
        },
{
    let id = match cfg.team_id {
        Some(id) => id,
        None => {
            return Err(ProviderError::EspnTeamIdRequired);
        },
    };
    match find_team(teams, id) {
        Some(i) => Ok(build_team(&teams[i])),
        None => Err(ProviderError::EspnTeamNotFound(id)),
    }
}

/// One matchup of the schedule: its period and the two teams, when known.
#[derive(Clone, Debug)]
pub struct EspnScheduleEntry {
    pub matchup_period_id: u8,
    pub home_team_id: Option<u32>,
    pub away_team_id: Option<u32>,
}

/// The display name of the last team with id `id`, or `Team <id>` when no team has it.
pub open spec fn spec_resolve_team(teams: Seq<EspnTeam>, id: u32) -> Seq<char> {
    match last_team_with_id(teams, id) {
        Some(i) => spec_team_name(teams[i]),
        None => team_placeholder(id as nat),
    }
}

/// The last team with id `id` (a table keyed by id keeps the last).
pub open spec fn last_team_with_id(teams: Seq<EspnTeam>, id: u32) -> Option<int> {
    if exists|i: int| 0 <= i < teams.len() && teams[i].id == id {
        Some(
            choose|i: int|
                0 <= i < teams.len() && teams[i].id == id && forall|k: int|
                    i < k < teams.len() ==> teams[k].id != id,
        )
    } else {
        None
    }
}

fn find_last_team(teams: &Vec<EspnTeam>, id: u32) -> (r: Option<usize>)
    ensures
        idx_of(r) == last_team_with_id(teams@, id),
        r is Some ==> r->0 < teams.len(),
{
    let mut i: usize = teams.len();
    while i > 0
        invariant
            i <= teams.len(),
            forall|k: int| i <= k < teams.len() ==> teams@[k].id != id,
        decreases i,
    {
        if teams[i - 1].id == id {
            proof {
                let j = (i - 1) as int;
                let w = choose|x: int|
                    0 <= x < teams@.len() && teams@[x].id == id && forall|k: int|
                        x < k < teams@.len() ==> teams@[k].id != id;
                assert(0 <= j < teams@.len() && teams@[j].id == id);
                if w < j {
                } else if w > j {
                }
            }
            return Some(i - 1);
        }
        i = i - 1;
    }
    None
}

/// The display name of the team with id `id` (`Team <id>` when there is none).
pub fn resolve_team(teams: &Vec<EspnTeam>, id: u32) -> (r: String)
    ensures
        r@ == spec_resolve_team(teams@, id),
{
    match find_last_team(teams, id) {
        Some(i) => team_name(&teams[i]),
        None => team_placeholder_exec(id as u64),
    }
}

/// A matchup of a week: the schedule entry it comes from and the two team names.
#[derive(Clone, Debug)]
pub struct MatchupTeams {
    pub entry: usize,
    pub home_team: String,
    pub away_team: String,
}

/// The schedule entries (among the first `n`) of week `week` with both teams known.
pub open spec fn week_entries(schedule: Seq<EspnScheduleEntry>, week: u8, n: int) -> Seq<int>
    decreases n,
{
    if n <= 0 {
        Seq::empty()
    } else if schedule[n - 1].matchup_period_id == week && schedule[n - 1].home_team_id is Some
        && schedule[n - 1].away_team_id is Some {
        week_entries(schedule, week, n - 1).push(n - 1)
    } else {
        week_entries(schedule, week, n - 1)
    }
}

/// The matchups of a week, in schedule order, with their team names.
pub fn matchups(teams: &Vec<EspnTeam>, schedule: &Vec<EspnScheduleEntry>, week: u8) -> (r: Vec<MatchupTeams>)
    ensures
        r.len() == week_entries(schedule@, week, schedule.len() as int).len(),
        forall|k: int|
            #![trigger r@[k]]
            0 <= k < r.len() ==> {
                let e = week_entries(schedule@, week, schedule.len() as int)[k];
                &&& r@[k].entry == e
                &&& r@[k].home_team@ == spec_resolve_team(teams@, schedule@[e].home_team_id->0)
                &&& r@[k].away_team@ == spec_resolve_team(teams@, schedule@[e].away_team_id->0)
            },
{
    let mut r: Vec<MatchupTeams> = Vec::new();
    let mut i: usize = 0;
    while i < schedule.len()
        invariant
            i <= schedule.len(),
            r.len() == week_entries(schedule@, week, i as int).len(),
            forall|k: int|
                #![trigger r@[k]]
                0 <= k < r.len() ==> {
                    let e = week_entries(schedule@, week, i as int)[k];
                    &&& r@[k].entry == e
                    &&& r@[k].home_team@ == spec_resolve_team(teams@, schedule@[e].home_team_id->0)
                    &&& r@[k].away_team@ == spec_resolve_team(teams@, schedule@[e].away_team_id->0)
                },
        decreases schedule.len() - i,
    {
        let ghost before = week_entries(schedule@, week, i as int);
        let m = &schedule[i];
        if m.matchup_period_id == week {
            match (m.home_team_id, m.away_team_id) {
                (Some(h), Some(a)) => {
                    r.push(
                        MatchupTeams {
                            entry: i,
                            home_team: resolve_team(teams, h),
                            away_team: resolve_team(teams, a),
                        },
                    );
                    assert(week_entries(schedule@, week, i + 1) == before.push(i as int));
                },
                _ => {},
            }
        }
        i = i + 1;
    }
    r
}

/// One pick of ESPN's draft detail.
#[derive(Clone, Debug)]
pub struct EspnDraftPick {
    pub overall_pick_number: u32,
    pub round_id: u32,
    pub team_id: u32,
    pub player_id: u64,
}

/// The (team, entry) places of all rostered players, team by team, among the
/// first `n` teams.
pub open spec fn player_places(teams: Seq<EspnTeam>, n: int) -> Seq<(int, int)>
    decreases n,
{
    if n <= 0 {
        Seq::empty()
    } else {
        player_places(teams, n - 1) + player_entries(
            teams[n - 1].entries@,
            teams[n - 1].entries@.len() as int,
        ).map_values(|e: int| (n - 1, e))
    }
}

/// The player at a place.
pub open spec fn player_at(teams: Seq<EspnTeam>, place: (int, int)) -> EspnPlayerInfo {
    teams[place.0].entries@[place.1].player->0
}

/// The last rostered player with id `pid` (later entries replace earlier ones).
pub open spec fn lookup_player(teams: Seq<EspnTeam>, pid: u64) -> Option<(int, int)> {
    let places = player_places(teams, teams.len() as int);
    if exists|k: int| 0 <= k < places.len() && player_at(teams, places[k]).id == pid {
        let k = choose|k: int|
            0 <= k < places.len() && player_at(teams, places[k]).id == pid && forall|q: int|
                k < q < places.len() ==> player_at(teams, places[q]).id != pid;
        Some(places[k])
    } else {
        None
    }
}

fn player_places_exec(teams: &Vec<EspnTeam>) -> (r: Vec<(usize, usize)>)
    ensures
        r@.map_values(|p: (usize, usize)| (p.0 as int, p.1 as int)) == player_places(
            teams@,
            teams.len() as int,
        ),
        forall|k: int|
            0 <= k < r.len() ==> (#[trigger] r@[k]).0 < teams.len() && r@[k].1
                < teams@[r@[k].0 as int].entries.len() && teams@[r@[k].0 as int].entries@[r@[k].1 as int].player is Some,
{
    let mut r: Vec<(usize, usize)> = Vec::new();
    let mut t: usize = 0;
    while t < teams.len()
        invariant
            t <= teams.len(),
            r@.map_values(|p: (usize, usize)| (p.0 as int, p.1 as int)) == player_places(
                teams@,
                t as int,
            ),
            forall|k: int|
                0 <= k < r.len() ==> (#[trigger] r@[k]).0 < teams.len() && r@[k].1
                    < teams@[r@[k].0 as int].entries.len() && teams@[r@[k].0 as int].entries@[r@[k].1 as int].player is Some,
        decreases teams.len() - t,
    {
        let entries = &teams[t].entries;
        let ghost base = r@.map_values(|p: (usize, usize)| (p.0 as int, p.1 as int));
        let mut e: usize = 0;
        while e < entries.len()
            invariant
                t < teams.len(),
                entries == &teams@[t as int].entries,
                e <= entries.len(),
                r@.map_values(|p: (usize, usize)| (p.0 as int, p.1 as int)) == base + player_entries(
                    entries@,
                    e as int,
                ).map_values(|x: int| (t as int, x)),
                forall|k: int|
                    0 <= k < r.len() ==> (#[trigger] r@[k]).0 < teams.len() && r@[k].1
                        < teams@[r@[k].0 as int].entries.len() && teams@[r@[k].0 as int].entries@[r@[k].1 as int].player is Some,
            decreases entries.len() - e,
        {
            if entries[e].player.is_some() {
                let ghost prev = r@.map_values(|p: (usize, usize)| (p.0 as int, p.1 as int));
                r.push((t, e));
                assert(player_entries(entries@, e + 1) == player_entries(entries@, e as int).push(e as int));
                assert(r@.map_values(|p: (usize, usize)| (p.0 as int, p.1 as int)) =~= prev.push((t as int, e as int)));
                assert(player_entries(entries@, e + 1).map_values(|x: int| (t as int, x)) =~= player_entries(entries@, e as int).map_values(|x: int| (t as int, x)).push((t as int, e as int)));
            } else {
                assert(player_entries(entries@, e + 1) == player_entries(entries@, e as int));
            }
            e = e + 1;
        }
        t = t + 1;
    }
    r
}

/// The player with id `pid` (see [`lookup_player`]), as a place.
fn lookup_player_exec(teams: &Vec<EspnTeam>, places: &Vec<(usize, usize)>, pid: u64) -> (r: Option<(usize, usize)>)
    requires
        places@.map_values(|p: (usize, usize)| (p.0 as int, p.1 as int)) == player_places(
            teams@,
            teams.len() as int,
        ),
        forall|k: int|
            0 <= k < places.len() ==> (#[trigger] places@[k]).0 < teams.len() && places@[k].1
                < teams@[places@[k].0 as int].entries.len() && teams@[places@[k].0 as int].entries@[places@[k].1 as int].player is Some,
    ensures
        match r {
            Some(p) => lookup_player(teams@, pid) == Some((p.0 as int, p.1 as int)) && p.0 < teams.len()
                && p.1 < teams@[p.0 as int].entries.len() && teams@[p.0 as int].entries@[p.1 as int].player is Some,
            None => lookup_player(teams@, pid) is None,
        },
{
    let ghost pl = player_places(teams@, teams.len() as int);
    let mut k: usize = places.len();
    while k > 0
        invariant
            k <= places.len(),
            places@.map_values(|p: (usize, usize)| (p.0 as int, p.1 as int)) == pl,
            pl == player_places(teams@, teams.len() as int),
            forall|q: int|
                0 <= q < places.len() ==> (#[trigger] places@[q]).0 < teams.len() && places@[q].1
                    < teams@[places@[q].0 as int].entries.len() && teams@[places@[q].0 as int].entries@[places@[q].1 as int].player is Some,
            forall|q: int| k <= q < pl.len() ==> player_at(teams@, pl[q]).id != pid,
        decreases k,
    {
        let (t, e) = places[k - 1];
        assert(pl[k - 1] == (t as int, e as int));
        let info = match &teams[t].entries[e].player {
            Some(info) => info,
            None => {
                return None;  // unreachable: the place holds a player
            },
        };
        if info.id == pid {
            proof {
                let j = (k - 1) as int;
                assert(player_at(teams@, pl[j]).id == pid);
                let w = choose|x: int|
                    0 <= x < pl.len() && player_at(teams@, pl[x]).id == pid && forall|q: int|
                        x < q < pl.len() ==> player_at(teams@, pl[q]).id != pid;
                if w < j {
                } else if w > j {
                }
            }
            return Some((t, e));
        }
        k = k - 1;
    }
    None
}

/// A draft pick from ESPN's draft detail: the team's display name, the
/// player's id in decimal, and the player's name and position when the player
/// is on a roster.
pub open spec fn spec_pick_ok(teams: Seq<EspnTeam>, p: EspnDraftPick, d: DraftPick) -> bool {
    &&& d.pick_number == p.overall_pick_number
    &&& d.round == p.round_id
    &&& d.team_id@ == decimal(p.team_id as nat)
    &&& d.team_name@ == spec_resolve_team(teams, p.team_id)
    &&& d.player_id matches Some(i) && i@ == decimal(p.player_id as nat)
    &&& match lookup_player(teams, p.player_id) {
        Some(place) => d.player_name matches Some(n) && n@ == player_at(teams, place).full_name@
            && d.position == Some(spec_default_position(player_at(teams, place).default_position_id)),
        None => d.player_name is None && d.position is None,
    }
}

/// The draft state from ESPN's draft detail. The rounds are the highest round
/// id among the picks (15 when there is none), the next pick follows the last
/// one (1 when there is none), the league size is reported or 10, and the
/// draft is complete once drafted and no longer in progress.
pub fn draft_state(
    picks: &Vec<EspnDraftPick>,
    teams: &Vec<EspnTeam>,
    drafted: bool,
    in_progress: bool,
    size: Option<u32>,
) -> (r: DraftState)
    requires
        picks.len() > 0 ==> picks@[picks.len() - 1].overall_pick_number < u32::MAX,
    ensures
        r.picks.len() == picks.len(),
        forall|k: int| 0 <= k < picks.len() ==> spec_pick_ok(teams@, picks@[k], #[trigger] r.picks@[k]),
        r.current_pick == if picks.len() == 0 {
            1
        } else {
            picks@[picks.len() - 1].overall_pick_number + 1
        },
        r.on_the_clock_team is None,
        picks.len() == 0 ==> r.total_rounds == 15,
        picks.len() > 0 ==> (forall|k: int| 0 <= k < picks.len() ==> (#[trigger] picks@[k]).round_id <= r.total_rounds)
            && exists|k: int| 0 <= k < picks.len() && (#[trigger] picks@[k]).round_id == r.total_rounds,
        r.team_count == match size {
            Some(n) => n,
            None => 10u32,
        },
        r.completed == (drafted && !in_progress),
{
    let places = player_places_exec(teams);
    let mut out: Vec<DraftPick> = Vec::new();
    let mut max_round: u32 = 0;
    let mut i: usize = 0;
    while i < picks.len()
        invariant
            i <= picks.len(),
            out.len() == i,
            places@.map_values(|p: (usize, usize)| (p.0 as int, p.1 as int)) == player_places(
                teams@,
                teams.len() as int,
            ),
            forall|k: int|
                0 <= k < places.len() ==> (#[trigger] places@[k]).0 < teams.len() && places@[k].1
                    < teams@[places@[k].0 as int].entries.len() && teams@[places@[k].0 as int].entries@[places@[k].1 as int].player is Some,
            forall|k: int| 0 <= k < i ==> spec_pick_ok(teams@, picks@[k], #[trigger] out@[k]),
            forall|k: int| 0 <= k < i ==> (#[trigger] picks@[k]).round_id <= max_round,
            i > 0 ==> exists|k: int| 0 <= k < i && (#[trigger] picks@[k]).round_id == max_round,
        decreases picks.len() - i,
    {
        let p = &picks[i];
        let (player_name, position) = match lookup_player_exec(teams, &places, p.player_id) {
            Some((t, e)) => match &teams[t].entries[e].player {
                Some(info) => (
                    Some(string_of(&chars_of(info.full_name.as_str()))),
                    Some(default_position_id_to_position(info.default_position_id)),
                ),
                None => (None, None),
            },
            None => (None, None),
        };
        out.push(
            DraftPick {
                pick_number: p.overall_pick_number,
                round: p.round_id,
                team_id: string_of(&decimal_chars(p.team_id as u64)),
                team_name: resolve_team(teams, p.team_id),
                player_id: Some(string_of(&decimal_chars(p.player_id))),
                player_name,
                position,
            },
        );
        if i == 0 || p.round_id > max_round {
            max_round = p.round_id;
        }
        i = i + 1;
    }
    let total_rounds = if picks.len() == 0 {
        15
    } else {
        max_round
    };
    let current_pick = if picks.len() == 0 {
        1
    } else {
        picks[picks.len() - 1].overall_pick_number + 1
    };
    DraftState {
        picks: out,
        current_pick,
        on_the_clock_team: None,
        total_rounds,
        team_count: match size {
            Some(n) => n,
            None => 10,
        },
        completed: drafted && !in_progress,
    }
}

} // verus!
