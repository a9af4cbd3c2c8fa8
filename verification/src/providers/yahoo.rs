//! Yahoo: the conversion of roster players, league settings and teams into
//! the league model.
use vstd::prelude::*;
use crate::providers::{ProviderError, YahooConfig};
use crate::text::{chars_of, string_of};
use crate::types::{
    DraftState, LeagueSettings, Player, PlayerStatus, Position, Roster, default_slots,
    position_named, status_named,
};

verus! {

/// One item of a Yahoo player record; each field is present when the item
/// carries it. `name` is present when the item carries a name object, and then
/// holds that object's full name, if any.
#[derive(Clone, Debug)]
pub struct YahooItem {
    pub name: Option<Option<String>>,
    pub display_position: Option<String>,
    pub team_abbr: Option<String>,
    pub player_id: Option<String>,
    pub status: Option<String>,
}

/// One entry of a Yahoo roster listing: its key, the items of its player
/// record (when it has a list of them) and its selected position.
#[derive(Clone, Debug)]
pub struct YahooEntry {
    pub key: String,
    pub items: Option<Vec<YahooItem>>,
    pub selected_position: Option<String>,
}

/// What the items of a player record say, read in order, later items
/// overriding earlier ones: name, position, team, id and status.
pub struct YahooFields {
    pub name: Option<Seq<char>>,
    pub position: Position,
    pub team: Seq<char>,
    pub id: Seq<char>,
    pub status: PlayerStatus,
}

/// The fields read from the first `n` items.
pub open spec fn fields_of(items: Seq<YahooItem>, n: int) -> YahooFields
    decreases n,
{
    if n <= 0 {
        YahooFields {
            name: None,
            position: Position::Unknown,
            team: Seq::empty(),
            id: Seq::empty(),
            status: PlayerStatus::Healthy,
        }
    } else {
        let f = fields_of(items, n - 1);
        let it = items[n - 1];
        YahooFields {
            name: match it.name {
                Some(full) => match full {
                    Some(s) => Some(s@),
                    None => None,
                },
                None => f.name,
            },
            position: match it.display_position {
                Some(p) => position_named(p@),
                None => f.position,
            },
            team: match it.team_abbr {
                Some(t) => t@,
                None => f.team,
            },
            id: match it.player_id {
                Some(i) => i@,
                None => f.id,
            },
            status: match it.status {
                Some(s) => status_named(s@),
                None => f.status,
            },
        }
    }
}

/// The entries (among the first `n`) that describe a player: not the `count`
/// entry, and with a list of items.
pub open spec fn player_entries(entries: Seq<YahooEntry>, n: int) -> Seq<int>
    decreases n,
{
    if n <= 0 {
        Seq::empty()
    } else if entries[n - 1].key@ != "count"@ && entries[n - 1].items is Some {
        player_entries(entries, n - 1).push(n - 1)
    } else {
        player_entries(entries, n - 1)
    }
}

/// Player `p` is what entry `e` describes: the fields of its items (an empty
/// name when none), and its selected position as slot (bench when none).
pub open spec fn spec_player_ok(e: YahooEntry, p: Player) -> bool {
    let items = e.items->0@;
    let f = fields_of(items, items.len() as int);
    &&& p.id@ == f.id
    &&& p.name@ == match f.name {
        Some(n) => n,
        None => Seq::empty(),
    }
    &&& p.position == f.position
    &&& p.roster_slot == match e.selected_position {
        Some(s) => position_named(s@),
        None => Position::BENCH,
    }
    &&& p.team@ == f.team
    &&& p.status == f.status
    &&& p.opponent is None
    &&& p.bye_week is None
    &&& p.news@.len() == 0
}

fn copy_string(s: &String) -> (r: String)
    ensures
        r@ == s@,
{
    string_of(&chars_of(s.as_str()))
}

fn player_of(e: &YahooEntry, items: &Vec<YahooItem>) -> (p: Player)
    requires
        e.items == Some(*items),
    ensures
        spec_player_ok(*e, p),
{
    let mut name: Option<String> = None;
    let mut pos = Position::Unknown;
    let mut team = String::new();
    let mut id = String::new();
    let mut status = PlayerStatus::Healthy;
    let mut i: usize = 0;
    while i < items.len()
        invariant
            i <= items.len(),
            ({
                let f = fields_of(items@, i as int);
                &&& match name {
                    Some(n) => f.name == Some(n@),
                    None => f.name is None,
                }
                &&& pos == f.position
                &&& team@ == f.team
                &&& id@ == f.id
                &&& status == f.status
            }),
        decreases items.len() - i,
    {
        let it = &items[i];
        match &it.name {
            Some(full) => {
                name = match full {
                    Some(s) => Some(copy_string(s)),
                    None => None,
                };
            },
            None => {},
        }
        match &it.display_position {
            Some(p) => {
                pos = Position::from_str(p.as_str());
            },
            None => {},
        }
        match &it.team_abbr {
            Some(t) => {
                team = copy_string(t);
            },
            None => {},
        }
        match &it.player_id {
            Some(x) => {
                id = copy_string(x);
            },
            None => {},
        }
        match &it.status {
            Some(s) => {
                status = PlayerStatus::from_str(s.as_str());
            },
            None => {},
        }
        i = i + 1;
    }
    let slot = match &e.selected_position {
        Some(s) => Position::from_str(s.as_str()),
        None => Position::BENCH,
    };
    Player {
        id,
        name: match name {
            Some(n) => n,
            None => String::new(),
        },
        position: pos,
        roster_slot: slot,
        team,
        status,
        opponent: None,
        bye_week: None,
        news: Vec::new(),
    }
}

/// The players of a Yahoo roster listing, in order (see [`spec_player_ok`]).
pub fn parse_yahoo_players(entries: &Vec<YahooEntry>) -> (r: Vec<Player>)
    ensures
        r.len() == player_entries(entries@, entries.len() as int).len(),
        forall|k: int|
            0 <= k < r.len() ==> spec_player_ok(
                entries@[player_entries(entries@, entries.len() as int)[k]],
                #[trigger] r@[k],
            ),
{
    let count = "count".to_owned();
    let mut r: Vec<Player> = Vec::new();
    let mut i: usize = 0;
    while i < entries.len()
        invariant
            i <= entries.len(),
            count@ == "count"@,
            r.len() == player_entries(entries@, i as int).len(),
            forall|k: int|
                0 <= k < r.len() ==> spec_player_ok(
                    entries@[player_entries(entries@, i as int)[k]],
                    #[trigger] r@[k],
                ),
        decreases entries.len() - i,
    {
        let ghost before = player_entries(entries@, i as int);
        let e = &entries[i];
        if e.key != count {
            match &e.items {
                Some(items) => {
                    r.push(player_of(e, items));
                    assert(player_entries(entries@, i + 1) == before.push(i as int));
                },
                None => {},
            }
        }
        i = i + 1;
    }
    r
}

/// League settings from Yahoo: the scoring type (`ppr` when none), the usual
/// slot counts, and the number of teams (10 when none) truncated to 32 bits.
pub fn league_settings(scoring_type: Option<String>, num_teams: Option<u64>) -> (r: LeagueSettings)
    ensures
        r.scoring@ == match scoring_type {
            Some(s) => s@,
            None => "ppr"@,
        },
        r.roster_slots@ == default_slots(),
        r.team_count == (match num_teams {
            Some(n) => n,
            None => 10,
        }) as u32,
{
    let d = LeagueSettings::default_settings();
    let n: u64 = match num_teams {
        Some(n) => n,
        None => 10,
    };
    LeagueSettings {
        scoring: match scoring_type {
            Some(s) => s,
            None => "ppr".to_owned(),
        },
        roster_slots: d.roster_slots,
        team_count: n as u32,
    }
}

/// The current week as Yahoo reports it (1 when it does not), truncated to 8 bits.
pub fn current_week(reported: Option<u64>) -> (r: u8)
    ensures
        r == (match reported {
            Some(w) => w,
            None => 1,
        }) as u8,
{
    let w: u64 = match reported {
        Some(w) => w,
        None => 1,
    };
    w as u8
}

/// Your roster: the configured team's key and name (`My Team` when Yahoo
/// gives none) with its players. Fails when no team key is configured.
pub fn my_roster(cfg: &YahooConfig, team_name: Option<String>, players: Vec<Player>) -> (r: Result<Roster, ProviderError>)
    ensures
        match cfg.team_key {
            None => r == Err::<Roster, ProviderError>(ProviderError::YahooTeamKeyRequired),
            Some(k) => r is Ok && r->Ok_0.team_id@ == k@ && r->Ok_0.team_name@ == match team_name {
                Some(n) => n@,
                None => "My Team"@,
            } && r->Ok_0.players@ == players@ && r->Ok_0.owner is None && r->Ok_0.wins == 0
                && r->Ok_0.losses == 0 && r->Ok_0.ties == 0,
        },
{
    match &cfg.team_key {
        None => Err(ProviderError::YahooTeamKeyRequired),
        Some(k) => Ok(
            Roster {
                team_id: copy_string(k),
                team_name: match team_name {
                    Some(n) => n,
                    None => "My Team".to_owned(),
                },
                owner: None,
                players,
                wins: 0,
                losses: 0,
                ties: 0,
            },
        ),
    }
}

/// A team of the league listing: its key and name (each empty when missing),
/// with no players and no record.
pub fn team_roster(key: Option<String>, name: Option<String>) -> (r: Roster)
    ensures
        r.team_id@ == match key {
            Some(k) => k@,
            None => Seq::empty(),
        },
        r.team_name@ == match name {
            Some(n) => n@,
            None => Seq::empty(),
        },
        r.owner is None,
        r.players.len() == 0,
        r.wins == 0 && r.losses == 0 && r.ties == 0,
{
    Roster {
        team_id: match key {
            Some(k) => k,
            None => String::new(),
        },
        team_name: match name {
            Some(n) => n,
            None => String::new(),
        },
        owner: None,
        players: Vec::new(),
        wins: 0,
        losses: 0,
        ties: 0,
    }
}

/// The draft state Yahoo is given: Yahoo's draft results are not read, so
/// this is an empty draft of 15 rounds and 10 teams at pick 1.
pub fn draft_state() -> (r: DraftState)
    ensures
        r.picks.len() == 0,
        r.current_pick == 1,
        r.on_the_clock_team is None,
        r.total_rounds == 15,
        r.team_count == 10,
        !r.completed,
{
    DraftState {
        picks: Vec::new(),
        current_pick: 1,
        on_the_clock_team: None,
        total_rounds: 15,
        team_count: 10,
        completed: false,
    }
}

} // verus!
