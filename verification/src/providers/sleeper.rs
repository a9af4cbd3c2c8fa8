//! Sleeper: the conversion of players, rosters, league settings, matchups,
//! the free-agent pool and the draft into the league model.
use vstd::prelude::*;
use crate::config::SleeperConfig;
use crate::providers::{ProviderError, team_placeholder, team_placeholder_exec};
use crate::text::{
    chars_eq, chars_of, concat_chars, decimal, decimal_chars, lemma_lex_order, lex_less, lex_lt,
    string_of, trim, trim_chars,
};
use crate::types::{
    DraftPick, DraftState, Player, PlayerStatus, Position, Roster, position_named, status_named,
};

verus! {

/// What Sleeper reports of a player.
#[derive(Clone, Debug)]
pub struct SleeperPlayerData {
    pub player_id: String,
    pub full_name: Option<String>,
    pub first_name: Option<String>,
    pub last_name: Option<String>,
    pub position: Option<String>,
    pub team: Option<String>,
    pub injury_status: Option<String>,
    pub injury_notes: Option<String>,
}

/// What Sleeper reports of a league member.
#[derive(Clone, Debug)]
pub struct SleeperUserData {
    pub user_id: String,
    pub display_name: Option<String>,
    /// The team name the member set, when it is a string.
    pub team_name: Option<String>,
}

/// What Sleeper reports of a roster.
#[derive(Clone, Debug)]
pub struct SleeperRosterData {
    pub roster_id: u32,
    pub owner_id: Option<String>,
    pub players: Option<Vec<String>>,
    pub starters: Option<Vec<String>>,
    /// Whether the roster reports settings (its record).
    pub has_settings: bool,
    pub wins: Option<u64>,
    pub losses: Option<u64>,
    pub ties: Option<u64>,
}

/// The name of a player: the full name, else first and last name joined by a
/// space, else the player id.
pub open spec fn spec_player_name(sp: SleeperPlayerData) -> Seq<char> {
    match sp.full_name {
        Some(f) => f@,
        None => match (sp.first_name, sp.last_name) {
            (Some(f), Some(l)) => f@ + " "@ + l@,
            _ => sp.player_id@,
        },
    }
}

/// The player Sleeper describes, on the bench: position and status parsed
/// (unknown position and healthy status when not reported), team or empty,
/// and the injury notes as news when they hold more than whitespace.
pub open spec fn spec_player_ok(sp: SleeperPlayerData, p: Player) -> bool {
    &&& p.id@ == sp.player_id@
    &&& p.name@ == spec_player_name(sp)
    &&& p.position == match sp.position {
        Some(s) => position_named(s@),
        None => Position::Unknown,
    }
    &&& p.roster_slot == Position::BENCH
    &&& p.team@ == match sp.team {
        Some(t) => t@,
        None => Seq::empty(),
    }
    &&& p.status == match sp.injury_status {
        Some(s) => status_named(s@),
        None => PlayerStatus::Healthy,
    }
    &&& p.opponent is None
    &&& p.bye_week is None
    &&& match sp.injury_notes {
        Some(n) => if trim(n@).len() > 0 {
            p.news@.len() == 1 && p.news@[0]@ == n@
        } else {
            p.news@.len() == 0
        },
        None => p.news@.len() == 0,
    }
}

fn copy_string(s: &String) -> (r: String)
    ensures
        r@ == s@,
{
    string_of(&chars_of(s.as_str()))
}

fn player_name(sp: &SleeperPlayerData) -> (r: String)
    ensures
        r@ == spec_player_name(*sp),
{
    match &sp.full_name {
        Some(f) => copy_string(f),
        None => match (&sp.first_name, &sp.last_name) {
            (Some(f), Some(l)) => {
                let mut v = chars_of(f.as_str());
                v = concat_chars(&v, &chars_of(" "));
                v = concat_chars(&v, &chars_of(l.as_str()));
                string_of(&v)
            },
            _ => copy_string(&sp.player_id),
        },
    }
}

/// The player Sleeper describes (see [`spec_player_ok`]).
pub fn build_player(sp: &SleeperPlayerData) -> (p: Player)
    ensures
        spec_player_ok(*sp, p),
{
    let position = match &sp.position {
        Some(s) => Position::from_str(s.as_str()),
        None => Position::Unknown,
    };
    let status = match &sp.injury_status {
        Some(s) => PlayerStatus::from_str(s.as_str()),
        None => PlayerStatus::Healthy,
    };
    let mut news: Vec<String> = Vec::new();
    if let Some(notes) = &sp.injury_notes {
        if trim_chars(&chars_of(notes.as_str())).len() > 0 {
            news.push(copy_string(notes));
        }
    }
    let team = match &sp.team {
        Some(t) => copy_string(t),
        None => String::new(),
    };
    Player {
        id: copy_string(&sp.player_id),
        name: player_name(sp),
        position,
        roster_slot: Position::BENCH,
        team,
        status,
        opponent: None,
        bye_week: None,
        news,
    }
}

/// The first member with id `id`.
pub open spec fn user_with_id(users: Seq<SleeperUserData>, id: Seq<char>) -> Option<int> {
    if exists|i: int| 0 <= i < users.len() && users[i].user_id@ == id {
        Some(
            choose|i: int|
                0 <= i < users.len() && users[i].user_id@ == id && forall|k: int|
                    0 <= k < i ==> users[k].user_id@ != id,
        )
    } else {
        None
    }
}

fn find_user(users: &Vec<SleeperUserData>, id: &String) -> (r: Option<usize>)
    ensures
        match r {
            Some(i) => user_with_id(users@, id@) == Some(i as int) && i < users.len(),
            None => user_with_id(users@, id@) is None,
        },
{
    let mut i: usize = 0;
    while i < users.len()
        invariant
            i <= users.len(),
            forall|k: int| 0 <= k < i ==> users@[k].user_id@ != id@,
        decreases users.len() - i,
    {
        if users[i].user_id == *id {
            proof {
                let w = choose|x: int|
                    0 <= x < users@.len() && users@[x].user_id@ == id@ && forall|k: int|
                        0 <= k < x ==> users@[k].user_id@ != id@;
                assert(users@[i as int].user_id@ == id@);
                if w < i {
                } else if w > i {
                }
            }
            return Some(i);
        }
        i = i + 1;
    }
    None
}

/// The first catalog entry with key `id`.
pub open spec fn catalog_entry(catalog: Seq<(String, SleeperPlayerData)>, id: Seq<char>) -> Option<int> {
    if exists|i: int| 0 <= i < catalog.len() && catalog[i].0@ == id {
        Some(
            choose|i: int|
                0 <= i < catalog.len() && catalog[i].0@ == id && forall|k: int|
                    0 <= k < i ==> catalog[k].0@ != id,
        )
    } else {
        None
    }
}

fn find_in_catalog(catalog: &Vec<(String, SleeperPlayerData)>, id: &String) -> (r: Option<usize>)
    ensures
        match r {
            Some(i) => catalog_entry(catalog@, id@) == Some(i as int) && i < catalog.len(),
            None => catalog_entry(catalog@, id@) is None,
        },
{
    let mut i: usize = 0;
    while i < catalog.len()
        invariant
            i <= catalog.len(),
            forall|k: int| 0 <= k < i ==> catalog@[k].0@ != id@,
        decreases catalog.len() - i,
    {
        if catalog[i].0 == *id {
            proof {
                let w = choose|x: int|
                    0 <= x < catalog@.len() && catalog@[x].0@ == id@ && forall|k: int|
                        0 <= k < x ==> catalog@[k].0@ != id@;
                assert(catalog@[i as int].0@ == id@);
                if w < i {
                } else if w > i {
                }
            }
            return Some(i);
        }
        i = i + 1;
    }
    None
}

fn contains_string(v: &Vec<String>, s: &String) -> (r: bool)
    ensures
        r == exists|i: int| 0 <= i < v.len() && v@[i]@ == s@,
{
    let mut i: usize = 0;
    while i < v.len()
        invariant
            i <= v.len(),
            forall|k: int| 0 <= k < i ==> v@[k]@ != s@,
        decreases v.len() - i,
    {
        if v[i] == *s {
            return true;
        }
        i = i + 1;
    }
    false
}

/// Who a roster belongs to decides its name: when the first user with the
/// owner's id has a team name, that is the roster's name; only when that user
/// has none is the display name used; and a roster with no owner, an owner
/// no user matches, or an owner with neither name is `Team <roster id>`.
pub proof fn lemma_roster_name_source(r: SleeperRosterData, users: Seq<SleeperUserData>)
    ensures
        forall|u: int|
            0 <= u < users.len() && r.owner_id is Some && (#[trigger] users[u]).user_id@ == r.owner_id->0@ && (forall|
                k: int,
            |
                0 <= k < u ==> users[k].user_id@ != r.owner_id->0@) ==> {
                &&& users[u].team_name is Some ==> spec_roster_team_name(r, users) == users[u].team_name->0@
                &&& (users[u].team_name is None && users[u].display_name is Some) ==> spec_roster_team_name(r, users)
                    == users[u].display_name->0@
                &&& (users[u].team_name is None && users[u].display_name is None) ==> spec_roster_team_name(
                    r,
                    users,
                ) == "Team "@ + decimal(r.roster_id as nat)
            },
        (r.owner_id is None || forall|k: int| 0 <= k < users.len() ==> users[k].user_id@ != r.owner_id->0@)
            ==> spec_roster_team_name(r, users) == "Team "@ + decimal(r.roster_id as nat),
{
    assert forall|u: int|
        0 <= u < users.len() && r.owner_id is Some && (#[trigger] users[u]).user_id@ == r.owner_id->0@ && (forall|
            k: int,
        | 0 <= k < u ==> users[k].user_id@ != r.owner_id->0@) implies user_with_id(users, r.owner_id->0@) == Some(u) by {
        let o = r.owner_id->0;
        let w = choose|i: int|
            0 <= i < users.len() && users[i].user_id@ == o@ && forall|k: int| 0 <= k < i ==> users[k].user_id@ != o@;
        assert(users[u].user_id@ == o@);
        if w < u {
        } else if w > u {
        }
    }
}

/// The team name of a roster: the owner's team name, else the owner's display
/// name, else `Team <roster id>`.
pub open spec fn spec_roster_team_name(r: SleeperRosterData, users: Seq<SleeperUserData>) -> Seq<char> {
    let owner = match r.owner_id {
        Some(o) => user_with_id(users, o@),
        None => None,
    };
    match owner {
        Some(u) => match users[u].team_name {
            Some(t) => t@,
            None => match users[u].display_name {
                Some(d) => d@,
                None => team_placeholder(r.roster_id as nat),
            },
        },
        None => team_placeholder(r.roster_id as nat),
    }
}

/// The ids (among the first `n`) of a roster's players that are listed in the
/// catalog, skipping the empty-slot id `0`.
pub open spec fn listed_ids(ids: Seq<String>, catalog: Seq<(String, SleeperPlayerData)>, n: int) -> Seq<int>
    decreases n,
{
    if n <= 0 {
        Seq::empty()
    } else if ids[n - 1]@ != "0"@ && catalog_entry(catalog, ids[n - 1]@) is Some {
        listed_ids(ids, catalog, n - 1).push(n - 1)
    } else {
        listed_ids(ids, catalog, n - 1)
    }
}

/// The places below `n` that satisfy `keep`, in increasing order.
pub open spec fn places_where(keep: spec_fn(int) -> bool, n: int) -> Seq<int>
    decreases n,
{
    if n <= 0 {
        Seq::empty()
    } else if keep(n - 1) {
        places_where(keep, n - 1).push(n - 1)
    } else {
        places_where(keep, n - 1)
    }
}

proof fn lemma_places_where(keep: spec_fn(int) -> bool, n: int)
    requires
        0 <= n,
    ensures
        forall|k: int|
            0 <= k < places_where(keep, n).len() ==> 0 <= #[trigger] places_where(keep, n)[k] < n && keep(
                places_where(keep, n)[k],
            ),
        forall|a: int, b: int|
            0 <= a < b < places_where(keep, n).len() ==> #[trigger] places_where(keep, n)[a]
                < #[trigger] places_where(keep, n)[b],
        forall|j: int| 0 <= j < n && #[trigger] keep(j) ==> places_where(keep, n).contains(j),
    decreases n,
{
    if n > 0 {
        lemma_places_where(keep, n - 1);
        let prev = places_where(keep, n - 1);
        let cur = places_where(keep, n);
        if keep(n - 1) {
            assert forall|j: int| 0 <= j < n && #[trigger] keep(j) implies cur.contains(j) by {
                if j < n - 1 {
                    let q = choose|q: int| 0 <= q < prev.len() && prev[q] == j;
                    assert(cur[q] == prev[q]);
                } else {
                    assert(cur[prev.len() as int] == n - 1);
                }
            }
        }
    }
}

proof fn lemma_listed_places(ids: Seq<String>, catalog: Seq<(String, SleeperPlayerData)>, n: int)
    ensures
        listed_ids(ids, catalog, n) == places_where(
            |j: int| ids[j]@ != "0"@ && catalog_entry(catalog, ids[j]@) is Some,
            n,
        ),
    decreases n,
{
    if n > 0 {
        lemma_listed_places(ids, catalog, n - 1);
    }
}

/// The players listed for a roster are exactly the places, in order, of
/// its ids that are not `0` and that the catalog knows.
pub proof fn lemma_listed_ids(ids: Seq<String>, catalog: Seq<(String, SleeperPlayerData)>, n: int)
    requires
        0 <= n <= ids.len(),
    ensures
        forall|k: int|
            0 <= k < listed_ids(ids, catalog, n).len() ==> {
                let j = #[trigger] listed_ids(ids, catalog, n)[k];
                &&& 0 <= j < n
                &&& ids[j]@ != "0"@
                &&& catalog_entry(catalog, ids[j]@) is Some
            },
        forall|a: int, b: int|
            0 <= a < b < listed_ids(ids, catalog, n).len() ==> #[trigger] listed_ids(ids, catalog, n)[a]
                < #[trigger] listed_ids(ids, catalog, n)[b],
        forall|j: int|
            0 <= j < n && ids[j]@ != "0"@ && catalog_entry(catalog, #[trigger] ids[j]@) is Some ==> listed_ids(
                ids,
                catalog,
                n,
            ).contains(j),
{
    let keep = |j: int| ids[j]@ != "0"@ && catalog_entry(catalog, ids[j]@) is Some;
    lemma_listed_places(ids, catalog, n);
    lemma_places_where(keep, n);
    assert forall|j: int|
        0 <= j < n && ids[j]@ != "0"@ && catalog_entry(catalog, #[trigger] ids[j]@) is Some implies listed_ids(
            ids,
            catalog,
            n,
        ).contains(j) by {
        assert(keep(j));
    }
}

/// Player `p` stands for roster id `ids[k]`: built from its catalog entry, in
/// its position's slot when it starts, on the bench otherwise.
pub open spec fn spec_roster_player_ok(
    ids: Seq<String>,
    starters: Seq<String>,
    catalog: Seq<(String, SleeperPlayerData)>,
    k: int,
    p: Player,
) -> bool {
    let sp = catalog[catalog_entry(catalog, ids[k]@)->0].1;
    let starts = exists|s: int| 0 <= s < starters.len() && starters[s]@ == ids[k]@;
    &&& spec_player_ok(sp, Player { roster_slot: Position::BENCH, ..p })
    &&& p.roster_slot == if starts {
        p.position
    } else {
        Position::BENCH
    }
}

/// A roster from Sleeper: id in decimal, team name (see
/// [`spec_roster_team_name`]), the owner's display name, the listed players in
/// order, and the record (truncated to 32 bits, zeros when not reported).
#[verifier::spinoff_prover]
#[verifier::rlimit(80)]
pub fn build_roster(
    r: &SleeperRosterData,
    users: &Vec<SleeperUserData>,
    catalog: &Vec<(String, SleeperPlayerData)>,
) -> (out: Roster)
    ensures
        out.team_id@ == decimal(r.roster_id as nat),
        out.team_name@ == spec_roster_team_name(*r, users@),
        match r.owner_id {
            Some(o) => match user_with_id(users@, o@) {
                Some(u) => match users@[u].display_name {
                    Some(d) => out.owner matches Some(x) && x@ == d@,
                    None => out.owner is None,
                },
                None => out.owner is None,
            },
            None => out.owner is None,
        },
        match r.players {
            Some(ids) => {
                let listed = listed_ids(ids@, catalog@, ids.len() as int);
                let starters = match r.starters {
                    Some(s) => s@,
                    None => Seq::empty(),
                };
                &&& out.players.len() == listed.len()
                &&& forall|k: int|
                    0 <= k < listed.len() ==> spec_roster_player_ok(
                        ids@,
                        starters,
                        catalog@,
                        listed[k],
                        #[trigger] out.players@[k],
                    )
            },
            None => out.players.len() == 0,
        },
        out.wins == (if r.has_settings { match r.wins { Some(w) => w, None => 0 } } else { 0 }) as u32,
        out.losses == (if r.has_settings { match r.losses { Some(w) => w, None => 0 } } else { 0 }) as u32,
        out.ties == (if r.has_settings { match r.ties { Some(w) => w, None => 0 } } else { 0 }) as u32,
{
    let owner = match &r.owner_id {
        Some(o) => find_user(users, o),
        None => None,
    };
    let team_name = match owner {
        Some(u) => match &users[u].team_name {
            Some(t) => copy_string(t),
            None => match &users[u].display_name {
                Some(d) => copy_string(d),
                None => team_placeholder_exec(r.roster_id as u64),
            },
        },
        None => team_placeholder_exec(r.roster_id as u64),
    };
    let owner_name = match owner {
        Some(u) => match &users[u].display_name {
            Some(d) => Some(copy_string(d)),
            None => None,
        },
        None => None,
    };
    let empty_starters: Vec<String> = Vec::new();
    let starters = match &r.starters {
        Some(s) => s,
        None => &empty_starters,
    };
    let mut players: Vec<Player> = Vec::new();
    match &r.players {
        Some(ids) => {
            let zero = "0".to_owned();
            let mut i: usize = 0;
            while i < ids.len()
                invariant
                    i <= ids.len(),
                    zero@ == "0"@,
                    starters@ == match r.starters {
                        Some(s) => s@,
                        None => Seq::<String>::empty(),
                    },
                    players.len() == listed_ids(ids@, catalog@, i as int).len(),
                    forall|k: int|
                        0 <= k < players.len() ==> spec_roster_player_ok(
                            ids@,
                            starters@,
                            catalog@,
                            listed_ids(ids@, catalog@, i as int)[k],
                            #[trigger] players@[k],
                        ),
                decreases ids.len() - i,
            {
                let ghost before = listed_ids(ids@, catalog@, i as int);
                let id = &ids[i];
                if *id != zero {
                    match find_in_catalog(catalog, id) {
                        Some(c) => {
                            let mut p = build_player(&catalog[c].1);
                            if contains_string(starters, id) {
                                p.roster_slot = p.position;
                            }
                            players.push(p);
                            assert(listed_ids(ids@, catalog@, i + 1) == before.push(i as int));
                        },
                        None => {},
                    }
                }
                i = i + 1;
            }
        },
        None => {},
    }
    let (w, l, t) = if r.has_settings {
        (
            match r.wins {
                Some(x) => x,
                None => 0,
            },
            match r.losses {
                Some(x) => x,
                None => 0,
            },
            match r.ties {
                Some(x) => x,
                None => 0,
            },
        )
    } else {
        (0, 0, 0)
    };
    Roster {
        team_id: string_of(&decimal_chars(r.roster_id as u64)),
        team_name,
        owner: owner_name,
        players,
        wins: w as u32,
        losses: l as u32,
        ties: t as u32,
    }
}

/// The member id to look up for your roster: the configured username (Sleeper
/// resolves a username or a numeric user id). Fails when none is configured.
pub fn user_to_resolve(cfg: &SleeperConfig) -> (r: Result<String, ProviderError>)
    ensures
        if cfg.username@.len() > 0 {
            r matches Ok(u) && u@ == cfg.username@
        } else {
            r == Err::<String, ProviderError>(ProviderError::SleeperUserRequired)
        },
{
    if cfg.username.as_str().is_empty() {
        Err(ProviderError::SleeperUserRequired)
    } else {
        Ok(copy_string(&cfg.username))
    }
}

/// The league to read: the configured id, else the first of the user's
/// leagues (`user_leagues`, their ids in the order Sleeper lists them).
/// Fails when neither gives one.
pub fn league_to_read(cfg: &SleeperConfig, user_leagues: &Vec<String>) -> (r: Result<String, ProviderError>)
    ensures
        if cfg.league_id@.len() > 0 {
            r matches Ok(l) && l@ == cfg.league_id@
        } else if user_leagues.len() > 0 {
            r matches Ok(l) && l@ == user_leagues@[0]@
        } else {
            r == Err::<String, ProviderError>(ProviderError::SleeperNoLeague)
        },
{
    if !cfg.league_id.as_str().is_empty() {
        Ok(copy_string(&cfg.league_id))
    } else if user_leagues.len() > 0 {
        Ok(copy_string(&user_leagues[0]))
    } else {
        Err(ProviderError::SleeperNoLeague)
    }
}

/// The draft to read: the configured id, else the draft the league names.
/// Fails when neither gives one.
pub fn draft_to_read(cfg: &SleeperConfig, league_draft: Option<String>) -> (r: Result<String, ProviderError>)
    ensures
        if cfg.draft_id@.len() > 0 {
            r matches Ok(d) && d@ == cfg.draft_id@
        } else {
            match league_draft {
                Some(d) => r matches Ok(x) && x@ == d@,
                None => r == Err::<String, ProviderError>(ProviderError::SleeperNoDraft),
            }
        },
{
    if !cfg.draft_id.as_str().is_empty() {
        Ok(copy_string(&cfg.draft_id))
    } else {
        match league_draft {
            Some(d) => Ok(d),
            None => Err(ProviderError::SleeperNoDraft),
        }
    }
}

/// The roster is owned by member `id`.
pub open spec fn owned_by(r: SleeperRosterData, id: Seq<char>) -> bool {
    match r.owner_id {
        Some(o) => o@ == id,
        None => false,
    }
}

/// The first roster owned by member `id`.
pub open spec fn roster_of_owner(rosters: Seq<SleeperRosterData>, id: Seq<char>) -> Option<int> {
    if exists|i: int| 0 <= i < rosters.len() && owned_by(rosters[i], id) {
        Some(
            choose|i: int|
                0 <= i < rosters.len() && owned_by(rosters[i], id) && forall|k: int|
                    0 <= k < i ==> !owned_by(rosters[k], id),
        )
    } else {
        None
    }
}

/// Index of your roster: the first one owned by member `my_id`. Fails when
/// there is none.
pub fn find_my_roster(rosters: &Vec<SleeperRosterData>, my_id: &String) -> (r: Result<usize, ProviderError>)
    ensures
        match roster_of_owner(rosters@, my_id@) {
            Some(i) => r == Ok::<usize, ProviderError>(i as usize) && i < rosters.len(),
            None => r matches Err(ProviderError::SleeperRosterNotFound(u)) && u@ == my_id@,
        },
{
    let mut i: usize = 0;
    while i < rosters.len()
        invariant
            i <= rosters.len(),
            forall|k: int|
                0 <= k < i ==> !owned_by(rosters@[k], my_id@),
        decreases rosters.len() - i,
    {
        let hit = match &rosters[i].owner_id {
            Some(o) => *o == *my_id,
            None => false,
        };
        if hit {
            proof {
                let w = choose|x: int|
                    0 <= x < rosters@.len() && owned_by(rosters@[x], my_id@)
                        && forall|k: int|
                        0 <= k < x ==> !owned_by(rosters@[k], my_id@);
                assert(owned_by(rosters@[i as int], my_id@));
                if w < i {
                } else if w > i {
                }
            }
            return Ok(i);
        }
        i = i + 1;
    }
    Err(ProviderError::SleeperRosterNotFound(copy_string(my_id)))
}

// ---------------------------------------------------------------------------
// League settings
// ---------------------------------------------------------------------------

/// The order in which slot counts are listed.
pub open spec fn listing_order(k: int) -> Position {
    if k == 0 {
        Position::QB
    } else if k == 1 {
        Position::RB
    } else if k == 2 {
        Position::WR
    } else if k == 3 {
        Position::TE
    } else if k == 4 {
        Position::FLEX
    } else if k == 5 {
        Position::SUPERFLEX
    } else if k == 6 {
        Position::DST
    } else if k == 7 {
        Position::K
    } else if k == 8 {
        Position::BENCH
    } else {
        Position::IR
    }
}

/// Number of the first `n` roster positions that name `p`.
pub open spec fn position_count(names: Seq<String>, p: Position, n: int) -> nat
    decreases n,
{
    if n <= 0 {
        0
    } else {
        position_count(names, p, n - 1) + if position_named(names[n - 1]@) == p {
            1nat
        } else {
            0nat
        }
    }
}

/// The slot counts for the first `k` positions of the listing order, leaving
/// out positions the league does not use.
pub open spec fn spec_slot_counts(names: Seq<String>, k: int) -> Seq<(Position, u32)>
    decreases k,
{
    if k <= 0 {
        Seq::empty()
    } else {
        let prev = spec_slot_counts(names, k - 1);
        let c = position_count(names, listing_order(k - 1), names.len() as int);
        if c > 0 {
            prev.push((listing_order(k - 1), c as u32))
        } else {
            prev
        }
    }
}

fn listing_order_exec(k: usize) -> (p: Position)
    ensures
        p == listing_order(k as int),
{
    if k == 0 {
        Position::QB
    } else if k == 1 {
        Position::RB
    } else if k == 2 {
        Position::WR
    } else if k == 3 {
        Position::TE
    } else if k == 4 {
        Position::FLEX
    } else if k == 5 {
        Position::SUPERFLEX
    } else if k == 6 {
        Position::DST
    } else if k == 7 {
        Position::K
    } else if k == 8 {
        Position::BENCH
    } else {
        Position::IR
    }
}

/// The slot counts of a league from its roster positions (`QB`, `RB`, `FLEX`,
/// `BN`, ...): how many name each of QB, RB, WR, TE, FLEX, SUPERFLEX, DST, K,
/// bench and IR, in that order, leaving out those with none.
pub fn slot_counts(roster_positions: &Vec<String>) -> (r: Vec<(Position, u32)>)
    requires
        roster_positions.len() <= u32::MAX,
    ensures
        r@ == spec_slot_counts(roster_positions@, 10),
{
    let mut parsed: Vec<Position> = Vec::new();
    let mut i: usize = 0;
    while i < roster_positions.len()
        invariant
            i <= roster_positions.len(),
            parsed.len() == i,
            forall|k: int| 0 <= k < i ==> #[trigger] parsed@[k] == position_named(roster_positions@[k]@),
        decreases roster_positions.len() - i,
    {
        parsed.push(Position::from_str(roster_positions[i].as_str()));
        i = i + 1;
    }
    let mut r: Vec<(Position, u32)> = Vec::new();
    let mut k: usize = 0;
    while k < 10
        invariant
            k <= 10,
            roster_positions.len() <= u32::MAX,
            parsed.len() == roster_positions.len(),
            forall|q: int| 0 <= q < parsed.len() ==> #[trigger] parsed@[q] == position_named(roster_positions@[q]@),
            r@ == spec_slot_counts(roster_positions@, k as int),
        decreases 10 - k,
    {
        let p = listing_order_exec(k);
        let mut c: u32 = 0;
        let mut j: usize = 0;
        while j < parsed.len()
            invariant
                j <= parsed.len(),
                parsed.len() == roster_positions.len(),
                roster_positions.len() <= u32::MAX,
                forall|q: int| 0 <= q < parsed.len() ==> #[trigger] parsed@[q] == position_named(roster_positions@[q]@),
                c as nat == position_count(roster_positions@, p, j as int),
                c <= j,
            decreases parsed.len() - j,
        {
            if parsed[j] == p {
                c = c + 1;
            }
            j = j + 1;
        }
        if c > 0 {
            r.push((p, c));
        }
        k = k + 1;
    }
    r
}

// ---------------------------------------------------------------------------
// Matchups
// ---------------------------------------------------------------------------

/// One entry of a week's matchups.
#[derive(Clone, Debug)]
pub struct SleeperMatchupEntry {
    pub matchup_id: Option<u32>,
    pub roster_id: u32,
}

/// The first roster with id `id`.
pub open spec fn roster_with_id(rosters: Seq<SleeperRosterData>, id: u32) -> Option<int> {
    if exists|i: int| 0 <= i < rosters.len() && rosters[i].roster_id == id {
        Some(
            choose|i: int|
                0 <= i < rosters.len() && rosters[i].roster_id == id && forall|k: int|
                    0 <= k < i ==> rosters[k].roster_id != id,
        )
    } else {
        None
    }
}

/// The name shown for a roster in a matchup: its owner's display name, else
/// `Team <roster id>`.
pub open spec fn spec_matchup_team(
    rosters: Seq<SleeperRosterData>,
    users: Seq<SleeperUserData>,
    id: u32,
) -> Seq<char> {
    let name = match roster_with_id(rosters, id) {
        Some(i) => match rosters[i].owner_id {
            Some(o) => match user_with_id(users, o@) {
                Some(u) => users[u].display_name,
                None => None,
            },
            None => None,
        },
        None => None,
    };
    match name {
        Some(n) => n@,
        None => team_placeholder(id as nat),
    }
}

fn find_roster(rosters: &Vec<SleeperRosterData>, id: u32) -> (r: Option<usize>)
    ensures
        match r {
            Some(i) => roster_with_id(rosters@, id) == Some(i as int) && i < rosters.len(),
            None => roster_with_id(rosters@, id) is None,
        },
{
    let mut i: usize = 0;
    while i < rosters.len()
        invariant
            i <= rosters.len(),
            forall|k: int| 0 <= k < i ==> rosters@[k].roster_id != id,
        decreases rosters.len() - i,
    {
        if rosters[i].roster_id == id {
            proof {
                let w = choose|x: int|
                    0 <= x < rosters@.len() && rosters@[x].roster_id == id && forall|k: int|
                        0 <= k < x ==> rosters@[k].roster_id != id;
                assert(rosters@[i as int].roster_id == id);
                if w < i {
                } else if w > i {
                }
            }
            return Some(i);
        }
        i = i + 1;
    }
    None
}

/// The name shown for a roster in a matchup.
pub fn matchup_team(rosters: &Vec<SleeperRosterData>, users: &Vec<SleeperUserData>, id: u32) -> (r: String)
    ensures
        r@ == spec_matchup_team(rosters@, users@, id),
{
    let name = match find_roster(rosters, id) {
        Some(i) => match &rosters[i].owner_id {
            Some(o) => match find_user(users, o) {
                Some(u) => match &users[u].display_name {
                    Some(d) => Some(copy_string(d)),
                    None => None,
                },
                None => None,
            },
            None => None,
        },
        None => None,
    };
    match name {
        Some(n) => n,
        None => team_placeholder_exec(id as u64),
    }
}

/// Entry `i` is the first with its matchup id.
pub open spec fn first_of_matchup(entries: Seq<SleeperMatchupEntry>, i: int) -> bool {
    entries[i].matchup_id is Some && forall|k: int|
        0 <= k < i ==> entries[k].matchup_id != entries[i].matchup_id
}

/// Indices of the entries with matchup id `mid`, in order.
pub open spec fn members(entries: Seq<SleeperMatchupEntry>, mid: u32, n: int) -> Seq<int>
    decreases n,
{
    if n <= 0 {
        Seq::empty()
    } else if entries[n - 1].matchup_id == Some(mid) {
        members(entries, mid, n - 1).push(n - 1)
    } else {
        members(entries, mid, n - 1)
    }
}

/// The matchups among the first `n` entries: each matchup id met by exactly
/// two entries gives the pair (first, second), ordered by its first entry.
pub open spec fn pairs_upto(entries: Seq<SleeperMatchupEntry>, n: int) -> Seq<(int, int)>
    decreases n,
{
    if n <= 0 {
        Seq::empty()
    } else {
        let prev = pairs_upto(entries, n - 1);
        let i = n - 1;
        if first_of_matchup(entries, i) && members(
            entries,
            entries[i].matchup_id->0,
            entries.len() as int,
        ).len() == 2 {
            let m = members(entries, entries[i].matchup_id->0, entries.len() as int);
            prev.push((m[0], m[1]))
        } else {
            prev
        }
    }
}

/// The members of a matchup id among the first `n` entries are, in
/// increasing order, exactly the entries below `n` with that id.
proof fn lemma_members(entries: Seq<SleeperMatchupEntry>, mid: u32, n: int)
    requires
        0 <= n <= entries.len(),
    ensures
        forall|a: int|
            0 <= a < members(entries, mid, n).len() ==> 0 <= #[trigger] members(entries, mid, n)[a] < n
                && entries[members(entries, mid, n)[a]].matchup_id == Some(mid),
        forall|a: int, b: int|
            0 <= a < b < members(entries, mid, n).len() ==> members(entries, mid, n)[a] < members(
                entries,
                mid,
                n,
            )[b],
        forall|j: int|
            0 <= j < n && entries[j].matchup_id == Some(mid) ==> members(entries, mid, n).contains(j),
    decreases n,
{
    if n > 0 {
        lemma_members(entries, mid, n - 1);
        let prev = members(entries, mid, n - 1);
        if entries[n - 1].matchup_id == Some(mid) {
            let m = members(entries, mid, n);
            assert(m == prev.push(n - 1));
            assert forall|j: int| 0 <= j < n && entries[j].matchup_id == Some(mid) implies m.contains(j) by {
                if j == n - 1 {
                    assert(m[prev.len() as int] == j);
                } else {
                    assert(prev.contains(j));
                    let q = choose|q: int| 0 <= q < prev.len() && prev[q] == j;
                    assert(m[q] == j);
                }
            }
        }
    }
}

/// The pairs found among the first `n` entries start at entries below `n`
/// that open their matchup id, in increasing order, each pairing two entries
/// of that id.
proof fn lemma_pairs_upto(entries: Seq<SleeperMatchupEntry>, n: int)
    requires
        0 <= n <= entries.len(),
    ensures
        forall|k: int|
            #![trigger pairs_upto(entries, n)[k]]
            0 <= k < pairs_upto(entries, n).len() ==> {
                let pr = pairs_upto(entries, n)[k];
                &&& 0 <= pr.0 < n
                &&& pr.0 < pr.1 < entries.len()
                &&& first_of_matchup(entries, pr.0)
                &&& entries[pr.1].matchup_id == entries[pr.0].matchup_id
            },
        forall|a: int, b: int|
            0 <= a < b < pairs_upto(entries, n).len() ==> pairs_upto(entries, n)[a].0 < pairs_upto(
                entries,
                n,
            )[b].0,
        forall|i: int|
            0 <= i < n && first_of_matchup(entries, i) && members(
                entries,
                entries[i].matchup_id->0,
                entries.len() as int,
            ).len() == 2 ==> exists|k: int|
                0 <= k < pairs_upto(entries, n).len() && (#[trigger] pairs_upto(entries, n)[k]).0 == i,
    decreases n,
{
    if n > 0 {
        lemma_pairs_upto(entries, n - 1);
        let prev = pairs_upto(entries, n - 1);
        let i = n - 1;
        if first_of_matchup(entries, i) && members(
            entries,
            entries[i].matchup_id->0,
            entries.len() as int,
        ).len() == 2 {
            let mid = entries[i].matchup_id->0;
            let m = members(entries, mid, entries.len() as int);
            lemma_members(entries, mid, entries.len() as int);
            let ps = pairs_upto(entries, n);
            assert(ps == prev.push((m[0], m[1])));
            assert(m.contains(i));
            let q = choose|q: int| 0 <= q < m.len() && m[q] == i;
            assert(m[0] == i) by {
                if q == 1 {
                    assert(m[0] < m[1]);
                    assert(entries[m[0]].matchup_id == Some(mid));
                }
            }
            assert(m[0] < m[1]);
            assert forall|k: int|
                #![trigger pairs_upto(entries, n)[k]]
                0 <= k < ps.len() implies {
                    let pr = ps[k];
                    &&& 0 <= pr.0 < n
                    &&& pr.0 < pr.1 < entries.len()
                    &&& first_of_matchup(entries, pr.0)
                    &&& entries[pr.1].matchup_id == entries[pr.0].matchup_id
                } by {
                if k < prev.len() {
                    assert(ps[k] == prev[k]);
                }
            }
            assert forall|a: int, b: int| 0 <= a < b < ps.len() implies ps[a].0 < ps[b].0 by {
                assert(ps[a] == prev[a]);
                if b < prev.len() {
                    assert(ps[b] == prev[b]);
                }
            }
            assert forall|j: int|
                0 <= j < n && first_of_matchup(entries, j) && members(
                    entries,
                    entries[j].matchup_id->0,
                    entries.len() as int,
                ).len() == 2 implies exists|k: int|
                    0 <= k < ps.len() && (#[trigger] pairs_upto(entries, n)[k]).0 == j by {
                if j == i {
                    assert(ps[prev.len() as int].0 == j);
                } else {
                    let k = choose|k: int| 0 <= k < prev.len() && (#[trigger] pairs_upto(entries, n - 1)[k]).0 == j;
                    assert(ps[k] == prev[k]);
                }
            }
        } else {
            assert(pairs_upto(entries, n) == prev);
        }
    }
}

/// The week's matchups pair two entries of one matchup id, the home entry
/// first; no two matchups share an id, so no entry plays twice; and every
/// matchup id met by exactly two entries gives a matchup.
pub proof fn lemma_matchups_well_formed(entries: Seq<SleeperMatchupEntry>)
    ensures
        ({
            let ps = pairs_upto(entries, entries.len() as int);
            &&& forall|k: int|
                #![trigger ps[k]]
                0 <= k < ps.len() ==> 0 <= ps[k].0 < ps[k].1 < entries.len()
                    && entries[ps[k].0].matchup_id is Some && entries[ps[k].1].matchup_id
                    == entries[ps[k].0].matchup_id
            &&& forall|a: int, b: int|
                0 <= a < b < ps.len() ==> entries[ps[a].0].matchup_id != entries[ps[b].0].matchup_id
            &&& forall|i: int|
                0 <= i < entries.len() && entries[i].matchup_id is Some && members(
                    entries,
                    entries[i].matchup_id->0,
                    entries.len() as int,
                ).len() == 2 ==> exists|k: int|
                    0 <= k < ps.len() && (#[trigger] ps[k]).0 <= i && entries[ps[k].0].matchup_id
                        == entries[i].matchup_id
        }),
{
    let n = entries.len() as int;
    lemma_pairs_upto(entries, n);
    let ps = pairs_upto(entries, n);
    assert forall|a: int, b: int|
        0 <= a < b < ps.len() implies entries[ps[a].0].matchup_id != entries[ps[b].0].matchup_id by {
        assert(ps[a].0 < ps[b].0);
        assert(first_of_matchup(entries, ps[b].0)) by {
            assert(ps[b] == pairs_upto(entries, n)[b]);
        }
    }
    assert forall|i: int|
        0 <= i < entries.len() && entries[i].matchup_id is Some && members(
            entries,
            entries[i].matchup_id->0,
            entries.len() as int,
        ).len() == 2 implies exists|k: int|
            0 <= k < ps.len() && (#[trigger] ps[k]).0 <= i && entries[ps[k].0].matchup_id
                == entries[i].matchup_id by {
        let mid = entries[i].matchup_id->0;
        lemma_members(entries, mid, n);
        let m = members(entries, mid, n);
        let f = m[0];
        assert(entries[f].matchup_id == Some(mid));
        assert(m.contains(i));
        let q = choose|q: int| 0 <= q < m.len() && m[q] == i;
        assert(f <= i) by {
            if q == 1 {
                assert(m[0] < m[1]);
            }
        }
        assert(first_of_matchup(entries, f)) by {
            assert forall|j: int| 0 <= j < f implies entries[j].matchup_id != entries[f].matchup_id by {
                if entries[j].matchup_id == Some(mid) {
                    assert(m.contains(j));
                    let r = choose|r: int| 0 <= r < m.len() && m[r] == j;
                    if r == 1 {
                        assert(m[0] < m[1]);
                    }
                }
            }
        }
        let k = choose|k: int| 0 <= k < ps.len() && (#[trigger] pairs_upto(entries, n)[k]).0 == f;
        assert(ps[k].0 == f);
    }
}

/// A matchup of the week: the two entries and their team names.
#[derive(Clone, Debug)]
pub struct SleeperPairing {
    pub home: usize,
    pub away: usize,
    pub home_team: String,
    pub away_team: String,
}

fn members_exec(entries: &Vec<SleeperMatchupEntry>, mid: u32) -> (r: Vec<usize>)
    ensures
        r@.map_values(|x: usize| x as int) == members(entries@, mid, entries.len() as int),
        forall|k: int| 0 <= k < r.len() ==> (#[trigger] r@[k]) < entries.len(),
{
    let mut r: Vec<usize> = Vec::new();
    let mut i: usize = 0;
    while i < entries.len()
        invariant
            i <= entries.len(),
            r@.map_values(|x: usize| x as int) == members(entries@, mid, i as int),
            forall|k: int| 0 <= k < r.len() ==> (#[trigger] r@[k]) < entries.len(),
        decreases entries.len() - i,
    {
        if entries[i].matchup_id == Some(mid) {
            let ghost before = r@.map_values(|x: usize| x as int);
            r.push(i);
            assert(r@.map_values(|x: usize| x as int) =~= before.push(i as int));
        }
        i = i + 1;
    }
    r
}

/// The pair that entry `i` starts, when it is the first entry of a matchup
/// id met by exactly two entries.
fn pair_starting_at(entries: &Vec<SleeperMatchupEntry>, i: usize) -> (r: Option<(usize, usize)>)
    requires
        i < entries.len(),
    ensures
        match r {
            Some((h, a)) => {
                &&& first_of_matchup(entries@, i as int)
                &&& members(entries@, entries@[i as int].matchup_id->0, entries.len() as int).len() == 2
                &&& members(entries@, entries@[i as int].matchup_id->0, entries.len() as int)[0] == h as int
                &&& members(entries@, entries@[i as int].matchup_id->0, entries.len() as int)[1] == a as int
                &&& h < entries.len()
                &&& a < entries.len()
            },
            None => !(first_of_matchup(entries@, i as int) && members(
                entries@,
                entries@[i as int].matchup_id->0,
                entries.len() as int,
            ).len() == 2),
        },
{
    let mid = match entries[i].matchup_id {
        Some(mid) => mid,
        None => {
            return None;
        },
    };
    let mut k: usize = 0;
    while k < i
        invariant
            k <= i < entries.len(),
            entries@[i as int].matchup_id == Some(mid),
            forall|q: int| 0 <= q < k ==> entries@[q].matchup_id != Some(mid),
        decreases i - k,
    {
        if entries[k].matchup_id == Some(mid) {
            return None;
        }
        k = k + 1;
    }
    let m = members_exec(entries, mid);
    if m.len() == 2 {
        let ghost mm = members(entries@, mid, entries.len() as int);
        assert(mm[0] == m@[0] as int);
        assert(mm[1] == m@[1] as int);
        Some((m[0], m[1]))
    } else {
        None
    }
}

/// The week's matchups: entries sharing a matchup id, for ids met by exactly
/// two entries, ordered by first appearance; the first entry is the home
/// side. Team names as in [`spec_matchup_team`].
pub fn matchup_pairs(
    entries: &Vec<SleeperMatchupEntry>,
    rosters: &Vec<SleeperRosterData>,
    users: &Vec<SleeperUserData>,
) -> (r: Vec<SleeperPairing>)
    ensures
        r.len() == pairs_upto(entries@, entries.len() as int).len(),
        forall|k: int|
            #![trigger r@[k]]
            0 <= k < r.len() ==> {
                let pr = pairs_upto(entries@, entries.len() as int)[k];
                &&& r@[k].home as int == pr.0
                &&& r@[k].away as int == pr.1
                &&& r@[k].home_team@ == spec_matchup_team(rosters@, users@, entries@[pr.0].roster_id)
                &&& r@[k].away_team@ == spec_matchup_team(rosters@, users@, entries@[pr.1].roster_id)
            },
{
    let mut r: Vec<SleeperPairing> = Vec::new();
    let mut i: usize = 0;
    while i < entries.len()
        invariant
            i <= entries.len(),
            r.len() == pairs_upto(entries@, i as int).len(),
            forall|k: int|
                #![trigger r@[k]]
                0 <= k < r.len() ==> {
                    let pr = pairs_upto(entries@, i as int)[k];
                    &&& r@[k].home as int == pr.0
                    &&& r@[k].away as int == pr.1
                    &&& r@[k].home_team@ == spec_matchup_team(rosters@, users@, entries@[pr.0].roster_id)
                    &&& r@[k].away_team@ == spec_matchup_team(rosters@, users@, entries@[pr.1].roster_id)
                },
        decreases entries.len() - i,
    {
        let ghost before = pairs_upto(entries@, i as int);
        match pair_starting_at(entries, i) {
            Some((h, a)) => {
                r.push(
                    SleeperPairing {
                        home: h,
                        away: a,
                        home_team: matchup_team(rosters, users, entries[h].roster_id),
                        away_team: matchup_team(rosters, users, entries[a].roster_id),
                    },
                );
                assert(pairs_upto(entries@, i + 1) == before.push((h as int, a as int)));
            },
            None => {
                assert(pairs_upto(entries@, i + 1) == before);
            },
        }
        i = i + 1;
    }
    r
}

// ---------------------------------------------------------------------------
// Free agents
// ---------------------------------------------------------------------------

/// Player id `id` is on some roster.
pub open spec fn rostered(rosters: Seq<SleeperRosterData>, id: Seq<char>) -> bool {
    exists|r: int, j: int|
        0 <= r < rosters.len() && 0 <= j < roster_ids(rosters[r]).len() && (#[trigger] roster_ids(
            rosters[r],
        )[j])@ == id
}

/// The player ids a roster lists.
pub open spec fn roster_ids(r: SleeperRosterData) -> Seq<String> {
    match r.players {
        Some(ps) => ps@,
        None => Seq::empty(),
    }
}

/// Catalog player `sp` is a free agent of interest: on no roster, on an NFL
/// team, and of the requested position (if one is requested).
pub open spec fn free_agent(rosters: Seq<SleeperRosterData>, position: Option<Position>, sp: SleeperPlayerData) -> bool {
    &&& !rostered(rosters, sp.player_id@)
    &&& sp.team matches Some(t) && t@.len() > 0
    &&& match position {
        Some(p) => sp.position matches Some(s) && position_named(s@) == p,
        None => true,
    }
}

/// Catalog entry `i` sorts before entry `j`: by name, then by catalog order.
pub open spec fn sorts_before(catalog: Seq<SleeperPlayerData>, i: int, j: int) -> bool {
    lex_lt(spec_player_name(catalog[i]), spec_player_name(catalog[j])) || (spec_player_name(
        catalog[i],
    ) == spec_player_name(catalog[j]) && i < j)
}

/// Entry `j` is a free agent not yet in `chosen`.
pub open spec fn fa_candidate(
    catalog: Seq<SleeperPlayerData>,
    rosters: Seq<SleeperRosterData>,
    position: Option<Position>,
    chosen: Seq<int>,
    j: int,
) -> bool {
    0 <= j < catalog.len() && free_agent(rosters, position, catalog[j]) && !chosen.contains(j)
}

/// The free agent not yet chosen that sorts first.
pub open spec fn next_free_agent(
    catalog: Seq<SleeperPlayerData>,
    rosters: Seq<SleeperRosterData>,
    position: Option<Position>,
    chosen: Seq<int>,
) -> Option<int> {
    if exists|j: int| fa_candidate(catalog, rosters, position, chosen, j) {
        Some(
            choose|j: int|
                fa_candidate(catalog, rosters, position, chosen, j) && forall|k: int|
                    #![trigger fa_candidate(catalog, rosters, position, chosen, k)]
                    fa_candidate(catalog, rosters, position, chosen, k) && k != j ==> sorts_before(
                        catalog,
                        j,
                        k,
                    ),
        )
    } else {
        None
    }
}

/// The first `k` free agents in name order.
pub open spec fn first_free_agents(
    catalog: Seq<SleeperPlayerData>,
    rosters: Seq<SleeperRosterData>,
    position: Option<Position>,
    k: nat,
) -> Seq<int>
    decreases k,
{
    if k == 0 {
        Seq::empty()
    } else {
        let prev = first_free_agents(catalog, rosters, position, (k - 1) as nat);
        match next_free_agent(catalog, rosters, position, prev) {
            Some(j) => prev.push(j),
            None => prev,
        }
    }
}

proof fn lemma_next_free_agent_unique(
    catalog: Seq<SleeperPlayerData>,
    rosters: Seq<SleeperRosterData>,
    position: Option<Position>,
    chosen: Seq<int>,
    b: int,
)
    requires
        fa_candidate(catalog, rosters, position, chosen, b),
        forall|k: int|
            #![trigger fa_candidate(catalog, rosters, position, chosen, k)]
            fa_candidate(catalog, rosters, position, chosen, k) && k != b ==> sorts_before(catalog, b, k),
    ensures
        next_free_agent(catalog, rosters, position, chosen) == Some(b),
{
    let w = choose|j: int|
        fa_candidate(catalog, rosters, position, chosen, j) && forall|k: int|
            #![trigger fa_candidate(catalog, rosters, position, chosen, k)]
            fa_candidate(catalog, rosters, position, chosen, k) && k != j ==> sorts_before(catalog, j, k);
    assert(fa_candidate(catalog, rosters, position, chosen, w));
    if w != b {
        assert(sorts_before(catalog, b, w));
        assert(sorts_before(catalog, w, b));
        lemma_lex_order(spec_player_name(catalog[b]), spec_player_name(catalog[w]), spec_player_name(catalog[b]));
    }
}

fn is_rostered(rosters: &Vec<SleeperRosterData>, id: &String) -> (r: bool)
    ensures
        r == rostered(rosters@, id@),
{
    let mut i: usize = 0;
    while i < rosters.len()
        invariant
            i <= rosters.len(),
            forall|r: int, j: int|
                0 <= r < i && 0 <= j < roster_ids(rosters@[r]).len() ==> (#[trigger] roster_ids(
                    rosters@[r],
                )[j])@ != id@,
        decreases rosters.len() - i,
    {
        match &rosters[i].players {
            Some(ps) => {
                if contains_string(ps, id) {
                    proof {
                        let j = choose|j: int| 0 <= j < ps.len() && ps@[j]@ == id@;
                        assert(roster_ids(rosters@[i as int]) == ps@);
                        assert(roster_ids(rosters@[i as int])[j]@ == id@);
                    }
                    return true;
                }
            },
            None => {},
        }
        i = i + 1;
    }
    false
}

fn is_free_agent(rosters: &Vec<SleeperRosterData>, position: Option<Position>, sp: &SleeperPlayerData) -> (r: bool)
    ensures
        r == free_agent(rosters@, position, *sp),
{
    let has_team = match &sp.team {
        Some(t) => !t.as_str().is_empty(),
        None => false,
    };
    if !has_team {
        return false;
    }
    let pos_ok = match position {
        Some(p) => match &sp.position {
            Some(s) => Position::from_str(s.as_str()) == p,
            None => false,
        },
        None => true,
    };
    pos_ok && !is_rostered(rosters, &sp.player_id)
}

/// The free agents: catalog players on no roster, on an NFL team and of the
/// requested position (if any), sorted by name (catalog order among equal
/// names), at most `limit` of them.
pub fn free_agents(
    catalog: &Vec<SleeperPlayerData>,
    rosters: &Vec<SleeperRosterData>,
    position: Option<Position>,
    limit: usize,
) -> (r: Vec<Player>)
    ensures
        r.len() == first_free_agents(catalog@, rosters@, position, limit as nat).len(),
        forall|k: int|
            0 <= k < r.len() ==> spec_player_ok(
                catalog@[first_free_agents(catalog@, rosters@, position, limit as nat)[k]],
                #[trigger] r@[k],
            ),
{
    let n = catalog.len();
    let mut ok: Vec<bool> = Vec::new();
    let mut names: Vec<Vec<char>> = Vec::new();
    let mut i: usize = 0;
    while i < n
        invariant
            n == catalog.len(),
            i <= n,
            ok.len() == i,
            names.len() == i,
            forall|k: int| 0 <= k < i ==> #[trigger] ok@[k] == free_agent(rosters@, position, catalog@[k]),
            forall|k: int| 0 <= k < i ==> (#[trigger] names@[k])@ == spec_player_name(catalog@[k]),
        decreases n - i,
    {
        ok.push(is_free_agent(rosters, position, &catalog[i]));
        names.push(chars_of(player_name(&catalog[i]).as_str()));
        i = i + 1;
    }
    let ghost cat = catalog@;
    let ghost ros = rosters@;
    let mut taken: Vec<bool> = Vec::new();
    let mut t: usize = 0;
    while t < n
        invariant
            t <= n,
            taken.len() == t,
            forall|k: int| 0 <= k < t ==> !(#[trigger] taken@[k]),
        decreases n - t,
    {
        taken.push(false);
        t = t + 1;
    }
    let mut chosen: Vec<usize> = Vec::new();
    let mut out: Vec<Player> = Vec::new();
    let mut k: usize = 0;
    while k < limit
        invariant
            n == catalog.len(),
            cat == catalog@,
            ros == rosters@,
            ok.len() == n,
            names.len() == n,
            taken.len() == n,
            forall|q: int| 0 <= q < n ==> #[trigger] ok@[q] == free_agent(ros, position, cat[q]),
            forall|q: int| 0 <= q < n ==> (#[trigger] names@[q])@ == spec_player_name(cat[q]),
            k <= limit,
            chosen@.map_values(|x: usize| x as int) == first_free_agents(cat, ros, position, k as nat),
            forall|q: int| 0 <= q < n ==> (#[trigger] taken@[q] <==> chosen@.map_values(|x: usize| x as int).contains(q)),
            out.len() == chosen.len(),
            forall|q: int| 0 <= q < out.len() ==> (#[trigger] chosen@[q]) < n && spec_player_ok(cat[chosen@[q] as int], out@[q]),
        decreases limit - k,
    {
        let ghost sel = chosen@.map_values(|x: usize| x as int);
        let mut best: Option<usize> = None;
        let mut j: usize = 0;
        while j < n
            invariant
                n == catalog.len(),
                cat == catalog@,
                ok.len() == n,
                names.len() == n,
                taken.len() == n,
                forall|q: int| 0 <= q < n ==> #[trigger] ok@[q] == free_agent(ros, position, cat[q]),
                forall|q: int| 0 <= q < n ==> (#[trigger] names@[q])@ == spec_player_name(cat[q]),
                forall|q: int| 0 <= q < n ==> (#[trigger] taken@[q] <==> sel.contains(q)),
                j <= n,
                match best {
                    Some(b) => b < j && fa_candidate(cat, ros, position, sel, b as int) && forall|q: int|
                        #![trigger fa_candidate(cat, ros, position, sel, q)]
                        0 <= q < j && fa_candidate(cat, ros, position, sel, q) && q != b ==> sorts_before(
                            cat,
                            b as int,
                            q,
                        ),
                    None => forall|q: int| 0 <= q < j ==> !#[trigger] fa_candidate(cat, ros, position, sel, q),
                },
            decreases n - j,
        {
            if ok[j] && !taken[j] {
                match best {
                    None => {
                        best = Some(j);
                    },
                    Some(b) => {
                        let before = lex_less(&names[j], &names[b]);
                        proof {
                            lemma_lex_order(names@[j as int]@, names@[b as int]@, names@[b as int]@);
                            assert forall|q: int|
                                #![trigger fa_candidate(cat, ros, position, sel, q)]
                                0 <= q < j && fa_candidate(cat, ros, position, sel, q) && q != b && before
                                    implies sorts_before(cat, j as int, q) by {
                                lemma_lex_order(names@[j as int]@, names@[b as int]@, spec_player_name(cat[q]));
                            }
                            if !before {
                                assert(sorts_before(cat, b as int, j as int));
                            }
                        }
                        if before {
                            best = Some(j);
                        }
                    },
                }
            }
            j = j + 1;
        }
        match best {
            Some(b) => {
                proof {
                    lemma_next_free_agent_unique(cat, ros, position, sel, b as int);
                }
                chosen.push(b);
                taken.set(b, true);
                out.push(build_player(&catalog[b]));
                proof {
                    assert(chosen@.map_values(|x: usize| x as int) =~= sel.push(b as int));
                    assert forall|q: int| 0 <= q < n implies (#[trigger] taken@[q] <==> sel.push(b as int).contains(q)) by {
                        if q == b {
                            assert(sel.push(b as int)[sel.len() as int] == q);
                        } else {
                            if sel.push(b as int).contains(q) {
                                let w = choose|w: int| 0 <= w < sel.len() + 1 && sel.push(b as int)[w] == q;
                                assert(w < sel.len());
                                assert(sel[w] == q);
                            }
                            if sel.contains(q) {
                                let w = choose|w: int| 0 <= w < sel.len() && sel[w] == q;
                                assert(sel.push(b as int)[w] == q);
                            }
                        }
                    }
                }
                k = k + 1;
            },
            None => {
                proof {
                    assert(next_free_agent(cat, ros, position, sel) is None);
                    lemma_first_free_agents_stable(cat, ros, position, k as nat, limit as nat);
                }
                k = limit;
            },
        }
    }
    out
}

proof fn lemma_first_free_agents_stable(
    catalog: Seq<SleeperPlayerData>,
    rosters: Seq<SleeperRosterData>,
    position: Option<Position>,
    k: nat,
    m: nat,
)
    requires
        k <= m,
        next_free_agent(catalog, rosters, position, first_free_agents(catalog, rosters, position, k)) is None,
    ensures
        first_free_agents(catalog, rosters, position, m) == first_free_agents(catalog, rosters, position, k),
    decreases m - k,
{
    if k < m {
        lemma_first_free_agents_stable(catalog, rosters, position, k, (m - 1) as nat);
    }
}

/// `sorts_before` is a strict total order on catalog entries.
proof fn lemma_sorts_before_order(catalog: Seq<SleeperPlayerData>, i: int, j: int, k: int)
    ensures
        !(sorts_before(catalog, i, j) && sorts_before(catalog, j, i)),
        !sorts_before(catalog, i, i),
        i != j ==> sorts_before(catalog, i, j) || sorts_before(catalog, j, i),
        sorts_before(catalog, i, j) && sorts_before(catalog, j, k) ==> sorts_before(catalog, i, k),
{
    let ni = spec_player_name(catalog[i]);
    let nj = spec_player_name(catalog[j]);
    let nk = spec_player_name(catalog[k]);
    lemma_lex_order(ni, nj, nk);
    lemma_lex_order(nj, ni, ni);
    lemma_lex_order(ni, ni, ni);
}

/// Among the first `n` catalog entries, if some is a free agent not yet
/// chosen, one of them sorts before all the others.
#[verifier::spinoff_prover]
#[verifier::rlimit(30)]
proof fn lemma_first_candidate_exists(
    catalog: Seq<SleeperPlayerData>,
    rosters: Seq<SleeperRosterData>,
    position: Option<Position>,
    chosen: Seq<int>,
    n: int,
)
    requires
        0 <= n <= catalog.len(),
    ensures
        (exists|j: int| 0 <= j < n && fa_candidate(catalog, rosters, position, chosen, j)) ==> exists|b: int|
            0 <= b < n && fa_candidate(catalog, rosters, position, chosen, b) && forall|k: int|
                #![trigger fa_candidate(catalog, rosters, position, chosen, k)]
                0 <= k < n && fa_candidate(catalog, rosters, position, chosen, k) && k != b
                    ==> sorts_before(catalog, b, k),
    decreases n,
{
    if n > 0 {
        lemma_first_candidate_exists(catalog, rosters, position, chosen, n - 1);
        let m = n - 1;
        if fa_candidate(catalog, rosters, position, chosen, m) {
            if exists|j: int| 0 <= j < m && fa_candidate(catalog, rosters, position, chosen, j) {
                let b = choose|b: int|
                    0 <= b < m && fa_candidate(catalog, rosters, position, chosen, b) && forall|k: int|
                        #![trigger fa_candidate(catalog, rosters, position, chosen, k)]
                        0 <= k < m && fa_candidate(catalog, rosters, position, chosen, k) && k != b
                            ==> sorts_before(catalog, b, k);
                lemma_sorts_before_order(catalog, m, b, m);
                if sorts_before(catalog, m, b) {
                    assert forall|k: int|
                        #![trigger fa_candidate(catalog, rosters, position, chosen, k)]
                        0 <= k < n && fa_candidate(catalog, rosters, position, chosen, k) && k != m
                            implies sorts_before(catalog, m, k) by {
                        lemma_sorts_before_order(catalog, m, b, k);
                    }
                } else {
                    assert forall|k: int|
                        #![trigger fa_candidate(catalog, rosters, position, chosen, k)]
                        0 <= k < n && fa_candidate(catalog, rosters, position, chosen, k) && k != b
                            implies sorts_before(catalog, b, k) by {}
                }
            } else {
                assert forall|k: int|
                    #![trigger fa_candidate(catalog, rosters, position, chosen, k)]
                    0 <= k < n && fa_candidate(catalog, rosters, position, chosen, k) && k != m
                        implies sorts_before(catalog, m, k) by {
                    assert(0 <= k < m);
                }
            }
        }
    }
}

/// The free agents listed for a limit `k` are free agents of the catalog, in
/// strictly increasing name order (so none twice), and any free agent left
/// out sorts after every listed one, which happens only when the limit is
/// reached.
pub proof fn lemma_free_agents_sorted(
    catalog: Seq<SleeperPlayerData>,
    rosters: Seq<SleeperRosterData>,
    position: Option<Position>,
    k: nat,
)
    ensures
        ({
            let s = first_free_agents(catalog, rosters, position, k);
            &&& s.len() <= k
            &&& forall|i: int|
                0 <= i < s.len() ==> 0 <= #[trigger] s[i] < catalog.len() && free_agent(
                    rosters,
                    position,
                    catalog[s[i]],
                )
            &&& forall|a: int, b: int| 0 <= a < b < s.len() ==> sorts_before(catalog, s[a], s[b])
            &&& forall|j: int|
                0 <= j < catalog.len() && free_agent(rosters, position, catalog[j]) && !s.contains(j)
                    ==> s.len() == k && forall|i: int|
                    0 <= i < s.len() ==> sorts_before(catalog, #[trigger] s[i], j)
        }),
    decreases k,
{
    if k > 0 {
        lemma_free_agents_sorted(catalog, rosters, position, (k - 1) as nat);
        let prev = first_free_agents(catalog, rosters, position, (k - 1) as nat);
        let s = first_free_agents(catalog, rosters, position, k);
        lemma_first_candidate_exists(catalog, rosters, position, prev, catalog.len() as int);
        if exists|j: int| fa_candidate(catalog, rosters, position, prev, j) {
            let w = choose|j: int| fa_candidate(catalog, rosters, position, prev, j);
            assert(0 <= w < catalog.len());
            let b = choose|b: int|
                0 <= b < catalog.len() && fa_candidate(catalog, rosters, position, prev, b) && forall|q: int|
                    #![trigger fa_candidate(catalog, rosters, position, prev, q)]
                    0 <= q < catalog.len() && fa_candidate(catalog, rosters, position, prev, q) && q != b
                        ==> sorts_before(catalog, b, q);
            assert(fa_candidate(catalog, rosters, position, prev, b) && forall|q: int|
                #![trigger fa_candidate(catalog, rosters, position, prev, q)]
                fa_candidate(catalog, rosters, position, prev, q) && q != b ==> sorts_before(
                    catalog,
                    b,
                    q,
                ));
            let j0 = next_free_agent(catalog, rosters, position, prev)->0;
            assert(fa_candidate(catalog, rosters, position, prev, j0));
            assert(s == prev.push(j0));
            assert forall|a: int, c: int| 0 <= a < c < s.len() implies sorts_before(catalog, s[a], s[c]) by {
                if c == prev.len() {
                    assert(!prev.contains(j0));
                    assert(s[a] == prev[a]);
                } else {
                    assert(s[a] == prev[a] && s[c] == prev[c]);
                }
            }
            assert forall|j: int|
                0 <= j < catalog.len() && free_agent(rosters, position, catalog[j]) && !s.contains(j)
                    implies s.len() == k && forall|i: int|
                    0 <= i < s.len() ==> sorts_before(catalog, #[trigger] s[i], j) by {
                assert(s[prev.len() as int] == j0);
                if prev.contains(j) {
                    let q = choose|q: int| 0 <= q < prev.len() && prev[q] == j;
                    assert(s[q] == j);
                }
                assert(j != j0);
                assert(fa_candidate(catalog, rosters, position, prev, j));
                assert forall|i: int| 0 <= i < s.len() implies sorts_before(catalog, #[trigger] s[i], j) by {
                    if i < prev.len() {
                        assert(s[i] == prev[i]);
                    }
                }
            }
        } else {
            assert(s == prev);
            assert forall|j: int|
                0 <= j < catalog.len() && free_agent(rosters, position, catalog[j]) && !s.contains(j)
                    implies s.len() == k && forall|i: int|
                    0 <= i < s.len() ==> sorts_before(catalog, #[trigger] s[i], j) by {
                assert(fa_candidate(catalog, rosters, position, prev, j));
            }
        }
    }
}

// ---------------------------------------------------------------------------
// Draft
// ---------------------------------------------------------------------------

/// One pick of a Sleeper draft.
#[derive(Clone, Debug)]
pub struct SleeperPickData {
    pub pick_no: u32,
    pub round: u32,
    pub roster_id: Option<u32>,
    pub picked_by: Option<String>,
    pub player_id: String,
}

/// What a Sleeper draft reports of itself.
#[derive(Clone, Debug)]
pub struct SleeperDraftData {
    pub status: String,
    pub rounds: Option<u64>,
    pub teams: Option<u64>,
}

/// `Team ` followed by the debug form of an optional roster id (`Some(3)` or `None`).
pub open spec fn spec_team_of_roster(id: Option<u32>) -> Seq<char> {
    match id {
        Some(r) => "Team Some("@ + decimal(r as nat) + ")"@,
        None => "Team None"@,
    }
}

/// The drafted player's name: the full name, else first and last name (each
/// empty when missing) joined by a space.
pub open spec fn spec_drafted_name(sp: SleeperPlayerData) -> Seq<char> {
    match sp.full_name {
        Some(f) => f@,
        None => (match sp.first_name {
            Some(f) => f@,
            None => Seq::empty(),
        }) + " "@ + (match sp.last_name {
            Some(l) => l@,
            None => Seq::empty(),
        }),
    }
}

/// A draft pick from Sleeper: the team is the picking member's display name,
/// else `Team <roster id as debug text>`; the team id is the roster id in
/// decimal (empty when none); the player's name and position come from the
/// catalog when it lists the player.
pub open spec fn spec_pick_ok(
    p: SleeperPickData,
    users: Seq<SleeperUserData>,
    catalog: Seq<(String, SleeperPlayerData)>,
    d: DraftPick,
) -> bool {
    let member_name = match p.picked_by {
        Some(u) => match user_with_id(users, u@) {
            Some(i) => users[i].display_name,
            None => None,
        },
        None => None,
    };
    &&& d.pick_number == p.pick_no
    &&& d.round == p.round
    &&& d.team_id@ == match p.roster_id {
        Some(r) => decimal(r as nat),
        None => Seq::empty(),
    }
    &&& d.team_name@ == match member_name {
        Some(n) => n@,
        None => spec_team_of_roster(p.roster_id),
    }
    &&& d.player_id matches Some(i) && i@ == p.player_id@
    &&& match catalog_entry(catalog, p.player_id@) {
        Some(c) => d.player_name matches Some(n) && n@ == spec_drafted_name(catalog[c].1)
            && d.position == match catalog[c].1.position {
                Some(s) => Some(position_named(s@)),
                None => None,
            },
        None => d.player_name is None && d.position is None,
    }
}

fn drafted_name(sp: &SleeperPlayerData) -> (r: String)
    ensures
        r@ == spec_drafted_name(*sp),
{
    match &sp.full_name {
        Some(f) => copy_string(f),
        None => {
            let mut v = match &sp.first_name {
                Some(f) => chars_of(f.as_str()),
                None => Vec::new(),
            };
            v = concat_chars(&v, &chars_of(" "));
            let l = match &sp.last_name {
                Some(l) => chars_of(l.as_str()),
                None => Vec::new(),
            };
            v = concat_chars(&v, &l);
            string_of(&v)
        },
    }
}

fn team_of_roster(id: Option<u32>) -> (r: String)
    ensures
        r@ == spec_team_of_roster(id),
{
    match id {
        Some(x) => {
            let mut v = chars_of("Team Some(");
            v = concat_chars(&v, &decimal_chars(x as u64));
            v = concat_chars(&v, &chars_of(")"));
            string_of(&v)
        },
        None => "Team None".to_owned(),
    }
}

fn build_pick(
    p: &SleeperPickData,
    users: &Vec<SleeperUserData>,
    catalog: &Vec<(String, SleeperPlayerData)>,
) -> (d: DraftPick)
    ensures
        spec_pick_ok(*p, users@, catalog@, d),
{
    let member_name = match &p.picked_by {
        Some(u) => match find_user(users, u) {
            Some(i) => match &users[i].display_name {
                Some(n) => Some(copy_string(n)),
                None => None,
            },
            None => None,
        },
        None => None,
    };
    let team_name = match member_name {
        Some(n) => n,
        None => team_of_roster(p.roster_id),
    };
    let team_id = match p.roster_id {
        Some(r) => string_of(&decimal_chars(r as u64)),
        None => String::new(),
    };
    let (player_name, position) = match find_in_catalog(catalog, &p.player_id) {
        Some(c) => {
            let sp = &catalog[c].1;
            let pos = match &sp.position {
                Some(s) => Some(Position::from_str(s.as_str())),
                None => None,
            };
            (Some(drafted_name(sp)), pos)
        },
        None => (None, None),
    };
    DraftPick {
        pick_number: p.pick_no,
        round: p.round,
        team_id,
        team_name,
        player_id: Some(copy_string(&p.player_id)),
        player_name,
        position,
    }
}

/// The draft state from Sleeper. The rounds and league size are those the
/// draft reports (15 and 10 when missing), truncated to 32 bits; the next
/// pick follows the last one (1 when none); the draft is complete when its
/// status is `complete`.
pub fn draft_state(
    draft: &SleeperDraftData,
    picks: &Vec<SleeperPickData>,
    users: &Vec<SleeperUserData>,
    catalog: &Vec<(String, SleeperPlayerData)>,
) -> (r: DraftState)
    requires
        picks.len() > 0 ==> picks@[picks.len() - 1].pick_no < u32::MAX,
    ensures
        r.picks.len() == picks.len(),
        forall|k: int| 0 <= k < picks.len() ==> spec_pick_ok(picks@[k], users@, catalog@, #[trigger] r.picks@[k]),
        r.current_pick == if picks.len() == 0 {
            1
        } else {
            picks@[picks.len() - 1].pick_no + 1
        },
        r.on_the_clock_team is None,
        r.total_rounds == (match draft.rounds {
            Some(x) => x,
            None => 15,
        }) as u32,
        r.team_count == (match draft.teams {
            Some(x) => x,
            None => 10,
        }) as u32,
        r.completed == (draft.status@ == "complete"@),
{
    let mut out: Vec<DraftPick> = Vec::new();
    let mut i: usize = 0;
    while i < picks.len()
        invariant
            i <= picks.len(),
            out.len() == i,
            forall|k: int| 0 <= k < i ==> spec_pick_ok(picks@[k], users@, catalog@, #[trigger] out@[k]),
        decreases picks.len() - i,
    {
        out.push(build_pick(&picks[i], users, catalog));
        i = i + 1;
    }
    let rounds: u64 = match draft.rounds {
        Some(x) => x,
        None => 15,
    };
    let teams: u64 = match draft.teams {
        Some(x) => x,
        None => 10,
    };
    let current_pick = if picks.len() == 0 {
        1
    } else {
        picks[picks.len() - 1].pick_no + 1
    };
    let complete = "complete".to_owned();
    DraftState {
        picks: out,
        current_pick,
        on_the_clock_team: None,
        total_rounds: rounds as u32,
        team_count: teams as u32,
        completed: draft.status == complete,
    }
}

} // verus!
