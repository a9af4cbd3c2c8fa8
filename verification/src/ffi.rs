//! The surface offered to mobile clients: plain records for draft data, the
//! client's error kinds, and the checks made on its requests.
use vstd::prelude::*;
use crate::draft::{PickView, SuggestedPick};
use crate::news::NewsItem;
use crate::text::{
    chars_of, concat_chars, string_of, trim, trim_chars, is_ws, lemma_trim_shape,
};
use crate::types::{DraftPick, DraftState, Position, Roster, Strategy, position_label, strategy_error, strategy_label, strategy_named};

verus! {

/// The client's errors.
#[derive(Clone, Debug)]
pub enum FfError {
    Config(String),
    Init(String),
    Api(String),
    Input(String),
}

/// The message of a client error.
pub open spec fn ff_error_message(e: FfError) -> Seq<char> {
    match e {
        FfError::Config(m) => "config: "@ + m@,
        FfError::Init(m) => "init: "@ + m@,
        FfError::Api(m) => "api: "@ + m@,
        FfError::Input(m) => "invalid input: "@ + m@,
    }
}

impl FfError {
    /// The message of the error.
    pub fn message(&self) -> (r: String)
        ensures
            r@ == ff_error_message(*self),
    {
        let (prefix, m) = match self {
            FfError::Config(m) => (chars_of("config: "), m),
            FfError::Init(m) => (chars_of("init: "), m),
            FfError::Api(m) => (chars_of("api: "), m),
            FfError::Input(m) => (chars_of("invalid input: "), m),
        };
        string_of(&concat_chars(&prefix, &chars_of(m.as_str())))
    }
}

/// A draft pick as the client sees it.
#[derive(Clone, Debug)]
pub struct UDraftPick {
    pub pick_number: u32,
    pub round: u32,
    pub team_name: String,
    pub player_name: Option<String>,
    pub position: Option<String>,
}

/// A draft as the client sees it.
#[derive(Clone, Debug)]
pub struct UDraftState {
    pub picks: Vec<UDraftPick>,
    pub current_pick: u32,
    pub total_rounds: u32,
    pub team_count: u32,
    pub completed: bool,
}

/// A suggested pick as the client sees it.
#[derive(Clone, Debug)]
pub struct UDraftSuggestion {
    pub rank: u32,
    pub name: String,
    pub position: Option<String>,
    pub rationale: String,
}

/// A news item as the client sees it.
#[derive(Clone, Debug)]
pub struct UNewsItem {
    pub title: String,
    pub summary: String,
    pub source: String,
    pub url: String,
}

/// A position's label, when there is a position.
pub open spec fn label_of(p: Option<Position>) -> Option<Seq<char>> {
    match p {
        Some(x) => Some(position_label(x)),
        None => None,
    }
}

/// The view of an optional string.
pub open spec fn opt_view(s: Option<String>) -> Option<Seq<char>> {
    match s {
        Some(x) => Some(x@),
        None => None,
    }
}

fn copy_string(s: &String) -> (r: String)
    ensures
        r@ == s@,
{
    string_of(&chars_of(s.as_str()))
}

fn copy_opt(s: &Option<String>) -> (r: Option<String>)
    ensures
        opt_view(r) == opt_view(*s),
{
    match s {
        Some(x) => Some(copy_string(x)),
        None => None,
    }
}

fn label_opt(p: Option<Position>) -> (r: Option<String>)
    ensures
        opt_view(r) == label_of(p),
{
    match p {
        Some(x) => Some(x.label()),
        None => None,
    }
}

/// The client's record of a pick.
pub open spec fn spec_upick_ok(p: DraftPick, u: UDraftPick) -> bool {
    &&& u.pick_number == p.pick_number
    &&& u.round == p.round
    &&& u.team_name@ == p.team_name@
    &&& opt_view(u.player_name) == opt_view(p.player_name)
    &&& opt_view(u.position) == label_of(p.position)
}

/// The client's record of a draft: the same picks, with positions as labels.
pub fn to_udraft_state(d: &DraftState) -> (u: UDraftState)
    ensures
        u.picks.len() == d.picks.len(),
        forall|k: int| 0 <= k < d.picks.len() ==> spec_upick_ok(d.picks@[k], #[trigger] u.picks@[k]),
        u.current_pick == d.current_pick,
        u.total_rounds == d.total_rounds,
        u.team_count == d.team_count,
        u.completed == d.completed,
{
    let mut picks: Vec<UDraftPick> = Vec::new();
    let mut i: usize = 0;
    while i < d.picks.len()
        invariant
            i <= d.picks.len(),
            picks.len() == i,
            forall|k: int| 0 <= k < i ==> spec_upick_ok(d.picks@[k], #[trigger] picks@[k]),
        decreases d.picks.len() - i,
    {
        let p = &d.picks[i];
        picks.push(
            UDraftPick {
                pick_number: p.pick_number,
                round: p.round,
                team_name: copy_string(&p.team_name),
                player_name: copy_opt(&p.player_name),
                position: label_opt(p.position),
            },
        );
        i = i + 1;
    }
    UDraftState {
        picks,
        current_pick: d.current_pick,
        total_rounds: d.total_rounds,
        team_count: d.team_count,
        completed: d.completed,
    }
}

/// The client's records of suggested picks: the same picks, with positions as labels.
pub fn to_udraft_suggestions(picks: &Vec<SuggestedPick>) -> (r: Vec<UDraftSuggestion>)
    ensures
        r.len() == picks.len(),
        forall|k: int|
            #![trigger r@[k]]
            0 <= k < picks.len() ==> r@[k].rank == picks@[k].rank && r@[k].name@ == picks@[k].name@
                && opt_view(r@[k].position) == label_of(picks@[k].position) && r@[k].rationale@
                == picks@[k].rationale@,
{
    let mut r: Vec<UDraftSuggestion> = Vec::new();
    let mut i: usize = 0;
    while i < picks.len()
        invariant
            i <= picks.len(),
            r.len() == i,
            forall|k: int|
                #![trigger r@[k]]
                0 <= k < i ==> r@[k].rank == picks@[k].rank && r@[k].name@ == picks@[k].name@
                    && opt_view(r@[k].position) == label_of(picks@[k].position) && r@[k].rationale@
                    == picks@[k].rationale@,
        decreases picks.len() - i,
    {
        let p = &picks[i];
        r.push(
            UDraftSuggestion {
                rank: p.rank,
                name: copy_string(&p.name),
                position: label_opt(p.position),
                rationale: copy_string(&p.rationale),
            },
        );
        i = i + 1;
    }
    r
}

/// The first `limit` news stories, as the client receives them.
pub fn news_items(news: &Vec<NewsItem>, limit: u32) -> (r: Vec<UNewsItem>)
    ensures
        r.len() == if news.len() < limit as int {
            news.len() as int
        } else {
            limit as int
        },
        forall|k: int|
            0 <= k < r.len() ==> {
                &&& (#[trigger] r@[k]).title@ == news@[k].title@
                &&& r@[k].summary@ == news@[k].summary@
                &&& r@[k].source@ == news@[k].source@
                &&& r@[k].url@ == news@[k].url@
            },
{
    let mut r: Vec<UNewsItem> = Vec::new();
    let mut i: usize = 0;
    while i < news.len() && (i as u64) < (limit as u64)
        invariant
            i <= news.len(),
            i <= limit,
            r.len() == i,
            forall|k: int|
                0 <= k < i ==> {
                    &&& (#[trigger] r@[k]).title@ == news@[k].title@
                    &&& r@[k].summary@ == news@[k].summary@
                    &&& r@[k].source@ == news@[k].source@
                    &&& r@[k].url@ == news@[k].url@
                },
        decreases news.len() - i,
    {
        let n = &news[i];
        r.push(
            UNewsItem {
                title: copy_string(&n.title),
                summary: copy_string(&n.summary),
                source: copy_string(&n.source),
                url: copy_string(&n.url),
            },
        );
        i = i + 1;
    }
    r
}

/// Scanning state after reading `s`: the finished pieces and the current one.
pub open spec fn comma_state(s: Seq<char>) -> (Seq<Seq<char>>, Seq<char>)
    decreases s.len(),
{
    if s.len() == 0 {
        (Seq::empty(), Seq::empty())
    } else {
        let (done, cur) = comma_state(s.drop_last());
        if s.last() == ',' {
            (done.push(cur), Seq::empty())
        } else {
            (done, cur.push(s.last()))
        }
    }
}

/// The pieces of `s` between commas (std's `str::split(',')`).
pub open spec fn split_commas(s: Seq<char>) -> Seq<Seq<char>> {
    let (done, cur) = comma_state(s);
    done.push(cur)
}

/// The non-empty trimmed pieces of the first `n` pieces.
pub open spec fn csv_names(pieces: Seq<Seq<char>>, n: int) -> Seq<Seq<char>>
    decreases n,
{
    if n <= 0 {
        Seq::empty()
    } else if trim(pieces[n - 1]).len() > 0 {
        csv_names(pieces, n - 1).push(trim(pieces[n - 1]))
    } else {
        csv_names(pieces, n - 1)
    }
}

/// The names in a comma-separated list: each piece trimmed, empty ones dropped.
pub open spec fn spec_split_names(s: Seq<char>) -> Seq<Seq<char>> {
    csv_names(split_commas(s), split_commas(s).len() as int)
}

proof fn lemma_comma_state_no_comma(s: Seq<char>)
    ensures
        forall|k: int, c: int|
            0 <= k < comma_state(s).0.len() && 0 <= c < comma_state(s).0[k].len() ==> (
            #[trigger] comma_state(s).0[k][c]) != ',',
        forall|c: int| 0 <= c < comma_state(s).1.len() ==> (#[trigger] comma_state(s).1[c]) != ',',
    decreases s.len(),
{
    if s.len() > 0 {
        lemma_comma_state_no_comma(s.drop_last());
        let (done, cur) = comma_state(s.drop_last());
        if s.last() == ',' {
            assert forall|k: int, c: int|
                0 <= k < comma_state(s).0.len() && 0 <= c < comma_state(s).0[k].len() implies (
                #[trigger] comma_state(s).0[k][c]) != ',' by {
                if k < done.len() {
                    assert(comma_state(s).0[k] == done[k]);
                } else {
                    assert(comma_state(s).0[k] == cur);
                }
            }
        } else {
            assert forall|c: int| 0 <= c < comma_state(s).1.len() implies (#[trigger] comma_state(
                s,
            ).1[c]) != ',' by {
                if c < cur.len() {
                    assert(comma_state(s).1[c] == cur[c]);
                }
            }
        }
    }
}

proof fn lemma_csv_names_clean(pieces: Seq<Seq<char>>, n: int)
    requires
        0 <= n <= pieces.len(),
        forall|k: int, c: int| 0 <= k < pieces.len() && 0 <= c < pieces[k].len() ==> (#[trigger] pieces[k][c]) != ',',
    ensures
        forall|k: int|
            #![trigger csv_names(pieces, n)[k]]
            0 <= k < csv_names(pieces, n).len() ==> {
                let m = csv_names(pieces, n)[k];
                &&& m.len() > 0
                &&& !is_ws(m[0])
                &&& !is_ws(m.last())
                &&& forall|c: int| 0 <= c < m.len() ==> m[c] != ','
            },
    decreases n,
{
    if n > 0 {
        lemma_csv_names_clean(pieces, n - 1);
        let p = pieces[n - 1];
        lemma_trim_shape(p);
        let prev = csv_names(pieces, n - 1);
        if trim(p).len() > 0 {
            let (a, b) = choose|a: int, b: int| 0 <= a <= b <= p.len() && trim(p) == p.subrange(a, b);
            assert forall|c: int| 0 <= c < trim(p).len() implies trim(p)[c] != ',' by {
                assert(trim(p)[c] == pieces[n - 1][a + c]);
            }
            assert forall|k: int|
                #![trigger csv_names(pieces, n)[k]]
                0 <= k < csv_names(pieces, n).len() implies {
                    let m = csv_names(pieces, n)[k];
                    &&& m.len() > 0
                    &&& !is_ws(m[0])
                    &&& !is_ws(m.last())
                    &&& forall|c: int| 0 <= c < m.len() ==> m[c] != ','
                } by {
                if k < prev.len() {
                    assert(csv_names(pieces, n)[k] == prev[k]);
                }
            }
        }
    }
}

/// Each name read from a comma-separated list is non-empty, neither starts
/// nor ends with whitespace, and holds no comma.
pub proof fn lemma_split_names_clean(s: Seq<char>)
    ensures
        forall|k: int|
            #![trigger spec_split_names(s)[k]]
            0 <= k < spec_split_names(s).len() ==> {
                let m = spec_split_names(s)[k];
                &&& m.len() > 0
                &&& !is_ws(m[0])
                &&& !is_ws(m.last())
                &&& forall|c: int| 0 <= c < m.len() ==> m[c] != ','
            },
{
    lemma_comma_state_no_comma(s);
    let pieces = split_commas(s);
    assert forall|k: int, c: int| 0 <= k < pieces.len() && 0 <= c < pieces[k].len() implies (
    #[trigger] pieces[k][c]) != ',' by {
        if k < comma_state(s).0.len() {
            assert(pieces[k] == comma_state(s).0[k]);
        } else {
            assert(pieces[k] == comma_state(s).1);
        }
    }
    lemma_csv_names_clean(pieces, pieces.len() as int);
}

fn split_pieces(s: &Vec<char>) -> (r: Vec<Vec<char>>)
    ensures
        r@.map_values(|p: Vec<char>| p@) == split_commas(s@),
{
    let mut done: Vec<Vec<char>> = Vec::new();
    let mut cur: Vec<char> = Vec::new();
    let mut i: usize = 0;
    while i < s.len()
        invariant
            i <= s.len(),
            (done@.map_values(|p: Vec<char>| p@), cur@) == comma_state(s@.take(i as int)),
        decreases s.len() - i,
    {
        let c = s[i];
        assert(s@.take(i + 1).drop_last() == s@.take(i as int));
        if c == ',' {
            let ghost before = done@.map_values(|p: Vec<char>| p@);
            done.push(cur);
            assert(done@.map_values(|p: Vec<char>| p@) =~= before.push(cur@));
            cur = Vec::new();
        } else {
            cur.push(c);
        }
        i = i + 1;
    }
    assert(s@.take(s.len() as int) == s@);
    let ghost before = done@.map_values(|p: Vec<char>| p@);
    done.push(cur);
    assert(done@.map_values(|p: Vec<char>| p@) =~= before.push(cur@));
    done
}

/// The names in a comma-separated list (see [`spec_split_names`]).
pub fn split_names(s: &str) -> (r: Vec<String>)
    ensures
        r@.map_values(|x: String| x@) == spec_split_names(s@),
{
    let pieces = split_pieces(&chars_of(s));
    let ghost pv = pieces@.map_values(|p: Vec<char>| p@);
    let mut r: Vec<String> = Vec::new();
    let mut i: usize = 0;
    while i < pieces.len()
        invariant
            i <= pieces.len(),
            pv == pieces@.map_values(|p: Vec<char>| p@),
            pv == split_commas(s@),
            r@.map_values(|x: String| x@) == csv_names(pv, i as int),
        decreases pieces.len() - i,
    {
        let t = trim_chars(&pieces[i]);
        if t.len() > 0 {
            let ghost before = r@.map_values(|x: String| x@);
            r.push(string_of(&t));
            assert(r@.map_values(|x: String| x@) =~= before.push(t@));
        }
        i = i + 1;
    }
    r
}

/// The message for an incomplete trade request.
pub open spec fn trade_input_message() -> Seq<char> {
    "partner / send / receive must all be non-empty"@
}

/// Checks a trade request: the names to send and to receive, read from
/// comma-separated lists. Refused when either list names nobody or the
/// partner is blank.
pub fn trade_request(partner: &str, send_csv: &str, receive_csv: &str) -> (r: Result<(Vec<String>, Vec<String>), FfError>)
    ensures
        match r {
            Ok((send, recv)) => send@.map_values(|x: String| x@) == spec_split_names(send_csv@)
                && recv@.map_values(|x: String| x@) == spec_split_names(receive_csv@)
                && send.len() > 0 && recv.len() > 0 && trim(partner@).len() > 0,
            Err(e) => e matches FfError::Input(m) && m@ == trade_input_message() && (
            spec_split_names(send_csv@).len() == 0 || spec_split_names(receive_csv@).len() == 0
                || trim(partner@).len() == 0),
        },
{
    let send = split_names(send_csv);
    let recv = split_names(receive_csv);
    if send.len() == 0 || recv.len() == 0 || trim_chars(&chars_of(partner)).len() == 0 {
        return Err(FfError::Input("partner / send / receive must all be non-empty".to_owned()));
    }
    Ok((send, recv))
}

/// Reads a strategy name sent by the client; an unknown name is an input error.
pub fn strategy_input(kind: &str) -> (r: Result<Strategy, FfError>)
    ensures
        match strategy_named(kind@) {
            Some(s) => r matches Ok(x) && x == s,
            None => r matches Err(FfError::Input(m)) && m@ == strategy_error(kind@),
        },
{
    match Strategy::parse(kind) {
        Ok(s) => Ok(s),
        Err(e) => Err(FfError::Input(e)),
    }
}

/// What the client keeps between calls: the strategy in use.
#[derive(Clone, Debug)]
pub struct ClientState {
    pub strategy: Strategy,
}

impl ClientState {
    /// Sets the strategy from a name sent by the client (see
    /// [`strategy_input`]); an unknown name is an input error and leaves the
    /// strategy as it was.
    pub fn set_strategy(&mut self, kind: &str) -> (r: Result<(), FfError>)
        ensures
            match strategy_named(kind@) {
                Some(s) => r is Ok && final(self).strategy == s,
                None => r matches Err(FfError::Input(m)) && m@ == strategy_error(kind@)
                    && final(self).strategy == old(self).strategy,
            },
    {
        match strategy_input(kind) {
            Ok(s) => {
                self.strategy = s;
                Ok(())
            },
            Err(e) => Err(e),
        }
    }

    /// The label of the strategy in use.
    pub fn current_strategy(&self) -> (r: String)
        ensures
            r@ == strategy_label(self.strategy),
    {
        self.strategy.label()
    }
}

/// Checks a trade request against the snapshot: without a roster it is
/// refused (`no roster yet`) whatever it holds; otherwise see
/// [`trade_request`].
pub fn trade_inputs(roster: Option<&Roster>, partner: &str, send_csv: &str, receive_csv: &str) -> (r: Result<
    (Vec<String>, Vec<String>),
    FfError,
>)
    ensures
        roster is None ==> (r matches Err(FfError::Api(m)) && m@ == "no roster yet"@),
        roster is Some ==> (match r {
            Ok((send, recv)) => send@.map_values(|x: String| x@) == spec_split_names(send_csv@)
                && recv@.map_values(|x: String| x@) == spec_split_names(receive_csv@) && send.len() > 0
                && recv.len() > 0 && trim(partner@).len() > 0,
            Err(e) => e matches FfError::Input(m) && m@ == trade_input_message() && (spec_split_names(
                send_csv@,
            ).len() == 0 || spec_split_names(receive_csv@).len() == 0 || trim(partner@).len() == 0),
        }),
{
    match roster {
        None => Err(FfError::Api("no roster yet".to_owned())),
        Some(_) => trade_request(partner, send_csv, receive_csv),
    }
}

/// The week a lineup is made for: the one asked for, else the current week
/// (at least 1).
pub fn lineup_week(week_override: Option<u8>, current_week: u8) -> (r: u8)
    ensures
        r == match week_override {
            Some(w) => w,
            None => if current_week < 1 {
                1
            } else {
                current_week
            },
        },
{
    match week_override {
        Some(w) => w,
        None => if current_week < 1 {
            1
        } else {
            current_week
        },
    }
}

} // verus!
