//! Draft assistance: reading ranked pick suggestions, whose turn it is in a
//! snake draft, and which hinted players are still available.
use vstd::prelude::*;
use crate::text::{
    first_index, last_index, chars_of, eq_ignore_ascii_case, eq_ignore_ascii_case_chars, lines, lowercase_chars,
    rsplit_once, rsplit_once_chars, split_lines, split_once, split_once_chars, string_of,
    strip_prefix, strip_prefix_chars, trim, trim_chars, trim_end_matches,
    trim_end_matches_chars, unicode_lowercase, views,
};
use crate::news::NewsItem;
use crate::text::{concat_chars, decimal, decimal_chars, join_lines, joined};
use crate::types::{DraftPick, DraftState, Position, Strategy, position_named, strategy_guidance};

verus! {

/// One suggested pick read from an assistant's reply.
#[derive(Clone, Debug)]
pub struct SuggestedPick {
    pub rank: u32,
    pub name: String,
    pub position: Option<Position>,
    pub rationale: String,
}

/// Suggested picks together with the reply they were read from.
#[derive(Clone, Debug)]
pub struct DraftSuggestion {
    pub picks: Vec<SuggestedPick>,
    pub raw: String,
}

/// A suggested pick in specifications.
pub struct PickView {
    pub rank: u32,
    pub name: Seq<char>,
    pub position: Option<Position>,
    pub rationale: Seq<char>,
}

impl SuggestedPick {
    pub open spec fn view(&self) -> PickView {
        PickView {
            rank: self.rank,
            name: self.name@,
            position: self.position,
            rationale: self.rationale@,
        }
    }
}

/// The parts of a list entry `Name (POS) — rationale` (the text after its
/// number): the name, the position named in the last parenthesis (`Unknown`
/// when there is none or it names no position) and the rationale after the
/// first em dash, else after the first hyphen, else empty.
pub open spec fn entry_parts(rest: Seq<char>) -> (Seq<char>, Position, Seq<char>) {
    let r = trim(rest);
    let (name_part, rationale) = match split_once(r, '—') {
        Some((n, x)) => (trim(n), trim(x)),
        None => match split_once(r, '-') {
            Some((n, x)) => (trim(n), trim(x)),
            None => (r, Seq::empty()),
        },
    };
    match rsplit_once(name_part, '(') {
        Some((n, p)) => (trim(n), position_named(trim(trim_end_matches(p, ')'))), rationale),
        None => (name_part, Position::Unknown, rationale),
    }
}

/// The entry parts of `rest` (see [`entry_parts`]).
pub fn entry_parts_exec(rest: &Vec<char>) -> (r: (Vec<char>, Position, Vec<char>))
    ensures
        (r.0@, r.1, r.2@) == entry_parts(rest@),
{
    let r = trim_chars(rest);
    let (name_part, rationale) = match split_once_chars(&r, '—') {
        Some((n, x)) => (trim_chars(&n), trim_chars(&x)),
        None => match split_once_chars(&r, '-') {
            Some((n, x)) => (trim_chars(&n), trim_chars(&x)),
            None => (r, Vec::new()),
        },
    };
    match rsplit_once_chars(&name_part, '(') {
        Some((n, p)) => {
            let pos = Position::from_chars(&trim_chars(&trim_end_matches_chars(&p, ')')));
            (trim_chars(&n), pos, rationale)
        },
        None => (name_part, Position::Unknown, rationale),
    }
}

/// The pick a line of the reply suggests: lines that, trimmed, begin with
/// `1.`, `2.` or `3.`; the rank is that digit.
pub open spec fn line_pick(line: Seq<char>) -> Option<PickView> {
    let t = trim(line);
    let rest = if strip_prefix(t, "1."@) is Some {
        strip_prefix(t, "1."@)
    } else if strip_prefix(t, "2."@) is Some {
        strip_prefix(t, "2."@)
    } else {
        strip_prefix(t, "3."@)
    };
    match rest {
        Some(rest) => {
            let (name, pos, rationale) = entry_parts(rest);
            Some(
                PickView {
                    rank: if t[0] == '1' {
                        1u32
                    } else if t[0] == '2' {
                        2u32
                    } else {
                        3u32
                    },
                    name,
                    position: if pos == Position::Unknown {
                        None
                    } else {
                        Some(pos)
                    },
                    rationale,
                },
            )
        },
        None => None,
    }
}

/// The picks suggested by the lines `ls`, in order.
pub open spec fn picks_of(ls: Seq<Seq<char>>) -> Seq<PickView>
    decreases ls.len(),
{
    if ls.len() == 0 {
        Seq::empty()
    } else {
        match line_pick(ls.last()) {
            Some(p) => picks_of(ls.drop_last()).push(p),
            None => picks_of(ls.drop_last()),
        }
    }
}

fn line_pick_exec(line: &Vec<char>) -> (r: Option<SuggestedPick>)
    ensures
        match r {
            Some(p) => line_pick(line@) == Some(p.view()),
            None => line_pick(line@) is None,
        },
{
    let t = trim_chars(line);
    let rest = match strip_prefix_chars(&t, &chars_of("1.")) {
        Some(x) => Some(x),
        None => match strip_prefix_chars(&t, &chars_of("2.")) {
            Some(x) => Some(x),
            None => strip_prefix_chars(&t, &chars_of("3.")),
        },
    };
    match rest {
        Some(rest) => {
            proof {
                reveal_strlit("1.");
                reveal_strlit("2.");
                reveal_strlit("3.");
            }
            let first = t[0];
            let rank: u32 = if first == '1' {
                1
            } else if first == '2' {
                2
            } else {
                3
            };
            let (name, pos, rationale) = entry_parts_exec(&rest);
            let position = if pos == Position::Unknown {
                None
            } else {
                Some(pos)
            };
            Some(
                SuggestedPick {
                    rank,
                    name: string_of(&name),
                    position,
                    rationale: string_of(&rationale),
                },
            )
        },
        None => None,
    }
}

/// Reads the ranked suggestions of a reply: one per line that begins (after
/// trimming) with `1.`, `2.` or `3.`, in the form `N. Name (POS) — rationale`.
pub fn parse_suggestions(text: &str) -> (r: Vec<SuggestedPick>)
    ensures
        r@.map_values(|p: SuggestedPick| p.view()) == picks_of(lines(text@)),
{
    let ls = split_lines(&chars_of(text));
    let ghost lv = views(ls@);
    let mut out: Vec<SuggestedPick> = Vec::new();
    let mut i: usize = 0;
    while i < ls.len()
        invariant
            i <= ls.len(),
            lv == views(ls@),
            lv == lines(text@),
            out@.map_values(|p: SuggestedPick| p.view()) == picks_of(lv.take(i as int)),
        decreases ls.len() - i,
    {
        let ghost before = out@.map_values(|p: SuggestedPick| p.view());
        assert(lv.take(i + 1).drop_last() =~= lv.take(i as int));
        assert(lv.take(i + 1).last() == ls@[i as int]@);
        match line_pick_exec(&ls[i]) {
            Some(p) => {
                out.push(p);
                assert(out@.map_values(|p: SuggestedPick| p.view()) =~= before.push(
                    out@[out.len() - 1].view(),
                ));
            },
            None => {},
        }
        i = i + 1;
    }
    assert(lv.take(ls.len() as int) =~= lv);
    out
}

/// The text after a suggestion's number splits at its first em dash, else
/// its first hyphen: the rationale is what follows (trimmed, empty when there
/// is neither); the name is what precedes, without a last parenthesis that
/// names a position, which gives the position.
pub proof fn lemma_entry_rule(rest: Seq<char>)
    ensures
        ({
            let r = trim(rest);
            let (name_part, rationale) = match first_index(r, '—') {
                Some(i) => (trim(r.take(i)), trim(r.skip(i + 1))),
                None => match first_index(r, '-') {
                    Some(i) => (trim(r.take(i)), trim(r.skip(i + 1))),
                    None => (r, Seq::empty()),
                },
            };
            &&& entry_parts(rest).2 == rationale
            &&& match last_index(name_part, '(') {
                Some(j) => entry_parts(rest).0 == trim(name_part.take(j)) && entry_parts(rest).1 == position_named(
                    trim(trim_end_matches(name_part.skip(j + 1), ')')),
                ),
                None => entry_parts(rest).0 == name_part && entry_parts(rest).1 == Position::Unknown,
            }
        }),
{
}

/// What a partial map `f` keeps of `s`, in order.
pub open spec fn kept<A, B>(s: Seq<A>, f: spec_fn(A) -> Option<B>) -> Seq<B>
    decreases s.len(),
{
    if s.len() == 0 {
        Seq::empty()
    } else {
        match f(s.last()) {
            Some(b) => kept(s.drop_last(), f).push(b),
            None => kept(s.drop_last(), f),
        }
    }
}

proof fn lemma_kept_sound<A, B>(s: Seq<A>, f: spec_fn(A) -> Option<B>)
    ensures
        forall|k: int|
            0 <= k < kept(s, f).len() ==> exists|j: int| 0 <= j < s.len() && f(s[j]) == Some(#[trigger] kept(s, f)[k]),
    decreases s.len(),
{
    if s.len() > 0 {
        let d = s.drop_last();
        lemma_kept_sound(d, f);
        assert forall|k: int| 0 <= k < kept(s, f).len() implies exists|j: int|
            0 <= j < s.len() && f(s[j]) == Some(#[trigger] kept(s, f)[k]) by {
            if k < kept(d, f).len() {
                let j = choose|j: int| 0 <= j < d.len() && f(d[j]) == Some(kept(d, f)[k]);
                assert(s[j] == d[j]);
            } else {
                assert(s[s.len() - 1] == s.last());
            }
        }
    }
}

proof fn lemma_kept_complete<A, B>(s: Seq<A>, f: spec_fn(A) -> Option<B>)
    ensures
        forall|j: int| 0 <= j < s.len() && (#[trigger] f(s[j])) is Some ==> kept(s, f).contains(f(s[j])->0),
    decreases s.len(),
{
    if s.len() > 0 {
        let d = s.drop_last();
        lemma_kept_complete(d, f);
        assert forall|j: int| 0 <= j < s.len() && (#[trigger] f(s[j])) is Some implies kept(s, f).contains(
            f(s[j])->0,
        ) by {
            if j < d.len() {
                assert(s[j] == d[j]);
                let q = choose|q: int| 0 <= q < kept(d, f).len() && kept(d, f)[q] == f(d[j])->0;
                assert(kept(s, f)[q] == kept(d, f)[q]);
            } else {
                assert(s[j] == s.last());
                assert(kept(s, f)[kept(d, f).len() as int] == f(s[j])->0);
            }
        }
    }
}

proof fn lemma_picks_kept(ls: Seq<Seq<char>>)
    ensures
        picks_of(ls) == kept(ls, |l: Seq<char>| line_pick(l)),
    decreases ls.len(),
{
    if ls.len() > 0 {
        lemma_picks_kept(ls.drop_last());
    }
}

/// Every suggestion read from a reply comes from one of its lines, and every
/// line that reads as a suggestion gives one.
pub proof fn lemma_picks_from_lines(ls: Seq<Seq<char>>)
    ensures
        forall|k: int|
            0 <= k < picks_of(ls).len() ==> exists|j: int|
                0 <= j < ls.len() && line_pick(ls[j]) == Some(#[trigger] picks_of(ls)[k]),
        forall|j: int|
            0 <= j < ls.len() && (#[trigger] line_pick(ls[j])) is Some ==> picks_of(ls).contains(line_pick(ls[j])->0),
{
    let f = |l: Seq<char>| line_pick(l);
    lemma_picks_kept(ls);
    lemma_kept_sound(ls, f);
    lemma_kept_complete(ls, f);
    assert forall|k: int| 0 <= k < picks_of(ls).len() implies exists|j: int|
        0 <= j < ls.len() && line_pick(ls[j]) == Some(#[trigger] picks_of(ls)[k]) by {
        let j = choose|j: int| 0 <= j < ls.len() && f(ls[j]) == Some(kept(ls, f)[k]);
        assert(line_pick(ls[j]) == Some(picks_of(ls)[k]));
    }
    assert forall|j: int| 0 <= j < ls.len() && (#[trigger] line_pick(ls[j])) is Some implies picks_of(ls).contains(
        line_pick(ls[j])->0,
    ) by {
        assert(f(ls[j]) == line_pick(ls[j]));
    }
}

/// Every suggestion read from a reply has rank 1, 2 or 3, and there are at
/// most as many suggestions as lines.
pub proof fn lemma_picks_ranked(ls: Seq<Seq<char>>)
    ensures
        picks_of(ls).len() <= ls.len(),
        forall|k: int|
            0 <= k < picks_of(ls).len() ==> 1 <= (#[trigger] picks_of(ls)[k]).rank <= 3,
    decreases ls.len(),
{
    if ls.len() > 0 {
        lemma_picks_ranked(ls.drop_last());
    }
}

// ---------------------------------------------------------------------------
// Turn order
// ---------------------------------------------------------------------------

/// `team` is on the clock, going by the name the provider reports.
pub open spec fn spec_is_my_turn(on_the_clock: Option<Seq<char>>, team: Seq<char>) -> bool {
    match on_the_clock {
        Some(t) => eq_ignore_ascii_case(t, team),
        None => false,
    }
}

/// Whether the team named `my_team_name` is on the clock, comparing names
/// without regard to ASCII case; false when the provider names no team.
pub fn is_my_turn(state: &DraftState, my_team_name: &str) -> (r: bool)
    ensures
        r == spec_is_my_turn(
            match state.on_the_clock_team {
                Some(t) => Some(t@),
                None => None,
            },
            my_team_name@,
        ),
{
    match &state.on_the_clock_team {
        Some(t) => eq_ignore_ascii_case_chars(&chars_of(t.as_str()), &chars_of(my_team_name)),
        None => false,
    }
}

/// The round of the current pick: `(current_pick - 1) / max(team_count, 1) + 1`,
/// the subtraction saturating at zero.
pub open spec fn spec_current_round(current_pick: u32, team_count: u32) -> int {
    let before = if current_pick == 0 {
        0
    } else {
        current_pick - 1
    };
    let teams = if team_count == 0 {
        1
    } else {
        team_count as int
    };
    before / teams + 1
}

/// The round of the current pick.
pub fn current_round(current_pick: u32, team_count: u32) -> (r: u32)
    ensures
        r as int == spec_current_round(current_pick, team_count),
{
    let before = current_pick.saturating_sub(1);
    let teams = if team_count == 0 {
        1
    } else {
        team_count
    };
    before / teams + 1
}

/// The zero-based draft slot on the clock for `current_pick` in a snake draft:
/// left to right in odd rounds, right to left in even ones.
pub open spec fn spec_snake_slot(current_pick: u32, team_count: u32) -> int {
    let before = if current_pick == 0 {
        0
    } else {
        current_pick - 1
    };
    let teams = if team_count == 0 {
        1
    } else {
        team_count as int
    };
    let pick_idx = before % teams;
    if (before / teams) % 2 == 1 {
        let last = if team_count == 0 {
            0
        } else {
            team_count - 1
        };
        if last >= pick_idx {
            last - pick_idx
        } else {
            0
        }
    } else {
        pick_idx
    }
}

/// The zero-based draft slot on the clock for `current_pick`.
pub fn snake_slot(current_pick: u32, team_count: u32) -> (r: u32)
    ensures
        r as int == spec_snake_slot(current_pick, team_count),
        r < if team_count == 0 {
            1
        } else {
            team_count
        },
{
    let before = current_pick.saturating_sub(1);
    let teams = if team_count == 0 {
        1
    } else {
        team_count
    };
    let pick_idx = before % teams;
    if (before / teams) % 2 == 1 {
        team_count.saturating_sub(1).saturating_sub(pick_idx)
    } else {
        pick_idx
    }
}

/// The first pick of `team` in round one, compared without regard to ASCII case.
pub open spec fn first_round_pick(picks: Seq<DraftPick>, team: Seq<char>) -> Option<int> {
    if exists|i: int|
        0 <= i < picks.len() && eq_ignore_ascii_case(picks[i].team_name@, team) && picks[i].round
            == 1 {
        Some(
            choose|i: int|
                0 <= i < picks.len() && eq_ignore_ascii_case(picks[i].team_name@, team)
                    && picks[i].round == 1 && forall|k: int|
                    0 <= k < i ==> !(eq_ignore_ascii_case(picks[k].team_name@, team)
                        && picks[k].round == 1),
        )
    } else {
        None
    }
}

/// The zero-based draft slot of `team_name`: the number of its first-round
/// pick minus one (saturating), or `None` when it has no first-round pick yet.
pub fn my_pick_slot(state: &DraftState, team_name: &str) -> (r: Option<u32>)
    ensures
        match first_round_pick(state.picks@, team_name@) {
            Some(i) => r == Some(
                (if state.picks@[i].pick_number == 0 {
                    0
                } else {
                    state.picks@[i].pick_number - 1
                }) as u32,
            ),
            None => r is None,
        },
{
    let team = chars_of(team_name);
    let ghost ps = state.picks@;
    let mut i: usize = 0;
    while i < state.picks.len()
        invariant
            i <= state.picks.len(),
            ps == state.picks@,
            team@ == team_name@,
            forall|k: int|
                0 <= k < i ==> !(eq_ignore_ascii_case(ps[k].team_name@, team_name@) && ps[k].round
                    == 1),
        decreases state.picks.len() - i,
    {
        let p = &state.picks[i];
        if p.round == 1 && eq_ignore_ascii_case_chars(&chars_of(p.team_name.as_str()), &team) {
            proof {
                let w = choose|x: int|
                    0 <= x < ps.len() && eq_ignore_ascii_case(ps[x].team_name@, team_name@)
                        && ps[x].round == 1 && forall|k: int|
                        0 <= k < x ==> !(eq_ignore_ascii_case(ps[k].team_name@, team_name@)
                            && ps[k].round == 1);
                assert(eq_ignore_ascii_case(ps[i as int].team_name@, team_name@) && ps[i as int].round == 1);
                if w < i {
                } else if w > i {
                }
                assert(first_round_pick(ps, team_name@) == Some(i as int));
            }
            return Some(p.pick_number.saturating_sub(1));
        }
        i = i + 1;
    }
    None
}

/// Whether our team is on the clock in a snake draft: our draft slot (from our
/// first-round pick) is the slot on the clock for the current pick.
pub fn snake_is_my_turn(state: &DraftState, team_name: &str) -> (r: bool)
    ensures
        r == match first_round_pick(state.picks@, team_name@) {
            Some(i) => (if state.picks@[i].pick_number == 0 {
                0
            } else {
                state.picks@[i].pick_number - 1
            }) == spec_snake_slot(state.current_pick, state.team_count),
            None => false,
        },
{
    let on_clock = snake_slot(state.current_pick, state.team_count);
    match my_pick_slot(state, team_name) {
        Some(s) => s == on_clock,
        None => false,
    }
}

/// Indices of the picks made by `team_name` (compared without regard to ASCII case), in order.
pub open spec fn team_pick_indices(picks: Seq<DraftPick>, team: Seq<char>, n: int) -> Seq<usize>
    decreases n,
{
    if n <= 0 {
        Seq::empty()
    } else if eq_ignore_ascii_case(picks[n - 1].team_name@, team) {
        team_pick_indices(picks, team, n - 1).push((n - 1) as usize)
    } else {
        team_pick_indices(picks, team, n - 1)
    }
}

/// The picks made so far by `team_name`, as indices into `state.picks`.
pub fn team_picks(state: &DraftState, team_name: &str) -> (r: Vec<usize>)
    ensures
        r@ == team_pick_indices(state.picks@, team_name@, state.picks.len() as int),
{
    let team = chars_of(team_name);
    let mut r: Vec<usize> = Vec::new();
    let mut i: usize = 0;
    while i < state.picks.len()
        invariant
            i <= state.picks.len(),
            team@ == team_name@,
            r@ == team_pick_indices(state.picks@, team_name@, i as int),
        decreases state.picks.len() - i,
    {
        if eq_ignore_ascii_case_chars(&chars_of(state.picks[i].team_name.as_str()), &team) {
            r.push(i);
        }
        i = i + 1;
    }
    r
}

/// The lower-cased names of the drafted players.
pub open spec fn drafted_names(picks: Seq<DraftPick>) -> Set<Seq<char>> {
    Set::new(
        |n: Seq<char>|
            exists|i: int|
                0 <= i < picks.len() && (#[trigger] picks[i].player_name) is Some && n
                    == unicode_lowercase(picks[i].player_name->0@),
    )
}

/// The hints (indices into `hints`, among the first `n`) whose lower-cased
/// name is not drafted, at most `limit` of them, in order.
pub open spec fn open_hints(hints: Seq<String>, drafted: Set<Seq<char>>, n: int, limit: nat) -> Seq<
    usize,
>
    decreases n,
{
    if n <= 0 {
        Seq::empty()
    } else {
        let prev = open_hints(hints, drafted, n - 1, limit);
        if prev.len() < limit && !drafted.contains(unicode_lowercase(hints[n - 1]@)) {
            prev.push((n - 1) as usize)
        } else {
            prev
        }
    }
}

/// The hints kept for a draft prompt are distinct hints, in their order, none
/// of them naming a drafted player, at most `limit` of them; and a hint left
/// out while there was room names a drafted player.
pub proof fn lemma_open_hints_undrafted(hints: Seq<String>, drafted: Set<Seq<char>>, n: int, limit: nat)
    requires
        0 <= n <= hints.len(),
        hints.len() <= usize::MAX,
    ensures
        open_hints(hints, drafted, n, limit).len() <= limit,
        forall|k: int|
            0 <= k < open_hints(hints, drafted, n, limit).len() ==> {
                let h = #[trigger] open_hints(hints, drafted, n, limit)[k];
                &&& 0 <= h < n
                &&& !drafted.contains(unicode_lowercase(hints[h as int]@))
            },
        forall|a: int, b: int|
            0 <= a < b < open_hints(hints, drafted, n, limit).len() ==> open_hints(hints, drafted, n, limit)[a]
                < open_hints(hints, drafted, n, limit)[b],
        open_hints(hints, drafted, n, limit).len() < limit ==> forall|h: int|
            0 <= h < n && !drafted.contains(unicode_lowercase(hints[h]@)) ==> open_hints(
                hints,
                drafted,
                n,
                limit,
            ).contains(h as usize),
    decreases n,
{
    if n > 0 {
        lemma_open_hints_undrafted(hints, drafted, n - 1, limit);
        let prev = open_hints(hints, drafted, n - 1, limit);
        let cur = open_hints(hints, drafted, n, limit);
        if prev.len() < limit && !drafted.contains(unicode_lowercase(hints[n - 1]@)) {
            assert(cur == prev.push((n - 1) as usize));
            assert forall|a: int, b: int| 0 <= a < b < cur.len() implies cur[a] < cur[b] by {
                assert(cur[a] == prev[a]);
                if b < prev.len() {
                    assert(cur[b] == prev[b]);
                }
            }
            if cur.len() < limit {
                assert forall|h: int|
                    0 <= h < n && !drafted.contains(unicode_lowercase(hints[h]@)) implies cur.contains(
                    h as usize,
                ) by {
                    if h == n - 1 {
                        assert(cur[prev.len() as int] == h as usize);
                    } else {
                        assert(prev.contains(h as usize));
                        let q = choose|q: int| 0 <= q < prev.len() && prev[q] == h as usize;
                        assert(cur[q] == h as usize);
                    }
                }
            }
        } else {
            assert(cur == prev);
        }
    }
}

/// The pool hints still worth suggesting: those whose lower-cased name is not
/// the lower-cased name of a drafted player, at most 50, in order.
pub fn available_hints(state: &DraftState, hints: &Vec<String>) -> (r: Vec<usize>)
    ensures
        r@ == open_hints(hints@, drafted_names(state.picks@), hints.len() as int, 50),
        r.len() <= 50,
{
    // the drafted names, lower-cased
    let mut drafted: Vec<Vec<char>> = Vec::new();
    let mut i: usize = 0;
    while i < state.picks.len()
        invariant
            i <= state.picks.len(),
            forall|n: Seq<char>|
                views(drafted@).contains(n) <==> exists|k: int|
                    0 <= k < i && (#[trigger] state.picks@[k].player_name) is Some && n
                        == unicode_lowercase(state.picks@[k].player_name->0@),
        decreases state.picks.len() - i,
    {
        let ghost before = views(drafted@);
        match &state.picks[i].player_name {
            Some(name) => {
                let l = lowercase_chars(&chars_of(name.as_str()));
                drafted.push(l);
                proof {
                    assert(views(drafted@) =~= before.push(l@));
                    assert forall|n: Seq<char>|
                        views(drafted@).contains(n) <==> exists|k: int|
                            0 <= k < i + 1 && (#[trigger] state.picks@[k].player_name) is Some && n
                                == unicode_lowercase(state.picks@[k].player_name->0@) by {
                        if views(drafted@).contains(n) && n != l@ {
                            let j = choose|j: int| 0 <= j < views(drafted@).len() && views(drafted@)[j] == n;
                            assert(before[j] == n);
                            assert(before.contains(n));
                        }
                        if n == l@ {
                            assert(views(drafted@)[views(drafted@).len() - 1] == n);
                        }
                        if (exists|k: int|
                            0 <= k < i && (#[trigger] state.picks@[k].player_name) is Some && n
                                == unicode_lowercase(state.picks@[k].player_name->0@)) {
                            assert(before.contains(n));
                            let j = choose|j: int| 0 <= j < before.len() && before[j] == n;
                            assert(views(drafted@)[j] == n);
                        }
                    }
                }
            },
            None => {
                proof {
                    assert forall|n: Seq<char>|
                        views(drafted@).contains(n) <==> exists|k: int|
                            0 <= k < i + 1 && (#[trigger] state.picks@[k].player_name) is Some && n
                                == unicode_lowercase(state.picks@[k].player_name->0@) by {
                        if exists|k: int|
                            0 <= k < i + 1 && (#[trigger] state.picks@[k].player_name) is Some && n
                                == unicode_lowercase(state.picks@[k].player_name->0@) {
                            let k = choose|k: int|
                                0 <= k < i + 1 && (#[trigger] state.picks@[k].player_name) is Some
                                    && n == unicode_lowercase(state.picks@[k].player_name->0@);
                            assert(k != i);
                        }
                    }
                }
            },
        }
        i = i + 1;
    }
    let ghost dn = drafted_names(state.picks@);
    assert forall|n: Seq<char>| views(drafted@).contains(n) <==> dn.contains(n) by {}
    let mut lh: Vec<Vec<char>> = Vec::new();
    let mut h: usize = 0;
    while h < hints.len()
        invariant
            h <= hints.len(),
            lh.len() == h,
            forall|q: int| 0 <= q < h ==> (#[trigger] lh@[q])@ == unicode_lowercase(hints@[q]@),
        decreases hints.len() - h,
    {
        lh.push(lowercase_chars(&chars_of(hints[h].as_str())));
        h = h + 1;
    }
    let r = undrafted_hints(&drafted, &lh, 50);
    proof {
        lemma_open_lowered_is_open_hints(hints@, dn, views(drafted@), views(lh@), hints.len() as int);
    }
    r
}

/// The hints (indices among the first `n`) whose lower-cased name (in
/// `lowered`) is none of the lower-cased drafted names, at most `limit` of
/// them, in order.
pub open spec fn open_lowered(drafted: Seq<Seq<char>>, lowered: Seq<Seq<char>>, n: int, limit: nat) -> Seq<
    usize,
>
    decreases n,
{
    if n <= 0 {
        Seq::empty()
    } else {
        let prev = open_lowered(drafted, lowered, n - 1, limit);
        if prev.len() < limit && !drafted.contains(lowered[n - 1]) {
            prev.push((n - 1) as usize)
        } else {
            prev
        }
    }
}

/// The hints still worth suggesting, given the lower-cased drafted names and
/// the lower-cased hints (see [`open_lowered`]).
pub fn undrafted_hints(drafted: &Vec<Vec<char>>, lowered: &Vec<Vec<char>>, limit: usize) -> (r: Vec<usize>)
    ensures
        r@ == open_lowered(views(drafted@), views(lowered@), lowered.len() as int, limit as nat),
        r.len() <= limit,
{
    let ghost dv = views(drafted@);
    let ghost lv = views(lowered@);
    let mut r: Vec<usize> = Vec::new();
    let mut h: usize = 0;
    while h < lowered.len()
        invariant
            h <= lowered.len(),
            dv == views(drafted@),
            lv == views(lowered@),
            r@ == open_lowered(dv, lv, h as int, limit as nat),
            r.len() <= limit,
        decreases lowered.len() - h,
    {
        if r.len() < limit {
            let mut found = false;
            let mut d: usize = 0;
            while d < drafted.len()
                invariant
                    d <= drafted.len(),
                    dv == views(drafted@),
                    lv == views(lowered@),
                    h < lowered.len(),
                    found == exists|q: int| 0 <= q < d && dv[q] == lv[h as int],
                decreases drafted.len() - d,
            {
                assert(dv[d as int] == drafted@[d as int]@);
                assert(lv[h as int] == lowered@[h as int]@);
                if crate::text::chars_eq(&drafted[d], &lowered[h]) {
                    found = true;
                }
                d = d + 1;
            }
            proof {
                if dv.contains(lv[h as int]) {
                    let q = choose|q: int| 0 <= q < dv.len() && dv[q] == lv[h as int];
                    assert(0 <= q < d);
                }
            }
            if !found {
                r.push(h);
            }
        }
        h = h + 1;
    }
    r
}

proof fn lemma_open_lowered_is_open_hints(
    hints: Seq<String>,
    dn: Set<Seq<char>>,
    dv: Seq<Seq<char>>,
    lv: Seq<Seq<char>>,
    n: int,
)
    requires
        0 <= n <= hints.len(),
        lv.len() == hints.len(),
        forall|q: int| 0 <= q < hints.len() ==> (#[trigger] lv[q]) == unicode_lowercase(hints[q]@),
        forall|x: Seq<char>| dv.contains(x) <==> dn.contains(x),
    ensures
        open_lowered(dv, lv, n, 50) == open_hints(hints, dn, n, 50),
    decreases n,
{
    if n > 0 {
        lemma_open_lowered_is_open_hints(hints, dn, dv, lv, n - 1);
        assert(lv[n - 1] == unicode_lowercase(hints[n - 1]@));
    }
}



// ---------------------------------------------------------------------------
// Watching a draft
// ---------------------------------------------------------------------------

/// What to do after one look at the draft board.
#[derive(Clone, Copy, Debug, PartialEq, Eq, Structural)]
pub struct WatchStep {
    /// The draft is over: stop watching.
    pub finished: bool,
    /// The pick to announce (an index into the board's picks), if a new one was made.
    pub announce: Option<usize>,
    /// The number of the last pick announced so far.
    pub last_pick: u32,
    /// Our team is on the clock: ask for suggestions.
    pub on_the_clock: bool,
}

/// One step of watching a draft, given the number of the last pick announced,
/// the board just read and our team's name: stop once the draft is complete;
/// else announce the latest pick when its number differs from the last one
/// announced, and ask for suggestions when our snake slot is on the clock.
pub fn watch_step(last_pick: u32, state: &DraftState, team_name: &str) -> (r: WatchStep)
    ensures
        r.finished == state.completed,
        state.completed ==> r.announce is None && r.last_pick == last_pick && !r.on_the_clock,
        !state.completed ==> {
            &&& if state.picks.len() > 0 && state.picks@.last().pick_number != last_pick {
                r.announce == Some((state.picks.len() - 1) as usize) && r.last_pick
                    == state.picks@.last().pick_number
            } else {
                r.announce is None && r.last_pick == last_pick
            }
            &&& r.on_the_clock == match first_round_pick(state.picks@, team_name@) {
                Some(i) => (if state.picks@[i].pick_number == 0 {
                    0
                } else {
                    state.picks@[i].pick_number - 1
                }) == spec_snake_slot(state.current_pick, state.team_count),
                None => false,
            }
        },
{
    if state.completed {
        return WatchStep { finished: true, announce: None, last_pick, on_the_clock: false };
    }
    let mut announce: Option<usize> = None;
    let mut last = last_pick;
    let n = state.picks.len();
    if n > 0 && state.picks[n - 1].pick_number != last_pick {
        announce = Some(n - 1);
        last = state.picks[n - 1].pick_number;
    }
    let on_the_clock = snake_is_my_turn(state, team_name);
    WatchStep { finished: false, announce, last_pick: last, on_the_clock }
}


// ---------------------------------------------------------------------------
// The request for pick suggestions
// ---------------------------------------------------------------------------

/// A player's name, or `?` when the pick names none.
pub open spec fn name_or_unknown(n: Option<String>) -> Seq<char> {
    match n {
        Some(x) => x@,
        None => "?"@,
    }
}

/// A line of the recent picks: `  R<round>.<pick> <team> -> <player>`.
pub open spec fn recent_pick_line(p: DraftPick) -> Seq<char> {
    "  R"@ + decimal(p.round as nat) + "."@ + decimal(p.pick_number as nat) + " "@ + p.team_name@
        + " -> "@ + name_or_unknown(p.player_name)
}

/// A line of our picks: `  R<round>.<pick> <player>`.
pub open spec fn my_pick_line(p: DraftPick) -> Seq<char> {
    "  R"@ + decimal(p.round as nat) + "."@ + decimal(p.pick_number as nat) + " "@ + name_or_unknown(
        p.player_name,
    )
}

/// A line of the news: `- [<source>] <title>`.
pub open spec fn news_line(n: NewsItem) -> Seq<char> {
    "- ["@ + n.source@ + "] "@ + n.title@
}

/// The last twenty picks, one line each.
pub open spec fn recent_block(picks: Seq<DraftPick>) -> Seq<char> {
    let start = if picks.len() > 20 {
        picks.len() - 20
    } else {
        0
    };
    joined(picks.subrange(start, picks.len() as int).map_values(|p: DraftPick| recent_pick_line(p)))
}

/// Our picks so far (`mine` indexes `picks`), or a note that there are none.
pub open spec fn my_block(picks: Seq<DraftPick>, mine: Seq<usize>) -> Seq<char> {
    if mine.len() == 0 {
        "(no picks yet)"@
    } else {
        joined(mine.map_values(|i: usize| my_pick_line(picks[i as int])))
    }
}

/// Up to ten news lines, or a note that there is no news.
pub open spec fn news_block(news: Seq<NewsItem>) -> Seq<char> {
    if news.len() == 0 {
        "(no recent news provided)"@
    } else {
        joined(news.take(if news.len() < 10 { news.len() as int } else { 10 }).map_values(|n: NewsItem| news_line(n)))
    }
}

/// The kept pool hints (`open` indexes `hints`) numbered from 1, or a note to
/// rank freely when no hints are given.
pub open spec fn pool_block(hints: Seq<String>, open: Seq<usize>) -> Seq<char> {
    if hints.len() == 0 {
        "(use your own ranking knowledge)"@
    } else {
        joined(Seq::new(open.len(), |k: int| "  "@ + decimal((k + 1) as nat) + ". "@ + hints[open[k] as int]@))
    }
}

/// The system text of a request for pick suggestions.
pub open spec fn draft_system_text(strat: Strategy) -> Seq<char> {
    "You are an autonomous fantasy football draft assistant. "@ + strategy_guidance(strat)
        + "\nRecommend exactly 3 players for the next pick. Respect positional needs, bye-week distribution, handcuffs/sleepers, and the strategy guidance above. Do NOT recommend any player that has already been drafted."@
}

/// The user text of a request for pick suggestions: the pick and round, the
/// league size, our team and picks, the last twenty picks, the pool hints not
/// yet drafted (at most fifty), up to ten news lines, and the answer format.
pub open spec fn draft_user_text(state: DraftState, team: Seq<char>, hints: Seq<String>, news: Seq<NewsItem>) -> Seq<char> {
    "Current pick: overall #"@ + decimal(state.current_pick as nat) + " (round "@ + decimal(
        spec_current_round(state.current_pick, state.team_count) as nat,
    ) + " of "@ + decimal(state.total_rounds as nat) + ").\nTotal teams: "@ + decimal(
        state.team_count as nat,
    ) + ".\nMy team: "@ + team + "\nMy picks so far:\n"@ + my_block(
        state.picks@,
        team_pick_indices(state.picks@, team, state.picks.len() as int),
    ) + "\n\nRecent picks (last 20):\n"@ + recent_block(state.picks@)
        + "\n\nAvailable pool hints:\n"@ + pool_block(
        hints,
        open_hints(hints, drafted_names(state.picks@), hints.len() as int, 50),
    ) + "\n\nRecent news:\n"@ + news_block(news)
        + "\n\nRespond in this exact format (3 entries):\n1. <Name> (<POS>) — <one-line rationale>\n2. <Name> (<POS>) — <one-line rationale>\n3. <Name> (<POS>) — <one-line rationale>"@
}

fn name_or_unknown_exec(n: &Option<String>) -> (r: Vec<char>)
    ensures
        r@ == name_or_unknown(*n),
{
    match n {
        Some(x) => chars_of(x.as_str()),
        None => chars_of("?"),
    }
}

fn round_and_pick(p: &DraftPick) -> (r: Vec<char>)
    ensures
        r@ == "  R"@ + decimal(p.round as nat) + "."@ + decimal(p.pick_number as nat) + " "@,
{
    let mut v = chars_of("  R");
    v = concat_chars(&v, &decimal_chars(p.round as u64));
    v = concat_chars(&v, &chars_of("."));
    v = concat_chars(&v, &decimal_chars(p.pick_number as u64));
    concat_chars(&v, &chars_of(" "))
}

fn recent_block_exec(picks: &Vec<DraftPick>) -> (r: Vec<char>)
    ensures
        r@ == recent_block(picks@),
{
    let start: usize = if picks.len() > 20 {
        picks.len() - 20
    } else {
        0
    };
    let ghost want = picks@.subrange(start as int, picks.len() as int).map_values(|p: DraftPick| recent_pick_line(p));
    let mut ls: Vec<Vec<char>> = Vec::new();
    let mut i: usize = start;
    while i < picks.len()
        invariant
            start <= i <= picks.len(),
            want == picks@.subrange(start as int, picks.len() as int).map_values(|p: DraftPick| recent_pick_line(p)),
            views(ls@) == want.take(i - start),
        decreases picks.len() - i,
    {
        let p = &picks[i];
        let mut line = round_and_pick(p);
        line = concat_chars(&line, &chars_of(p.team_name.as_str()));
        line = concat_chars(&line, &chars_of(" -> "));
        line = concat_chars(&line, &name_or_unknown_exec(&p.player_name));
        let ghost before = views(ls@);
        ls.push(line);
        assert(views(ls@) =~= before.push(line@));
        assert(want.take(i + 1 - start) =~= want.take(i - start).push(want[i - start]));
        i = i + 1;
    }
    assert(want.take(picks.len() - start) =~= want);
    join_lines(&ls)
}

fn my_block_exec(picks: &Vec<DraftPick>, mine: &Vec<usize>) -> (r: Vec<char>)
    requires
        forall|k: int| 0 <= k < mine.len() ==> (#[trigger] mine@[k]) < picks.len(),
    ensures
        r@ == my_block(picks@, mine@),
{
    if mine.len() == 0 {
        return chars_of("(no picks yet)");
    }
    let ghost want = mine@.map_values(|i: usize| my_pick_line(picks@[i as int]));
    let mut ls: Vec<Vec<char>> = Vec::new();
    let mut k: usize = 0;
    while k < mine.len()
        invariant
            k <= mine.len(),
            forall|q: int| 0 <= q < mine.len() ==> (#[trigger] mine@[q]) < picks.len(),
            want == mine@.map_values(|i: usize| my_pick_line(picks@[i as int])),
            views(ls@) == want.take(k as int),
        decreases mine.len() - k,
    {
        let p = &picks[mine[k]];
        let mut line = round_and_pick(p);
        line = concat_chars(&line, &name_or_unknown_exec(&p.player_name));
        let ghost before = views(ls@);
        ls.push(line);
        assert(views(ls@) =~= before.push(line@));
        assert(want.take(k + 1) =~= want.take(k as int).push(want[k as int]));
        k = k + 1;
    }
    assert(want.take(mine.len() as int) =~= want);
    join_lines(&ls)
}

fn news_block_exec(news: &Vec<NewsItem>) -> (r: Vec<char>)
    ensures
        r@ == news_block(news@),
{
    if news.len() == 0 {
        return chars_of("(no recent news provided)");
    }
    let n: usize = if news.len() < 10 {
        news.len()
    } else {
        10
    };
    let ghost want = news@.take(n as int).map_values(|x: NewsItem| news_line(x));
    let mut ls: Vec<Vec<char>> = Vec::new();
    let mut k: usize = 0;
    while k < n
        invariant
            k <= n <= news.len(),
            want == news@.take(n as int).map_values(|x: NewsItem| news_line(x)),
            views(ls@) == want.take(k as int),
        decreases n - k,
    {
        let mut line = chars_of("- [");
        line = concat_chars(&line, &chars_of(news[k].source.as_str()));
        line = concat_chars(&line, &chars_of("] "));
        line = concat_chars(&line, &chars_of(news[k].title.as_str()));
        let ghost before = views(ls@);
        ls.push(line);
        assert(views(ls@) =~= before.push(line@));
        assert(want.take(k + 1) =~= want.take(k as int).push(want[k as int]));
        k = k + 1;
    }
    assert(want.take(n as int) =~= want);
    join_lines(&ls)
}

fn pool_block_exec(hints: &Vec<String>, open: &Vec<usize>) -> (r: Vec<char>)
    requires
        forall|k: int| 0 <= k < open.len() ==> (#[trigger] open@[k]) < hints.len(),
        open.len() <= 50,
    ensures
        r@ == pool_block(hints@, open@),
{
    if hints.len() == 0 {
        return chars_of("(use your own ranking knowledge)");
    }
    let ghost want = Seq::new(open.len() as nat, |k: int| "  "@ + decimal((k + 1) as nat) + ". "@ + hints@[open@[k] as int]@);
    let mut ls: Vec<Vec<char>> = Vec::new();
    let mut k: usize = 0;
    while k < open.len()
        invariant
            k <= open.len() <= 50,
            forall|q: int| 0 <= q < open.len() ==> (#[trigger] open@[q]) < hints.len(),
            want == Seq::new(open.len() as nat, |q: int| "  "@ + decimal((q + 1) as nat) + ". "@ + hints@[open@[q] as int]@),
            views(ls@) == want.take(k as int),
        decreases open.len() - k,
    {
        let mut line = chars_of("  ");
        line = concat_chars(&line, &decimal_chars((k + 1) as u64));
        line = concat_chars(&line, &chars_of(". "));
        line = concat_chars(&line, &chars_of(hints[open[k]].as_str()));
        let ghost before = views(ls@);
        ls.push(line);
        assert(views(ls@) =~= before.push(line@));
        assert(want.take(k + 1) =~= want.take(k as int).push(want[k as int]));
        k = k + 1;
    }
    assert(want.take(open.len() as int) =~= want);
    join_lines(&ls)
}

/// The request for pick suggestions: the system text (the strategy's guidance
/// and the rules) and the user text (see [`draft_user_text`]), for our team
/// `team_name`, the pool hints and the news.
pub fn draft_request(
    state: &DraftState,
    team_name: &str,
    hints: &Vec<String>,
    news: &Vec<NewsItem>,
    strat: Strategy,
) -> (r: (String, String))
    ensures
        r.0@ == draft_system_text(strat),
        r.1@ == draft_user_text(*state, team_name@, hints@, news@),
{
    let mut sys = chars_of("You are an autonomous fantasy football draft assistant. ");
    sys = concat_chars(&sys, &chars_of(strat.guidance()));
    sys = concat_chars(
        &sys,
        &chars_of(
            "\nRecommend exactly 3 players for the next pick. Respect positional needs, bye-week distribution, handcuffs/sleepers, and the strategy guidance above. Do NOT recommend any player that has already been drafted.",
        ),
    );
    let mine = team_picks(state, team_name);
    proof {
        lemma_team_pick_indices_bounds(state.picks@, team_name@, state.picks.len() as int);
    }
    let open = available_hints(state, hints);
    proof {
        lemma_open_hints_undrafted(hints@, drafted_names(state.picks@), hints.len() as int, 50);
    }
    let mut u = chars_of("Current pick: overall #");
    u = concat_chars(&u, &decimal_chars(state.current_pick as u64));
    u = concat_chars(&u, &chars_of(" (round "));
    u = concat_chars(&u, &decimal_chars(current_round(state.current_pick, state.team_count) as u64));
    u = concat_chars(&u, &chars_of(" of "));
    u = concat_chars(&u, &decimal_chars(state.total_rounds as u64));
    u = concat_chars(&u, &chars_of(").\nTotal teams: "));
    u = concat_chars(&u, &decimal_chars(state.team_count as u64));
    u = concat_chars(&u, &chars_of(".\nMy team: "));
    u = concat_chars(&u, &chars_of(team_name));
    u = concat_chars(&u, &chars_of("\nMy picks so far:\n"));
    u = concat_chars(&u, &my_block_exec(&state.picks, &mine));
    u = concat_chars(&u, &chars_of("\n\nRecent picks (last 20):\n"));
    u = concat_chars(&u, &recent_block_exec(&state.picks));
    u = concat_chars(&u, &chars_of("\n\nAvailable pool hints:\n"));
    u = concat_chars(&u, &pool_block_exec(hints, &open));
    u = concat_chars(&u, &chars_of("\n\nRecent news:\n"));
    u = concat_chars(&u, &news_block_exec(news));
    u = concat_chars(
        &u,
        &chars_of(
            "\n\nRespond in this exact format (3 entries):\n1. <Name> (<POS>) — <one-line rationale>\n2. <Name> (<POS>) — <one-line rationale>\n3. <Name> (<POS>) — <one-line rationale>",
        ),
    );
    (string_of(&sys), string_of(&u))
}

/// The picks of a team lie within the board, in increasing order.
proof fn lemma_team_pick_indices_bounds(picks: Seq<DraftPick>, team: Seq<char>, n: int)
    requires
        0 <= n <= picks.len(),
        picks.len() <= usize::MAX,
    ensures
        forall|k: int|
            0 <= k < team_pick_indices(picks, team, n).len() ==> (#[trigger] team_pick_indices(
                picks,
                team,
                n,
            )[k]) < n,
    decreases n,
{
    if n > 0 {
        lemma_team_pick_indices_bounds(picks, team, n - 1);
        let prev = team_pick_indices(picks, team, n - 1);
        let cur = team_pick_indices(picks, team, n);
        if eq_ignore_ascii_case(picks[n - 1].team_name@, team) {
            assert(cur == prev.push((n - 1) as usize));
            assert forall|k: int| 0 <= k < cur.len() implies (#[trigger] cur[k]) < n by {
                if k < prev.len() {
                    assert(cur[k] == prev[k]);
                } else {
                    assert(cur[k] == (n - 1) as usize);
                }
            }
        }
    }
}

} // verus!
