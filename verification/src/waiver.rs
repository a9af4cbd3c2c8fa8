//! Waiver suggestions: reading pickups proposed by the assistant when the
//! provider offers no free-agent pool.
use vstd::prelude::*;
use crate::draft::{entry_parts, entry_parts_exec};
use crate::draft::news_line;
use crate::news::NewsItem;
use crate::text::{decimal, decimal_chars, join_lines, join_with, joined, joined_with, concat_chars, chars_of, lines, split_lines, string_of, strip_prefix, strip_prefix_chars, trim, trim_chars, views};
use crate::types::{Player, PlayerStatus, Position, Roster, Strategy, position_label, strategy_guidance};

verus! {

/// A pickup proposed by the assistant.
#[derive(Clone, Debug)]
pub struct WaiverPick {
    pub priority: u32,
    pub name: String,
    pub position: Position,
    pub reasoning: String,
}

/// A proposed pickup in specifications.
pub struct WaiverPickView {
    pub priority: u32,
    pub name: Seq<char>,
    pub position: Position,
    pub reasoning: Seq<char>,
}

impl WaiverPick {
    pub open spec fn view(&self) -> WaiverPickView {
        WaiverPickView {
            priority: self.priority,
            name: self.name@,
            position: self.position,
            reasoning: self.reasoning@,
        }
    }
}

/// The text `d.` for a digit `d` from 1 to 9.
pub open spec fn numbered(d: int) -> Seq<char> {
    seq![('0' as u32 + d) as char, '.']
}

/// The smallest `d` in `from..=9` such that `t` begins with `d.`.
pub open spec fn number_prefix(t: Seq<char>, from: int) -> Option<int>
    decreases 10 - from,
{
    if from < 1 || from > 9 {
        None
    } else if strip_prefix(t, numbered(from)) is Some {
        Some(from)
    } else {
        number_prefix(t, from + 1)
    }
}

/// The pickups proposed by the lines `ls`: lines that, trimmed, begin with a
/// number from 1 to 9 and a dot, read as `Name (POS) — reasoning`, numbered by
/// their place, at most five.
pub open spec fn pickups_of(ls: Seq<Seq<char>>) -> Seq<WaiverPickView>
    decreases ls.len(),
{
    if ls.len() == 0 {
        Seq::empty()
    } else {
        let prev = pickups_of(ls.drop_last());
        let t = trim(ls.last());
        if prev.len() >= 5 {
            prev
        } else {
            match number_prefix(t, 1) {
                Some(d) => {
                    let (name, position, reasoning) = entry_parts(strip_prefix(t, numbered(d))->0);
                    prev.push(
                        WaiverPickView {
                            priority: (prev.len() + 1) as u32,
                            name,
                            position,
                            reasoning,
                        },
                    )
                },
                None => prev,
            }
        }
    }
}

fn numbered_exec(d: u32) -> (r: Vec<char>)
    requires
        1 <= d <= 9,
    ensures
        r@ == numbered(d as int),
{
    let c: u8 = (48 + d) as u8;
    let v = vec![c as char, '.'];
    assert(v@ =~= numbered(d as int));
    v
}

/// The text after the leading `d.` of `t` (see [`number_prefix`]).
fn number_rest(t: &Vec<char>) -> (r: Option<Vec<char>>)
    ensures
        match r {
            Some(x) => number_prefix(t@, 1) is Some && strip_prefix(t@, numbered(number_prefix(t@, 1)->0))
                == Some(x@),
            None => number_prefix(t@, 1) is None,
        },
{
    let mut d: u32 = 1;
    while d <= 9
        invariant
            1 <= d <= 10,
            number_prefix(t@, 1) == number_prefix(t@, d as int),
        decreases 10 - d,
    {
        match strip_prefix_chars(t, &numbered_exec(d)) {
            Some(x) => {
                return Some(x);
            },
            None => {},
        }
        d = d + 1;
    }
    None
}

/// Reads the pickups proposed in an assistant's reply (see [`pickups_of`]).
#[verifier::rlimit(40)]
pub fn parse_ai_pickups(text: &str) -> (r: Vec<WaiverPick>)
    ensures
        r@.map_values(|p: WaiverPick| p.view()) == pickups_of(lines(text@)),
        r.len() <= 5,
{
    let ls = split_lines(&chars_of(text));
    let ghost lv = views(ls@);
    let mut out: Vec<WaiverPick> = Vec::new();
    let mut i: usize = 0;
    while i < ls.len()
        invariant
            i <= ls.len(),
            lv == views(ls@),
            lv == lines(text@),
            out@.map_values(|p: WaiverPick| p.view()) == pickups_of(lv.take(i as int)),
            out.len() <= 5,
        decreases ls.len() - i,
    {
        let ghost before = out@.map_values(|p: WaiverPick| p.view());
        assert(lv.take(i + 1).drop_last() =~= lv.take(i as int));
        assert(lv.take(i + 1).last() == ls@[i as int]@);
        if out.len() < 5 {
            let t = trim_chars(&ls[i]);
            let rest = number_rest(&t);
            match rest {
                Some(x) => {
                    let (name, position, reasoning) = entry_parts_exec(&x);
                    let priority: u32 = (out.len() + 1) as u32;
                    out.push(
                        WaiverPick {
                            priority,
                            name: string_of(&name),
                            position,
                            reasoning: string_of(&reasoning),
                        },
                    );
                    assert(out@.map_values(|p: WaiverPick| p.view()) =~= before.push(
                        out@[out.len() - 1].view(),
                    ));
                },
                None => {},
            }
        }
        i = i + 1;
    }
    assert(lv.take(ls.len() as int) =~= lv);
    out
}

/// A waiver candidate: its priority, the player to pick up, the rostered
/// player to drop for it (an index into the roster), and the reasoning.
#[derive(Clone, Debug)]
pub struct WaiverCandidate {
    pub priority: u32,
    pub player: Player,
    pub drop_candidate: Option<usize>,
    pub reasoning: String,
}

/// The player record for a pickup proposed by name: id `ai:<name>`, the name
/// and position proposed, on the bench, no team, healthy, nothing else known.
pub open spec fn proposed_player_ok(p: WaiverPickView, pl: Player) -> bool {
    &&& pl.id@ == "ai:"@ + p.name
    &&& pl.name@ == p.name
    &&& pl.position == p.position
    &&& pl.roster_slot == Position::BENCH
    &&& pl.team@ == Seq::<char>::empty()
    &&& pl.status == PlayerStatus::Healthy
    &&& pl.opponent is None
    &&& pl.bye_week is None
    &&& pl.news@.len() == 0
}

/// The candidates proposed by name in an assistant's reply, when the
/// provider offers no free-agent pool: one per pickup read from the reply
/// (see [`pickups_of`]), with the player of [`proposed_player_ok`] and no drop.
pub fn ai_only_candidates(text: &str) -> (r: Vec<WaiverCandidate>)
    ensures
        r.len() == pickups_of(lines(text@)).len(),
        r.len() <= 5,
        forall|k: int|
            0 <= k < r.len() ==> {
                let p = pickups_of(lines(text@))[k];
                &&& (#[trigger] r@[k]).priority == p.priority
                &&& proposed_player_ok(p, r@[k].player)
                &&& r@[k].drop_candidate is None
                &&& r@[k].reasoning@ == p.reasoning
            },
{
    let picks = parse_ai_pickups(text);
    let ghost pv = picks@.map_values(|p: WaiverPick| p.view());
    let mut r: Vec<WaiverCandidate> = Vec::new();
    let mut i: usize = 0;
    while i < picks.len()
        invariant
            i <= picks.len(),
            picks.len() <= 5,
            pv == picks@.map_values(|p: WaiverPick| p.view()),
            pv == pickups_of(lines(text@)),
            r.len() == i,
            forall|k: int|
                0 <= k < i ==> {
                    let p = pv[k];
                    &&& (#[trigger] r@[k]).priority == p.priority
                    &&& proposed_player_ok(p, r@[k].player)
                    &&& r@[k].drop_candidate is None
                    &&& r@[k].reasoning@ == p.reasoning
                },
        decreases picks.len() - i,
    {
        let p = &picks[i];
        let name = chars_of(p.name.as_str());
        let id = concat_chars(&chars_of("ai:"), &name);
        let player = Player {
            id: string_of(&id),
            name: string_of(&name),
            position: p.position,
            roster_slot: Position::BENCH,
            team: String::new(),
            status: PlayerStatus::Healthy,
            opponent: None,
            bye_week: None,
            news: Vec::new(),
        };
        r.push(
            WaiverCandidate {
                priority: p.priority,
                player,
                drop_candidate: None,
                reasoning: string_of(&chars_of(p.reasoning.as_str())),
            },
        );
        i = i + 1;
    }
    r
}

/// The label of the position at `idx` in `positions`, or `?` past the end.
pub fn metrics_pos_str(idx: usize, positions: &Vec<Position>) -> (r: String)
    ensures
        r@ == if idx < positions.len() {
            position_label(positions@[idx as int])
        } else {
            seq!['?']
        },
{
    if idx < positions.len() {
        positions[idx].label()
    } else {
        let v = vec!['?'];
        string_of(&v)
    }
}


// ---------------------------------------------------------------------------
// Ranking free agents against the roster
// ---------------------------------------------------------------------------

/// A player at this position may be dropped for a pickup (not on injured
/// reserve, position known).
pub open spec fn droppable(p: Position) -> bool {
    p != Position::IR && p != Position::Unknown
}

/// The weakest droppable player at `pos` among the first `n` rostered players:
/// the one with the lowest rest-of-season value key, the earliest on ties.
pub open spec fn weakest_upto(positions: Seq<Position>, ros: Seq<i64>, pos: Position, n: int) -> Option<
    int,
>
    decreases n,
{
    if n <= 0 {
        None
    } else {
        let prev = weakest_upto(positions, ros, pos, n - 1);
        if droppable(positions[n - 1]) && positions[n - 1] == pos {
            match prev {
                None => Some(n - 1),
                Some(w) => if ros[n - 1] < ros[w] {
                    Some(n - 1)
                } else {
                    Some(w)
                },
            }
        } else {
            prev
        }
    }
}

/// The weakest droppable rostered player at `pos`.
pub open spec fn weakest_at(positions: Seq<Position>, ros: Seq<i64>, pos: Position) -> Option<int> {
    weakest_upto(positions, ros, pos, positions.len() as int)
}

/// Free agent `i` ranks above free agent `j`: a higher score key, or an equal
/// one and an earlier place.
pub open spec fn ranks_above(keys: Seq<i64>, i: int, j: int) -> bool {
    keys[i] > keys[j] || (keys[i] == keys[j] && i < j)
}

/// A ranked pickup: its priority (1 for the best), the free agent (an index
/// into the free-agent list) and the rostered player to drop for it, if any.
#[derive(Clone, Copy, Debug, PartialEq, Eq, Structural)]
pub struct RankedPickup {
    pub priority: u32,
    pub candidate: usize,
    pub drop: Option<usize>,
}

/// The weakest droppable rostered player at a position is the first of the
/// lowest-valued droppable players there.
pub proof fn lemma_weakest_is_lowest(positions: Seq<Position>, ros: Seq<i64>, pos: Position, n: int)
    requires
        0 <= n <= positions.len(),
        positions.len() == ros.len(),
    ensures
        match weakest_upto(positions, ros, pos, n) {
            Some(w) => {
                &&& 0 <= w < n
                &&& droppable(positions[w]) && positions[w] == pos
                &&& forall|j: int|
                    0 <= j < n && droppable(positions[j]) && positions[j] == pos ==> ros[w] <= ros[j]
                &&& forall|j: int|
                    0 <= j < w && droppable(positions[j]) && positions[j] == pos ==> ros[w] < ros[j]
            },
            None => forall|j: int|
                0 <= j < n ==> !(droppable(positions[j]) && positions[j] == pos),
        },
    decreases n,
{
    if n > 0 {
        lemma_weakest_is_lowest(positions, ros, pos, n - 1);
    }
}

/// For any position other than injured reserve and unknown, every rostered
/// player there may be dropped: there is a weakest player at that position
/// exactly when the roster holds one, and it is the first of the lowest-valued
/// players there.
pub proof fn lemma_drop_found_when_held(positions: Seq<Position>, ros: Seq<i64>, pos: Position)
    requires
        positions.len() == ros.len(),
        pos != Position::IR,
        pos != Position::Unknown,
    ensures
        weakest_at(positions, ros, pos) is None <==> forall|j: int| 0 <= j < positions.len() ==> positions[j] != pos,
        weakest_at(positions, ros, pos) matches Some(w) ==> {
            &&& 0 <= w < positions.len()
            &&& positions[w] == pos
            &&& forall|j: int| 0 <= j < positions.len() && positions[j] == pos ==> ros[w] <= ros[j]
            &&& forall|j: int| 0 <= j < w && positions[j] == pos ==> ros[w] < ros[j]
        },
{
    lemma_weakest_is_lowest(positions, ros, pos, positions.len() as int);
    if weakest_at(positions, ros, pos) is None {
        assert forall|j: int| 0 <= j < positions.len() implies positions[j] != pos by {
            if positions[j] == pos {
                assert(droppable(positions[j]));
            }
        }
    }
}

/// The weakest droppable player at `pos` (an index into the roster).
pub fn weakest_index(positions: &Vec<Position>, ros: &Vec<i64>, pos: Position) -> (r: Option<usize>)
    requires
        positions.len() == ros.len(),
    ensures
        match r {
            Some(w) => weakest_at(positions@, ros@, pos) == Some(w as int),
            None => weakest_at(positions@, ros@, pos) is None,
        },
{
    let mut best: Option<usize> = None;
    let mut i: usize = 0;
    while i < positions.len()
        invariant
            i <= positions.len(),
            positions.len() == ros.len(),
            match best {
                Some(w) => weakest_upto(positions@, ros@, pos, i as int) == Some(w as int),
                None => weakest_upto(positions@, ros@, pos, i as int) is None,
            },
        decreases positions.len() - i,
    {
        proof {
            lemma_weakest_is_lowest(positions@, ros@, pos, i as int);
        }
        let p = positions[i];
        if p != Position::IR && p != Position::Unknown && p == pos {
            match best {
                None => {
                    best = Some(i);
                },
                Some(w) => {
                    if ros[i] < ros[w] {
                        best = Some(i);
                    }
                },
            }
        }
        i = i + 1;
    }
    best
}

/// Free agent `c` already stands among the ranked pickups.
pub open spec fn ranked_contains(r: Seq<RankedPickup>, c: int) -> bool {
    exists|k: int| 0 <= k < r.len() && r[k].candidate == c
}

/// The free agents with a positive score key.
pub open spec fn positive_candidates(keys: Seq<i64>) -> Set<int> {
    Set::new(|c: int| 0 <= c < keys.len() && keys[c] > 0)
}

/// A ranking of at most eight positive candidates, strictly ordered, that
/// leaves a positive candidate out only when it holds eight, holds exactly
/// as many as there are positive candidates, up to eight.
pub proof fn lemma_top_eight_count(keys: Seq<i64>, r: Seq<RankedPickup>)
    requires
        r.len() <= 8,
        forall|k: int|
            0 <= k < r.len() ==> (#[trigger] r[k]).candidate < keys.len() && keys[r[k].candidate as int] > 0,
        forall|a: int, b: int|
            0 <= a < b < r.len() ==> ranks_above(keys, r[a].candidate as int, r[b].candidate as int),
        forall|c: int|
            0 <= c < keys.len() && keys[c] > 0 && !ranked_contains(r, c) ==> r.len() == 8,
    ensures
        positive_candidates(keys).finite(),
        r.len() == if positive_candidates(keys).len() < 8 {
            positive_candidates(keys).len() as int
        } else {
            8
        },
{
    let pos = positive_candidates(keys);
    let s = r.map_values(|p: RankedPickup| p.candidate as int);
    vstd::set_lib::lemma_int_range(0, keys.len() as int);
    vstd::set_lib::lemma_len_subset(pos, vstd::set_lib::set_int_range(0, keys.len() as int));
    assert(s.no_duplicates()) by {
        assert forall|a: int, b: int| 0 <= a < s.len() && 0 <= b < s.len() && a != b implies s[a] != s[b] by {
            if a < b {
                assert(ranks_above(keys, r[a].candidate as int, r[b].candidate as int));
            } else {
                assert(ranks_above(keys, r[b].candidate as int, r[a].candidate as int));
            }
        }
    }
    s.unique_seq_to_set();
    assert(s.to_set().subset_of(pos)) by {
        assert forall|c: int| s.to_set().contains(c) implies pos.contains(c) by {
            let k = choose|k: int| 0 <= k < s.len() && s[k] == c;
            assert(r[k].candidate < keys.len());
        }
    }
    vstd::set_lib::lemma_len_subset(s.to_set(), pos);
    if r.len() < 8 {
        assert(pos.subset_of(s.to_set())) by {
            assert forall|c: int| pos.contains(c) implies s.to_set().contains(c) by {
                assert(ranked_contains(r, c));
                let k = choose|k: int| 0 <= k < r.len() && r[k].candidate == c;
                assert(s[k] == c);
            }
        }
        vstd::set_lib::lemma_len_subset(pos, s.to_set());
    }
}

/// The pickups worth making: the free agents with a positive score key, best
/// first (higher key, then earlier place), at most eight, each numbered by its
/// place and paired with the weakest droppable rostered player at its position.
///
/// `fa_positions[i]` and `score_keys[i]` describe free agent `i`; the keys
/// order the scores and are positive exactly where the score is.
/// `roster_positions[j]` and `ros_keys[j]` describe rostered player `j`.
pub fn rank_pickups(
    fa_positions: &Vec<Position>,
    score_keys: &Vec<i64>,
    roster_positions: &Vec<Position>,
    ros_keys: &Vec<i64>,
) -> (r: Vec<RankedPickup>)
    requires
        fa_positions.len() == score_keys.len(),
        roster_positions.len() == ros_keys.len(),
    ensures
        r.len() <= 8,
        r.len() == if positive_candidates(score_keys@).len() < 8 {
            positive_candidates(score_keys@).len() as int
        } else {
            8
        },
        forall|k: int|
            0 <= k < r.len() ==> {
                &&& (#[trigger] r@[k]).priority == k + 1
                &&& r@[k].candidate < score_keys.len()
                &&& score_keys@[r@[k].candidate as int] > 0
                &&& match r@[k].drop {
                    Some(d) => weakest_at(
                        roster_positions@,
                        ros_keys@,
                        fa_positions@[r@[k].candidate as int],
                    ) == Some(d as int),
                    None => weakest_at(
                        roster_positions@,
                        ros_keys@,
                        fa_positions@[r@[k].candidate as int],
                    ) is None,
                }
            },
        forall|a: int, b: int|
            0 <= a < b < r.len() ==> ranks_above(
                score_keys@,
                r@[a].candidate as int,
                r@[b].candidate as int,
            ),
        forall|c: int|
            0 <= c < score_keys.len() && score_keys@[c] > 0 && !ranked_contains(r@, c) ==> {
                &&& r.len() == 8
                &&& forall|k: int|
                    0 <= k < r.len() ==> ranks_above(score_keys@, (#[trigger] r@[k]).candidate as int, c)
            },
{
    let mut r: Vec<RankedPickup> = Vec::new();
    let mut done = false;
    while r.len() < 8 && !done
        invariant
            fa_positions.len() == score_keys.len(),
            roster_positions.len() == ros_keys.len(),
            r.len() <= 8,
            forall|k: int|
                0 <= k < r.len() ==> {
                    &&& (#[trigger] r@[k]).priority == k + 1
                    &&& r@[k].candidate < score_keys.len()
                    &&& score_keys@[r@[k].candidate as int] > 0
                    &&& match r@[k].drop {
                        Some(d) => weakest_at(
                            roster_positions@,
                            ros_keys@,
                            fa_positions@[r@[k].candidate as int],
                        ) == Some(d as int),
                        None => weakest_at(
                            roster_positions@,
                            ros_keys@,
                            fa_positions@[r@[k].candidate as int],
                        ) is None,
                    }
                },
            forall|a: int, b: int|
                0 <= a < b < r.len() ==> ranks_above(
                    score_keys@,
                    r@[a].candidate as int,
                    r@[b].candidate as int,
                ),
            forall|c: int|
                0 <= c < score_keys.len() && score_keys@[c] > 0 && !ranked_contains(r@, c) ==> {
                    &&& !done
                    &&& forall|k: int|
                        0 <= k < r.len() ==> ranks_above(score_keys@, (#[trigger] r@[k]).candidate as int, c)
                },
        decreases 2 * (8 - r.len()) + if done {
            0int
        } else {
            1int
        },
    {
        // the best free agent with a positive key not yet ranked
        let mut best: Option<usize> = None;
        let mut i: usize = 0;
        while i < score_keys.len()
            invariant
                i <= score_keys.len(),
                match best {
                    Some(b) => {
                        &&& b < i
                        &&& score_keys@[b as int] > 0
                        &&& !ranked_contains(r@, b as int)
                        &&& forall|c: int|
                            0 <= c < i && score_keys@[c] > 0 && !ranked_contains(r@, c) && c != b
                                ==> ranks_above(score_keys@, b as int, c)
                    },
                    None => forall|c: int|
                        0 <= c < i ==> !(score_keys@[c] > 0 && !ranked_contains(r@, c)),
                },
            decreases score_keys.len() - i,
        {
            if score_keys[i] > 0 {
                let mut taken = false;
                let mut k: usize = 0;
                while k < r.len()
                    invariant
                        k <= r.len(),
                        taken == exists|q: int| 0 <= q < k && r@[q].candidate == i,
                    decreases r.len() - k,
                {
                    if r[k].candidate == i {
                        taken = true;
                    }
                    k = k + 1;
                }
                if !taken {
                    match best {
                        None => {
                            best = Some(i);
                        },
                        Some(b) => {
                            if score_keys[i] > score_keys[b] {
                                best = Some(i);
                            }
                        },
                    }
                }
            }
            i = i + 1;
        }
        match best {
            None => {
                done = true;
            },
            Some(b) => {
                let ghost old_r = r@;
                let drop = weakest_index(roster_positions, ros_keys, fa_positions[b]);
                let priority: u32 = (r.len() + 1) as u32;
                r.push(RankedPickup { priority, candidate: b, drop });
                proof {
                    assert forall|c: int|
                        0 <= c < score_keys.len() && score_keys@[c] > 0 && !ranked_contains(r@, c)
                            implies {
                            &&& !done
                            &&& forall|k: int|
                                0 <= k < r.len() ==> ranks_above(
                                    score_keys@,
                                    (#[trigger] r@[k]).candidate as int,
                                    c,
                                )
                        } by {
                        if c == b {
                            assert(r@[old_r.len() as int].candidate == b);
                            assert(ranked_contains(r@, c));
                        }
                        if ranked_contains(old_r, c) {
                            let q = choose|q: int| 0 <= q < old_r.len() && old_r[q].candidate == c;
                            assert(r@[q].candidate == c);
                        }
                        assert forall|k: int| 0 <= k < r.len() implies ranks_above(
                            score_keys@,
                            (#[trigger] r@[k]).candidate as int,
                            c,
                        ) by {
                            if k < old_r.len() {
                                assert(r@[k] == old_r[k]);
                            }
                        }
                    }
                    assert forall|a: int, bb: int|
                        0 <= a < bb < r.len() implies ranks_above(
                            score_keys@,
                            r@[a].candidate as int,
                            r@[bb].candidate as int,
                        ) by {
                        assert(r@[a] == old_r[a]);
                        if bb < old_r.len() {
                            assert(r@[bb] == old_r[bb]);
                        }
                    }
                }
            },
        }
    }
    proof {
        lemma_top_eight_count(score_keys@, r@);
    }
    r
}


// ---------------------------------------------------------------------------
// The requests about waivers
// ---------------------------------------------------------------------------

/// Up to `limit` news lines.
pub open spec fn first_news_lines(news: Seq<NewsItem>, limit: int) -> Seq<char> {
    joined(news.take(if news.len() < limit { news.len() as int } else { limit }).map_values(|n: NewsItem| news_line(n)))
}

fn first_news_lines_exec(news: &Vec<NewsItem>, limit: usize) -> (r: Vec<char>)
    ensures
        r@ == first_news_lines(news@, limit as int),
{
    let n: usize = if news.len() < limit {
        news.len()
    } else {
        limit
    };
    let ghost want = news@.take(n as int).map_values(|x: NewsItem| news_line(x));
    let mut ls: Vec<Vec<char>> = Vec::new();
    let mut k: usize = 0;
    while k < n
        invariant
            k <= n <= news.len(),
            want == news@.take(n as int).map_values(|x: NewsItem| news_line(x)),
            views(ls@) == want.take(k as int),
        decreases n - k,
    {
        let mut line = chars_of("- [");
        line = concat_chars(&line, &chars_of(news[k].source.as_str()));
        line = concat_chars(&line, &chars_of("] "));
        line = concat_chars(&line, &chars_of(news[k].title.as_str()));
        let ghost before = views(ls@);
        ls.push(line);
        assert(views(ls@) =~= before.push(line@));
        assert(want.take(k + 1) =~= want.take(k as int).push(want[k as int]));
        k = k + 1;
    }
    assert(want.take(n as int) =~= want);
    join_lines(&ls)
}

/// A player as the waiver requests show it: `<name> (<POS>, <team>)`.
pub open spec fn player_tag(p: Player) -> Seq<char> {
    p.name@ + " ("@ + position_label(p.position) + ", "@ + p.team@ + ")"@
}

fn player_tag_exec(p: &Player) -> (r: Vec<char>)
    ensures
        r@ == player_tag(*p),
{
    let mut v = chars_of(p.name.as_str());
    v = concat_chars(&v, &chars_of(" ("));
    v = concat_chars(&v, &p.position.label_chars());
    v = concat_chars(&v, &chars_of(", "));
    v = concat_chars(&v, &chars_of(p.team.as_str()));
    concat_chars(&v, &chars_of(")"))
}

/// The system text of the request for pickups by name.
pub open spec fn pickups_system_text(strat: Strategy) -> Seq<char> {
    "You are an autonomous fantasy football GM. "@ + strategy_guidance(strat)
        + "\nRecommend the top 5 likely-available waiver pickups for a typical league. Do not suggest players already on the user's roster. Each pickup should target a positional weakness and explain why now."@
}

/// The user text of the request for pickups by name: each rostered player
/// with its metrics line (as many as both lists hold), up to fifteen news
/// lines and the answer format.
pub open spec fn pickups_user_text(players: Seq<Player>, metrics: Seq<String>, news: Seq<NewsItem>) -> Seq<char> {
    let n = if players.len() < metrics.len() { players.len() } else { metrics.len() };
    "Roster (with metrics):\n"@ + joined(Seq::new(n, |i: int| "- "@ + player_tag(players[i]) + " "@ + metrics[i]@))
        + "\n\nRecent news:\n"@ + first_news_lines(news, 15)
        + "\n\nRespond with exactly 5 lines:\n1. <Name> (<POS>) — <one-line reasoning>\n(use 1-5 numbering)"@
}

/// The request for pickups by name, when the provider offers no free-agent
/// pool; `metric_lines[i]` describes rostered player `i`, already written out.
pub fn pickups_request(roster: &Roster, metric_lines: &Vec<String>, news: &Vec<NewsItem>, strat: Strategy) -> (r: (
    String,
    String,
))
    ensures
        r.0@ == pickups_system_text(strat),
        r.1@ == pickups_user_text(roster.players@, metric_lines@, news@),
{
    let mut sys = chars_of("You are an autonomous fantasy football GM. ");
    sys = concat_chars(&sys, &chars_of(strat.guidance()));
    sys = concat_chars(
        &sys,
        &chars_of(
            "\nRecommend the top 5 likely-available waiver pickups for a typical league. Do not suggest players already on the user's roster. Each pickup should target a positional weakness and explain why now.",
        ),
    );
    let players = &roster.players;
    let n: usize = if players.len() < metric_lines.len() {
        players.len()
    } else {
        metric_lines.len()
    };
    let ghost want = Seq::new(n as nat, |i: int| "- "@ + player_tag(players@[i]) + " "@ + metric_lines@[i]@);
    let mut ls: Vec<Vec<char>> = Vec::new();
    let mut k: usize = 0;
    while k < n
        invariant
            k <= n,
            n <= players.len(),
            n <= metric_lines.len(),
            want == Seq::new(n as nat, |i: int| "- "@ + player_tag(players@[i]) + " "@ + metric_lines@[i]@),
            views(ls@) == want.take(k as int),
        decreases n - k,
    {
        let mut line = chars_of("- ");
        line = concat_chars(&line, &player_tag_exec(&players[k]));
        line = concat_chars(&line, &chars_of(" "));
        line = concat_chars(&line, &chars_of(metric_lines[k].as_str()));
        let ghost before = views(ls@);
        ls.push(line);
        assert(views(ls@) =~= before.push(line@));
        assert(want.take(k + 1) =~= want.take(k as int).push(want[k as int]));
        k = k + 1;
    }
    assert(want.take(n as int) =~= want);
    let mut u = chars_of("Roster (with metrics):\n");
    u = concat_chars(&u, &join_lines(&ls));
    u = concat_chars(&u, &chars_of("\n\nRecent news:\n"));
    u = concat_chars(&u, &first_news_lines_exec(news, 15));
    u = concat_chars(
        &u,
        &chars_of(
            "\n\nRespond with exactly 5 lines:\n1. <Name> (<POS>) — <one-line reasoning>\n(use 1-5 numbering)",
        ),
    );
    (string_of(&sys), string_of(&u))
}

/// A candidate line of the polishing request: `<priority>. <tag> — <metrics> | <drop>`,
/// the drop being `drop <name> (ROS <ros>, Δ <delta>)` or `no drop suggested`;
/// `metrics` and `fig` (the dropped player's rest-of-season value and the
/// difference) are already written out.
pub open spec fn candidate_line(roster: Seq<Player>, c: WaiverCandidate, metrics: String, fig: (String, String)) -> Seq<
    char,
> {
    decimal(c.priority as nat) + ". "@ + player_tag(c.player) + " — "@ + metrics@ + " | "@ + match c.drop_candidate {
        Some(d) => "drop "@ + roster[d as int].name@ + " (ROS "@ + fig.0@ + ", Δ "@ + fig.1@ + ")"@,
        None => "no drop suggested"@,
    }
}

/// The system text of the polishing request.
pub open spec fn polish_system_text(strat: Strategy) -> Seq<char> {
    "You are an autonomous fantasy football GM polishing a waiver report. "@ + strategy_guidance(strat)
        + "\nRe-rank or confirm the candidate list and add a one-paragraph summary of the recommended waiver moves and their expected impact."@
}

/// The user text of the polishing request: the roster's names, the
/// candidates, up to ten news lines, and what to write.
pub open spec fn polish_user_text(
    roster: Seq<Player>,
    cands: Seq<WaiverCandidate>,
    metrics: Seq<String>,
    figs: Seq<(String, String)>,
    news: Seq<NewsItem>,
) -> Seq<char> {
    "Roster: "@ + joined_with(roster.map_values(|p: Player| p.name@), ", "@) + "\n\nCandidates with metrics:\n"@
        + joined(Seq::new(cands.len(), |i: int| candidate_line(roster, cands[i], metrics[i], figs[i])))
        + "\n\nRecent news:\n"@ + first_news_lines(news, 10)
        + "\n\nProvide a 2-4 sentence summary, then a re-ranked top 5 with a short rationale per pickup."@
}

/// The request to polish a waiver report, or none when there are no
/// candidates (nothing is asked then). `metric_lines[i]` and `drop_figures[i]`
/// belong to candidate `i`, already written out.
pub fn polish_request(
    roster: &Roster,
    cands: &Vec<WaiverCandidate>,
    metric_lines: &Vec<String>,
    drop_figures: &Vec<(String, String)>,
    news: &Vec<NewsItem>,
    strat: Strategy,
) -> (r: Option<(String, String)>)
    requires
        metric_lines.len() == cands.len(),
        drop_figures.len() == cands.len(),
        forall|k: int|
            0 <= k < cands.len() && (#[trigger] cands@[k]).drop_candidate is Some ==> cands@[k].drop_candidate->0
                < roster.players.len(),
    ensures
        cands.len() == 0 ==> r is None,
        cands.len() > 0 ==> (r matches Some((a, b)) && a@ == polish_system_text(strat) && b@ == polish_user_text(
            roster.players@,
            cands@,
            metric_lines@,
            drop_figures@,
            news@,
        )),
{
    if cands.len() == 0 {
        return None;
    }
    let mut sys = chars_of("You are an autonomous fantasy football GM polishing a waiver report. ");
    sys = concat_chars(&sys, &chars_of(strat.guidance()));
    sys = concat_chars(
        &sys,
        &chars_of(
            "\nRe-rank or confirm the candidate list and add a one-paragraph summary of the recommended waiver moves and their expected impact.",
        ),
    );
    let players = &roster.players;
    let mut names: Vec<Vec<char>> = Vec::new();
    let mut i: usize = 0;
    while i < players.len()
        invariant
            i <= players.len(),
            views(names@) == players@.take(i as int).map_values(|p: Player| p.name@),
        decreases players.len() - i,
    {
        let ghost before = views(names@);
        let nm = chars_of(players[i].name.as_str());
        names.push(nm);
        assert(views(names@) =~= before.push(nm@));
        assert(players@.take(i + 1).map_values(|p: Player| p.name@) =~= players@.take(i as int).map_values(
            |p: Player| p.name@,
        ).push(players@[i as int].name@));
        i = i + 1;
    }
    assert(players@.take(players.len() as int) =~= players@);
    let ghost want = Seq::new(
        cands@.len(),
        |q: int| candidate_line(players@, cands@[q], metric_lines@[q], drop_figures@[q]),
    );
    let mut ls: Vec<Vec<char>> = Vec::new();
    let mut k: usize = 0;
    while k < cands.len()
        invariant
            k <= cands.len(),
            metric_lines.len() == cands.len(),
            drop_figures.len() == cands.len(),
            forall|q: int|
                0 <= q < cands.len() && (#[trigger] cands@[q]).drop_candidate is Some ==> cands@[q].drop_candidate->0
                    < players.len(),
            want == Seq::new(
                cands@.len(),
                |q: int| candidate_line(players@, cands@[q], metric_lines@[q], drop_figures@[q]),
            ),
            views(ls@) == want.take(k as int),
        decreases cands.len() - k,
    {
        let c = &cands[k];
        let mut line = decimal_chars(c.priority as u64);
        line = concat_chars(&line, &chars_of(". "));
        line = concat_chars(&line, &player_tag_exec(&c.player));
        line = concat_chars(&line, &chars_of(" — "));
        line = concat_chars(&line, &chars_of(metric_lines[k].as_str()));
        line = concat_chars(&line, &chars_of(" | "));
        let drop = match c.drop_candidate {
            Some(d) => {
                let mut v = chars_of("drop ");
                v = concat_chars(&v, &chars_of(players[d].name.as_str()));
                v = concat_chars(&v, &chars_of(" (ROS "));
                v = concat_chars(&v, &chars_of(drop_figures[k].0.as_str()));
                v = concat_chars(&v, &chars_of(", Δ "));
                v = concat_chars(&v, &chars_of(drop_figures[k].1.as_str()));
                concat_chars(&v, &chars_of(")"))
            },
            None => chars_of("no drop suggested"),
        };
        line = concat_chars(&line, &drop);
        let ghost before = views(ls@);
        ls.push(line);
        assert(views(ls@) =~= before.push(line@));
        assert(want.take(k + 1) =~= want.take(k as int).push(want[k as int]));
        k = k + 1;
    }
    assert(want.take(cands.len() as int) =~= want);
    let mut u = chars_of("Roster: ");
    u = concat_chars(&u, &join_with(&names, &chars_of(", ")));
    u = concat_chars(&u, &chars_of("\n\nCandidates with metrics:\n"));
    u = concat_chars(&u, &join_lines(&ls));
    u = concat_chars(&u, &chars_of("\n\nRecent news:\n"));
    u = concat_chars(&u, &first_news_lines_exec(news, 10));
    u = concat_chars(
        &u,
        &chars_of(
            "\n\nProvide a 2-4 sentence summary, then a re-ranked top 5 with a short rationale per pickup.",
        ),
    );
    Some((string_of(&sys), string_of(&u)))
}

} // verus!
