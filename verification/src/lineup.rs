//! Starting-lineup selection: the greedy baseline and the reading of a
//! lineup proposed in free text.
use vstd::prelude::*;
use crate::text::{
    chars_eq, chars_of, concat_chars, contains, contains_chars, decimal, decimal_chars, has_prefix, lines,
    lowercase_chars, split_lines, split_once, split_once_chars, starts_with,
    strip_prefix, strip_prefix_chars, trim, trim_chars, trim_matches, trim_matches_chars,
    unicode_lowercase, string_of, views, join_lines, join_with, joined, joined_with,
};
use crate::draft::news_line;
use crate::news::NewsItem;
use crate::scheduler::Matchup;
use crate::types::{
    LeagueSettings, Lineup, LineupSlot, Player, Position, Roster, Strategy, position_label, position_named,
    spec_eligible, spec_is_starter_slot, status_label, strategy_guidance, strategy_label,
};

verus! {

// ---------------------------------------------------------------------------
// Slot order
// ---------------------------------------------------------------------------

/// Slots are filled in this order, so that a flex slot does not take a
/// player that a dedicated slot needs.
pub open spec fn priority_slot(k: int) -> Position {
    if k == 0 {
        Position::QB
    } else if k == 1 {
        Position::RB
    } else if k == 2 {
        Position::WR
    } else if k == 3 {
        Position::TE
    } else if k == 4 {
        Position::K
    } else if k == 5 {
        Position::DST
    } else if k == 6 {
        Position::FLEX
    } else {
        Position::SUPERFLEX
    }
}

/// The count of the first entry for `p` in `slots`, or 0 when there is none.
pub open spec fn slot_count(slots: Seq<(Position, u32)>, p: Position) -> nat
    decreases slots.len(),
{
    if slots.len() == 0 {
        0
    } else if slots[0].0 == p {
        slots[0].1 as nat
    } else {
        slot_count(slots.drop_first(), p)
    }
}

/// The slots to fill, for the first `k` positions of the priority order.
pub open spec fn slots_upto(slots: Seq<(Position, u32)>, k: int) -> Seq<Position>
    decreases k,
{
    if k <= 0 {
        Seq::empty()
    } else {
        slots_upto(slots, k - 1) + Seq::new(
            slot_count(slots, priority_slot(k - 1)),
            |i: int| priority_slot(k - 1),
        )
    }
}

/// All starting slots to fill, in the order they are filled.
pub open spec fn slot_sequence(slots: Seq<(Position, u32)>) -> Seq<Position> {
    slots_upto(slots, 8)
}

// ---------------------------------------------------------------------------
// Greedy choice
// ---------------------------------------------------------------------------

/// `i` ranks before `j`: a higher key, or an equal key and an earlier place on the roster.
pub open spec fn ranks_before(keys: Seq<i64>, i: int, j: int) -> bool {
    keys[i] > keys[j] || (keys[i] == keys[j] && i < j)
}

/// Player `j` shares its id with a player already picked.
pub open spec fn taken(players: Seq<Player>, picks: Seq<Option<int>>, j: int) -> bool {
    exists|m: int|
        0 <= m < picks.len() && (#[trigger] picks[m]) is Some && players[picks[m]->0].id@
            == players[j].id@
}

/// Player `j` may fill `slot` after `picks`.
pub open spec fn candidate(players: Seq<Player>, picks: Seq<Option<int>>, slot: Position, j: int) -> bool {
    0 <= j < players.len() && spec_eligible(players[j].position, slot) && !taken(players, picks, j)
}

/// The candidate for `slot` that ranks before every other candidate, if any.
pub open spec fn pick_for(
    players: Seq<Player>,
    keys: Seq<i64>,
    picks: Seq<Option<int>>,
    slot: Position,
) -> Option<int> {
    if exists|j: int| candidate(players, picks, slot, j) {
        Some(
            choose|j: int|
                candidate(players, picks, slot, j) && forall|k: int|
                    #![trigger candidate(players, picks, slot, k)]
                    candidate(players, picks, slot, k) && k != j ==> ranks_before(keys, j, k),
        )
    } else {
        None
    }
}

/// The player picked for each slot of `slots`, filling them in order.
pub open spec fn greedy(players: Seq<Player>, keys: Seq<i64>, slots: Seq<Position>) -> Seq<
    Option<int>,
>
    decreases slots.len(),
{
    if slots.len() == 0 {
        Seq::empty()
    } else {
        let prev = greedy(players, keys, slots.drop_last());
        prev.push(pick_for(players, keys, prev, slots.last()))
    }
}

/// The players among the first `n` that share no id with a pick, in roster order.
pub open spec fn bench_of(players: Seq<Player>, picks: Seq<Option<int>>, n: int) -> Seq<int>
    decreases n,
{
    if n <= 0 {
        Seq::empty()
    } else if taken(players, picks, n - 1) {
        bench_of(players, picks, n - 1)
    } else {
        bench_of(players, picks, n - 1).push(n - 1)
    }
}

/// A pick as a spec index.
pub open spec fn idx(o: Option<usize>) -> Option<int> {
    match o {
        Some(i) => Some(i as int),
        None => None,
    }
}

/// The reasoning attached to a greedy lineup.
pub open spec fn greedy_reasoning(strat: Strategy) -> Seq<char> {
    "Greedy "@ + strategy_label(strat)
        + " fallback — slots filled in priority order by risk-adjusted projection."@
}

proof fn lemma_pick_unique(
    players: Seq<Player>,
    keys: Seq<i64>,
    picks: Seq<Option<int>>,
    slot: Position,
    b: int,
)
    requires
        candidate(players, picks, slot, b),
        forall|k: int|
            #![trigger candidate(players, picks, slot, k)]
            candidate(players, picks, slot, k) && k != b ==> ranks_before(keys, b, k),
    ensures
        pick_for(players, keys, picks, slot) == Some(b),
{
    let w = choose|j: int|
        candidate(players, picks, slot, j) && forall|k: int|
            #![trigger candidate(players, picks, slot, k)]
            candidate(players, picks, slot, k) && k != j ==> ranks_before(keys, j, k);
    assert(candidate(players, picks, slot, w));
    if w != b {
        assert(ranks_before(keys, b, w));
        assert(ranks_before(keys, w, b));
    }
}

proof fn lemma_pick_for(players: Seq<Player>, keys: Seq<i64>, picks: Seq<Option<int>>, slot: Position)
    ensures
        match pick_for(players, keys, picks, slot) {
            Some(j) => candidate(players, picks, slot, j) && forall|k: int|
                #![trigger candidate(players, picks, slot, k)]
                candidate(players, picks, slot, k) ==> keys[j] >= keys[k],
            None => forall|k: int| !candidate(players, picks, slot, k),
        },
{
    if exists|j: int| candidate(players, picks, slot, j) {
        // the witness exists: the best candidate among finitely many
        let n = players.len() as int;
        let j0 = choose|j: int| candidate(players, picks, slot, j);
        let b = lemma_best_exists(players, keys, picks, slot, n, j0);
        lemma_pick_unique(players, keys, picks, slot, b);
        let j = pick_for(players, keys, picks, slot)->0;
        assert forall|k: int| #[trigger] candidate(players, picks, slot, k) implies keys[j] >= keys[k] by {
            if k != j {
                assert(ranks_before(keys, j, k));
            }
        }
    }
}

/// Among candidates below `n`, one that ranks before all others below `n`.
proof fn lemma_best_exists(
    players: Seq<Player>,
    keys: Seq<i64>,
    picks: Seq<Option<int>>,
    slot: Position,
    n: int,
    j0: int,
) -> (b: int)
    requires
        candidate(players, picks, slot, j0),
        j0 < n,
        n <= players.len(),
    ensures
        candidate(players, picks, slot, b),
        forall|k: int|
            #![trigger candidate(players, picks, slot, k)]
            candidate(players, picks, slot, k) && k < n && k != b ==> ranks_before(keys, b, k),
    decreases n,
{
    if n - 1 == j0 {
        if j0 == 0 {
            j0
        } else {
            if exists|j: int| 0 <= j < n - 1 && candidate(players, picks, slot, j) {
                let j1 = choose|j: int| 0 <= j < n - 1 && candidate(players, picks, slot, j);
                let b1 = lemma_best_exists(players, keys, picks, slot, n - 1, j1);
                if ranks_before(keys, b1, n - 1) {
                    b1
                } else {
                    assert forall|k: int|
                        #![trigger candidate(players, picks, slot, k)]
                        candidate(players, picks, slot, k) && k < n && k != n - 1 implies ranks_before(
                        keys,
                        n - 1,
                        k,
                    ) by {
                        if k != b1 {
                            assert(ranks_before(keys, b1, k));
                        }
                    }
                    n - 1
                }
            } else {
                j0
            }
        }
    } else {
        let b1 = lemma_best_exists(players, keys, picks, slot, n - 1, j0);
        if candidate(players, picks, slot, n - 1) && !ranks_before(keys, b1, n - 1) {
            assert forall|k: int|
                #![trigger candidate(players, picks, slot, k)]
                candidate(players, picks, slot, k) && k < n && k != n - 1 implies ranks_before(
                keys,
                n - 1,
                k,
            ) by {
                if k != b1 {
                    assert(ranks_before(keys, b1, k));
                }
            }
            n - 1
        } else {
            b1
        }
    }
}

/// Each greedy pick is the pick for its slot given the picks before it.
pub proof fn lemma_greedy_prefix(players: Seq<Player>, keys: Seq<i64>, slots: Seq<Position>)
    ensures
        greedy(players, keys, slots).len() == slots.len(),
        forall|k: int|
            0 <= k < slots.len() ==> #[trigger] greedy(players, keys, slots)[k] == pick_for(
                players,
                keys,
                greedy(players, keys, slots).take(k),
                slots[k],
            ),
    decreases slots.len(),
{
    let g = greedy(players, keys, slots);
    if slots.len() > 0 {
        let d = slots.drop_last();
        let prev = greedy(players, keys, d);
        lemma_greedy_prefix(players, keys, d);
        assert(g.take(slots.len() - 1) =~= prev);
        assert forall|k: int| 0 <= k < slots.len() implies #[trigger] g[k] == pick_for(
            players,
            keys,
            g.take(k),
            slots[k],
        ) by {
            if k < slots.len() - 1 {
                assert(g.take(k) =~= prev.take(k));
                assert(d[k] == slots[k]);
                assert(g[k] == prev[k]);
            }
        }
    }
}

/// Properties of every greedy lineup: each pick fills a slot it is eligible
/// for, no two picks share an id, each pick has a key at least as high as
/// every player still available for its slot, and a slot stays empty only
/// when no available player is eligible for it.
pub proof fn lemma_greedy_properties(players: Seq<Player>, keys: Seq<i64>, slots: Seq<Position>)
    ensures
        greedy(players, keys, slots).len() == slots.len(),
        forall|k: int|
            #![trigger greedy(players, keys, slots)[k]]
            0 <= k < slots.len() ==> match greedy(players, keys, slots)[k] {
                Some(j) => {
                    &&& 0 <= j < players.len()
                    &&& spec_eligible(players[j].position, slots[k])
                    &&& forall|q: int|
                        #![trigger candidate(players, greedy(players, keys, slots).take(k), slots[k], q)]
                        candidate(players, greedy(players, keys, slots).take(k), slots[k], q)
                            ==> keys[j] >= keys[q]
                },
                None => forall|q: int|
                    !#[trigger] candidate(players, greedy(players, keys, slots).take(k), slots[k], q),
            },
        forall|k1: int, k2: int|
            #![trigger greedy(players, keys, slots)[k1], greedy(players, keys, slots)[k2]]
            0 <= k1 < slots.len() && 0 <= k2 < slots.len() && k1 != k2 && greedy(
                players,
                keys,
                slots,
            )[k1] is Some && greedy(players, keys, slots)[k2] is Some ==> players[greedy(
                players,
                keys,
                slots,
            )[k1]->0].id@ != players[greedy(players, keys, slots)[k2]->0].id@,
{
    let g = greedy(players, keys, slots);
    lemma_greedy_prefix(players, keys, slots);
    assert forall|k: int|
        #![trigger g[k]]
        0 <= k < slots.len() implies match g[k] {
            Some(j) => {
                &&& 0 <= j < players.len()
                &&& spec_eligible(players[j].position, slots[k])
                &&& forall|q: int|
                    #![trigger candidate(players, g.take(k), slots[k], q)]
                    candidate(players, g.take(k), slots[k], q) ==> keys[j] >= keys[q]
            },
            None => forall|q: int| !#[trigger] candidate(players, g.take(k), slots[k], q),
        } by {
        lemma_pick_for(players, keys, g.take(k), slots[k]);
    }
    assert forall|k1: int, k2: int|
        #![trigger g[k1], g[k2]]
        0 <= k1 < slots.len() && 0 <= k2 < slots.len() && k1 != k2 && g[k1] is Some
            && g[k2] is Some implies players[g[k1]->0].id@ != players[g[k2]->0].id@ by {
        let (lo, hi) = if k1 < k2 { (k1, k2) } else { (k2, k1) };
        lemma_pick_for(players, keys, g.take(hi), slots[hi]);
        assert(candidate(players, g.take(hi), slots[hi], g[hi]->0));
        assert(g.take(hi)[lo] == g[lo]);
    }
}

// ---------------------------------------------------------------------------
// Executable greedy
// ---------------------------------------------------------------------------

fn priority_slot_exec(k: usize) -> (p: Position)
    ensures
        p == priority_slot(k as int),
{
    if k == 0 {
        Position::QB
    } else if k == 1 {
        Position::RB
    } else if k == 2 {
        Position::WR
    } else if k == 3 {
        Position::TE
    } else if k == 4 {
        Position::K
    } else if k == 5 {
        Position::DST
    } else if k == 6 {
        Position::FLEX
    } else {
        Position::SUPERFLEX
    }
}

fn slot_count_exec(slots: &Vec<(Position, u32)>, p: Position) -> (c: u32)
    ensures
        c as nat == slot_count(slots@, p),
{
    let mut i: usize = 0;
    assert(slots@.skip(0) =~= slots@);
    while i < slots.len()
        invariant
            i <= slots.len(),
            slot_count(slots@, p) == slot_count(slots@.skip(i as int), p),
        decreases slots.len() - i,
    {
        assert(slots@.skip(i as int).drop_first() =~= slots@.skip(i + 1));
        if slots[i].0 == p {
            return slots[i].1;
        }
        i = i + 1;
    }
    0
}

/// The sequence of starting slots to fill (see [`slot_sequence`]).
pub fn slot_order(settings: &LeagueSettings) -> (r: Vec<Position>)
    ensures
        r@ == slot_sequence(settings.roster_slots@),
{
    let mut r: Vec<Position> = Vec::new();
    let mut k: usize = 0;
    while k < 8
        invariant
            k <= 8,
            r@ == slots_upto(settings.roster_slots@, k as int),
        decreases 8 - k,
    {
        let p = priority_slot_exec(k);
        let c = slot_count_exec(&settings.roster_slots, p);
        let ghost before = r@;
        let mut m: u32 = 0;
        while m < c
            invariant
                m <= c,
                r@ == before + Seq::new(m as nat, |i: int| p),
            decreases c - m,
        {
            r.push(p);
            assert(r@ =~= before + Seq::new((m + 1) as nat, |i: int| p));
            m = m + 1;
        }
        assert(r@ =~= slots_upto(settings.roster_slots@, k + 1));
        k = k + 1;
    }
    r
}

/// In the slot sequence the flex slots come last: no dedicated slot follows a
/// flex or superflex slot, so a flex slot never takes a player before the
/// dedicated slots have had their pick.
pub proof fn lemma_flex_slots_last(slots: Seq<(Position, u32)>)
    ensures
        forall|i: int, j: int|
            0 <= i < j < slot_sequence(slots).len() && (slot_sequence(slots)[i] == Position::FLEX
                || slot_sequence(slots)[i] == Position::SUPERFLEX) ==> (slot_sequence(slots)[j]
                == Position::FLEX || slot_sequence(slots)[j] == Position::SUPERFLEX),
{
    lemma_slots_upto_ranks(slots, 8);
}

/// The place of a position in the order starting slots are filled: QB, RB,
/// WR, TE, K, DST, then FLEX, then SUPERFLEX; 8 for a position that is not
/// filled.
pub open spec fn fill_rank(p: Position) -> int {
    match p {
        Position::QB => 0,
        Position::RB => 1,
        Position::WR => 2,
        Position::TE => 3,
        Position::K => 4,
        Position::DST => 5,
        Position::FLEX => 6,
        Position::SUPERFLEX => 7,
        _ => 8,
    }
}

/// How many times `p` occurs in `s`.
pub open spec fn occurrences(s: Seq<Position>, p: Position) -> nat {
    s.filter(|q: Position| q == p).len()
}

/// The starting slots are filled QB, RB, WR, TE, K, DST, then FLEX, then
/// SUPERFLEX: no slot comes after a slot of a later position, no other
/// position is filled, and each of those positions is filled as many times
/// as the first count the league lists for it (none when it lists none).
pub proof fn lemma_slot_fill_order(slots: Seq<(Position, u32)>)
    ensures
        forall|i: int, j: int|
            0 <= i < j < slot_sequence(slots).len() ==> fill_rank(#[trigger] slot_sequence(slots)[i]) <= fill_rank(
                #[trigger] slot_sequence(slots)[j],
            ),
        forall|i: int| 0 <= i < slot_sequence(slots).len() ==> fill_rank(#[trigger] slot_sequence(slots)[i]) < 8,
        forall|p: Position, i: int|
            #![trigger occurrences(slot_sequence(slots), p), slots[i]]
            0 <= i < slots.len() && slots[i].0 == p && fill_rank(p) < 8 && (forall|k: int|
                0 <= k < i ==> slots[k].0 != p) ==> occurrences(slot_sequence(slots), p) == slots[i].1,
        forall|p: Position|
            (fill_rank(p) == 8 || forall|k: int| 0 <= k < slots.len() ==> slots[k].0 != p) ==> #[trigger] occurrences(
                slot_sequence(slots),
                p,
            ) == 0,
{
    lemma_fill_upto(slots, 8);
    assert forall|p: Position, i: int|
        #![trigger occurrences(slot_sequence(slots), p), slots[i]]
        0 <= i < slots.len() && slots[i].0 == p && fill_rank(p) < 8 && (forall|k: int|
            0 <= k < i ==> slots[k].0 != p) implies occurrences(slot_sequence(slots), p) == slots[i].1 by {
        lemma_slot_count_first(slots, p, i);
    }
    assert forall|p: Position|
        (fill_rank(p) == 8 || forall|k: int| 0 <= k < slots.len() ==> slots[k].0 != p) implies #[trigger] occurrences(
            slot_sequence(slots),
            p,
        ) == 0 by {
        if fill_rank(p) < 8 {
            lemma_slot_count_none(slots, p);
        }
    }
}

proof fn lemma_slot_count_first(slots: Seq<(Position, u32)>, p: Position, i: int)
    requires
        0 <= i < slots.len(),
        slots[i].0 == p,
        forall|k: int| 0 <= k < i ==> slots[k].0 != p,
    ensures
        slot_count(slots, p) == slots[i].1,
    decreases i,
{
    if i > 0 {
        assert(slots[0].0 != p);
        let d = slots.drop_first();
        assert forall|k: int| 0 <= k < i - 1 implies d[k].0 != p by {
            assert(d[k] == slots[k + 1]);
        }
        lemma_slot_count_first(d, p, i - 1);
    }
}

proof fn lemma_slot_count_none(slots: Seq<(Position, u32)>, p: Position)
    requires
        forall|k: int| 0 <= k < slots.len() ==> slots[k].0 != p,
    ensures
        slot_count(slots, p) == 0,
    decreases slots.len(),
{
    if slots.len() > 0 {
        let d = slots.drop_first();
        assert forall|k: int| 0 <= k < d.len() implies d[k].0 != p by {
            assert(d[k] == slots[k + 1]);
        }
        lemma_slot_count_none(d, p);
    }
}

proof fn lemma_occurrences_repeat(n: nat, q: Position, p: Position)
    ensures
        occurrences(Seq::new(n, |i: int| q), p) == if q == p { n } else { 0 },
    decreases n,
{
    reveal(Seq::filter);
    if n > 0 {
        let s = Seq::new(n, |i: int| q);
        assert(s.drop_last() =~= Seq::new((n - 1) as nat, |i: int| q));
        lemma_occurrences_repeat((n - 1) as nat, q, p);
    }
}

proof fn lemma_fill_upto(slots: Seq<(Position, u32)>, k: int)
    requires
        0 <= k <= 8,
    ensures
        forall|i: int, j: int|
            0 <= i < j < slots_upto(slots, k).len() ==> fill_rank(#[trigger] slots_upto(slots, k)[i]) <= fill_rank(
                #[trigger] slots_upto(slots, k)[j],
            ),
        forall|i: int| 0 <= i < slots_upto(slots, k).len() ==> fill_rank(#[trigger] slots_upto(slots, k)[i]) < k,
        forall|p: Position|
            #[trigger] occurrences(slots_upto(slots, k), p) == if fill_rank(p) < k {
                slot_count(slots, p)
            } else {
                0
            },
    decreases k,
{
    if k > 0 {
        lemma_fill_upto(slots, k - 1);
        let prev = slots_upto(slots, k - 1);
        let q = priority_slot(k - 1);
        let blk = Seq::new(slot_count(slots, q), |i: int| q);
        let cur = slots_upto(slots, k);
        assert(cur == prev + blk);
        assert(fill_rank(q) == k - 1);
        assert forall|i: int| 0 <= i < cur.len() implies fill_rank(#[trigger] cur[i]) < k by {
            if i < prev.len() {
                assert(cur[i] == prev[i]);
            } else {
                assert(cur[i] == q);
            }
        }
        assert forall|i: int, j: int| 0 <= i < j < cur.len() implies fill_rank(#[trigger] cur[i]) <= fill_rank(
            #[trigger] cur[j],
        ) by {
            if j < prev.len() {
                assert(cur[i] == prev[i] && cur[j] == prev[j]);
            } else if i < prev.len() {
                assert(cur[i] == prev[i] && cur[j] == q);
            } else {
                assert(cur[i] == q && cur[j] == q);
            }
        }
        assert forall|p: Position| #[trigger] occurrences(cur, p) == if fill_rank(p) < k {
            slot_count(slots, p)
        } else {
            0
        } by {
            let f = |x: Position| x == p;
            Seq::filter_distributes_over_add(prev, blk, f);
            lemma_occurrences_repeat(slot_count(slots, q), q, p);
            assert(occurrences(prev, p) == prev.filter(f).len());
            assert(occurrences(blk, p) == blk.filter(f).len());
            if p == q {
            } else {
            }
        }
    }
}

/// The slots up to `k` appear in priority order.
proof fn lemma_slots_upto_ranks(slots: Seq<(Position, u32)>, k: int)
    requires
        0 <= k <= 8,
    ensures
        forall|i: int|
            0 <= i < slots_upto(slots, k).len() ==> exists|r: int|
                0 <= r < k && #[trigger] slots_upto(slots, k)[i] == priority_slot(r),
        forall|i: int, j: int|
            0 <= i < j < slots_upto(slots, k).len() && (slots_upto(slots, k)[i] == Position::FLEX
                || slots_upto(slots, k)[i] == Position::SUPERFLEX) ==> (slots_upto(slots, k)[j]
                == Position::FLEX || slots_upto(slots, k)[j] == Position::SUPERFLEX),
    decreases k,
{
    if k > 0 {
        lemma_slots_upto_ranks(slots, k - 1);
        let prev = slots_upto(slots, k - 1);
        let cur = slots_upto(slots, k);
        let p = priority_slot(k - 1);
        assert forall|i: int| 0 <= i < cur.len() implies exists|r: int|
            0 <= r < k && #[trigger] cur[i] == priority_slot(r) by {
            if i < prev.len() {
                assert(cur[i] == prev[i]);
                let r = choose|r: int| 0 <= r < k - 1 && prev[i] == priority_slot(r);
                assert(cur[i] == priority_slot(r));
            } else {
                assert(cur[i] == p);
            }
        }
        assert forall|i: int, j: int|
            0 <= i < j < cur.len() && (cur[i] == Position::FLEX || cur[i] == Position::SUPERFLEX) implies (
            cur[j] == Position::FLEX || cur[j] == Position::SUPERFLEX) by {
            if j < prev.len() {
                assert(cur[i] == prev[i] && cur[j] == prev[j]);
            } else {
                assert(cur[j] == p);
                if i < prev.len() {
                    assert(cur[i] == prev[i]);
                    let r = choose|r: int| 0 <= r < k - 1 && prev[i] == priority_slot(r);
                    assert(r >= 6);
                } else {
                    assert(cur[i] == p);
                }
            }
        }
    }
}

/// Whether player `j` shares its id with one of the picks so far.
fn is_taken(players: &Vec<Player>, picks: &Vec<Option<usize>>, j: usize) -> (r: bool)
    requires
        j < players.len(),
        forall|m: int| 0 <= m < picks.len() && (#[trigger] picks@[m]) is Some ==> picks@[m]->0 < players.len(),
    ensures
        r == taken(players@, picks@.map_values(|o: Option<usize>| idx(o)), j as int),
{
    let ghost sp = picks@.map_values(|o: Option<usize>| idx(o));
    let mut m: usize = 0;
    while m < picks.len()
        invariant
            j < players.len(),
            m <= picks.len(),
            sp == picks@.map_values(|o: Option<usize>| idx(o)),
            forall|q: int| 0 <= q < picks.len() && (#[trigger] picks@[q]) is Some ==> picks@[q]->0 < players.len(),
            forall|q: int|
                0 <= q < m && (#[trigger] sp[q]) is Some ==> players@[sp[q]->0].id@ != players@[j as int].id@,
        decreases picks.len() - m,
    {
        if let Some(i) = picks[m] {
            if players[i].id == players[j].id {
                assert(sp[m as int] == Some(i as int));
                return true;
            }
        }
        m = m + 1;
    }
    false
}

/// Greedy lineup: fills the starting slots of `settings` in the order
/// QB, RB, WR, TE, K, DST, FLEX, SUPERFLEX, each with the eligible player not
/// yet picked (players are told apart by id) whose key in `keys` is highest,
/// earlier roster place first among equal keys. `keys[i]` orders
/// `roster_players[i]` by risk-adjusted projection. The bench holds every
/// player that shares no id with a starter, in roster order.
pub fn local_optimize(
    roster_players: &Vec<Player>,
    settings: &LeagueSettings,
    strat: Strategy,
    keys: &Vec<i64>,
) -> (l: Lineup)
    requires
        keys.len() == roster_players.len(),
    ensures
        l.week == 0,
        l.reasoning@ == greedy_reasoning(strat),
        l.starters.len() == slot_sequence(settings.roster_slots@).len(),
        forall|k: int|
            0 <= k < l.starters.len() ==> (#[trigger] l.starters@[k]).slot == slot_sequence(
                settings.roster_slots@,
            )[k] && idx(l.starters@[k].player) == greedy(
                roster_players@,
                keys@,
                slot_sequence(settings.roster_slots@),
            )[k],
        l.bench@.map_values(|i: usize| i as int) == bench_of(
            roster_players@,
            greedy(roster_players@, keys@, slot_sequence(settings.roster_slots@)),
            roster_players.len() as int,
        ),
        // every starter is eligible for its slot
        forall|k: int|
            0 <= k < l.starters.len() && (#[trigger] l.starters@[k]).player is Some ==> {
                let j = l.starters@[k].player->0;
                &&& j < roster_players.len()
                &&& spec_eligible(roster_players@[j as int].position, l.starters@[k].slot)
            },
        // no player starts twice
        forall|k1: int, k2: int|
            0 <= k1 < l.starters.len() && 0 <= k2 < l.starters.len() && k1 != k2
                && (#[trigger] l.starters@[k1]).player is Some
                && (#[trigger] l.starters@[k2]).player is Some ==> roster_players@[l.starters@[k1].player->0 as int].id@
                != roster_players@[l.starters@[k2].player->0 as int].id@,
{
    let ghost players = roster_players@;
    let order = slot_order(settings);
    let ghost slots = order@;
    let n = roster_players.len();
    let mut picks: Vec<Option<usize>> = Vec::new();
    let mut starters: Vec<LineupSlot> = Vec::new();
    let mut k: usize = 0;
    while k < order.len()
        invariant
            n == roster_players.len(),
            keys.len() == n,
            players == roster_players@,
            slots == order@,
            k <= order.len(),
            picks.len() == k,
            starters.len() == k,
            picks@.map_values(|o: Option<usize>| idx(o)) == greedy(players, keys@, slots.take(k as int)),
            forall|m: int|
                0 <= m < picks.len() && (#[trigger] picks@[m]) is Some ==> picks@[m]->0 < n,
            forall|m: int|
                0 <= m < k ==> (#[trigger] starters@[m]).slot == slots[m] && starters@[m].player
                    == picks@[m],
        decreases order.len() - k,
    {
        let slot = order[k];
        let ghost sp = picks@.map_values(|o: Option<usize>| idx(o));
        let mut best: Option<usize> = None;
        let mut j: usize = 0;
        while j < n
            invariant
                n == roster_players.len(),
                keys.len() == n,
                players == roster_players@,
                j <= n,
                sp == picks@.map_values(|o: Option<usize>| idx(o)),
                forall|m: int|
                    0 <= m < picks.len() && (#[trigger] picks@[m]) is Some ==> picks@[m]->0 < n,
                match best {
                    Some(b) => b < j && candidate(players, sp, slot, b as int) && forall|q: int|
                        #![trigger candidate(players, sp, slot, q)]
                        0 <= q < j && candidate(players, sp, slot, q) && q != b ==> ranks_before(
                            keys@,
                            b as int,
                            q,
                        ),
                    None => forall|q: int| 0 <= q < j ==> !#[trigger] candidate(players, sp, slot, q),
                },
            decreases n - j,
        {
            if roster_players[j].position.eligible_for(slot) && !is_taken(roster_players, &picks, j) {
                let better = match best {
                    None => true,
                    Some(b) => keys[j] > keys[b],
                };
                if better {
                    best = Some(j);
                }
            }
            j = j + 1;
        }
        proof {
            match best {
                Some(b) => {
                    lemma_pick_unique(players, keys@, sp, slot, b as int);
                },
                None => {
                    assert(!exists|q: int| candidate(players, sp, slot, q));
                },
            }
            assert(slots.take(k + 1).drop_last() =~= slots.take(k as int));
            assert(slots.take(k + 1).last() == slot);
        }
        picks.push(best);
        starters.push(LineupSlot { slot, player: best });
        proof {
            assert(picks@.map_values(|o: Option<usize>| idx(o)) =~= sp.push(idx(best)));
        }
        k = k + 1;
    }
    let ghost g = picks@.map_values(|o: Option<usize>| idx(o));
    assert(slots.take(order.len() as int) =~= slots);
    // bench
    let mut bench: Vec<usize> = Vec::new();
    let mut i: usize = 0;
    while i < n
        invariant
            n == roster_players.len(),
            players == roster_players@,
            i <= n,
            g == picks@.map_values(|o: Option<usize>| idx(o)),
            forall|m: int|
                0 <= m < picks.len() && (#[trigger] picks@[m]) is Some ==> picks@[m]->0 < n,
            bench@.map_values(|x: usize| x as int) == bench_of(players, g, i as int),
        decreases n - i,
    {
        if !is_taken(roster_players, &picks, i) {
            bench.push(i);
            assert(bench@.map_values(|x: usize| x as int) =~= bench_of(players, g, i as int).push(
                i as int,
            ));
        }
        i = i + 1;
    }
    proof {
        lemma_greedy_properties(players, keys@, slots);
        assert forall|k: int|
            0 <= k < starters.len() && (#[trigger] starters@[k]).player is Some implies {
                let j = starters@[k].player->0;
                &&& j < roster_players.len()
                &&& spec_eligible(roster_players@[j as int].position, starters@[k].slot)
            } by {
            assert(g[k] == idx(picks@[k]));
        }
        assert forall|k1: int, k2: int|
            0 <= k1 < starters.len() && 0 <= k2 < starters.len() && k1 != k2
                && (#[trigger] starters@[k1]).player is Some
                && (#[trigger] starters@[k2]).player is Some implies roster_players@[starters@[k1].player->0 as int].id@
                != roster_players@[starters@[k2].player->0 as int].id@ by {
            assert(g[k1] == idx(picks@[k1]));
            assert(g[k2] == idx(picks@[k2]));
        }
        assert forall|k: int| 0 <= k < starters.len() implies idx(
            (#[trigger] starters@[k]).player,
        ) == greedy(players, keys@, slots)[k] by {
            assert(g[k] == idx(picks@[k]));
        }
    }
    let mut msg = chars_of("Greedy ");
    msg = concat_chars(&msg, &chars_of(strat.label().as_str()));
    msg = concat_chars(
        &msg,
        &chars_of(" fallback — slots filled in priority order by risk-adjusted projection."),
    );
    Lineup { week: 0, starters, bench, reasoning: string_of(&msg) }
}

// ---------------------------------------------------------------------------
// Reading a lineup proposed in free text
// ---------------------------------------------------------------------------

/// Why a proposed lineup is not accepted, in specifications.
#[derive(Clone, Copy, Debug, PartialEq, Eq, Structural)]
pub enum ProposalError {
    /// No `SLOT: name` line with a known slot followed the `LINEUP:` line.
    NoSlotLines,
    /// The accepted slots do not have the counts the league requires.
    SlotCountMismatch,
}

/// Why a proposed lineup was not accepted.
#[derive(Clone, Debug)]
pub enum LineupParseError {
    /// No `SLOT: name` line with a known slot followed the `LINEUP:` line.
    NoSlotLines,
    /// The accepted slots do not have the counts the league requires: the
    /// counts found and the counts required, by position.
    SlotCountMismatch { got: Vec<(Position, usize)>, required: Vec<(Position, u32)> },
}

/// The positions in the order their counts are listed.
pub open spec fn pos_order(k: int) -> Position {
    if k == 0 {
        Position::QB
    } else if k == 1 {
        Position::RB
    } else if k == 2 {
        Position::WR
    } else if k == 3 {
        Position::TE
    } else if k == 4 {
        Position::K
    } else if k == 5 {
        Position::DST
    } else if k == 6 {
        Position::FLEX
    } else if k == 7 {
        Position::SUPERFLEX
    } else if k == 8 {
        Position::BENCH
    } else if k == 9 {
        Position::IR
    } else {
        Position::Unknown
    }
}

fn pos_order_exec(k: usize) -> (p: Position)
    ensures
        p == pos_order(k as int),
{
    if k == 0 {
        Position::QB
    } else if k == 1 {
        Position::RB
    } else if k == 2 {
        Position::WR
    } else if k == 3 {
        Position::TE
    } else if k == 4 {
        Position::K
    } else if k == 5 {
        Position::DST
    } else if k == 6 {
        Position::FLEX
    } else if k == 7 {
        Position::SUPERFLEX
    } else if k == 8 {
        Position::BENCH
    } else if k == 9 {
        Position::IR
    } else {
        Position::Unknown
    }
}

/// The slots used by the starters, with their counts, in listing order (first `k` positions).
pub open spec fn filled_listing(starters: Seq<(Position, Option<int>)>, k: int) -> Seq<(Position, nat)>
    decreases k,
{
    if k <= 0 {
        Seq::empty()
    } else {
        let prev = filled_listing(starters, k - 1);
        let c = filled_count(starters, pos_order(k - 1));
        if c > 0 {
            prev.push((pos_order(k - 1), c))
        } else {
            prev
        }
    }
}

/// The counts the league requires, in listing order (first `k` positions).
pub open spec fn required_listing(slots: Seq<(Position, u32)>, k: int) -> Seq<(Position, u32)>
    decreases k,
{
    if k <= 0 {
        Seq::empty()
    } else {
        let prev = required_listing(slots, k - 1);
        match required_count(slots, pos_order(k - 1)) {
            Some(c) => prev.push((pos_order(k - 1), c)),
            None => prev,
        }
    }
}

/// What has been read of a proposal after some of its lines.
pub struct ProposalState {
    pub reasoning: Seq<char>,
    pub in_lineup: bool,
    pub assignments: Seq<(Position, Seq<char>)>,
}

/// Reading one more line of a proposal. A `REASONING:` line sets the reasoning;
/// the `LINEUP:` line starts the slot lines; before it, other lines continue a
/// reasoning already begun; after it, a `SLOT: name` line with a known slot
/// assigns the name (without surrounding `*`) to the slot.
pub open spec fn proposal_step(st: ProposalState, line: Seq<char>) -> ProposalState {
    let t = trim(line);
    if strip_prefix(t, "REASONING:"@) is Some {
        ProposalState { reasoning: trim(strip_prefix(t, "REASONING:"@)->0), ..st }
    } else if starts_with(t, "LINEUP:"@) {
        ProposalState { in_lineup: true, ..st }
    } else if !st.in_lineup {
        if st.reasoning.len() > 0 {
            ProposalState { reasoning: st.reasoning.push(' ') + t, ..st }
        } else {
            st
        }
    } else {
        match split_once(t, ':') {
            Some((slot_text, name)) => {
                let slot = position_named(trim(slot_text));
                if slot != Position::Unknown {
                    ProposalState {
                        assignments: st.assignments.push((slot, trim_matches(trim(name), '*'))),
                        ..st
                    }
                } else {
                    st
                }
            },
            None => st,
        }
    }
}

/// The state after reading all of `ls`.
pub open spec fn proposal_scan(ls: Seq<Seq<char>>) -> ProposalState
    decreases ls.len(),
{
    if ls.len() == 0 {
        ProposalState { reasoning: Seq::empty(), in_lineup: false, assignments: Seq::empty() }
    } else {
        proposal_step(proposal_scan(ls.drop_last()), ls.last())
    }
}

/// The lower-cased name of player `i`.
pub open spec fn lower_name(players: Seq<Player>, i: int) -> Seq<char> {
    unicode_lowercase(players[i].name@)
}

/// The lower-cased names of the players, in roster order.
pub open spec fn lowered_names(players: Seq<Player>) -> Seq<Seq<char>> {
    Seq::new(players.len(), |i: int| lower_name(players, i))
}

/// The last name of `names` equal to `needle`.
pub open spec fn last_equal(names: Seq<Seq<char>>, needle: Seq<char>) -> Option<int> {
    if exists|i: int| 0 <= i < names.len() && names[i] == needle {
        Some(
            choose|i: int|
                0 <= i < names.len() && names[i] == needle && forall|k: int|
                    i < k < names.len() ==> names[k] != needle,
        )
    } else {
        None
    }
}

/// `a` and `b` contain one another (one of them contains the other).
pub open spec fn overlaps(a: Seq<char>, b: Seq<char>) -> bool {
    contains(a, b) || contains(b, a)
}

/// The first name of `names` that `needle` contains or is contained in.
pub open spec fn first_overlapping(names: Seq<Seq<char>>, needle: Seq<char>) -> Option<int> {
    if exists|i: int| 0 <= i < names.len() && overlaps(names[i], needle) {
        Some(
            choose|i: int|
                0 <= i < names.len() && overlaps(names[i], needle) && forall|k: int|
                    0 <= k < i ==> !overlaps(names[k], needle),
        )
    } else {
        None
    }
}

/// The name a (lower-cased) proposed name refers to among lower-cased
/// names: the last equal one, else the first overlapping one.
pub open spec fn match_name(names: Seq<Seq<char>>, needle: Seq<char>) -> Option<int> {
    match last_equal(names, needle) {
        Some(i) => Some(i),
        None => first_overlapping(names, needle),
    }
}

/// The last player whose lower-cased name is `needle`.
pub open spec fn exact_match(players: Seq<Player>, needle: Seq<char>) -> Option<int> {
    last_equal(lowered_names(players), needle)
}

/// The lower-cased name of player `i` and `needle` contain one another.
pub open spec fn loose_match_at(players: Seq<Player>, needle: Seq<char>, i: int) -> bool {
    overlaps(lower_name(players, i), needle)
}

/// The first player whose lower-cased name and `needle` contain one another.
pub open spec fn loose_match(players: Seq<Player>, needle: Seq<char>) -> Option<int> {
    first_overlapping(lowered_names(players), needle)
}

/// The player a proposed name refers to: an exact (lower-cased) name match,
/// else a loose one.
pub open spec fn resolve_name(players: Seq<Player>, name: Seq<char>) -> Option<int> {
    match_name(lowered_names(players), unicode_lowercase(name))
}

/// After the `LINEUP:` line, a line that reads `<S>: <name>` with a known
/// slot `S` adds that slot with the name (trimmed, without surrounding `*`)
/// to the assignments; a line with an unknown slot, or without a colon,
/// adds nothing.
pub proof fn lemma_slot_line(st: ProposalState, line: Seq<char>)
    requires
        st.in_lineup,
        strip_prefix(trim(line), "REASONING:"@) is None,
        !starts_with(trim(line), "LINEUP:"@),
    ensures
        match split_once(trim(line), ':') {
            Some((slot_text, name)) => if position_named(trim(slot_text)) != Position::Unknown {
                proposal_step(st, line).assignments == st.assignments.push(
                    (position_named(trim(slot_text)), trim_matches(trim(name), '*')),
                )
            } else {
                proposal_step(st, line).assignments == st.assignments
            },
            None => proposal_step(st, line).assignments == st.assignments,
        },
{
}

proof fn lemma_last_equal_exists(names: Seq<Seq<char>>, needle: Seq<char>, n: int)
    requires
        0 <= n <= names.len(),
    ensures
        (exists|i: int| 0 <= i < n && names[i] == needle) ==> exists|i: int|
            0 <= i < n && names[i] == needle && forall|k: int| i < k < n ==> names[k] != needle,
    decreases n,
{
    if n > 0 {
        lemma_last_equal_exists(names, needle, n - 1);
        if names[n - 1] == needle {
            assert(forall|k: int| n - 1 < k < n ==> names[k] != needle);
        }
    }
}

proof fn lemma_first_overlapping_exists(names: Seq<Seq<char>>, needle: Seq<char>, n: int)
    requires
        0 <= n <= names.len(),
    ensures
        (exists|i: int| 0 <= i < n && overlaps(names[i], needle)) ==> exists|i: int|
            0 <= i < n && overlaps(names[i], needle) && forall|k: int| 0 <= k < i ==> !overlaps(names[k], needle),
    decreases n,
{
    if n > 0 {
        lemma_first_overlapping_exists(names, needle, n - 1);
    }
}

/// Among lower-cased names, a lower-cased proposed name refers to the last
/// equal name; failing that, to the first name that contains it or is
/// contained in it; failing that, to none.
pub proof fn lemma_match_name_rule(names: Seq<Seq<char>>, needle: Seq<char>)
    ensures
        match match_name(names, needle) {
            Some(i) => 0 <= i < names.len() && ((names[i] == needle && forall|k: int|
                i < k < names.len() ==> names[k] != needle) || ((forall|k: int|
                0 <= k < names.len() ==> names[k] != needle) && overlaps(names[i], needle) && forall|k: int|
                0 <= k < i ==> !overlaps(names[k], needle))),
            None => forall|k: int| 0 <= k < names.len() ==> names[k] != needle && !overlaps(names[k], needle),
        },
{
    lemma_last_equal_exists(names, needle, names.len() as int);
    lemma_first_overlapping_exists(names, needle, names.len() as int);
}

/// A proposed name refers to the last player whose lower-cased name equals
/// the lower-cased proposed name; failing that, to the first player whose
/// lower-cased name contains it or is contained in it; failing that, to
/// nobody.
pub proof fn lemma_name_resolution(players: Seq<Player>, name: Seq<char>)
    ensures
        ({
            let n = unicode_lowercase(name);
            match resolve_name(players, name) {
                Some(i) => 0 <= i < players.len() && ((lower_name(players, i) == n && forall|k: int|
                    i < k < players.len() ==> lower_name(players, k) != n) || ((forall|k: int|
                    0 <= k < players.len() ==> lower_name(players, k) != n) && overlaps(
                    lower_name(players, i),
                    n,
                ) && forall|k: int| 0 <= k < i ==> !overlaps(lower_name(players, k), n))),
                None => forall|k: int|
                    0 <= k < players.len() ==> lower_name(players, k) != n && !overlaps(
                        lower_name(players, k),
                        n,
                    ),
            }
        }),
{
    let n = unicode_lowercase(name);
    let ln = lowered_names(players);
    lemma_match_name_rule(ln, n);
    assert forall|k: int| 0 <= k < players.len() implies #[trigger] lower_name(players, k) == ln[k] by {}
}

/// The starters for a sequence of assignments: each assignment whose player
/// shares an id with an earlier starter is dropped; one whose name matches
/// no player leaves its slot empty.
pub open spec fn resolve_all(players: Seq<Player>, assigns: Seq<(Position, Seq<char>)>) -> Seq<
    (Position, Option<int>),
>
    decreases assigns.len(),
{
    if assigns.len() == 0 {
        Seq::empty()
    } else {
        let prev = resolve_all(players, assigns.drop_last());
        let (slot, name) = assigns.last();
        match resolve_name(players, name) {
            Some(j) => if taken(players, prev.map_values(|e: (Position, Option<int>)| e.1), j) {
                prev
            } else {
                prev.push((slot, Some(j)))
            },
            None => prev.push((slot, None)),
        }
    }
}

/// Reading one more assignment: a name that refers to nobody leaves its slot
/// empty; one that refers to a player already started drops the line;
/// otherwise the player starts in that slot.
pub proof fn lemma_resolve_all_step(players: Seq<Player>, assigns: Seq<(Position, Seq<char>)>, a: (Position, Seq<char>))
    ensures
        resolve_all(players, assigns.push(a)) == match resolve_name(players, a.1) {
            Some(j) => if taken(players, resolve_all(players, assigns).map_values(|e: (Position, Option<int>)| e.1), j) {
                resolve_all(players, assigns)
            } else {
                resolve_all(players, assigns).push((a.0, Some(j)))
            },
            None => resolve_all(players, assigns).push((a.0, None)),
        },
{
    assert(assigns.push(a).drop_last() =~= assigns);
}

/// The count the league requires for starting slot `p`: the last entry for
/// `p`, and none for a slot that does not start.
pub open spec fn required_count(slots: Seq<(Position, u32)>, p: Position) -> Option<u32>
    decreases slots.len(),
{
    if !spec_is_starter_slot(p) || slots.len() == 0 {
        None
    } else if slots.last().0 == p {
        Some(slots.last().1)
    } else {
        required_count(slots.drop_last(), p)
    }
}

/// Number of starters in slot `p`.
pub open spec fn filled_count(starters: Seq<(Position, Option<int>)>, p: Position) -> nat
    decreases starters.len(),
{
    if starters.len() == 0 {
        0
    } else {
        filled_count(starters.drop_last(), p) + if starters.last().0 == p {
            1nat
        } else {
            0nat
        }
    }
}

/// Every slot has exactly the count the league requires (a slot the league
/// does not list, or lists with no count, must stay unused).
pub open spec fn counts_match(slots: Seq<(Position, u32)>, starters: Seq<(Position, Option<int>)>) -> bool {
    forall|p: Position|
        match #[trigger] required_count(slots, p) {
            Some(c) => c > 0 && filled_count(starters, p) == c as nat,
            None => filled_count(starters, p) == 0,
        }
}

/// How many starters fill slot `p`.
pub open spec fn starting_at(starters: Seq<(Position, Option<int>)>, p: Position) -> nat {
    starters.filter(|e: (Position, Option<int>)| e.0 == p).len()
}

/// A proposed lineup is accepted only when each position starts exactly as
/// many players as the league asks for it: for a starting slot that the
/// league's settings list, the count of its last listing, which must be
/// positive; for any other position, none.
pub proof fn lemma_accepted_slot_counts(text: Seq<char>, players: Seq<Player>, slots: Seq<(Position, u32)>)
    ensures
        read_proposal(text, players, slots) is Ok ==> {
            let st = read_proposal(text, players, slots)->Ok_0.0;
            &&& forall|p: Position, i: int|
                #![trigger starting_at(st, p), slots[i]]
                0 <= i < slots.len() && slots[i].0 == p && spec_is_starter_slot(p) && (forall|k: int|
                    i < k < slots.len() ==> slots[k].0 != p) ==> starting_at(st, p) == slots[i].1 && slots[i].1 > 0
            &&& forall|p: Position|
                (!spec_is_starter_slot(p) || forall|k: int| 0 <= k < slots.len() ==> slots[k].0 != p)
                    ==> #[trigger] starting_at(st, p) == 0
        },
{
    if read_proposal(text, players, slots) is Ok {
        let st = read_proposal(text, players, slots)->Ok_0.0;
        assert(counts_match(slots, st));
        assert forall|p: Position, i: int|
            #![trigger starting_at(st, p), slots[i]]
            0 <= i < slots.len() && slots[i].0 == p && spec_is_starter_slot(p) && (forall|k: int|
                i < k < slots.len() ==> slots[k].0 != p) implies starting_at(st, p) == slots[i].1 && slots[i].1 > 0 by {
            lemma_required_last(slots, p, i);
            lemma_filled_is_starting(st, p);
            assert(match required_count(slots, p) {
                Some(c) => c > 0 && filled_count(st, p) == c as nat,
                None => filled_count(st, p) == 0,
            });
        }
        assert forall|p: Position|
            (!spec_is_starter_slot(p) || forall|k: int| 0 <= k < slots.len() ==> slots[k].0 != p) implies #[trigger] starting_at(
                st,
                p,
            ) == 0 by {
            lemma_required_none(slots, p);
            lemma_filled_is_starting(st, p);
            assert(match required_count(slots, p) {
                Some(c) => c > 0 && filled_count(st, p) == c as nat,
                None => filled_count(st, p) == 0,
            });
        }
    }
}

proof fn lemma_required_last(slots: Seq<(Position, u32)>, p: Position, i: int)
    requires
        0 <= i < slots.len(),
        slots[i].0 == p,
        spec_is_starter_slot(p),
        forall|k: int| i < k < slots.len() ==> slots[k].0 != p,
    ensures
        required_count(slots, p) == Some(slots[i].1),
    decreases slots.len(),
{
    if i < slots.len() - 1 {
        assert(slots.last().0 != p);
        let d = slots.drop_last();
        lemma_required_last(d, p, i);
    }
}

proof fn lemma_required_none(slots: Seq<(Position, u32)>, p: Position)
    requires
        !spec_is_starter_slot(p) || forall|k: int| 0 <= k < slots.len() ==> slots[k].0 != p,
    ensures
        required_count(slots, p) is None,
    decreases slots.len(),
{
    if spec_is_starter_slot(p) && slots.len() > 0 {
        let d = slots.drop_last();
        assert(slots.last().0 != p);
        assert forall|k: int| 0 <= k < d.len() implies d[k].0 != p by {
            assert(d[k] == slots[k]);
        }
        lemma_required_none(d, p);
    }
}

proof fn lemma_filled_is_starting(st: Seq<(Position, Option<int>)>, p: Position)
    ensures
        filled_count(st, p) == starting_at(st, p),
    decreases st.len(),
{
    reveal(Seq::filter);
    if st.len() > 0 {
        lemma_filled_is_starting(st.drop_last(), p);
    }
}

/// The starters of a lineup as spec pairs.
pub open spec fn starter_pairs(starters: Seq<LineupSlot>) -> Seq<(Position, Option<int>)> {
    starters.map_values(|s: LineupSlot| (s.slot, idx(s.player)))
}

/// Outcome of reading a proposal: the lineup (starters, bench, reasoning) or the error.
pub open spec fn read_proposal(
    text: Seq<char>,
    players: Seq<Player>,
    slots: Seq<(Position, u32)>,
) -> Result<(Seq<(Position, Option<int>)>, Seq<int>, Seq<char>), ProposalError> {
    let st = proposal_scan(lines(text));
    if st.assignments.len() == 0 {
        Err(ProposalError::NoSlotLines)
    } else {
        let starters = resolve_all(players, st.assignments);
        if !counts_match(slots, starters) {
            Err(ProposalError::SlotCountMismatch)
        } else {
            Ok(
                (
                    starters,
                    bench_of(
                        players,
                        starters.map_values(|e: (Position, Option<int>)| e.1),
                        players.len() as int,
                    ),
                    st.reasoning,
                ),
            )
        }
    }
}

/// Reads one line of a proposal (see [`proposal_step`]).
fn proposal_step_exec(
    reasoning: &mut Vec<char>,
    in_lineup: &mut bool,
    assigns: &mut Vec<(Position, Vec<char>)>,
    line: &Vec<char>,
)
    ensures
        ({
            let st = proposal_step(
                ProposalState {
                    reasoning: old(reasoning)@,
                    in_lineup: *old(in_lineup),
                    assignments: assign_views(old(assigns)@),
                },
                line@,
            );
            &&& final(reasoning)@ == st.reasoning
            &&& *final(in_lineup) == st.in_lineup
            &&& assign_views(final(assigns)@) == st.assignments
        }),
{
    let t = trim_chars(line);
    match strip_prefix_chars(&t, &chars_of("REASONING:")) {
        Some(r) => {
            *reasoning = trim_chars(&r);
            return ;
        },
        None => {},
    }
    if has_prefix(&t, &chars_of("LINEUP:")) {
        *in_lineup = true;
        return ;
    }
    if !*in_lineup {
        if reasoning.len() > 0 {
            reasoning.push(' ');
            let joined = concat_chars(reasoning, &t);
            *reasoning = joined;
        }
        return ;
    }
    match split_once_chars(&t, ':') {
        Some((slot_text, name)) => {
            let slot = Position::from_chars(&trim_chars(&slot_text));
            if slot != Position::Unknown {
                let n = trim_matches_chars(&trim_chars(&name), '*');
                let ghost before = assigns@;
                assigns.push((slot, n));
                proof {
                    assert(assign_views(assigns@) =~= assign_views(before).push((slot, n@)));
                }
            }
        },
        None => {},
    }
}

/// The assignments as spec pairs.
pub open spec fn assign_views(a: Seq<(Position, Vec<char>)>) -> Seq<(Position, Seq<char>)> {
    a.map_values(|e: (Position, Vec<char>)| (e.0, e.1@))
}

/// Reads all lines of a proposal (see [`proposal_scan`]).
fn scan_proposal(ls: &Vec<Vec<char>>) -> (r: (Vec<char>, Vec<(Position, Vec<char>)>))
    ensures
        r.0@ == proposal_scan(views(ls@)).reasoning,
        assign_views(r.1@) == proposal_scan(views(ls@)).assignments,
{
    let mut reasoning: Vec<char> = Vec::new();
    let mut in_lineup = false;
    let mut assigns: Vec<(Position, Vec<char>)> = Vec::new();
    let mut i: usize = 0;
    assert(assign_views(assigns@) =~= Seq::<(Position, Seq<char>)>::empty());
    while i < ls.len()
        invariant
            i <= ls.len(),
            ({
                let st = proposal_scan(views(ls@).take(i as int));
                &&& reasoning@ == st.reasoning
                &&& in_lineup == st.in_lineup
                &&& assign_views(assigns@) == st.assignments
            }),
        decreases ls.len() - i,
    {
        proposal_step_exec(&mut reasoning, &mut in_lineup, &mut assigns, &ls[i]);
        assert(views(ls@).take(i + 1).drop_last() =~= views(ls@).take(i as int));
        assert(views(ls@).take(i + 1).last() == ls@[i as int]@);
        i = i + 1;
    }
    assert(views(ls@).take(ls.len() as int) =~= views(ls@));
    (reasoning, assigns)
}

/// The lower-cased names of the players, in roster order.
pub fn lower_names(players: &Vec<Player>) -> (r: Vec<Vec<char>>)
    ensures
        r.len() == players.len(),
        forall|i: int| 0 <= i < players.len() ==> (#[trigger] r@[i])@ == lower_name(players@, i),
{
    let mut r: Vec<Vec<char>> = Vec::new();
    let mut i: usize = 0;
    while i < players.len()
        invariant
            i <= players.len(),
            r.len() == i,
            forall|k: int| 0 <= k < i ==> (#[trigger] r@[k])@ == lower_name(players@, k),
        decreases players.len() - i,
    {
        let l = lowercase_chars(&chars_of(players[i].name.as_str()));
        r.push(l);
        i = i + 1;
    }
    r
}

/// The name a lower-cased proposed name refers to among lower-cased names
/// (see [`match_name`]): the last equal one, else the first that contains it
/// or is contained in it.
pub fn match_lowered(names: &Vec<Vec<char>>, needle: &Vec<char>) -> (r: Option<usize>)
    ensures
        idx(r) == match_name(views(names@), needle@),
        r is Some ==> r->0 < names.len(),
{
    let ghost nv = views(names@);
    let n = names.len();
    // exact match: the last one
    let mut i: usize = n;
    while i > 0
        invariant
            i <= n,
            n == names.len(),
            nv == views(names@),
            forall|k: int| i <= k < n ==> nv[k] != needle@,
        decreases i,
    {
        assert(nv[i - 1] == names@[i - 1]@);
        if chars_eq(&names[i - 1], needle) {
            proof {
                let j = (i - 1) as int;
                let w = choose|x: int|
                    0 <= x < nv.len() && nv[x] == needle@ && forall|k: int|
                        x < k < nv.len() ==> nv[k] != needle@;
                if w != j {
                    if w < j {
                    } else {
                    }
                }
                assert(last_equal(nv, needle@) == Some(j));
            }
            return Some(i - 1);
        }
        i = i - 1;
    }
    assert(last_equal(nv, needle@) is None);
    // loose match: the first one
    let mut j: usize = 0;
    while j < n
        invariant
            j <= n,
            n == names.len(),
            nv == views(names@),
            last_equal(nv, needle@) is None,
            forall|k: int| 0 <= k < j ==> !overlaps(nv[k], needle@),
        decreases n - j,
    {
        assert(nv[j as int] == names@[j as int]@);
        if contains_chars(&names[j], needle) || contains_chars(needle, &names[j]) {
            proof {
                assert(overlaps(nv[j as int], needle@));
                let w = choose|x: int|
                    0 <= x < nv.len() && overlaps(nv[x], needle@) && forall|k: int|
                        0 <= k < x ==> !overlaps(nv[k], needle@);
                if w != j {
                    if w < j {
                    } else {
                    }
                }
            }
            return Some(j);
        }
        j = j + 1;
    }
    None
}

/// The player a proposed name refers to (see [`resolve_name`]), given the
/// players' lower-cased names.
pub fn resolve_name_exec(players: &Vec<Player>, lowered: &Vec<Vec<char>>, name: &Vec<char>) -> (r: Option<usize>)
    requires
        lowered.len() == players.len(),
        forall|i: int| 0 <= i < players.len() ==> (#[trigger] lowered@[i])@ == lower_name(players@, i),
    ensures
        idx(r) == resolve_name(players@, name@),
        r is Some ==> r->0 < players.len(),
{
    let needle = lowercase_chars(name);
    assert(views(lowered@) =~= lowered_names(players@));
    match_lowered(lowered, &needle)
}

/// The starters for the assignments (see [`resolve_all`]).
fn resolve_all_exec(players: &Vec<Player>, assigns: &Vec<(Position, Vec<char>)>) -> (r: Vec<LineupSlot>)
    ensures
        starter_pairs(r@) == resolve_all(players@, assign_views(assigns@)),
        forall|m: int| 0 <= m < r.len() && (#[trigger] r@[m]).player is Some ==> r@[m].player->0 < players.len(),
{
    let lowered = lower_names(players);
    let mut starters: Vec<LineupSlot> = Vec::new();
    let mut picks: Vec<Option<usize>> = Vec::new();
    let ghost pl = players@;
    let ghost av = assign_views(assigns@);
    let mut k: usize = 0;
    assert(av.take(0) =~= Seq::<(Position, Seq<char>)>::empty());
    assert(starter_pairs(starters@) =~= Seq::<(Position, Option<int>)>::empty());
    while k < assigns.len()
        invariant
            k <= assigns.len(),
            pl == players@,
            av == assign_views(assigns@),
            lowered.len() == players.len(),
            forall|i: int| 0 <= i < players.len() ==> (#[trigger] lowered@[i])@ == lower_name(pl, i),
            starter_pairs(starters@) == resolve_all(pl, av.take(k as int)),
            picks@.map_values(|o: Option<usize>| idx(o)) == starter_pairs(starters@).map_values(
                |e: (Position, Option<int>)| e.1,
            ),
            picks.len() == starters.len(),
            forall|m: int| 0 <= m < picks.len() ==> (#[trigger] picks@[m]) == starters@[m].player,
            forall|m: int|
                0 <= m < picks.len() && (#[trigger] picks@[m]) is Some ==> picks@[m]->0 < players.len(),
        decreases assigns.len() - k,
    {
        let slot = assigns[k].0;
        let resolved = resolve_name_exec(players, &lowered, &assigns[k].1);
        let ghost prev_pairs = starter_pairs(starters@);
        proof {
            assert(av.take(k + 1).drop_last() =~= av.take(k as int));
            assert(av.take(k + 1).last() == (slot, assigns@[k as int].1@));
        }
        match resolved {
            Some(j) => {
                if !is_taken(players, &picks, j) {
                    starters.push(LineupSlot { slot, player: Some(j) });
                    picks.push(Some(j));
                    proof {
                        assert(starter_pairs(starters@) =~= prev_pairs.push((slot, Some(j as int))));
                        assert(picks@.map_values(|o: Option<usize>| idx(o)) =~= starter_pairs(
                            starters@,
                        ).map_values(|e: (Position, Option<int>)| e.1));
                    }
                }
            },
            None => {
                starters.push(LineupSlot { slot, player: None });
                picks.push(None);
                proof {
                    assert(starter_pairs(starters@) =~= prev_pairs.push((slot, None)));
                    assert(picks@.map_values(|o: Option<usize>| idx(o)) =~= starter_pairs(
                        starters@,
                    ).map_values(|e: (Position, Option<int>)| e.1));
                }
            },
        }
        k = k + 1;
    }
    assert(av.take(assigns.len() as int) =~= av);
    assert forall|m: int| 0 <= m < starters.len() && (#[trigger] starters@[m]).player is Some implies starters@[m].player->0 < players.len() by {
        assert(picks@[m] == starters@[m].player);
    }
    starters
}

/// Every position, once.
fn all_positions() -> (r: Vec<Position>)
    ensures
        forall|p: Position| #[trigger] r@.contains(p),
{
    let r = vec![
        Position::QB,
        Position::RB,
        Position::WR,
        Position::TE,
        Position::K,
        Position::DST,
        Position::FLEX,
        Position::SUPERFLEX,
        Position::BENCH,
        Position::IR,
        Position::Unknown,
    ];
    assert forall|p: Position| #[trigger] r@.contains(p) by {
        match p {
            Position::QB => assert(r@[0] == p),
            Position::RB => assert(r@[1] == p),
            Position::WR => assert(r@[2] == p),
            Position::TE => assert(r@[3] == p),
            Position::K => assert(r@[4] == p),
            Position::DST => assert(r@[5] == p),
            Position::FLEX => assert(r@[6] == p),
            Position::SUPERFLEX => assert(r@[7] == p),
            Position::BENCH => assert(r@[8] == p),
            Position::IR => assert(r@[9] == p),
            Position::Unknown => assert(r@[10] == p),
        }
    }
    r
}

fn required_count_exec(slots: &Vec<(Position, u32)>, p: Position) -> (r: Option<u32>)
    ensures
        r == required_count(slots@, p),
{
    if !p.is_starter_slot() {
        return None;
    }
    let mut i: usize = slots.len();
    assert(slots@.take(slots.len() as int) =~= slots@);
    while i > 0
        invariant
            i <= slots.len(),
            spec_is_starter_slot(p),
            required_count(slots@, p) == required_count(slots@.take(i as int), p),
        decreases i,
    {
        assert(slots@.take(i as int).drop_last() =~= slots@.take(i - 1));
        if slots[i - 1].0 == p {
            return Some(slots[i - 1].1);
        }
        i = i - 1;
    }
    None
}

fn filled_count_exec(starters: &Vec<LineupSlot>, p: Position) -> (r: usize)
    ensures
        r as nat == filled_count(starter_pairs(starters@), p),
{
    let mut c: usize = 0;
    let mut i: usize = 0;
    while i < starters.len()
        invariant
            i <= starters.len(),
            c <= i,
            c as nat == filled_count(starter_pairs(starters@).take(i as int), p),
        decreases starters.len() - i,
    {
        assert(starter_pairs(starters@).take(i + 1).drop_last() =~= starter_pairs(starters@).take(
            i as int,
        ));
        if starters[i].slot == p {
            c = c + 1;
        }
        i = i + 1;
    }
    assert(starter_pairs(starters@).take(starters.len() as int) =~= starter_pairs(starters@));
    c
}

/// Whether the starters have the slot counts the league requires (see [`counts_match`]).
fn counts_match_exec(slots: &Vec<(Position, u32)>, starters: &Vec<LineupSlot>) -> (r: bool)
    ensures
        r == counts_match(slots@, starter_pairs(starters@)),
{
    let all = all_positions();
    let ghost sp = starter_pairs(starters@);
    let mut i: usize = 0;
    while i < all.len()
        invariant
            i <= all.len(),
            sp == starter_pairs(starters@),
            forall|k: int|
                0 <= k < i ==> match #[trigger] required_count(slots@, all@[k]) {
                    Some(c) => c > 0 && filled_count(sp, all@[k]) == c as nat,
                    None => filled_count(sp, all@[k]) == 0,
                },
        decreases all.len() - i,
    {
        let p = all[i];
        let f = filled_count_exec(starters, p);
        match required_count_exec(slots, p) {
            Some(c) => {
                if c == 0 || f != c as usize {
                    return false;
                }
            },
            None => {
                if f != 0 {
                    return false;
                }
            },
        }
        i = i + 1;
    }
    assert forall|p: Position|
        match #[trigger] required_count(slots@, p) {
            Some(c) => c > 0 && filled_count(sp, p) == c as nat,
            None => filled_count(sp, p) == 0,
        } by {
        assert(all@.contains(p));
        let k = choose|k: int| 0 <= k < all@.len() && all@[k] == p;
        assert(all@[k] == p);
    }
    true
}

/// Reads a lineup proposed in free text (the format asked of the assistant:
/// a `REASONING:` line, a `LINEUP:` line, then `SLOT: Player Name` lines).
/// Names are matched to `roster_players` without regard to case, first
/// exactly, then loosely (one name containing the other); a player proposed
/// twice keeps only the first slot. The proposal is refused when it has no
/// slot line, or when its slot counts differ from the starting slots of
/// `settings`. The bench is every player not starting, in roster order.
pub fn parse_ai_lineup(
    text: &str,
    roster_players: &Vec<Player>,
    settings: &LeagueSettings,
    week: u8,
) -> (r: Result<Lineup, LineupParseError>)
    ensures
        match read_proposal(text@, roster_players@, settings.roster_slots@) {
            Ok((starters, bench, reasoning)) => r is Ok && {
                let l = r->Ok_0;
                &&& l.week == week
                &&& starter_pairs(l.starters@) == starters
                &&& l.bench@.map_values(|i: usize| i as int) == bench
                &&& l.reasoning@ == reasoning
            },
            Err(ProposalError::NoSlotLines) => r matches Err(LineupParseError::NoSlotLines),
            Err(ProposalError::SlotCountMismatch) => r matches Err(
                LineupParseError::SlotCountMismatch { got, required },
            ) && got@.map_values(|e: (Position, usize)| (e.0, e.1 as nat)) == filled_listing(
                resolve_all(roster_players@, proposal_scan(lines(text@)).assignments),
                11,
            ) && required@ == required_listing(settings.roster_slots@, 11),
        },
        r is Ok ==> {
            let st = starter_pairs(r->Ok_0.starters@);
            let slots = settings.roster_slots@;
            &&& forall|p: Position, i: int|
                #![trigger starting_at(st, p), slots[i]]
                0 <= i < slots.len() && slots[i].0 == p && spec_is_starter_slot(p) && (forall|k: int|
                    i < k < slots.len() ==> slots[k].0 != p) ==> starting_at(st, p) == slots[i].1 && slots[i].1 > 0
            &&& forall|p: Position|
                (!spec_is_starter_slot(p) || forall|k: int| 0 <= k < slots.len() ==> slots[k].0 != p)
                    ==> #[trigger] starting_at(st, p) == 0
        },
{
    proof {
        lemma_accepted_slot_counts(text@, roster_players@, settings.roster_slots@);
    }
    let v = chars_of(text);
    let ls = split_lines(&v);
    let (reasoning, assigns) = scan_proposal(&ls);
    if assigns.len() == 0 {
        return Err(LineupParseError::NoSlotLines);
    }
    let starters = resolve_all_exec(roster_players, &assigns);
    if !counts_match_exec(&settings.roster_slots, &starters) {
        let mut got: Vec<(Position, usize)> = Vec::new();
        let mut required: Vec<(Position, u32)> = Vec::new();
        let mut k: usize = 0;
        while k < 11
            invariant
                k <= 11,
                got@.map_values(|e: (Position, usize)| (e.0, e.1 as nat)) == filled_listing(
                    starter_pairs(starters@),
                    k as int,
                ),
                required@ == required_listing(settings.roster_slots@, k as int),
            decreases 11 - k,
        {
            let p = pos_order_exec(k);
            let c = filled_count_exec(&starters, p);
            if c > 0 {
                let ghost before = got@.map_values(|e: (Position, usize)| (e.0, e.1 as nat));
                got.push((p, c));
                assert(got@.map_values(|e: (Position, usize)| (e.0, e.1 as nat)) =~= before.push(
                    (p, c as nat),
                ));
            }
            match required_count_exec(&settings.roster_slots, p) {
                Some(rc) => {
                    required.push((p, rc));
                },
                None => {},
            }
            k = k + 1;
        }
        return Err(LineupParseError::SlotCountMismatch { got, required });
    }
    let mut picks: Vec<Option<usize>> = Vec::new();
    let mut m: usize = 0;
    while m < starters.len()
        invariant
            m <= starters.len(),
            picks.len() == m,
            forall|q: int| 0 <= q < m ==> (#[trigger] picks@[q]) == starters@[q].player,
            forall|q: int|
                0 <= q < starters.len() && (#[trigger] starters@[q]).player is Some
                    ==> starters@[q].player->0 < roster_players.len(),
        decreases starters.len() - m,
    {
        picks.push(starters[m].player);
        m = m + 1;
    }
    let ghost g = picks@.map_values(|o: Option<usize>| idx(o));
    assert(g =~= starter_pairs(starters@).map_values(|e: (Position, Option<int>)| e.1));
    let n = roster_players.len();
    let mut bench: Vec<usize> = Vec::new();
    let mut i: usize = 0;
    while i < n
        invariant
            n == roster_players.len(),
            i <= n,
            picks.len() == starters.len(),
            g == picks@.map_values(|o: Option<usize>| idx(o)),
            forall|q: int| 0 <= q < picks.len() ==> (#[trigger] picks@[q]) == starters@[q].player,
            forall|q: int|
                0 <= q < starters.len() && (#[trigger] starters@[q]).player is Some
                    ==> starters@[q].player->0 < roster_players.len(),
            bench@.map_values(|x: usize| x as int) == bench_of(roster_players@, g, i as int),
        decreases n - i,
    {
        proof {
            assert forall|q: int|
                0 <= q < picks.len() && (#[trigger] picks@[q]) is Some implies picks@[q]->0 < n by {
                assert(picks@[q] == starters@[q].player);
            }
        }
        if !is_taken(roster_players, &picks, i) {
            bench.push(i);
            assert(bench@.map_values(|x: usize| x as int) =~= bench_of(roster_players@, g, i as int).push(
                i as int,
            ));
        }
        i = i + 1;
    }
    proof {
        let rp = read_proposal(text@, roster_players@, settings.roster_slots@);
        assert(rp is Ok);
        assert(starter_pairs(starters@) == rp->Ok_0.0);
    }
    Ok(Lineup { week, starters, bench, reasoning: string_of(&reasoning) })
}

/// The bench holds exactly the players that share no id with a starter,
/// each once, in roster order.
pub proof fn lemma_bench_members(players: Seq<Player>, picks: Seq<Option<int>>, n: int)
    requires
        0 <= n <= players.len(),
    ensures
        forall|i: int| #[trigger] bench_of(players, picks, n).contains(i) <==> 0 <= i < n && !taken(
            players,
            picks,
            i,
        ),
        forall|a: int, b: int|
            0 <= a < b < bench_of(players, picks, n).len() ==> bench_of(players, picks, n)[a]
                < bench_of(players, picks, n)[b],
    decreases n,
{
    if n > 0 {
        lemma_bench_members(players, picks, n - 1);
        let prev = bench_of(players, picks, n - 1);
        if !taken(players, picks, n - 1) {
            let cur = prev.push(n - 1);
            assert forall|i: int| #[trigger] cur.contains(i) <==> 0 <= i < n && !taken(players, picks, i) by {
                if i == n - 1 {
                    assert(cur[cur.len() - 1] == i);
                } else if cur.contains(i) {
                    let k = choose|k: int| 0 <= k < cur.len() && cur[k] == i;
                    assert(k != cur.len() - 1);
                    assert(prev[k] == i);
                    assert(prev.contains(i));
                } else if 0 <= i < n - 1 && !taken(players, picks, i) {
                    assert(prev.contains(i));
                    let k = choose|k: int| 0 <= k < prev.len() && prev[k] == i;
                    assert(cur[k] == i);
                    assert(cur.contains(i));
                }
            }
            assert forall|a: int, b: int| 0 <= a < b < cur.len() implies cur[a] < cur[b] by {
                if b == cur.len() - 1 {
                    assert(prev.contains(prev[a]));
                }
            }
        }
    }
}

/// In a lineup read from a proposal, no two starters share an id.
pub proof fn lemma_resolve_all_distinct(players: Seq<Player>, assigns: Seq<(Position, Seq<char>)>)
    ensures
        forall|k1: int, k2: int|
            #![trigger resolve_all(players, assigns)[k1], resolve_all(players, assigns)[k2]]
            0 <= k1 < resolve_all(players, assigns).len() && 0 <= k2 < resolve_all(
                players,
                assigns,
            ).len() && k1 != k2 && resolve_all(players, assigns)[k1].1 is Some && resolve_all(
                players,
                assigns,
            )[k2].1 is Some ==> players[resolve_all(players, assigns)[k1].1->0].id@
                != players[resolve_all(players, assigns)[k2].1->0].id@,
    decreases assigns.len(),
{
    if assigns.len() > 0 {
        let prev = resolve_all(players, assigns.drop_last());
        lemma_resolve_all_distinct(players, assigns.drop_last());
        let cur = resolve_all(players, assigns);
        let (slot, name) = assigns.last();
        match resolve_name(players, name) {
            Some(j) => {
                let picks = prev.map_values(|e: (Position, Option<int>)| e.1);
                if !taken(players, picks, j) {
                    assert forall|k1: int, k2: int|
                        #![trigger cur[k1], cur[k2]]
                        0 <= k1 < cur.len() && 0 <= k2 < cur.len() && k1 != k2 && cur[k1].1 is Some
                            && cur[k2].1 is Some implies players[cur[k1].1->0].id@
                            != players[cur[k2].1->0].id@ by {
                        let last = cur.len() - 1;
                        if k1 == last {
                            assert(picks[k2] == prev[k2].1);
                        } else if k2 == last {
                            assert(picks[k1] == prev[k1].1);
                        } else {
                            assert(cur[k1] == prev[k1]);
                            assert(cur[k2] == prev[k2]);
                        }
                    }
                }
            },
            None => {
                assert forall|k1: int, k2: int|
                    #![trigger cur[k1], cur[k2]]
                    0 <= k1 < cur.len() && 0 <= k2 < cur.len() && k1 != k2 && cur[k1].1 is Some
                        && cur[k2].1 is Some implies players[cur[k1].1->0].id@
                        != players[cur[k2].1->0].id@ by {
                    assert(cur[k1] == prev[k1]);
                    assert(cur[k2] == prev[k2]);
                }
            },
        }
    }
}

// ---------------------------------------------------------------------------
// Messages and fallback
// ---------------------------------------------------------------------------

/// The name of a position as its debug form prints it.
pub open spec fn position_debug(p: Position) -> Seq<char> {
    match p {
        Position::QB => "QB"@,
        Position::RB => "RB"@,
        Position::WR => "WR"@,
        Position::TE => "TE"@,
        Position::K => "K"@,
        Position::DST => "DST"@,
        Position::FLEX => "FLEX"@,
        Position::SUPERFLEX => "SUPERFLEX"@,
        Position::BENCH => "BENCH"@,
        Position::IR => "IR"@,
        Position::Unknown => "Unknown"@,
    }
}

fn position_debug_exec(p: Position) -> (r: Vec<char>)
    ensures
        r@ == position_debug(p),
{
    match p {
        Position::QB => chars_of("QB"),
        Position::RB => chars_of("RB"),
        Position::WR => chars_of("WR"),
        Position::TE => chars_of("TE"),
        Position::K => chars_of("K"),
        Position::DST => chars_of("DST"),
        Position::FLEX => chars_of("FLEX"),
        Position::SUPERFLEX => chars_of("SUPERFLEX"),
        Position::BENCH => chars_of("BENCH"),
        Position::IR => chars_of("IR"),
        Position::Unknown => chars_of("Unknown"),
    }
}

/// The entries of a count listing, as a map prints: `P: n` joined by `, `.
pub open spec fn listing_body(l: Seq<(Position, nat)>) -> Seq<char>
    decreases l.len(),
{
    if l.len() == 0 {
        Seq::empty()
    } else if l.len() == 1 {
        position_debug(l[0].0) + ": "@ + decimal(l[0].1)
    } else {
        listing_body(l.drop_last()) + ", "@ + position_debug(l.last().0) + ": "@ + decimal(
            l.last().1,
        )
    }
}

fn listing_text(l: &Vec<(Position, u64)>) -> (r: Vec<char>)
    ensures
        r@ == "{"@ + listing_body(l@.map_values(|e: (Position, u64)| (e.0, e.1 as nat))) + "}"@,
{
    let ghost lv = l@.map_values(|e: (Position, u64)| (e.0, e.1 as nat));
    let mut body: Vec<char> = Vec::new();
    let mut i: usize = 0;
    while i < l.len()
        invariant
            i <= l.len(),
            lv == l@.map_values(|e: (Position, u64)| (e.0, e.1 as nat)),
            body@ == listing_body(lv.take(i as int)),
        decreases l.len() - i,
    {
        assert(lv.take(i + 1).drop_last() =~= lv.take(i as int));
        let mut entry = position_debug_exec(l[i].0);
        entry = concat_chars(&entry, &chars_of(": "));
        entry = concat_chars(&entry, &decimal_chars(l[i].1));
        if i == 0 {
            body = entry;
            assert(lv.take(1)[0] == lv[0]);
        } else {
            body = concat_chars(&body, &chars_of(", "));
            body = concat_chars(&body, &entry);
        }
        i = i + 1;
    }
    assert(lv.take(l.len() as int) =~= lv);
    let mut r = chars_of("{");
    r = concat_chars(&r, &body);
    concat_chars(&r, &chars_of("}"))
}

/// The message of a refused proposal.
pub open spec fn parse_error_text(e: LineupParseError) -> Seq<char> {
    match e {
        LineupParseError::NoSlotLines => "could not parse any slot lines from AI output"@,
        LineupParseError::SlotCountMismatch { got, required } => "slot counts don't match (got "@
            + "{"@ + listing_body(got@.map_values(|e: (Position, usize)| (e.0, e.1 as nat))) + "}"@
            + ", required "@ + "{"@ + listing_body(
            required@.map_values(|e: (Position, u32)| (e.0, e.1 as nat)),
        ) + "}"@ + ")"@,
    }
}

/// The message with which a proposal is refused (see [`read_proposal`]).
pub open spec fn refusal_text(text: Seq<char>, players: Seq<Player>, slots: Seq<(Position, u32)>) -> Seq<char> {
    match read_proposal(text, players, slots) {
        Err(ProposalError::SlotCountMismatch) => "slot counts don't match (got "@ + "{"@ + listing_body(
            filled_listing(resolve_all(players, proposal_scan(lines(text)).assignments), 11),
        ) + "}"@ + ", required "@ + "{"@ + listing_body(
            required_listing(slots, 11).map_values(|e: (Position, u32)| (e.0, e.1 as nat)),
        ) + "}"@ + ")"@,
        _ => "could not parse any slot lines from AI output"@,
    }
}

impl LineupParseError {
    /// The message of the error.
    pub fn message(&self) -> (r: String)
        ensures
            r@ == parse_error_text(*self),
    {
        match self {
            LineupParseError::NoSlotLines => "could not parse any slot lines from AI output".to_owned(),
            LineupParseError::SlotCountMismatch { got, required } => {
                let mut g: Vec<(Position, u64)> = Vec::new();
                let mut i: usize = 0;
                while i < got.len()
                    invariant
                        i <= got.len(),
                        g.len() == i,
                        forall|k: int|
                            0 <= k < i ==> (#[trigger] g@[k]).0 == got@[k].0 && g@[k].1 == got@[k].1,
                    decreases got.len() - i,
                {
                    g.push((got[i].0, got[i].1 as u64));
                    i = i + 1;
                }
                assert(g@.map_values(|e: (Position, u64)| (e.0, e.1 as nat)) =~= got@.map_values(
                    |e: (Position, usize)| (e.0, e.1 as nat),
                ));
                let mut q: Vec<(Position, u64)> = Vec::new();
                let mut j: usize = 0;
                while j < required.len()
                    invariant
                        j <= required.len(),
                        q.len() == j,
                        forall|k: int|
                            0 <= k < j ==> (#[trigger] q@[k]).0 == required@[k].0 && q@[k].1
                                == required@[k].1,
                    decreases required.len() - j,
                {
                    q.push((required[j].0, required[j].1 as u64));
                    j = j + 1;
                }
                assert(q@.map_values(|e: (Position, u64)| (e.0, e.1 as nat)) =~= required@.map_values(
                    |e: (Position, u32)| (e.0, e.1 as nat),
                ));
                let mut v = chars_of("slot counts don't match (got ");
                v = concat_chars(&v, &listing_text(&g));
                v = concat_chars(&v, &chars_of(", required "));
                v = concat_chars(&v, &listing_text(&q));
                v = concat_chars(&v, &chars_of(")"));
                string_of(&v)
            },
        }
    }
}

/// One line of a lineup listing: `SLOT: name`, `(empty)` for an empty slot.
pub open spec fn lineup_line(players: Seq<Player>, s: LineupSlot) -> Seq<char> {
    position_label(s.slot) + ": "@ + match s.player {
        Some(i) => players[i as int].name@,
        None => "(empty)"@,
    }
}

/// The first `n` lines of a lineup listing joined by newlines.
pub open spec fn lineup_listing(players: Seq<Player>, starters: Seq<LineupSlot>, n: int) -> Seq<char>
    decreases n,
{
    if n <= 0 {
        Seq::empty()
    } else if n == 1 {
        lineup_line(players, starters[0])
    } else {
        lineup_listing(players, starters, n - 1) + "\n"@ + lineup_line(players, starters[n - 1])
    }
}

/// The starters of a lineup, one `SLOT: name` line each.
pub fn format_lineup(l: &Lineup, roster_players: &Vec<Player>) -> (r: String)
    requires
        forall|k: int|
            0 <= k < l.starters.len() && (#[trigger] l.starters@[k]).player is Some ==> l.starters@[k].player->0
                < roster_players.len(),
    ensures
        r@ == lineup_listing(roster_players@, l.starters@, l.starters.len() as int),
{
    let mut v: Vec<char> = Vec::new();
    let mut i: usize = 0;
    while i < l.starters.len()
        invariant
            i <= l.starters.len(),
            forall|k: int|
                0 <= k < l.starters.len() && (#[trigger] l.starters@[k]).player is Some ==> l.starters@[k].player->0
                    < roster_players.len(),
            v@ == lineup_listing(roster_players@, l.starters@, i as int),
        decreases l.starters.len() - i,
    {
        let s = l.starters[i];
        let mut line = s.slot.label_chars();
        line = concat_chars(&line, &chars_of(": "));
        let name = match s.player {
            Some(p) => chars_of(roster_players[p].name.as_str()),
            None => chars_of("(empty)"),
        };
        line = concat_chars(&line, &name);
        if i == 0 {
            v = line;
        } else {
            v = concat_chars(&v, &chars_of("\n"));
            v = concat_chars(&v, &line);
        }
        i = i + 1;
    }
    string_of(&v)
}

/// The lineup given the assistant's reply (or the reason it is unavailable),
/// with the assistant's raw reply (empty when there is none): the proposal
/// read from the reply when it is accepted; otherwise the greedy lineup for
/// the week, with a reasoning that names the failure.
pub fn lineup_from_reply(
    reply: Result<String, String>,
    local: Lineup,
    roster_players: &Vec<Player>,
    settings: &LeagueSettings,
    week: u8,
) -> (out: (Lineup, String))
    ensures
        out.1@ == match reply {
            Ok(text) => text@,
            Err(_) => Seq::<char>::empty(),
        },
        ({
            let r = out.0;
            match reply {
            Ok(text) => match read_proposal(text@, roster_players@, settings.roster_slots@) {
                Ok((starters, bench, reasoning)) => {
                    &&& r.week == week
                    &&& starter_pairs(r.starters@) == starters
                    &&& r.bench@.map_values(|i: usize| i as int) == bench
                    &&& r.reasoning@ == reasoning
                },
                Err(_) => {
                    &&& r.week == week
                    &&& r.starters@ == local.starters@
                    &&& r.bench@ == local.bench@
                    &&& r.reasoning@ == "AI parse failed ("@ + refusal_text(
                        text@,
                        roster_players@,
                        settings.roster_slots@,
                    ) + "); fell back to local optimizer."@
                },
            },
            Err(m) => {
                &&& r.week == week
                &&& r.starters@ == local.starters@
                &&& r.bench@ == local.bench@
                &&& r.reasoning@ == "AI unavailable ("@ + m@ + "); using local optimizer."@
            },
        }
        }),
{
    match reply {
        Ok(text) => match parse_ai_lineup(text.as_str(), roster_players, settings, week) {
            Ok(l) => (l, text),
            Err(e) => {
                let mut v = chars_of("AI parse failed (");
                v = concat_chars(&v, &chars_of(e.message().as_str()));
                v = concat_chars(&v, &chars_of("); fell back to local optimizer."));
                (Lineup { week, starters: local.starters, bench: local.bench, reasoning: string_of(&v) }, text)
            },
        },
        Err(m) => {
            let mut v = chars_of("AI unavailable (");
            v = concat_chars(&v, &chars_of(m.as_str()));
            v = concat_chars(&v, &chars_of("); using local optimizer."));
            (Lineup { week, starters: local.starters, bench: local.bench, reasoning: string_of(&v) }, String::new())
        },
    }
}


// ---------------------------------------------------------------------------
// The request for a lineup
// ---------------------------------------------------------------------------

/// A roster line of the lineup request; `fig` holds the player's projected
/// and average points, already written out.
pub open spec fn roster_line(p: Player, fig: (String, String)) -> Seq<char> {
    "- "@ + p.name@ + " ("@ + position_label(p.position) + " "@ + p.team@ + ") status="@ + status_label(
        p.status,
    ) + " proj="@ + fig.0@ + " avg="@ + fig.1@
}

/// The starting slots among the first `n` entries, as `<SLOT>x<count>`.
pub open spec fn starter_slot_texts(slots: Seq<(Position, u32)>, n: int) -> Seq<Seq<char>>
    decreases n,
{
    if n <= 0 {
        Seq::empty()
    } else if spec_is_starter_slot(slots[n - 1].0) {
        starter_slot_texts(slots, n - 1).push(position_label(slots[n - 1].0) + "x"@ + decimal(slots[n - 1].1 as nat))
    } else {
        starter_slot_texts(slots, n - 1)
    }
}

/// The first matchup our team plays in (home or away).
pub open spec fn our_matchup(ms: Seq<Matchup>, team: Seq<char>) -> Option<int> {
    if exists|k: int| 0 <= k < ms.len() && (ms[k].home_team@ == team || ms[k].away_team@ == team) {
        Some(
            choose|k: int|
                0 <= k < ms.len() && (ms[k].home_team@ == team || ms[k].away_team@ == team) && forall|q: int|
                    0 <= q < k ==> !(ms[q].home_team@ == team || ms[q].away_team@ == team),
        )
    } else {
        None
    }
}

/// The matchup line of the lineup request; `figs[k]` holds matchup `k`'s
/// projected points, already written out.
pub open spec fn matchup_block(ms: Seq<Matchup>, figs: Seq<(String, String)>, team: Seq<char>, week: u8) -> Seq<
    char,
> {
    match our_matchup(ms, team) {
        Some(k) => "Week "@ + decimal(ms[k].week as nat) + " matchup: "@ + ms[k].home_team@ + " ("@
            + figs[k].0@ + " proj) vs "@ + ms[k].away_team@ + " ("@ + figs[k].1@ + " proj)"@,
        None => "Week "@ + decimal(week as nat),
    }
}

/// Up to fifteen news lines, or a note that there is no news.
pub open spec fn lineup_news_block(news: Seq<NewsItem>) -> Seq<char> {
    if news.len() == 0 {
        "(no relevant news)"@
    } else {
        joined(news.take(if news.len() < 15 { news.len() as int } else { 15 }).map_values(|n: NewsItem| news_line(n)))
    }
}

/// The system text of a lineup request.
pub open spec fn lineup_system_text(strat: Strategy) -> Seq<char> {
    "You are an autonomous fantasy football manager. "@ + strategy_guidance(strat)
        + "\nYou will return a starting lineup, a one-paragraph rationale, and per-slot picks. Use the league settings, the current roster, and any provided news strictly. Do not hallucinate players who are not on the roster."@
}

/// The user text of a lineup request: the starting slots, the scoring, our
/// matchup, the roster with its figures, up to fifteen news lines, the greedy
/// baseline, and the answer format.
pub open spec fn lineup_user_text(
    roster: Roster,
    figures: Seq<(String, String)>,
    settings: LeagueSettings,
    ms: Seq<Matchup>,
    mfigs: Seq<(String, String)>,
    news: Seq<NewsItem>,
    week: u8,
    local: Lineup,
) -> Seq<char> {
    "Required starting slots: "@ + joined_with(
        starter_slot_texts(settings.roster_slots@, settings.roster_slots@.len() as int),
        ", "@,
    ) + "\nScoring: "@ + settings.scoring@ + "\n"@ + matchup_block(ms, mfigs, roster.team_name@, week)
        + "\n\n=== ROSTER ===\n"@ + joined(
        Seq::new(roster.players@.len(), |i: int| roster_line(roster.players@[i], figures[i])),
    ) + "\n\n=== RECENT NEWS ===\n"@ + lineup_news_block(news)
        + "\n\n=== LOCAL BASELINE (greedy by risk-adjusted projection) ===\n"@ + lineup_listing(
        roster.players@,
        local.starters@,
        local.starters.len() as int,
    )
        + "\n\nRespond in this exact format:\nREASONING: <one paragraph>\nLINEUP:\n<SLOT>: <Player Name>\n(one line per starter slot in the order given above; bench players omitted)"@
}

fn starter_slots_exec(slots: &Vec<(Position, u32)>) -> (r: Vec<char>)
    ensures
        r@ == joined_with(starter_slot_texts(slots@, slots.len() as int), ", "@),
{
    let mut ls: Vec<Vec<char>> = Vec::new();
    let mut i: usize = 0;
    while i < slots.len()
        invariant
            i <= slots.len(),
            views(ls@) == starter_slot_texts(slots@, i as int),
        decreases slots.len() - i,
    {
        let (p, c) = slots[i];
        if p.is_starter_slot() {
            let mut t = p.label_chars();
            t = concat_chars(&t, &chars_of("x"));
            t = concat_chars(&t, &decimal_chars(c as u64));
            let ghost before = views(ls@);
            ls.push(t);
            assert(views(ls@) =~= before.push(t@));
        }
        i = i + 1;
    }
    join_with(&ls, &chars_of(", "))
}

fn matchup_block_exec(ms: &Vec<Matchup>, figs: &Vec<(String, String)>, team: &String, week: u8) -> (r: Vec<char>)
    requires
        figs.len() == ms.len(),
    ensures
        r@ == matchup_block(ms@, figs@, team@, week),
{
    let mut k: usize = 0;
    while k < ms.len()
        invariant
            k <= ms.len(),
            figs.len() == ms.len(),
            forall|q: int| 0 <= q < k ==> !(ms@[q].home_team@ == team@ || ms@[q].away_team@ == team@),
        decreases ms.len() - k,
    {
        if ms[k].home_team == *team || ms[k].away_team == *team {
            proof {
                let w = choose|x: int|
                    0 <= x < ms@.len() && (ms@[x].home_team@ == team@ || ms@[x].away_team@ == team@)
                        && forall|q: int| 0 <= q < x ==> !(ms@[q].home_team@ == team@ || ms@[q].away_team@ == team@);
                assert(ms@[k as int].home_team@ == team@ || ms@[k as int].away_team@ == team@);
                if w < k {
                } else if w > k {
                }
                assert(our_matchup(ms@, team@) == Some(k as int));
            }
            let m = &ms[k];
            let mut v = chars_of("Week ");
            v = concat_chars(&v, &decimal_chars(m.week as u64));
            v = concat_chars(&v, &chars_of(" matchup: "));
            v = concat_chars(&v, &chars_of(m.home_team.as_str()));
            v = concat_chars(&v, &chars_of(" ("));
            v = concat_chars(&v, &chars_of(figs[k].0.as_str()));
            v = concat_chars(&v, &chars_of(" proj) vs "));
            v = concat_chars(&v, &chars_of(m.away_team.as_str()));
            v = concat_chars(&v, &chars_of(" ("));
            v = concat_chars(&v, &chars_of(figs[k].1.as_str()));
            v = concat_chars(&v, &chars_of(" proj)"));
            return v;
        }
        k = k + 1;
    }
    concat_chars(&chars_of("Week "), &decimal_chars(week as u64))
}

fn lineup_news_exec(news: &Vec<NewsItem>) -> (r: Vec<char>)
    ensures
        r@ == lineup_news_block(news@),
{
    if news.len() == 0 {
        return chars_of("(no relevant news)");
    }
    let n: usize = if news.len() < 15 {
        news.len()
    } else {
        15
    };
    let ghost want = news@.take(n as int).map_values(|x: NewsItem| news_line(x));
    let mut ls: Vec<Vec<char>> = Vec::new();
    let mut k: usize = 0;
    while k < n
        invariant
            k <= n <= news.len(),
            want == news@.take(n as int).map_values(|x: NewsItem| news_line(x)),
            views(ls@) == want.take(k as int),
        decreases n - k,
    {
        let mut line = chars_of("- [");
        line = concat_chars(&line, &chars_of(news[k].source.as_str()));
        line = concat_chars(&line, &chars_of("] "));
        line = concat_chars(&line, &chars_of(news[k].title.as_str()));
        let ghost before = views(ls@);
        ls.push(line);
        assert(views(ls@) =~= before.push(line@));
        assert(want.take(k + 1) =~= want.take(k as int).push(want[k as int]));
        k = k + 1;
    }
    assert(want.take(n as int) =~= want);
    join_lines(&ls)
}

fn roster_block_exec(players: &Vec<Player>, figures: &Vec<(String, String)>) -> (r: Vec<char>)
    requires
        figures.len() == players.len(),
    ensures
        r@ == joined(Seq::new(players@.len(), |i: int| roster_line(players@[i], figures@[i]))),
{
    let ghost want = Seq::new(players@.len(), |i: int| roster_line(players@[i], figures@[i]));
    let mut ls: Vec<Vec<char>> = Vec::new();
    let mut k: usize = 0;
    while k < players.len()
        invariant
            k <= players.len(),
            figures.len() == players.len(),
            want == Seq::new(players@.len(), |i: int| roster_line(players@[i], figures@[i])),
            views(ls@) == want.take(k as int),
        decreases players.len() - k,
    {
        let p = &players[k];
        let mut line = chars_of("- ");
        line = concat_chars(&line, &chars_of(p.name.as_str()));
        line = concat_chars(&line, &chars_of(" ("));
        line = concat_chars(&line, &p.position.label_chars());
        line = concat_chars(&line, &chars_of(" "));
        line = concat_chars(&line, &chars_of(p.team.as_str()));
        line = concat_chars(&line, &chars_of(") status="));
        line = concat_chars(&line, &chars_of(p.status.label().as_str()));
        line = concat_chars(&line, &chars_of(" proj="));
        line = concat_chars(&line, &chars_of(figures[k].0.as_str()));
        line = concat_chars(&line, &chars_of(" avg="));
        line = concat_chars(&line, &chars_of(figures[k].1.as_str()));
        let ghost before = views(ls@);
        ls.push(line);
        assert(views(ls@) =~= before.push(line@));
        assert(want.take(k + 1) =~= want.take(k as int).push(want[k as int]));
        k = k + 1;
    }
    assert(want.take(players.len() as int) =~= want);
    join_lines(&ls)
}

/// The request for a lineup: the system text (the strategy's guidance and
/// the rules) and the user text (see [`lineup_user_text`]). `figures[i]`
/// holds player `i`'s projected and average points and `matchup_figures[k]`
/// matchup `k`'s projected points, already written out; `local` is the
/// greedy baseline over the roster.
pub fn lineup_request(
    roster: &Roster,
    figures: &Vec<(String, String)>,
    settings: &LeagueSettings,
    matchups: &Vec<Matchup>,
    matchup_figures: &Vec<(String, String)>,
    news: &Vec<NewsItem>,
    strat: Strategy,
    week: u8,
    local: &Lineup,
) -> (r: (String, String))
    requires
        figures.len() == roster.players.len(),
        matchup_figures.len() == matchups.len(),
        forall|k: int|
            0 <= k < local.starters.len() && (#[trigger] local.starters@[k]).player is Some ==> local.starters@[k].player->0
                < roster.players.len(),
    ensures
        r.0@ == lineup_system_text(strat),
        r.1@ == lineup_user_text(*roster, figures@, *settings, matchups@, matchup_figures@, news@, week, *local),
{
    let mut sys = chars_of("You are an autonomous fantasy football manager. ");
    sys = concat_chars(&sys, &chars_of(strat.guidance()));
    sys = concat_chars(
        &sys,
        &chars_of(
            "\nYou will return a starting lineup, a one-paragraph rationale, and per-slot picks. Use the league settings, the current roster, and any provided news strictly. Do not hallucinate players who are not on the roster.",
        ),
    );
    let mut u = chars_of("Required starting slots: ");
    u = concat_chars(&u, &starter_slots_exec(&settings.roster_slots));
    u = concat_chars(&u, &chars_of("\nScoring: "));
    u = concat_chars(&u, &chars_of(settings.scoring.as_str()));
    u = concat_chars(&u, &chars_of("\n"));
    u = concat_chars(&u, &matchup_block_exec(matchups, matchup_figures, &roster.team_name, week));
    u = concat_chars(&u, &chars_of("\n\n=== ROSTER ===\n"));
    u = concat_chars(&u, &roster_block_exec(&roster.players, figures));
    u = concat_chars(&u, &chars_of("\n\n=== RECENT NEWS ===\n"));
    u = concat_chars(&u, &lineup_news_exec(news));
    u = concat_chars(&u, &chars_of("\n\n=== LOCAL BASELINE (greedy by risk-adjusted projection) ===\n"));
    u = concat_chars(&u, &chars_of(format_lineup(local, &roster.players).as_str()));
    u = concat_chars(
        &u,
        &chars_of(
            "\n\nRespond in this exact format:\nREASONING: <one paragraph>\nLINEUP:\n<SLOT>: <Player Name>\n(one line per starter slot in the order given above; bench players omitted)",
        ),
    );
    (string_of(&sys), string_of(&u))
}

} // verus!
