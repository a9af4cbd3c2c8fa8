//! The league data model: positions, injury statuses, strategies, players,
//! rosters, league settings, lineups and draft state.
//!
//! Projections and other fractional statistics are not part of this model;
//! callers that rank players hand the library integer order keys instead.
use vstd::prelude::*;
use crate::text::{chars_eq, chars_of, concat_chars, string_of};

verus! {

/// A roster position or lineup slot.
#[derive(Clone, Copy, Debug, PartialEq, Eq, Structural, Hash)]
pub enum Position {
    QB,
    RB,
    WR,
    TE,
    K,
    DST,
    FLEX,
    SUPERFLEX,
    BENCH,
    IR,
    Unknown,
}

/// An injury / availability status.
#[derive(Clone, Copy, Debug, PartialEq, Eq, Structural, Hash)]
pub enum PlayerStatus {
    Healthy,
    Questionable,
    Doubtful,
    Out,
    IR,
    Suspended,
    Unknown,
}

/// How much risk the manager accepts.
#[derive(Clone, Copy, Debug, PartialEq, Eq, Structural, Hash)]
pub enum Strategy {
    Conservative,
    Balanced,
    HighStakes,
}

/// ASCII upper-casing of one character.
pub open spec fn ascii_upper(c: char) -> char {
    if 'a' <= c && c <= 'z' {
        ((c as u32) - 32) as char
    } else {
        c
    }
}

/// ASCII upper-casing of a character sequence.
pub open spec fn upper(s: Seq<char>) -> Seq<char> {
    s.map_values(|c: char| ascii_upper(c))
}

fn ascii_upper_exec(c: char) -> (r: char)
    ensures
        r == ascii_upper(c),
{
    if 'a' <= c && c <= 'z' {
        let u: u32 = c as u32;
        assert(97 <= u <= 122);
        let l: u8 = (u - 32) as u8;
        l as char
    } else {
        c
    }
}

/// ASCII upper-casing of `v`.
pub fn upper_chars(v: &Vec<char>) -> (r: Vec<char>)
    ensures
        r@ == upper(v@),
{
    let mut r: Vec<char> = Vec::new();
    let mut i: usize = 0;
    while i < v.len()
        invariant
            i <= v.len(),
            r@ == upper(v@.take(i as int)),
        decreases v.len() - i,
    {
        r.push(ascii_upper_exec(v[i]));
        assert(upper(v@.take(i + 1)) =~= upper(v@.take(i as int)).push(ascii_upper(v@[i as int])));
        i = i + 1;
    }
    assert(v@.take(v.len() as int) == v@);
    r
}

/// Number of entries in the table of position names.
pub open spec fn name_count() -> nat {
    16
}

/// Entry `i` of the table of accepted position names (upper case) and the
/// position each stands for.
pub open spec fn name_entry(i: int) -> (Seq<char>, Position) {
    if i == 0 {
        (seq!['Q', 'B'], Position::QB)
    } else if i == 1 {
        (seq!['R', 'B'], Position::RB)
    } else if i == 2 {
        (seq!['W', 'R'], Position::WR)
    } else if i == 3 {
        (seq!['T', 'E'], Position::TE)
    } else if i == 4 {
        (seq!['K'], Position::K)
    } else if i == 5 {
        (seq!['D', 'S', 'T'], Position::DST)
    } else if i == 6 {
        (seq!['D', 'E', 'F'], Position::DST)
    } else if i == 7 {
        (seq!['D', '/', 'S', 'T'], Position::DST)
    } else if i == 8 {
        (seq!['F', 'L', 'E', 'X'], Position::FLEX)
    } else if i == 9 {
        (seq!['W', '/', 'R', '/', 'T'], Position::FLEX)
    } else if i == 10 {
        (seq!['S', 'U', 'P', 'E', 'R', 'F', 'L', 'E', 'X'], Position::SUPERFLEX)
    } else if i == 11 {
        (seq!['S', 'U', 'P', 'E', 'R', '_', 'F', 'L', 'E', 'X'], Position::SUPERFLEX)
    } else if i == 12 {
        (seq!['O', 'P'], Position::SUPERFLEX)
    } else if i == 13 {
        (seq!['B', 'N'], Position::BENCH)
    } else if i == 14 {
        (seq!['B', 'E', 'N', 'C', 'H'], Position::BENCH)
    } else if i == 15 {
        (seq!['I', 'R'], Position::IR)
    } else {
        (seq![], Position::Unknown)
    }
}

/// The position named by the upper-cased `u`, searching the table from entry `i`.
pub open spec fn named_from(u: Seq<char>, i: int) -> Position
    decreases name_count() - i,
{
    if i < 0 || i >= name_count() {
        Position::Unknown
    } else if u == name_entry(i).0 {
        name_entry(i).1
    } else {
        named_from(u, i + 1)
    }
}

/// The position that a name stands for, compared without regard to ASCII case:
/// the first entry of the name table equal to the upper-cased name, else `Unknown`.
pub open spec fn position_named(s: Seq<char>) -> Position {
    named_from(upper(s), 0)
}

fn name_entry_exec(i: usize) -> (r: (Vec<char>, Position))
    requires
        i < name_count(),
    ensures
        r.0@ == name_entry(i as int).0,
        r.1 == name_entry(i as int).1,
{
    match i {
        0 => (vec!['Q', 'B'], Position::QB),
        1 => (vec!['R', 'B'], Position::RB),
        2 => (vec!['W', 'R'], Position::WR),
        3 => (vec!['T', 'E'], Position::TE),
        4 => (vec!['K'], Position::K),
        5 => (vec!['D', 'S', 'T'], Position::DST),
        6 => (vec!['D', 'E', 'F'], Position::DST),
        7 => (vec!['D', '/', 'S', 'T'], Position::DST),
        8 => (vec!['F', 'L', 'E', 'X'], Position::FLEX),
        9 => (vec!['W', '/', 'R', '/', 'T'], Position::FLEX),
        10 => (vec!['S', 'U', 'P', 'E', 'R', 'F', 'L', 'E', 'X'], Position::SUPERFLEX),
        11 => (vec!['S', 'U', 'P', 'E', 'R', '_', 'F', 'L', 'E', 'X'], Position::SUPERFLEX),
        12 => (vec!['O', 'P'], Position::SUPERFLEX),
        13 => (vec!['B', 'N'], Position::BENCH),
        14 => (vec!['B', 'E', 'N', 'C', 'H'], Position::BENCH),
        15 => (vec!['I', 'R'], Position::IR),
        _ => (vec![], Position::Unknown),
    }
}

/// The short label of a position.
pub open spec fn position_label(p: Position) -> Seq<char> {
    match p {
        Position::QB => seq!['Q', 'B'],
        Position::RB => seq!['R', 'B'],
        Position::WR => seq!['W', 'R'],
        Position::TE => seq!['T', 'E'],
        Position::K => seq!['K'],
        Position::DST => seq!['D', 'S', 'T'],
        Position::FLEX => seq!['F', 'L', 'E', 'X'],
        Position::SUPERFLEX => seq!['S', 'U', 'P', 'E', 'R', 'F', 'L', 'E', 'X'],
        Position::BENCH => seq!['B', 'N'],
        Position::IR => seq!['I', 'R'],
        Position::Unknown => seq!['?'],
    }
}

/// Whether a player of position `pos` may fill lineup slot `slot`.
pub open spec fn spec_eligible(pos: Position, slot: Position) -> bool {
    match slot {
        Position::FLEX => pos == Position::RB || pos == Position::WR || pos == Position::TE,
        Position::SUPERFLEX => pos == Position::QB || pos == Position::RB || pos == Position::WR
            || pos == Position::TE,
        _ => pos == slot,
    }
}

/// Whether a slot is a starting slot (not bench, IR or unknown).
pub open spec fn spec_is_starter_slot(p: Position) -> bool {
    p != Position::BENCH && p != Position::IR && p != Position::Unknown
}

impl Position {
    /// Parses a position or slot name such as `"QB"`, `"DEF"`, `"W/R/T"` or `"BN"`,
    /// ignoring ASCII case. Anything unrecognised is `Unknown`.
    pub fn from_chars(v: &Vec<char>) -> (p: Position)
        ensures
            p == position_named(v@),
    {
        let u = upper_chars(v);
        let mut i: usize = 0;
        while i < 16
            invariant
                i <= name_count(),
                u@ == upper(v@),
                named_from(u@, 0) == named_from(u@, i as int),
            decreases 16 - i,
        {
            let (w, pos) = name_entry_exec(i);
            if chars_eq(&u, &w) {
                assert(named_from(u@, i as int) == pos);
                return pos;
            }
            i = i + 1;
        }
        Position::Unknown
    }

    /// Parses a position name held in a string slice (see [`Position::from_chars`]).
    pub fn from_str(s: &str) -> (p: Position)
        ensures
            p == position_named(s@),
    {
        Position::from_chars(&chars_of(s))
    }

    /// The short label of the position, as shown to users and in prompts.
    pub fn label_chars(&self) -> (r: Vec<char>)
        ensures
            r@ == position_label(*self),
    {
        match self {
            Position::QB => vec!['Q', 'B'],
            Position::RB => vec!['R', 'B'],
            Position::WR => vec!['W', 'R'],
            Position::TE => vec!['T', 'E'],
            Position::K => vec!['K'],
            Position::DST => vec!['D', 'S', 'T'],
            Position::FLEX => vec!['F', 'L', 'E', 'X'],
            Position::SUPERFLEX => vec!['S', 'U', 'P', 'E', 'R', 'F', 'L', 'E', 'X'],
            Position::BENCH => vec!['B', 'N'],
            Position::IR => vec!['I', 'R'],
            Position::Unknown => vec!['?'],
        }
    }

    /// The short label of the position as a `String`.
    pub fn label(&self) -> (r: String)
        ensures
            r@ == position_label(*self),
    {
        string_of(&self.label_chars())
    }

    /// Whether the slot is a starting slot.
    pub fn is_starter_slot(&self) -> (r: bool)
        ensures
            r == spec_is_starter_slot(*self),
    {
        match self {
            Position::BENCH | Position::IR | Position::Unknown => false,
            _ => true,
        }
    }

    /// Whether a player whose position is `self` may fill `slot`.
    pub fn eligible_for(&self, slot: Position) -> (r: bool)
        ensures
            r == spec_eligible(*self, slot),
    {
        match slot {
            Position::FLEX => *self == Position::RB || *self == Position::WR || *self
                == Position::TE,
            Position::SUPERFLEX => *self == Position::QB || *self == Position::RB || *self
                == Position::WR || *self == Position::TE,
            _ => *self == slot,
        }
    }
}

/// Parsing the label of a position gives the position back.
pub proof fn lemma_position_label_roundtrip(p: Position)
    ensures
        position_named(position_label(p)) == p,
{
    let l = position_label(p);
    assert(upper(l) =~= l);
    reveal_with_fuel(named_from, 17);
    assert forall|i: int| 0 <= i < name_count() && name_entry(i).1 != p implies l != name_entry(i).0 by {
        let w = name_entry(i).0;
        if l.len() == w.len() {
            if l[0] == w[0] {
                if l.len() > 1 && l[1] == w[1] {
                    assert(l[l.len() - 1] != w[w.len() - 1] || l[2] != w[2]);
                }
            }
        }
    }
}


/// Entry `i` of the table of accepted status names (upper case) and the status each stands for.
pub open spec fn status_entry(i: int) -> (Seq<char>, PlayerStatus) {
    if i == 0 {
        (seq!['A', 'C', 'T', 'I', 'V', 'E'], PlayerStatus::Healthy)
    } else if i == 1 {
        (seq!['H', 'E', 'A', 'L', 'T', 'H', 'Y'], PlayerStatus::Healthy)
    } else if i == 2 {
        (seq!['N', 'O', 'R', 'M', 'A', 'L'], PlayerStatus::Healthy)
    } else if i == 3 {
        (seq!['O', 'K'], PlayerStatus::Healthy)
    } else if i == 4 {
        (seq!['Q', 'U', 'E', 'S', 'T', 'I', 'O', 'N', 'A', 'B', 'L', 'E'], PlayerStatus::Questionable)
    } else if i == 5 {
        (seq!['Q'], PlayerStatus::Questionable)
    } else if i == 6 {
        (seq!['D', 'O', 'U', 'B', 'T', 'F', 'U', 'L'], PlayerStatus::Doubtful)
    } else if i == 7 {
        (seq!['D'], PlayerStatus::Doubtful)
    } else if i == 8 {
        (seq!['O', 'U', 'T'], PlayerStatus::Out)
    } else if i == 9 {
        (seq!['O'], PlayerStatus::Out)
    } else if i == 10 {
        (seq!['I', 'R'], PlayerStatus::IR)
    } else if i == 11 {
        (seq!['I', 'N', 'J', 'U', 'R', 'Y', '_', 'R', 'E', 'S', 'E', 'R', 'V', 'E'], PlayerStatus::IR)
    } else if i == 12 {
        (seq!['S', 'U', 'S', 'P', 'E', 'N', 'S', 'I', 'O', 'N'], PlayerStatus::Suspended)
    } else if i == 13 {
        (seq!['S', 'U', 'S', 'P', 'E', 'N', 'D', 'E', 'D'], PlayerStatus::Suspended)
    } else if i == 14 {
        (seq!['S', 'U', 'S', 'P'], PlayerStatus::Suspended)
    } else if i == 15 {
        (seq!['S', 'U', 'S'], PlayerStatus::Suspended)
    } else {
        (seq![], PlayerStatus::Unknown)
    }
}

fn status_entry_exec(i: usize) -> (r: (Vec<char>, PlayerStatus))
    requires
        i < 16,
    ensures
        r.0@ == status_entry(i as int).0,
        r.1 == status_entry(i as int).1,
{
    match i {
        0 => (vec!['A', 'C', 'T', 'I', 'V', 'E'], PlayerStatus::Healthy),
        1 => (vec!['H', 'E', 'A', 'L', 'T', 'H', 'Y'], PlayerStatus::Healthy),
        2 => (vec!['N', 'O', 'R', 'M', 'A', 'L'], PlayerStatus::Healthy),
        3 => (vec!['O', 'K'], PlayerStatus::Healthy),
        4 => (vec!['Q', 'U', 'E', 'S', 'T', 'I', 'O', 'N', 'A', 'B', 'L', 'E'], PlayerStatus::Questionable),
        5 => (vec!['Q'], PlayerStatus::Questionable),
        6 => (vec!['D', 'O', 'U', 'B', 'T', 'F', 'U', 'L'], PlayerStatus::Doubtful),
        7 => (vec!['D'], PlayerStatus::Doubtful),
        8 => (vec!['O', 'U', 'T'], PlayerStatus::Out),
        9 => (vec!['O'], PlayerStatus::Out),
        10 => (vec!['I', 'R'], PlayerStatus::IR),
        11 => (vec!['I', 'N', 'J', 'U', 'R', 'Y', '_', 'R', 'E', 'S', 'E', 'R', 'V', 'E'], PlayerStatus::IR),
        12 => (vec!['S', 'U', 'S', 'P', 'E', 'N', 'S', 'I', 'O', 'N'], PlayerStatus::Suspended),
        13 => (vec!['S', 'U', 'S', 'P', 'E', 'N', 'D', 'E', 'D'], PlayerStatus::Suspended),
        14 => (vec!['S', 'U', 'S', 'P'], PlayerStatus::Suspended),
        15 => (vec!['S', 'U', 'S'], PlayerStatus::Suspended),
        _ => (vec![], PlayerStatus::Unknown),
    }
}

/// The PlayerStatus named by the upper-cased `u`, searching the table from entry `i`.
pub open spec fn status_named_from(u: Seq<char>, i: int) -> PlayerStatus
    decreases 16 - i,
{
    if i < 0 || i >= 16 {
        PlayerStatus::Unknown
    } else if u == status_entry(i).0 {
        status_entry(i).1
    } else {
        status_named_from(u, i + 1)
    }
}

fn status_lookup(v: &Vec<char>) -> (r: PlayerStatus)
    ensures
        r == status_named_from(upper(v@), 0),
{
    let u = upper_chars(v);
    let mut i: usize = 0;
    while i < 16
        invariant
            i <= 16,
            u@ == upper(v@),
            status_named_from(u@, 0) == status_named_from(u@, i as int),
        decreases 16 - i,
    {
        let (w, x) = status_entry_exec(i);
        if chars_eq(&u, &w) {
            assert(status_named_from(u@, i as int) == x);
            return x;
        }
        i = i + 1;
    }
    PlayerStatus::Unknown
}

/// The status that a provider's status text stands for, ignoring ASCII case:
/// the first entry of the status table equal to it, else `Unknown`.
pub open spec fn status_named(s: Seq<char>) -> PlayerStatus {
    status_named_from(upper(s), 0)
}

/// The short label of a status.
pub open spec fn status_label(s: PlayerStatus) -> Seq<char> {
    match s {
        PlayerStatus::Healthy => seq!['O', 'K'],
        PlayerStatus::Questionable => seq!['Q'],
        PlayerStatus::Doubtful => seq!['D'],
        PlayerStatus::Out => seq!['O'],
        PlayerStatus::IR => seq!['I', 'R'],
        PlayerStatus::Suspended => seq!['S', 'U', 'S'],
        PlayerStatus::Unknown => seq!['?'],
    }
}

impl PlayerStatus {
    /// Parses a status as providers report it (`"QUESTIONABLE"`, `"Q"`, `"INJURY_RESERVE"`, ...).
    pub fn from_chars(v: &Vec<char>) -> (r: PlayerStatus)
        ensures
            r == status_named(v@),
    {
        status_lookup(v)
    }

    /// Parses a status held in a string slice.
    pub fn from_str(s: &str) -> (r: PlayerStatus)
        ensures
            r == status_named(s@),
    {
        status_lookup(&chars_of(s))
    }

    /// The short label of the status.
    pub fn label(&self) -> (r: String)
        ensures
            r@ == status_label(*self),
    {
        let v = match self {
            PlayerStatus::Healthy => vec!['O', 'K'],
            PlayerStatus::Questionable => vec!['Q'],
            PlayerStatus::Doubtful => vec!['D'],
            PlayerStatus::Out => vec!['O'],
            PlayerStatus::IR => vec!['I', 'R'],
            PlayerStatus::Suspended => vec!['S', 'U', 'S'],
            PlayerStatus::Unknown => vec!['?'],
        };
        string_of(&v)
    }
}

/// Parsing the label of a status gives the status back.
pub proof fn lemma_status_label_roundtrip(s: PlayerStatus)
    ensures
        status_named(status_label(s)) == s,
{
    let l = status_label(s);
    assert(upper(l) =~= l);
    reveal_with_fuel(status_named_from, 17);
    assert forall|i: int| 0 <= i < 16 && status_entry(i).1 != s implies l != status_entry(i).0 by {
        let w = status_entry(i).0;
        if l.len() == w.len() {
            assert(l[0] != w[0] || l[l.len() - 1] != w[w.len() - 1]);
        }
    }
}

/// The upper-cased spellings a strategy is known by, with the strategy each
/// names (an empty spelling past the last).
pub open spec fn strategy_entry(i: int) -> (Seq<char>, Strategy) {
    if i == 0 {
        (seq!['C', 'O', 'N', 'S', 'E', 'R', 'V', 'A', 'T', 'I', 'V', 'E'], Strategy::Conservative)
    } else if i == 1 {
        (seq!['B', 'A', 'L', 'A', 'N', 'C', 'E', 'D'], Strategy::Balanced)
    } else if i == 2 {
        (seq!['H', 'I', 'G', 'H', '_', 'S', 'T', 'A', 'K', 'E', 'S'], Strategy::HighStakes)
    } else if i == 3 {
        (seq!['H', 'I', 'G', 'H', '-', 'S', 'T', 'A', 'K', 'E', 'S'], Strategy::HighStakes)
    } else if i == 4 {
        (seq!['H', 'I', 'G', 'H', 'S', 'T', 'A', 'K', 'E', 'S'], Strategy::HighStakes)
    } else {
        (seq![], Strategy::Balanced)
    }
}

fn strategy_entry_exec(i: usize) -> (r: (Vec<char>, Strategy))
    requires
        i < 5,
    ensures
        r.0@ == strategy_entry(i as int).0,
        r.1 == strategy_entry(i as int).1,
{
    match i {
        0 => (vec!['C', 'O', 'N', 'S', 'E', 'R', 'V', 'A', 'T', 'I', 'V', 'E'], Strategy::Conservative),
        1 => (vec!['B', 'A', 'L', 'A', 'N', 'C', 'E', 'D'], Strategy::Balanced),
        2 => (vec!['H', 'I', 'G', 'H', '_', 'S', 'T', 'A', 'K', 'E', 'S'], Strategy::HighStakes),
        3 => (vec!['H', 'I', 'G', 'H', '-', 'S', 'T', 'A', 'K', 'E', 'S'], Strategy::HighStakes),
        4 => (vec!['H', 'I', 'G', 'H', 'S', 'T', 'A', 'K', 'E', 'S'], Strategy::HighStakes),
        _ => (vec![], Strategy::Balanced),
    }
}

/// The Strategy named by the upper-cased `u`, searching the table from entry `i`.
pub open spec fn strategy_named_from(u: Seq<char>, i: int) -> Strategy
    decreases 5 - i,
{
    if i < 0 || i >= 5 {
        Strategy::Balanced
    } else if u == strategy_entry(i).0 {
        strategy_entry(i).1
    } else {
        strategy_named_from(u, i + 1)
    }
}

fn strategy_lookup(v: &Vec<char>) -> (r: Strategy)
    ensures
        r == strategy_named_from(upper(v@), 0),
{
    let u = upper_chars(v);
    let mut i: usize = 0;
    while i < 5
        invariant
            i <= 5,
            u@ == upper(v@),
            strategy_named_from(u@, 0) == strategy_named_from(u@, i as int),
        decreases 5 - i,
    {
        let (w, x) = strategy_entry_exec(i);
        if chars_eq(&u, &w) {
            assert(strategy_named_from(u@, i as int) == x);
            return x;
        }
        i = i + 1;
    }
    Strategy::Balanced
}

/// The strategy named by `s` (ignoring ASCII case), if any entry of the
/// strategy table matches it.
pub open spec fn strategy_named(s: Seq<char>) -> Option<Strategy> {
    let u = upper(s);
    if exists|i: int| 0 <= i < 5 && u == #[trigger] strategy_entry(i).0 {
        Some(strategy_named_from(u, 0))
    } else {
        None
    }
}

/// The configuration name of a strategy.
pub open spec fn strategy_key(s: Strategy) -> Seq<char> {
    match s {
        Strategy::Conservative => "conservative"@,
        Strategy::Balanced => "balanced"@,
        Strategy::HighStakes => "high_stakes"@,
    }
}

/// The display label of a strategy.
pub open spec fn strategy_label(s: Strategy) -> Seq<char> {
    match s {
        Strategy::Conservative => "Conservative"@,
        Strategy::Balanced => "Balanced"@,
        Strategy::HighStakes => "High Stakes"@,
    }
}

/// What a strategy asks of the assistant.
pub open spec fn strategy_guidance(s: Strategy) -> Seq<char> {
    match s {
        Strategy::Conservative => "Strategy: CONSERVATIVE — favor high floors, healthy players and steady volume; avoid questionable starters."@,
        Strategy::Balanced => "Strategy: BALANCED — weigh floor and ceiling evenly; accept modest injury risk for clear upside."@,
        Strategy::HighStakes => "Strategy: HIGH STAKES — chase ceiling and upside; accept injury and variance risk to win big."@,
    }
}

/// The message given back for a strategy name that is not recognised.
pub open spec fn strategy_error(s: Seq<char>) -> Seq<char> {
    "unknown strategy '"@ + s + "' (expected conservative, balanced or high_stakes)"@
}

impl Strategy {
    /// The default strategy.
    pub fn default_strategy() -> (r: Strategy)
        ensures
            r == Strategy::Balanced,
    {
        Strategy::Balanced
    }

    /// Parses a strategy name: `conservative`, `balanced` or `high_stakes`
    /// (also `high-stakes` and `highstakes`), ignoring ASCII case.
    pub fn parse(s: &str) -> (r: Result<Strategy, String>)
        ensures
            match r {
                Ok(x) => strategy_named(s@) == Some(x),
                Err(e) => strategy_named(s@) is None && e@ == strategy_error(s@),
            },
    {
        let v = chars_of(s);
        let u = upper_chars(&v);
        let mut i: usize = 0;
        while i < 5
            invariant
                i <= 5,
                u@ == upper(v@),
                v@ == s@,
                strategy_named_from(u@, 0) == strategy_named_from(u@, i as int),
                forall|k: int| 0 <= k < i ==> u@ != #[trigger] strategy_entry(k).0,
            decreases 5 - i,
        {
            let (w, x) = strategy_entry_exec(i);
            if chars_eq(&u, &w) {
                assert(strategy_named_from(u@, i as int) == x);
                return Ok(x);
            }
            i = i + 1;
        }
        let mut msg = chars_of("unknown strategy '");
        msg = concat_chars(&msg, &v);
        msg = concat_chars(&msg, &chars_of("' (expected conservative, balanced or high_stakes)"));
        Err(string_of(&msg))
    }

    /// The configuration name of the strategy.
    pub fn key(&self) -> (r: String)
        ensures
            r@ == strategy_key(*self),
    {
        match self {
            Strategy::Conservative => "conservative".to_owned(),
            Strategy::Balanced => "balanced".to_owned(),
            Strategy::HighStakes => "high_stakes".to_owned(),
        }
    }

    /// The display label of the strategy.
    pub fn label(&self) -> (r: String)
        ensures
            r@ == strategy_label(*self),
    {
        match self {
            Strategy::Conservative => "Conservative".to_owned(),
            Strategy::Balanced => "Balanced".to_owned(),
            Strategy::HighStakes => "High Stakes".to_owned(),
        }
    }

    /// What the strategy asks of the assistant.
    pub fn guidance(&self) -> (r: &'static str)
        ensures
            r@ == strategy_guidance(*self),
    {
        match self {
            Strategy::Conservative => "Strategy: CONSERVATIVE — favor high floors, healthy players and steady volume; avoid questionable starters.",
            Strategy::Balanced => "Strategy: BALANCED — weigh floor and ceiling evenly; accept modest injury risk for clear upside.",
            Strategy::HighStakes => "Strategy: HIGH STAKES — chase ceiling and upside; accept injury and variance risk to win big.",
        }
    }

    /// The next strategy in the cycle Conservative, Balanced, High Stakes.
    pub fn next(&self) -> (r: Strategy)
        ensures
            r == next_strategy(*self),
    {
        match self {
            Strategy::Conservative => Strategy::Balanced,
            Strategy::Balanced => Strategy::HighStakes,
            Strategy::HighStakes => Strategy::Conservative,
        }
    }
}

/// The strategy after `s` in the cycle Conservative, Balanced, High Stakes.
pub open spec fn next_strategy(s: Strategy) -> Strategy {
    match s {
        Strategy::Conservative => Strategy::Balanced,
        Strategy::Balanced => Strategy::HighStakes,
        Strategy::HighStakes => Strategy::Conservative,
    }
}

/// Cycling the strategy visits every strategy and returns after three steps.
pub proof fn lemma_strategy_cycle(s: Strategy, t: Strategy)
    ensures
        next_strategy(next_strategy(next_strategy(s))) == s,
        next_strategy(s) != s,
        t == s || t == next_strategy(s) || t == next_strategy(next_strategy(s)),
{
}

/// Parsing the configuration name of a strategy gives the strategy back.
pub proof fn lemma_strategy_key_roundtrip(s: Strategy)
    ensures
        strategy_named(strategy_key(s)) == Some(s),
{
    reveal_strlit("conservative");
    reveal_strlit("balanced");
    reveal_strlit("high_stakes");
    let l = strategy_key(s);
    let u = upper(l);
    reveal_with_fuel(strategy_named_from, 6);
    match s {
        Strategy::Conservative => {
            assert(u =~= strategy_entry(0).0);
        },
        Strategy::Balanced => {
            assert(u =~= strategy_entry(1).0);
            assert(u.len() != strategy_entry(0).0.len());
        },
        Strategy::HighStakes => {
            assert(u =~= strategy_entry(2).0);
            assert(u.len() != strategy_entry(0).0.len());
            assert(u.len() != strategy_entry(1).0.len());
        },
    }
}

/// A player on a roster or in the free-agent pool.
#[derive(Clone, Debug)]
pub struct Player {
    pub id: String,
    pub name: String,
    pub position: Position,
    pub roster_slot: Position,
    pub team: String,
    pub status: PlayerStatus,
    pub opponent: Option<String>,
    pub bye_week: Option<u8>,
    pub news: Vec<String>,
}

/// One fantasy team and its players.
#[derive(Clone, Debug)]
pub struct Roster {
    pub team_id: String,
    pub team_name: String,
    pub owner: Option<String>,
    pub players: Vec<Player>,
    pub wins: u32,
    pub losses: u32,
    pub ties: u32,
}

/// Scoring format, starting-slot counts and league size.
#[derive(Clone, Debug)]
pub struct LeagueSettings {
    pub scoring: String,
    pub roster_slots: Vec<(Position, u32)>,
    pub team_count: u32,
}

/// One slot of a lineup; `player` indexes the roster's players.
#[derive(Clone, Copy, Debug, PartialEq, Eq, Structural)]
pub struct LineupSlot {
    pub slot: Position,
    pub player: Option<usize>,
}

/// A lineup over a roster: starters by slot and the bench, both as indices
/// into the roster's players.
#[derive(Clone, Debug)]
pub struct Lineup {
    pub week: u8,
    pub starters: Vec<LineupSlot>,
    pub bench: Vec<usize>,
    pub reasoning: String,
}

/// One pick of a draft.
#[derive(Clone, Debug)]
pub struct DraftPick {
    pub pick_number: u32,
    pub round: u32,
    pub team_id: String,
    pub team_name: String,
    pub player_id: Option<String>,
    pub player_name: Option<String>,
    pub position: Option<Position>,
}

/// The state of a draft.
#[derive(Clone, Debug)]
pub struct DraftState {
    pub picks: Vec<DraftPick>,
    pub current_pick: u32,
    pub on_the_clock_team: Option<String>,
    pub total_rounds: u32,
    pub team_count: u32,
    pub completed: bool,
}

/// The slot counts a league uses when its provider does not report them.
pub open spec fn default_slots() -> Seq<(Position, u32)> {
    seq![
        (Position::QB, 1u32),
        (Position::RB, 2u32),
        (Position::WR, 2u32),
        (Position::TE, 1u32),
        (Position::FLEX, 1u32),
        (Position::DST, 1u32),
        (Position::K, 1u32),
        (Position::BENCH, 6u32),
    ]
}

impl LeagueSettings {
    /// Settings used when a provider reports none: PPR scoring, ten teams and
    /// the slots of [`default_slots`].
    pub fn default_settings() -> (r: LeagueSettings)
        ensures
            r.scoring@ == "ppr"@,
            r.roster_slots@ == default_slots(),
            r.team_count == 10,
    {
        let slots = vec![
            (Position::QB, 1u32),
            (Position::RB, 2u32),
            (Position::WR, 2u32),
            (Position::TE, 1u32),
            (Position::FLEX, 1u32),
            (Position::DST, 1u32),
            (Position::K, 1u32),
            (Position::BENCH, 6u32),
        ];
        LeagueSettings { scoring: "ppr".to_owned(), roster_slots: slots, team_count: 10 }
    }
}

} // verus!
