//! Terminal front-end state that does not depend on the terminal: its tabs
//! and how keys move between them.
use vstd::prelude::*;
use crate::text::{chars_of, concat_chars, slice_chars, string_of};
use crate::types::{Strategy, next_strategy, strategy_label};

verus! {

/// The tabs of the terminal front-end, in display order.
#[derive(Clone, Copy, Debug, PartialEq, Eq, Structural)]
pub enum Tab {
    Roster,
    Lineup,
    Draft,
    News,
    Help,
}

/// The place of a tab in display order.
pub open spec fn tab_index(t: Tab) -> int {
    match t {
        Tab::Roster => 0,
        Tab::Lineup => 1,
        Tab::Draft => 2,
        Tab::News => 3,
        Tab::Help => 4,
    }
}

/// The tab at a place in display order.
pub open spec fn tab_at(i: int) -> Tab {
    if i == 0 {
        Tab::Roster
    } else if i == 1 {
        Tab::Lineup
    } else if i == 2 {
        Tab::Draft
    } else if i == 3 {
        Tab::News
    } else {
        Tab::Help
    }
}

impl Tab {
    /// The title of the tab.
    pub fn label(&self) -> (r: &'static str)
        ensures
            r@ == match *self {
                Tab::Roster => "Roster"@,
                Tab::Lineup => "Lineup"@,
                Tab::Draft => "Draft"@,
                Tab::News => "News"@,
                Tab::Help => "Help"@,
            },
    {
        match self {
            Tab::Roster => "Roster",
            Tab::Lineup => "Lineup",
            Tab::Draft => "Draft",
            Tab::News => "News",
            Tab::Help => "Help",
        }
    }

    /// The place of the tab in display order.
    pub fn index(&self) -> (r: usize)
        ensures
            r == tab_index(*self),
    {
        match self {
            Tab::Roster => 0,
            Tab::Lineup => 1,
            Tab::Draft => 2,
            Tab::News => 3,
            Tab::Help => 4,
        }
    }

    /// The tab at place `i` (places past the last give the last tab).
    pub fn at(i: usize) -> (t: Tab)
        ensures
            t == tab_at(i as int),
    {
        if i == 0 {
            Tab::Roster
        } else if i == 1 {
            Tab::Lineup
        } else if i == 2 {
            Tab::Draft
        } else if i == 3 {
            Tab::News
        } else {
            Tab::Help
        }
    }

    /// The tab `dir` places away, wrapping around the five tabs.
    pub fn cycle(&self, dir: i32) -> (t: Tab)
        ensures
            t == tab_at((tab_index(*self) + dir) % 5),
    {
        let idx: i64 = self.index() as i64 + dir as i64;
        let m: i64 = idx % 5;
        let w: i64 = if m < 0 {
            m + 5
        } else {
            m
        };
        assert(w == (tab_index(*self) + dir) % 5);
        Tab::at(w as usize)
    }
}

/// Moving one tab forward and then one back returns to the same tab.
pub proof fn lemma_cycle_back(t: Tab)
    ensures
        tab_at((tab_index(tab_at((tab_index(t) + 1) % 5)) + -1) % 5) == t,
{
}


/// A key press, as far as the front-end tells keys apart.
#[derive(Clone, Copy, Debug, PartialEq, Eq, Structural)]
pub enum Key {
    Char(char),
    Esc,
    Tab,
    BackTab,
    Left,
    Right,
    Other,
}

/// What a key asks the front-end to do.
#[derive(Clone, Copy, Debug, PartialEq, Eq, Structural)]
pub enum Command {
    Quit,
    /// Move this many tabs, wrapping around.
    CycleTab(i32),
    /// Show this tab.
    Show(Tab),
    Refresh,
    Lineup,
    Draft,
    CycleStrategy,
    Nothing,
}

/// The command bound to a key.
pub open spec fn spec_command(k: Key) -> Command {
    match k {
        Key::Esc => Command::Quit,
        Key::Tab | Key::Right => Command::CycleTab(1i32),
        Key::BackTab | Key::Left => Command::CycleTab(-1i32),
        Key::Char(c) => if c == 'q' {
            Command::Quit
        } else if c == '1' {
            Command::Show(Tab::Roster)
        } else if c == '2' {
            Command::Show(Tab::Lineup)
        } else if c == '3' {
            Command::Show(Tab::Draft)
        } else if c == '4' {
            Command::Show(Tab::News)
        } else if c == '?' || c == '5' {
            Command::Show(Tab::Help)
        } else if c == 'r' {
            Command::Refresh
        } else if c == 'l' {
            Command::Lineup
        } else if c == 'd' {
            Command::Draft
        } else if c == 's' {
            Command::CycleStrategy
        } else {
            Command::Nothing
        },
        Key::Other => Command::Nothing,
    }
}

/// The command bound to a key: `q`/Esc quit, Tab/→ and BackTab/← move between
/// tabs, `1`–`5` (and `?` for help) show a tab, `r` refreshes, `l` proposes a
/// lineup, `d` asks for draft suggestions and `s` cycles the strategy.
pub fn command_for(k: Key) -> (c: Command)
    ensures
        c == spec_command(k),
{
    match k {
        Key::Esc => Command::Quit,
        Key::Tab | Key::Right => Command::CycleTab(1i32),
        Key::BackTab | Key::Left => Command::CycleTab(-1i32),
        Key::Char(c) => if c == 'q' {
            Command::Quit
        } else if c == '1' {
            Command::Show(Tab::Roster)
        } else if c == '2' {
            Command::Show(Tab::Lineup)
        } else if c == '3' {
            Command::Show(Tab::Draft)
        } else if c == '4' {
            Command::Show(Tab::News)
        } else if c == '?' || c == '5' {
            Command::Show(Tab::Help)
        } else if c == 'r' {
            Command::Refresh
        } else if c == 'l' {
            Command::Lineup
        } else if c == 'd' {
            Command::Draft
        } else if c == 's' {
            Command::CycleStrategy
        } else {
            Command::Nothing
        },
        Key::Other => Command::Nothing,
    }
}

/// The tab shown after a command: moved or chosen by the tab commands,
/// unchanged by the others.
pub fn tab_after(tab: Tab, c: Command) -> (t: Tab)
    ensures
        t == match c {
            Command::CycleTab(d) => tab_at((tab_index(tab) + d) % 5),
            Command::Show(x) => x,
            _ => tab,
        },
{
    match c {
        Command::CycleTab(d) => tab.cycle(d),
        Command::Show(x) => x,
        _ => tab,
    }
}


/// The state of the terminal front-end that does not depend on the terminal:
/// the tab shown, the strategy in use and the status line.
#[derive(Clone, Debug)]
pub struct UiState {
    pub tab: Tab,
    pub strategy: Strategy,
    pub status: String,
}

/// The status line shown before anything is done.
pub open spec fn welcome_status() -> Seq<char> {
    "Press 'r' to refresh, 'l' for AI lineup, 'd' for draft suggestion, 'q' to quit"@
}

impl UiState {
    /// The front-end as it starts: the roster tab, the given strategy and
    /// the welcome status.
    pub fn new(strategy: Strategy) -> (r: UiState)
        ensures
            r.tab == Tab::Roster,
            r.strategy == strategy,
            r.status@ == welcome_status(),
    {
        UiState {
            tab: Tab::Roster,
            strategy,
            status: "Press 'r' to refresh, 'l' for AI lineup, 'd' for draft suggestion, 'q' to quit".to_owned(),
        }
    }

    /// Moves to the next strategy and says so in the status line
    /// (`Strategy → <label>`); the tab stays.
    pub fn cycle_strategy(&mut self)
        ensures
            final(self).strategy == next_strategy(old(self).strategy),
            final(self).status@ == "Strategy → "@ + strategy_label(final(self).strategy),
            final(self).tab == old(self).tab,
    {
        let s = self.strategy.next();
        self.strategy = s;
        self.status = string_of(&concat_chars(&chars_of("Strategy → "), &chars_of(s.label().as_str())));
    }

    /// Moves `dir` tabs, wrapping around; strategy and status stay.
    pub fn cycle_tab(&mut self, dir: i32)
        ensures
            final(self).tab == tab_at((tab_index(old(self).tab) + dir) % 5),
            final(self).strategy == old(self).strategy,
            final(self).status == old(self).status,
    {
        self.tab = self.tab.cycle(dir);
    }
}

/// `s` cut to at most `max` characters: unchanged when it fits, else its
/// first `max - 1` characters followed by an ellipsis.
pub open spec fn truncate_display(s: Seq<char>, max: nat) -> Seq<char> {
    if s.len() <= max {
        s
    } else {
        s.take(if max == 0 {
            0
        } else {
            max - 1
        }).push('…')
    }
}

/// Cuts `s` to at most `max` characters for display (see [`truncate_display`]).
pub fn truncate(s: &str, max: usize) -> (r: String)
    ensures
        r@ == truncate_display(s@, max as nat),
        r@.len() <= if max == 0 { 1 } else { max as int },
{
    let v = chars_of(s);
    if v.len() <= max {
        string_of(&v)
    } else {
        let keep = if max == 0 {
            0
        } else {
            max - 1
        };
        let mut t = slice_chars(&v, 0, keep);
        t.push('…');
        string_of(&t)
    }
}

} // verus!
