//! The snapshot every front-end reads, and how a background refresh updates it.
use vstd::prelude::*;
use crate::news::NewsItem;
use crate::types::{DraftState, LeagueSettings, Roster};

verus! {

/// A head-to-head matchup of a week.
#[derive(Clone, Debug)]
pub struct Matchup {
    pub week: u8,
    pub home_team: String,
    pub away_team: String,
}

/// What one refresh pass read from the provider and the news feeds.
#[derive(Clone, Debug)]
pub struct Refresh {
    pub week: u8,
    pub settings: Option<LeagueSettings>,
    pub roster: Option<Roster>,
    pub all_rosters: Vec<Roster>,
    pub matchups: Vec<Matchup>,
    pub news: Vec<NewsItem>,
    pub draft: Option<DraftState>,
}

/// The snapshot shared by the front-ends.
#[derive(Clone, Debug)]
pub struct AppData {
    pub roster: Option<Roster>,
    pub all_rosters: Vec<Roster>,
    pub settings: Option<LeagueSettings>,
    pub week: u8,
    pub matchups: Vec<Matchup>,
    pub news: Vec<NewsItem>,
    pub draft: Option<DraftState>,
    /// When the last refresh finished, in seconds on the caller's clock.
    pub last_refresh: Option<u64>,
    pub last_error: Option<String>,
}

impl Default for AppData {
    /// An empty snapshot: nothing read yet, week 0, no error.
    fn default() -> (r: AppData)
        ensures
            r.roster is None,
            r.all_rosters.len() == 0,
            r.settings is None,
            r.week == 0,
            r.matchups.len() == 0,
            r.news.len() == 0,
            r.draft is None,
            r.last_refresh is None,
            r.last_error is None,
    {
        AppData {
            roster: None,
            all_rosters: Vec::new(),
            settings: None,
            week: 0,
            matchups: Vec::new(),
            news: Vec::new(),
            draft: None,
            last_refresh: None,
            last_error: None,
        }
    }
}

/// The week to refresh: the provider's current week, or 1 when it cannot say.
pub fn refresh_week(current: Option<u8>) -> (r: u8)
    ensures
        r == match current {
            Some(w) => w,
            None => 1u8,
        },
{
    match current {
        Some(w) => w,
        None => 1,
    }
}

impl AppData {
    /// Takes in a finished refresh: every field read replaces the old one, the
    /// refresh time is `now` and the last error is cleared.
    pub fn record_refresh(&mut self, r: Refresh, now: u64)
        ensures
            final(self).week == r.week,
            final(self).settings == r.settings,
            final(self).roster == r.roster,
            final(self).all_rosters == r.all_rosters,
            final(self).matchups == r.matchups,
            final(self).news == r.news,
            final(self).draft == r.draft,
            final(self).last_refresh == Some(now),
            final(self).last_error is None,
    {
        self.week = r.week;
        self.settings = r.settings;
        self.roster = r.roster;
        self.all_rosters = r.all_rosters;
        self.matchups = r.matchups;
        self.news = r.news;
        self.draft = r.draft;
        self.last_refresh = Some(now);
        self.last_error = None;
    }

    /// Records a failed refresh: only the last error changes.
    pub fn record_error(&mut self, message: String)
        ensures
            final(self).last_error == Some(message),
            final(self).week == old(self).week,
            final(self).settings == old(self).settings,
            final(self).roster == old(self).roster,
            final(self).all_rosters == old(self).all_rosters,
            final(self).matchups == old(self).matchups,
            final(self).news == old(self).news,
            final(self).draft == old(self).draft,
            final(self).last_refresh == old(self).last_refresh,
    {
        self.last_error = Some(message);
    }
}

} // verus!
