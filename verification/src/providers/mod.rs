//! League data providers: their settings, the checks made before a provider
//! is set up, and the conversion of what their APIs report into the league
//! model.
use vstd::prelude::*;
use crate::config::SleeperConfig;
use crate::text::{chars_of, concat_chars, decimal, decimal_chars, string_of};

pub mod espn;
pub mod sleeper;
pub mod yahoo;

verus! {

/// ESPN league settings.
#[derive(Clone, Debug)]
pub struct EspnConfig {
    pub league_id: u64,
    pub season: u32,
    /// Identifies your team; needed for your roster.
    pub team_id: Option<u32>,
    /// Cookies for private leagues.
    pub swid: String,
    pub espn_s2: String,
}

/// Yahoo league settings.
#[derive(Clone, Debug)]
pub struct YahooConfig {
    /// For example `423.l.123456`.
    pub league_key: String,
    /// Identifies your team; needed for your roster.
    pub team_key: Option<String>,
    /// An OAuth2 access token issued elsewhere.
    pub access_token: String,
}

/// Which provider to use, with its settings.
#[derive(Clone, Debug)]
pub enum ProviderConfig {
    Espn(EspnConfig),
    Sleeper(SleeperConfig),
    Yahoo(YahooConfig),
}

/// The kinds of provider.
#[derive(Clone, Copy, Debug, PartialEq, Eq, Structural)]
pub enum ProviderKind {
    Espn,
    Sleeper,
    Yahoo,
}

/// Why a provider cannot be set up or cannot answer.
#[derive(Debug, PartialEq, Eq)]
pub enum ProviderError {
    EspnLeagueIdRequired,
    EspnInvalidCookie,
    EspnTeamIdRequired,
    EspnTeamNotFound(u32),
    SleeperUserRequired,
    SleeperRosterNotFound(String),
    SleeperNoDraft,
    SleeperNoLeague,
    YahooLeagueKeyRequired,
    YahooAccessTokenRequired,
    YahooTeamKeyRequired,
}

/// The message shown for a provider error.
pub open spec fn error_message(e: ProviderError) -> Seq<char> {
    match e {
        ProviderError::EspnLeagueIdRequired => "espn.league_id required"@,
        ProviderError::EspnInvalidCookie => "failed to parse header value"@,
        ProviderError::EspnTeamIdRequired => "espn.team_id required to identify your roster (find it on the My Team page)"@,
        ProviderError::EspnTeamNotFound(id) => "team_id "@ + decimal(id as nat) + " not found in league"@,
        ProviderError::SleeperUserRequired => "sleeper config needs user_id or username to identify your team"@,
        ProviderError::SleeperRosterNotFound(u) => "could not find roster for user "@ + u@,
        ProviderError::SleeperNoDraft => "league has no associated draft yet"@,
        ProviderError::SleeperNoLeague => "no sleeper league found for this user"@,
        ProviderError::YahooLeagueKeyRequired => "yahoo.league_key required (e.g. 423.l.123456)"@,
        ProviderError::YahooAccessTokenRequired => "yahoo.access_token required — run an OAuth2 helper to issue one"@,
        ProviderError::YahooTeamKeyRequired => "yahoo.team_key required to fetch your roster"@,
    }
}

impl ProviderError {
    /// The message shown for the error.
    pub fn message(&self) -> (r: String)
        ensures
            r@ == error_message(*self),
    {
        match self {
            ProviderError::EspnLeagueIdRequired => "espn.league_id required".to_owned(),
            ProviderError::EspnInvalidCookie => "failed to parse header value".to_owned(),
            ProviderError::EspnTeamIdRequired => "espn.team_id required to identify your roster (find it on the My Team page)".to_owned(),
            ProviderError::EspnTeamNotFound(id) => {
                let mut v = chars_of("team_id ");
                v = concat_chars(&v, &decimal_chars(*id as u64));
                v = concat_chars(&v, &chars_of(" not found in league"));
                string_of(&v)
            },
            ProviderError::SleeperUserRequired => "sleeper config needs user_id or username to identify your team".to_owned(),
            ProviderError::SleeperRosterNotFound(u) => {
                let v = concat_chars(&chars_of("could not find roster for user "), &chars_of(u.as_str()));
                string_of(&v)
            },
            ProviderError::SleeperNoDraft => "league has no associated draft yet".to_owned(),
            ProviderError::SleeperNoLeague => "no sleeper league found for this user".to_owned(),
            ProviderError::YahooLeagueKeyRequired => "yahoo.league_key required (e.g. 423.l.123456)".to_owned(),
            ProviderError::YahooAccessTokenRequired => "yahoo.access_token required — run an OAuth2 helper to issue one".to_owned(),
            ProviderError::YahooTeamKeyRequired => "yahoo.team_key required to fetch your roster".to_owned(),
        }
    }
}

/// A character that may stand in an HTTP header value: a tab, or any
/// character from the space on except DEL (characters beyond ASCII encode as
/// bytes that are all allowed).
pub open spec fn header_char_ok(c: char) -> bool {
    c == '\t' || (c as u32 >= 32 && c as u32 != 127)
}

/// Every character of `s` may stand in an HTTP header value.
pub open spec fn header_value_ok(s: Seq<char>) -> bool {
    forall|i: int| 0 <= i < s.len() ==> header_char_ok(#[trigger] s[i])
}

/// Whether `s` is accepted as a header value by `http`'s
/// `HeaderValue::from_str` (as re-exported by reqwest); trusted to accept
/// exactly the texts whose every byte is a tab or at least 32 and not 127,
/// which is [`header_value_ok`] on the characters.
#[verifier::external_body]
fn header_value_accepted(s: &str) -> (r: bool)
    ensures
        r == header_value_ok(s@),
{
    reqwest::header::HeaderValue::from_str(s).is_ok()
}

/// The cookie of a private ESPN league, when both cookies are configured.
pub open spec fn espn_cookie(c: EspnConfig) -> Option<Seq<char>> {
    if c.swid@.len() > 0 && c.espn_s2@.len() > 0 {
        Some("SWID="@ + c.swid@ + "; espn_s2="@ + c.espn_s2@)
    } else {
        None
    }
}

/// The check a provider's settings must pass before it is set up.
pub open spec fn spec_build(cfg: ProviderConfig) -> Result<ProviderKind, ProviderError> {
    match cfg {
        ProviderConfig::Espn(c) => if c.league_id == 0 {
            Err(ProviderError::EspnLeagueIdRequired)
        } else if espn_cookie(c) matches Some(k) && !header_value_ok(k) {
            Err(ProviderError::EspnInvalidCookie)
        } else {
            Ok(ProviderKind::Espn)
        },
        ProviderConfig::Sleeper(c) => if c.league_id@.len() == 0 && c.username@.len() == 0 {
            Err(ProviderError::SleeperUserRequired)
        } else {
            Ok(ProviderKind::Sleeper)
        },
        ProviderConfig::Yahoo(c) => if c.league_key@.len() == 0 {
            Err(ProviderError::YahooLeagueKeyRequired)
        } else if c.access_token@.len() == 0 {
            Err(ProviderError::YahooAccessTokenRequired)
        } else {
            Ok(ProviderKind::Yahoo)
        },
    }
}

/// Checks a provider's settings and tells which provider to set up: ESPN
/// needs a league id and, when both cookies are given, a cookie that can be
/// sent as a header; Sleeper needs a league id or a user whose leagues are
/// searched; Yahoo needs a league key and an access token.
pub fn build(cfg: &ProviderConfig) -> (r: Result<ProviderKind, ProviderError>)
    ensures
        r == spec_build(*cfg),
{
    match cfg {
        ProviderConfig::Espn(c) => if c.league_id == 0 {
            Err(ProviderError::EspnLeagueIdRequired)
        } else {
            match crate::providers::espn::cookie_header(c) {
                Some(k) => if header_value_accepted(k.as_str()) {
                    Ok(ProviderKind::Espn)
                } else {
                    Err(ProviderError::EspnInvalidCookie)
                },
                None => Ok(ProviderKind::Espn),
            }
        },
        ProviderConfig::Sleeper(c) => if c.league_id.as_str().is_empty() && c.username.as_str().is_empty() {
            Err(ProviderError::SleeperUserRequired)
        } else {
            Ok(ProviderKind::Sleeper)
        },
        ProviderConfig::Yahoo(c) => if c.league_key.as_str().is_empty() {
            Err(ProviderError::YahooLeagueKeyRequired)
        } else if c.access_token.as_str().is_empty() {
            Err(ProviderError::YahooAccessTokenRequired)
        } else {
            Ok(ProviderKind::Yahoo)
        },
    }
}

/// The name of a provider.
pub fn provider_name(k: ProviderKind) -> (r: &'static str)
    ensures
        r@ == match k {
            ProviderKind::Espn => "espn"@,
            ProviderKind::Sleeper => "sleeper"@,
            ProviderKind::Yahoo => "yahoo"@,
        },
{
    match k {
        ProviderKind::Espn => "espn",
        ProviderKind::Sleeper => "sleeper",
        ProviderKind::Yahoo => "yahoo",
    }
}

/// The message of the default answer to a request to set a lineup: no
/// provider supports it.
pub fn set_lineup_unsupported() -> (r: String)
    ensures
        r@ == "automatic lineup setting is not yet supported for this provider — apply the recommendation manually"@,
{
    "automatic lineup setting is not yet supported for this provider — apply the recommendation manually".to_owned()
}

/// `"Team "` followed by `id` in decimal.
pub open spec fn team_placeholder(id: nat) -> Seq<char> {
    "Team "@ + decimal(id)
}

/// `"Team "` followed by `id` in decimal.
pub fn team_placeholder_exec(id: u64) -> (r: String)
    ensures
        r@ == team_placeholder(id as nat),
{
    string_of(&concat_chars(&chars_of("Team "), &decimal_chars(id)))
}

/// The number of the pick after the last one, or 1 when there is none.
pub open spec fn spec_next_pick(last: Option<u32>) -> int {
    match last {
        Some(n) => n + 1,
        None => 1,
    }
}

} // verus!
