//! Configuration: the settings file's sections, their defaults, the API-key
//! fallback and where the settings file is looked for.
use vstd::prelude::*;
use crate::text::{chars_of, concat_chars, string_of, trim, trim_chars};
use crate::types::Strategy;

verus! {

/// The assistant (Anthropic) section.
#[derive(Clone, Debug)]
pub struct AnthropicConfig {
    /// API key; when empty, the `ANTHROPIC_API_KEY` environment variable is used.
    pub api_key: String,
    pub model: String,
    pub max_tokens: u32,
}

/// The Sleeper section.
#[derive(Clone, Debug)]
pub struct SleeperConfig {
    /// Sleeper username or numeric user id.
    pub username: String,
    /// May be empty: the league is then discovered from the user's leagues.
    pub league_id: String,
    /// May be empty: the draft is then the one the league names.
    pub draft_id: String,
}

/// General settings.
#[derive(Clone, Debug)]
pub struct Settings {
    pub strategy: Strategy,
    pub refresh_seconds: u64,
    pub news_sources: Vec<String>,
}

/// The whole settings file.
#[derive(Clone, Debug)]
pub struct Config {
    pub anthropic: AnthropicConfig,
    pub sleeper: SleeperConfig,
    pub settings: Settings,
}

/// The model used when the settings file names none: no model is assumed
/// here, so the name is empty and the settings file is expected to give one.
pub fn default_model() -> (r: String)
    ensures
        r@ == Seq::<char>::empty(),
{
    String::new()
}

/// The response-length limit used when the settings file names none.
pub fn default_max_tokens() -> (r: u32)
    ensures
        r == 2048,
{
    2048
}

/// The refresh interval, in seconds, used when the settings file names none.
pub fn default_refresh() -> (r: u64)
    ensures
        r == 900,
{
    900
}

/// The news feeds used when the settings file names none.
pub fn default_news() -> (r: Vec<String>)
    ensures
        r.len() == 2,
        r@[0]@ == "https://www.espn.com/espn/rss/nfl/news"@,
        r@[1]@ == "https://api.sleeper.app/news/nfl/rss"@,
{
    let mut v: Vec<String> = Vec::new();
    v.push("https://www.espn.com/espn/rss/nfl/news".to_owned());
    v.push("https://api.sleeper.app/news/nfl/rss".to_owned());
    v
}

impl Default for Settings {
    fn default() -> (r: Settings)
        ensures
            r.strategy == Strategy::Balanced,
            r.refresh_seconds == 900,
            r.news_sources.len() == 2,
            r.news_sources@[0]@ == "https://www.espn.com/espn/rss/nfl/news"@,
            r.news_sources@[1]@ == "https://api.sleeper.app/news/nfl/rss"@,
    {
        Settings {
            strategy: Strategy::default_strategy(),
            refresh_seconds: default_refresh(),
            news_sources: default_news(),
        }
    }
}

impl Default for AnthropicConfig {
    /// An empty section: no key, no model, no token limit (what an absent
    /// section reads as).
    fn default() -> (r: AnthropicConfig)
        ensures
            r.api_key@ == Seq::<char>::empty(),
            r.model@ == Seq::<char>::empty(),
            r.max_tokens == 0,
    {
        AnthropicConfig { api_key: String::new(), model: String::new(), max_tokens: 0 }
    }
}

impl Default for SleeperConfig {
    fn default() -> (r: SleeperConfig)
        ensures
            r.username@ == Seq::<char>::empty(),
            r.league_id@ == Seq::<char>::empty(),
            r.draft_id@ == Seq::<char>::empty(),
    {
        SleeperConfig { username: String::new(), league_id: String::new(), draft_id: String::new() }
    }
}

impl Config {
    /// Fills an empty API key from the environment's value, when there is one;
    /// a key given in the file is kept.
    pub fn apply_api_key_fallback(&mut self, env_key: Option<String>)
        ensures
            final(self).anthropic.api_key@ == if old(self).anthropic.api_key@.len() == 0
                && env_key is Some {
                env_key->0@
            } else {
                old(self).anthropic.api_key@
            },
            final(self).anthropic.model == old(self).anthropic.model,
            final(self).anthropic.max_tokens == old(self).anthropic.max_tokens,
            final(self).sleeper == old(self).sleeper,
            final(self).settings == old(self).settings,
    {
        if self.anthropic.api_key.as_str().is_empty() {
            if let Some(k) = env_key {
                self.anthropic.api_key = k;
            }
        }
    }
}

impl Config {
    /// Replaces the API key with an override given by the client, when the
    /// override is not empty.
    pub fn apply_key_override(&mut self, key: Option<String>)
        ensures
            final(self).anthropic.api_key@ == match key {
                Some(k) => if k@.len() > 0 {
                    k@
                } else {
                    old(self).anthropic.api_key@
                },
                None => old(self).anthropic.api_key@,
            },
            final(self).anthropic.model == old(self).anthropic.model,
            final(self).anthropic.max_tokens == old(self).anthropic.max_tokens,
            final(self).sleeper == old(self).sleeper,
            final(self).settings == old(self).settings,
    {
        if let Some(k) = key {
            if !k.as_str().is_empty() {
                self.anthropic.api_key = k;
            }
        }
    }
}

/// Where the settings file is looked for.
#[derive(Clone, Debug)]
pub enum ConfigLocation {
    /// The path given by the `SA_CONFIG` environment variable.
    Custom(String),
    /// `config.yaml` in the working directory.
    Local,
    /// `groks_fantasy/config.yaml` under the user's configuration directory:
    /// the path of that file.
    UserConfigDir(String),
}

/// The settings file under a user configuration directory.
pub open spec fn user_config_file(dir: Seq<char>) -> Seq<char> {
    dir + "/groks_fantasy/config.yaml"@
}

/// Chooses the settings file: the `SA_CONFIG` path when set, else a
/// `config.yaml` in the working directory when it exists, else
/// `groks_fantasy/config.yaml` under the user's configuration directory when
/// there is one, else the local one.
pub fn choose_config_location(
    sa_config: Option<String>,
    local_exists: bool,
    user_config_dir: Option<String>,
) -> (r: ConfigLocation)
    ensures
        match sa_config {
            Some(p) => r == ConfigLocation::Custom(p),
            None => if local_exists {
                r == ConfigLocation::Local
            } else {
                match user_config_dir {
                    Some(d) => r matches ConfigLocation::UserConfigDir(f) && f@ == user_config_file(d@),
                    None => r == ConfigLocation::Local,
                }
            },
        },
{
    match sa_config {
        Some(p) => ConfigLocation::Custom(p),
        None => {
            if local_exists {
                ConfigLocation::Local
            } else {
                match user_config_dir {
                    Some(d) => {
                        let v = concat_chars(&chars_of(d.as_str()), &chars_of("/groks_fantasy/config.yaml"));
                        ConfigLocation::UserConfigDir(string_of(&v))
                    },
                    None => ConfigLocation::Local,
                }
            }
        },
    }
}

/// Whether an API key is usable: it holds something besides whitespace.
pub fn api_key_present(key: &str) -> (r: bool)
    ensures
        r == (trim(key@).len() > 0),
{
    trim_chars(&chars_of(key)).len() > 0
}

} // verus!
