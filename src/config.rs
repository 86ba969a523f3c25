//! Settings of the dashboard and the places of its files under the home
//! directory.

use vstd::prelude::*;
use crate::text::{append, chars_of};

verus! {

/// Settings of the dashboard.
pub struct Config {
    /// Token for the remote task service.
    pub api_token: String,
    /// Numeric id of the user, as text.
    pub user_id: String,
    /// Whether to refresh the tasks at start.
    pub auto_refresh: bool,
}

/// What makes settings unusable.
#[derive(Debug, Clone, Copy, PartialEq, Eq, Structural)]
pub enum ConfigProblem {
    /// `api_token` is empty.
    MissingToken,
    /// `user_id` is empty.
    MissingUserId,
}

/// Value of `auto_refresh` when the settings leave it out.
pub fn default_auto_refresh() -> (r: bool)
    ensures
        r,
{
    true
}

impl Default for Config {
    fn default() -> (r: Self)
        ensures
            r.api_token@.len() == 0,
            r.user_id@.len() == 0,
            r.auto_refresh,
    {
        Config { api_token: String::new(), user_id: String::new(), auto_refresh: true }
    }
}

/// `part` joined below the directory `base`: no separator after an empty
/// base or one that already ends in `/`.
pub open spec fn path_join(base: Seq<char>, part: Seq<char>) -> Seq<char> {
    if base.len() == 0 {
        part
    } else if base.last() == '/' {
        base + part
    } else {
        base + seq!['/'] + part
    }
}

/// Joins `part` below the directory `base`.
pub fn join_path(base: &str, part: &str) -> (r: String)
    ensures
        r@ == path_join(base@, part@),
{
    let chars = chars_of(base);
    let mut r = base.to_string();
    if chars.len() > 0 && chars[chars.len() - 1] != '/' {
        append(&mut r, "/");
        proof {
            reveal_strlit("/");
        }
    }
    append(&mut r, part);
    r
}

impl Config {
    /// Checks that the settings name a token and a user, the token first.
    pub fn validate(&self) -> (r: Result<(), ConfigProblem>)
        ensures
            self.api_token@.len() == 0 ==> r == Err::<(), ConfigProblem>(ConfigProblem::MissingToken),
            self.api_token@.len() > 0 && self.user_id@.len() == 0 ==> r == Err::<(), ConfigProblem>(
                ConfigProblem::MissingUserId,
            ),
            self.api_token@.len() > 0 && self.user_id@.len() > 0 ==> r is Ok,
    {
        if self.api_token.as_str().is_empty() {
            Err(ConfigProblem::MissingToken)
        } else if self.user_id.as_str().is_empty() {
            Err(ConfigProblem::MissingUserId)
        } else {
            Ok(())
        }
    }

    /// The settings directory under the home directory `home`:
    /// `.config/clickup-tui`.
    pub fn config_dir(home: &str) -> (r: String)
        ensures
            r@ == path_join(path_join(home@, ".config"@), "clickup-tui"@),
    {
        let dir = join_path(home, ".config");
        join_path(dir.as_str(), "clickup-tui")
    }

    /// The settings file.
    pub fn config_path(home: &str) -> (r: String)
        ensures
            r@ == path_join(path_join(path_join(home@, ".config"@), "clickup-tui"@), "config.toml"@),
    {
        let dir = Self::config_dir(home);
        join_path(dir.as_str(), "config.toml")
    }

    /// The file of the local overlays (pins, snoozes).
    pub fn state_path(home: &str) -> (r: String)
        ensures
            r@ == path_join(
                path_join(path_join(home@, ".config"@), "clickup-tui"@),
                "local_state.json"@,
            ),
    {
        let dir = Self::config_dir(home);
        join_path(dir.as_str(), "local_state.json")
    }

    /// The file of the cached tasks.
    pub fn cache_path(home: &str) -> (r: String)
        ensures
            r@ == path_join(
                path_join(path_join(home@, ".config"@), "clickup-tui"@),
                "tasks_cache.json"@,
            ),
    {
        let dir = Self::config_dir(home);
        join_path(dir.as_str(), "tasks_cache.json")
    }
}

} // verus!
