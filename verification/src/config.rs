//! Application settings: where the remote service lives, how to
//! authenticate against it, and two interface preferences. Loading and
//! saving these from disk is the caller's concern.

use vstd::prelude::*;
use vstd::string::*;

use crate::theme::ThemeName;

verus! {

/// The persisted settings.
#[derive(Debug, Clone)]
pub struct Config {
    pub redmine_url: String,
    pub api_key: String,
    pub theme: ThemeName,
    pub exclude_subprojects: bool,
}

impl Config {
    /// Whether both the service address and the key are present, so a
    /// client can be built.
    pub fn is_configured(&self) -> (r: bool)
        ensures
            r == (self.api_key@.len() > 0 && self.redmine_url@.len() > 0),
    {
        self.api_key.as_str().unicode_len() > 0 && self.redmine_url.as_str().unicode_len() > 0
    }
}

impl Default for Config {
    /// An unconfigured setup: empty address and key, the default theme,
    /// and subprojects excluded from issue lists.
    fn default() -> (r: Config)
        ensures
            r.redmine_url@.len() == 0,
            r.api_key@.len() == 0,
            r.theme == ThemeName::Default,
            r.exclude_subprojects == true,
    {
        Config {
            redmine_url: String::new(),
            api_key: String::new(),
            theme: ThemeName::Default,
            exclude_subprojects: true,
        }
    }
}

} // verus!
