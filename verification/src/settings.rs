//! Where the command-line client finds the daemon and its token: flags first, then the
//! configuration file, then the default address.

use vstd::prelude::*;
use crate::config::opt_view;

verus! {

/// The daemon's address when neither a flag nor the configuration file names one.
pub const DEFAULT_URL: &'static str = "http://127.0.0.1:1204";

/// What the client's configuration file may say.
#[derive(Debug)]
pub struct FileConfig {
    pub url: Option<String>,
    pub token: Option<String>,
}

impl Default for FileConfig {
    fn default() -> (f: Self)
        ensures
            f.url.is_none(),
            f.token.is_none(),
    {
        FileConfig { url: None, token: None }
    }
}

/// The address and token the client uses.
#[derive(Debug)]
pub struct Settings {
    pub url: String,
    pub token: Option<String>,
}

/// The first of two optional values that is present.
pub open spec fn or_else(a: Option<Seq<char>>, b: Option<Seq<char>>) -> Option<Seq<char>> {
    match a {
        Some(x) => Some(x),
        None => b,
    }
}

/// Combines the flags with the configuration file: a flag wins over the file, and the
/// address falls back to [`DEFAULT_URL`].
pub fn resolve(flag_url: Option<String>, flag_token: Option<String>, file: FileConfig) -> (s: Settings)
    ensures
        s.url@ == match or_else(opt_view(flag_url), opt_view(file.url)) {
            Some(u) => u,
            None => DEFAULT_URL@,
        },
        opt_view(s.token) == or_else(opt_view(flag_token), opt_view(file.token)),
{
    let url = match flag_url {
        Some(u) => u,
        None => match file.url {
            Some(u) => u,
            None => DEFAULT_URL.to_owned(),
        },
    };
    let token = match flag_token {
        Some(t) => Some(t),
        None => file.token,
    };
    Settings { url, token }
}

/// Where the client's configuration comes from.
#[derive(Debug)]
pub enum ConfigSource {
    /// No file: every setting comes from flags or defaults.
    Defaults,
    /// The file at this path; a missing file counts as an empty one.
    File(String),
}

/// Chooses the configuration file: the one given by flag, else the user's default one
/// where the platform has a configuration directory, else none.
pub fn load_file(explicit: Option<String>, default_path: Option<String>) -> (r: ConfigSource)
    ensures
        match r {
            ConfigSource::Defaults => explicit.is_none() && default_path.is_none(),
            ConfigSource::File(p) => p@ == or_else(opt_view(explicit), opt_view(default_path)).unwrap(),
        },
{
    match explicit {
        Some(p) => ConfigSource::File(p),
        None => match default_path {
            Some(p) => ConfigSource::File(p),
            None => ConfigSource::Defaults,
        },
    }
}


/// A named place of a daemon: its address and token.
#[derive(Debug)]
pub struct Context {
    pub url: String,
    pub token: Option<String>,
}

/// The client's known daemons and the one in use.
#[derive(Debug)]
pub struct ContextsConfig {
    pub current: Option<String>,
    pub contexts: Vec<(String, Context)>,
}

} // verus!
