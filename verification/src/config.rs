//! The user's `~/.pikirc` configuration, shared by the CLI and the GUI.
//!
//! ```toml
//! [aliases]
//! today = "vim daily/$(date +'%Y-%m-%d').md"
//!
//! [git]
//! enabled = true          # set to false to turn Git support off completely
//! remotes = ["laptop"]    # remotes `piki sync` and the GUI sync with
//! ```
//!
//! Reading and parsing the file is left to the caller; this module holds the
//! settings and their defaults.
use vstd::prelude::*;
use std::collections::HashMap;
use crate::document::{join_path, path_join};
use crate::text::{chars_of, opt_view, push_str, string_of};

verus! {

/// The whole configuration file.
#[derive(Debug, Clone, PartialEq, Eq)]
pub struct Config {
    /// CLI aliases: `piki <alias>` runs the shell command in the notes dir.
    pub aliases: HashMap<String, String>,
    /// Git support settings.
    pub git: GitConfig,
}

/// The `[git]` section of the configuration file.
#[derive(Debug, Clone, PartialEq, Eq)]
pub struct GitConfig {
    /// Master switch. When `false`, Piki never touches Git.
    pub enabled: bool,
    /// Remotes to sync with.
    ///
    /// * Not set (the default): remotes registered with `piki remote add`, or
    ///   `origin` if that exists. Syncing with neither configured is an error.
    /// * An empty list: never sync. Local commits are still created.
    /// * A list of names: exactly these remotes, all of which must exist.
    pub remotes: Option<Vec<String>>,
}

/// The default of `[git] enabled`.
pub fn default_true() -> (r: bool)
    ensures
        r,
{
    true
}

impl Default for GitConfig {
    fn default() -> (r: Self)
        ensures
            r.enabled,
            r.remotes is None,
    {
        GitConfig { enabled: default_true(), remotes: None }
    }
}

impl Default for Config {
    fn default() -> (r: Self)
        ensures
            r.aliases@ == Map::<String, String>::empty(),
            r.git.enabled,
            r.git.remotes is None,
    {
        Config { aliases: HashMap::new(), git: GitConfig::default() }
    }
}

/// The configuration file's name, next to the notes directory in the home
/// directory.
pub const CONFIG_FILE_NAME: &'static str = ".pikirc";

impl Config {
    /// Location of the configuration file, given the home directory (see
    /// `home_dir_from`): `.pikirc` in it, `None` when there is no home
    /// directory.
    pub fn path(home: Option<&str>) -> (r: Option<String>)
        ensures
            opt_view(r) == match home {
                Some(h) => Some(path_join(h@, CONFIG_FILE_NAME@)),
                None => None,
            },
    {
        match home {
            Some(h) => {
                let hv = chars_of(h);
                let n = chars_of(CONFIG_FILE_NAME);
                let joined = join_path(hv.as_slice(), n.as_slice());
                Some(string_of(joined.as_slice()))
            },
            None => None,
        }
    }

    /// The configuration, given what reading its file gave: no file at all
    /// (or no home directory) yields the defaults; a file that could not be
    /// read or parsed is the error, so the caller can warn instead of running
    /// with the wrong settings.
    pub fn load(file: Option<Result<Config, String>>) -> (r: Result<Config, String>)
        ensures
            match file {
                None => r matches Ok(c) && c.aliases@ == Map::<String, String>::empty()
                    && c.git.enabled && c.git.remotes is None,
                Some(res) => r == res,
            },
    {
        match file {
            None => Ok(Config::default()),
            Some(res) => res,
        }
    }

    /// The error for a configuration file that could not be read.
    pub fn read_error(path: &str, error: &str) -> (r: String)
        ensures
            r@ == "Failed to read "@ + path@ + ": "@ + error@,
    {
        let mut out = chars_of("Failed to read ");
        push_str(&mut out, path);
        push_str(&mut out, ": ");
        push_str(&mut out, error);
        string_of(out.as_slice())
    }

    /// The error for a configuration file that could not be parsed.
    pub fn parse_error(path: &str, error: &str) -> (r: String)
        ensures
            r@ == "Invalid config file "@ + path@ + ": "@ + error@,
    {
        let mut out = chars_of("Invalid config file ");
        push_str(&mut out, path);
        push_str(&mut out, ": ");
        push_str(&mut out, error);
        string_of(out.as_slice())
    }
}

} // verus!
