//! User preferences, stored as `settings.toml` in the application's local
//! data directory. Missing or unreadable settings fall back to the
//! defaults; reading and writing the file is the caller's.
use vstd::prelude::*;
use crate::gui::window_state::{data_file, data_file_of, opt_str};
use crate::text::opt_view;

verus! {

pub const SETTINGS_FILE_NAME: &'static str = "settings.toml";

/// The user's preferences.
#[derive(Debug, Clone)]
pub struct Settings {
    /// Whether the editor pauses for two caret positions at inline-style
    /// boundaries (inserting before or after the style). On by default.
    pub style_boundary_stops: bool,
}

impl Default for Settings {
    fn default() -> (r: Self)
        ensures
            r.style_boundary_stops,
    {
        Settings { style_boundary_stops: true }
    }
}

impl Settings {
    /// The settings file in the application's local data directory.
    pub fn path(data_dir: Option<&str>) -> (r: Option<String>)
        ensures
            opt_view(r) == data_file_of(opt_str(data_dir), SETTINGS_FILE_NAME@),
    {
        data_file(data_dir, SETTINGS_FILE_NAME)
    }

    /// The settings, given what reading and parsing their file gave: the
    /// defaults when there was nothing usable.
    pub fn from_loaded(loaded: Option<Settings>) -> (r: Settings)
        ensures
            match loaded {
                Some(s) => r == s,
                None => r.style_boundary_stops,
            },
    {
        match loaded {
            Some(s) => s,
            None => Settings::default(),
        }
    }
}

} // verus!
