//! Application settings and where they are stored.

use vstd::prelude::*;
use crate::paths::{join_path, path_join};
use crate::text::opt_view;

verus! {

/// The settings of the application.
#[derive(Debug, Clone, PartialEq, Eq)]
pub struct Settings {
    pub version: String,
}

/// The settings format version written by this library.
pub open spec fn current_settings_version() -> Seq<char> {
    "0.0.1"@
}

/// Why the settings file cannot be located.
#[derive(Debug, Clone, Copy, PartialEq, Eq)]
pub enum SettingsError {
    /// Neither `XDG_CONFIG_HOME` nor `HOME` names a directory.
    NoConfigHome,
}

impl SettingsError {
    /// The message reported for this error.
    pub fn message(&self) -> (m: String)
        ensures
            m@ == "XDG_CONFIG_HOME is not set and HOME is unavailable"@,
    {
        match self {
            SettingsError::NoConfigHome => String::from_str(
                "XDG_CONFIG_HOME is not set and HOME is unavailable",
            ),
        }
    }
}

/// Present and not empty.
pub open spec fn non_empty(v: Option<Seq<char>>) -> bool {
    v matches Some(s) && s.len() > 0
}

/// The configuration directory: `XDG_CONFIG_HOME` when set and not empty,
/// else `HOME` joined with ".config" when set and not empty, else none.
pub open spec fn config_home_of(xdg: Option<Seq<char>>, home: Option<Seq<char>>) -> Option<
    Seq<char>,
> {
    if non_empty(xdg) {
        xdg
    } else if non_empty(home) {
        Some(path_join(home->0, ".config"@))
    } else {
        None
    }
}

/// The directory that holds the settings file, under the configuration
/// directory `config_home`.
pub open spec fn settings_dir_of(config_home: Seq<char>) -> Seq<char> {
    path_join(config_home, "aa_editor"@)
}

/// The settings file under the configuration directory `config_home`.
pub open spec fn settings_file_of(config_home: Seq<char>) -> Seq<char> {
    path_join(settings_dir_of(config_home), "settings.json"@)
}

/// The configuration directory from the values of `XDG_CONFIG_HOME` and
/// `HOME`.
pub fn config_home(xdg: Option<String>, home: Option<String>) -> (res: Result<String, SettingsError>)
    ensures
        match res {
            Ok(dir) => config_home_of(opt_view(xdg), opt_view(home)) == Some(dir@),
            Err(e) => config_home_of(opt_view(xdg), opt_view(home)) is None && e
                == SettingsError::NoConfigHome,
        },
{
    if let Some(x) = xdg {
        if !x.as_str().is_empty() {
            return Ok(x);
        }
    }
    if let Some(h) = home {
        if !h.as_str().is_empty() {
            return Ok(join_path(h.as_str(), ".config"));
        }
    }
    Err(SettingsError::NoConfigHome)
}

impl Settings {
    /// The directory of the settings file, from the values of
    /// `XDG_CONFIG_HOME` and `HOME`.
    pub fn dir(xdg: Option<String>, home: Option<String>) -> (res: Result<String, SettingsError>)
        ensures
            match res {
                Ok(p) => config_home_of(opt_view(xdg), opt_view(home)) matches Some(c) && p@
                    == settings_dir_of(c),
                Err(e) => config_home_of(opt_view(xdg), opt_view(home)) is None && e
                    == SettingsError::NoConfigHome,
            },
    {
        let base = config_home(xdg, home)?;
        Ok(join_path(base.as_str(), "aa_editor"))
    }

    /// The settings file, from the values of `XDG_CONFIG_HOME` and `HOME`.
    pub fn path(xdg: Option<String>, home: Option<String>) -> (res: Result<String, SettingsError>)
        ensures
            match res {
                Ok(p) => config_home_of(opt_view(xdg), opt_view(home)) matches Some(c) && p@
                    == settings_file_of(c),
                Err(e) => config_home_of(opt_view(xdg), opt_view(home)) is None && e
                    == SettingsError::NoConfigHome,
            },
    {
        let dir = Self::dir(xdg, home)?;
        Ok(join_path(dir.as_str(), "settings.json"))
    }
}

impl Default for Settings {
    /// Settings of the current version.
    fn default() -> (s: Self)
        ensures
            s.version@ == current_settings_version(),
    {
        Settings { version: String::from_str("0.0.1") }
    }
}

} // verus!
