//! Tracker preferences: their one consistency rule and the errors settings report.
use crate::text::owned;
use vstd::prelude::*;

verus! {

/// Tracker preferences and the selected Codex directory override.
#[derive(Clone, Debug, PartialEq, Eq)]
pub struct Config {
    pub codex_directory_override: Option<String>,
    pub autostart: bool,
    pub tray_enabled: bool,
    pub close_to_tray: bool,
}

impl Default for Config {
    fn default() -> (result: Config)
        ensures
            result.codex_directory_override is None,
            !result.autostart,
            !result.tray_enabled,
            !result.close_to_tray,
    {
        Config {
            codex_directory_override: None,
            autostart: false,
            tray_enabled: false,
            close_to_tray: false,
        }
    }
}

/// A settings error: a stable code and a sentence for people.
#[derive(Clone, Debug)]
pub struct Error {
    pub code: &'static str,
    pub message: String,
}

/// The code and sentence of a rejected combination of preferences.
pub open spec fn invalid_settings() -> (Seq<char>, Seq<char>) {
    ("invalid_settings"@, "Enable the tray before choosing close to tray."@)
}

impl Error {
    /// An error with a code and a sentence.
    pub fn new(code: &'static str, message: &str) -> (result: Error)
        ensures
            result.code == code,
            result.message@ == message@,
    {
        Error { code, message: owned(message) }
    }

    /// Settings or diagnostics could not be read or saved.
    pub fn storage() -> (result: Error)
        ensures
            result.code@ == "storage"@,
            result.message@ == "Tracker settings or diagnostics could not be read or saved."@,
    {
        Error::new("storage", "Tracker settings or diagnostics could not be read or saved.")
    }

    /// The tracker has not started yet.
    pub fn unavailable() -> (result: Error)
        ensures
            result.code@ == "unavailable"@,
            result.message@ == "The tracker is not available yet. Try again shortly."@,
    {
        Error::new("unavailable", "The tracker is not available yet. Try again shortly.")
    }

    /// Another settings change is in progress.
    pub fn busy() -> (result: Error)
        ensures
            result.code@ == "busy"@,
            result.message@ == "The tracker is busy. Try again shortly."@,
    {
        Error::new("busy", "The tracker is busy. Try again shortly.")
    }
}

impl Config {
    /// Closing to the tray needs the tray.
    pub fn validate(&self) -> (result: Result<(), Error>)
        ensures
            result is Ok <==> !(self.close_to_tray && !self.tray_enabled),
            result matches Err(e) ==> e.code@ == invalid_settings().0 && e.message@
                == invalid_settings().1,
    {
        if self.close_to_tray && !self.tray_enabled {
            return Err(
                Error::new("invalid_settings", "Enable the tray before choosing close to tray."),
            );
        }
        Ok(())
    }
}

/// The preferences with the automatic and the monitored directories.
#[derive(Clone, Debug)]
pub struct SettingsView {
    pub config: Config,
    pub automatic_directory: Option<String>,
    pub monitored_directory: Option<String>,
}

/// What the tracker reports about its storage and sources.
#[derive(Clone, Debug)]
pub struct Diagnostics {
    pub database_path: String,
    pub database_size_bytes: u64,
    pub tracked_session_count: u64,
    /// All normalized usage observations, including pending or rejected usage.
    pub usage_record_count: u64,
    pub monitored_directory: Option<String>,
    pub last_successful_ingestion_at_ms: Option<i64>,
    pub source_available: bool,
    pub error: Option<String>,
}


/// The error for a relative directory override.
pub open spec fn relative_override() -> (Seq<char>, Seq<char>) {
    ("invalid_directory"@, "Choose an absolute Codex directory path."@)
}

/// A path separator: `/`, and on Windows also `\`.
pub open spec fn separator(c: char, windows: bool) -> bool {
    c == '/' || (windows && c == '\\')
}

/// An ASCII letter, as a Windows drive is named.
pub open spec fn ascii_letter(c: char) -> bool {
    ('a' <= c && c <= 'z') || ('A' <= c && c <= 'Z')
}

/// A UNC prefix: two separators, a non-empty server name, a separator, and a share
/// name that begins right there.
pub open spec fn unc_prefix(p: Seq<char>) -> bool {
    &&& p.len() >= 2 && separator(p[0], true) && separator(p[1], true)
    &&& exists|i: int|
        2 < i < p.len() - 1 && #[trigger] separator(p[i], true) && !separator(p[i + 1], true)
            && forall|k: int| 2 <= k < i ==> !separator(p[k], true)
}

/// Whether a Windows path text has a prefix and a root: a drive letter, `:` and a
/// separator (`C:\x`); a verbatim `\\?\` or device `\\.\` prefix; or a UNC prefix
/// `\\server\share`.
pub open spec fn windows_absolute(p: Seq<char>) -> bool {
    ||| p.len() >= 3 && ascii_letter(p[0]) && p[1] == ':' && separator(p[2], true)
    ||| p.len() >= 4 && p[0] == '\\' && p[1] == '\\' && p[2] == '?' && p[3] == '\\'
    ||| p.len() >= 4 && separator(p[0], true) && separator(p[1], true) && p[2] == '.' && separator(p[3], true)
    ||| unc_prefix(p)
}

/// Whether a path text is absolute: rooted at `/` on Unix, by `windows_absolute` on
/// Windows.
pub open spec fn absolute_text(path: Seq<char>, windows: bool) -> bool {
    if windows {
        windows_absolute(path)
    } else {
        path.len() > 0 && path[0] == '/'
    }
}

fn is_separator(c: char) -> (result: bool)
    ensures
        result == separator(c, true),
{
    c == '/' || c == '\\'
}

/// Whether the text is an absolute Windows path.
fn windows_absolute_text(value: &str) -> (result: bool)
    ensures
        result == windows_absolute(value@),
{
    let n = value.unicode_len();
    if n >= 3 {
        let c = value.get_char(0);
        let letter = ('a' <= c && c <= 'z') || ('A' <= c && c <= 'Z');
        if letter && value.get_char(1) == ':' && is_separator(value.get_char(2)) {
            return true;
        }
    }
    if n < 2 || !is_separator(value.get_char(0)) || !is_separator(value.get_char(1)) {
        return false;
    }
    if n >= 4 {
        let verbatim = value.get_char(0) == '\\' && value.get_char(1) == '\\' && value.get_char(2) == '?'
            && value.get_char(3) == '\\';
        let device = value.get_char(2) == '.' && is_separator(value.get_char(3));
        if verbatim || device {
            return true;
        }
    }
    let mut i: usize = 2;
    while i < n && !is_separator(value.get_char(i))
        invariant
            2 <= i <= n,
            n == value@.len(),
            forall|k: int| 2 <= k < i ==> !separator(value@[k], true),
        decreases n - i,
    {
        i = i + 1;
    }
    let found = 2 < i && i < n && n - i > 1 && !is_separator(value.get_char(i + 1));
    proof {
        let p = value@;
        if found {
            assert(separator(p[i as int], true));
        } else {
            assert forall|j: int|
                2 < j < p.len() - 1 && #[trigger] separator(p[j], true) && !separator(p[j + 1], true)
                    implies !(forall|k: int| 2 <= k < j ==> !separator(p[k], true)) by {
                if forall|k: int| 2 <= k < j ==> !separator(p[k], true) {
                    if i < j {
                        assert(!separator(p[i as int], true));
                    }
                    assert(j == i);
                }
            }
        }
    }
    found
}

/// Whether a path text is absolute on the platform (see `absolute_text`).
pub fn is_absolute_path(value: &str, windows: bool) -> (result: bool)
    ensures
        result == absolute_text(value@, windows),
{
    if windows {
        windows_absolute_text(value)
    } else {
        value.unicode_len() > 0 && value.get_char(0) == '/'
    }
}

/// A directory override must be an absolute path on the platform.
pub fn check_override(value: &str, windows: bool) -> (result: Result<(), Error>)
    ensures
        result is Ok <==> absolute_text(value@, windows),
        result matches Err(e) ==> e.code@ == relative_override().0 && e.message@ == relative_override().1,
{
    if !is_absolute_path(value, windows) {
        return Err(Error::new("invalid_directory", "Choose an absolute Codex directory path."));
    }
    Ok(())
}

/// The settings view and the directory to monitor: the saved override, given here in
/// its normalized reachable spelling, or else the automatic directory. Invalid
/// preferences and a relative override are refused.
pub fn resolve(config: Config, automatic: Option<String>, normalized_override: Option<String>, windows: bool) -> (result: Result<(
    SettingsView,
    Option<String>,
), Error>)
    ensures
        result is Ok <==> !(config.close_to_tray && !config.tray_enabled) && match config.codex_directory_override {
            Some(o) => absolute_text(o@, windows),
            None => true,
        },
        result matches Err(e) ==> if config.close_to_tray && !config.tray_enabled {
            e.code@ == invalid_settings().0 && e.message@ == invalid_settings().1
        } else {
            e.code@ == relative_override().0 && e.message@ == relative_override().1
        },
        result matches Ok((view, monitored)) ==> {
            let chosen = if config.codex_directory_override is Some { normalized_override } else { automatic };
            &&& view.config == config
            &&& view.automatic_directory == automatic
            &&& view.monitored_directory == chosen
            &&& monitored == chosen
        },
{
    match config.validate() {
        Err(e) => return Err(e),
        Ok(()) => {},
    }
    let monitored = match &config.codex_directory_override {
        Some(value) => {
            match check_override(value.as_str(), windows) {
                Err(e) => return Err(e),
                Ok(()) => {},
            }
            normalized_override
        },
        None => match &automatic {
            Some(a) => Some(a.clone()),
            None => None,
        },
    };
    let shown = match &monitored {
        Some(m) => Some(m.clone()),
        None => None,
    };
    Ok((SettingsView { config, automatic_directory: automatic, monitored_directory: shown }, monitored))
}

} // verus!
