//! Desktop preference changes: what to change on the platform before the settings
//! are saved, and what to restore when saving fails.
use crate::settings::{Config, Error};
use crate::text::owned;
use vstd::prelude::*;

verus! {

/// Platform changes, applied tray first: the new tray and autostart states, where
/// they change.
#[derive(Clone, Copy, Debug, PartialEq, Eq, Structural)]
pub struct Changes {
    pub tray: Option<bool>,
    pub autostart: Option<bool>,
}

/// The platform changes a validated configuration needs.
pub fn changes(configuration: &Config, old_autostart: bool, old_tray: bool) -> (result: Changes)
    ensures
        result.tray == if old_tray != configuration.tray_enabled {
            Some(configuration.tray_enabled)
        } else {
            None
        },
        result.autostart == if old_autostart != configuration.autostart {
            Some(configuration.autostart)
        } else {
            None
        },
{
    Changes {
        tray: if old_tray != configuration.tray_enabled {
            Some(configuration.tray_enabled)
        } else {
            None
        },
        autostart: if old_autostart != configuration.autostart {
            Some(configuration.autostart)
        } else {
            None
        },
    }
}

/// What to restore after a failed save: each preference that no longer has its
/// old state goes back to it. `current_autostart` is `None` when the platform could
/// not report it, which counts as a failed restore.
pub fn rollback(old_autostart: bool, old_tray: bool, current_autostart: Option<bool>, current_tray: bool) -> (result: (
    Changes,
    bool,
))
    ensures
        result.0.autostart == match current_autostart {
            Some(a) => if a != old_autostart {
                Some(old_autostart)
            } else {
                None
            },
            None => None,
        },
        result.0.tray == if current_tray != old_tray {
            Some(old_tray)
        } else {
            None
        },
        result.1 == (current_autostart is None),
{
    (
        Changes {
            autostart: match current_autostart {
                Some(a) => if a != old_autostart {
                    Some(old_autostart)
                } else {
                    None
                },
                None => None,
            },
            tray: if current_tray != old_tray {
                Some(old_tray)
            } else {
                None
            },
        },
        current_autostart.is_none(),
    )
}

/// The error a failed save reports: the save's own error when the desktop state
/// was restored, otherwise a request to save again.
pub fn failed_save(error: Error, restored: bool) -> (result: Error)
    ensures
        restored ==> result == error,
        !restored ==> result.code@ == "desktop_restore"@ && result.message@
            == "Settings were not saved and desktop preferences could not be restored. Open Settings and save again to reconcile them."@,
{
    if restored {
        error
    } else {
        Error {
            code: "desktop_restore",
            message: owned(
                "Settings were not saved and desktop preferences could not be restored. Open Settings and save again to reconcile them.",
            ),
        }
    }
}

} // verus!
