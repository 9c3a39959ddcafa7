//! Settings edits requested by the windows.

use vstd::prelude::*;
use crate::types::AppSettings;

verus! {

/// A partial settings update: each `Some` field replaces the stored one
/// (`Some(None)` clears an optional setting).
#[derive(Debug, Clone, PartialEq, Eq)]
pub struct SettingsPatch {
    pub character: Option<Option<String>>,
    pub chatlogs_dir: Option<Option<String>>,
    pub always_on_top: Option<bool>,
    pub gamelogs_dir: Option<Option<String>>,
    pub fc_character: Option<Option<String>>,
    pub ammo_launchers: Option<i64>,
    pub ammo_per_launcher: Option<i64>,
}

pub open spec fn patched<T>(old: T, p: Option<T>) -> T {
    match p {
        Some(v) => v,
        None => old,
    }
}

impl SettingsPatch {
    /// `settings` with this patch's fields in place.
    pub fn apply(self, settings: AppSettings) -> (r: AppSettings)
        ensures
            r.character == patched(settings.character, self.character),
            r.chatlogs_dir == patched(settings.chatlogs_dir, self.chatlogs_dir),
            r.always_on_top == patched(settings.always_on_top, self.always_on_top),
            r.gamelogs_dir == patched(settings.gamelogs_dir, self.gamelogs_dir),
            r.fc_character == patched(settings.fc_character, self.fc_character),
            r.ammo_launchers == patched(settings.ammo_launchers, self.ammo_launchers),
            r.ammo_per_launcher == patched(settings.ammo_per_launcher, self.ammo_per_launcher),
    {
        let mut next = settings;
        if let Some(c) = self.character {
            next.character = c;
        }
        if let Some(d) = self.chatlogs_dir {
            next.chatlogs_dir = d;
        }
        if let Some(a) = self.always_on_top {
            next.always_on_top = a;
        }
        if let Some(d) = self.gamelogs_dir {
            next.gamelogs_dir = d;
        }
        if let Some(f) = self.fc_character {
            next.fc_character = f;
        }
        if let Some(a) = self.ammo_launchers {
            next.ammo_launchers = a;
        }
        if let Some(a) = self.ammo_per_launcher {
            next.ammo_per_launcher = a;
        }
        next
    }
}

} // verus!
