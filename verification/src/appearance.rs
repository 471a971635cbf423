//! Light or dark: the appearance the user prefers against the system's.

use vstd::prelude::*;

verus! {

/// The appearance preference of the settings.
#[derive(Debug, Clone, Copy, PartialEq, Eq, Structural)]
pub enum AppearanceMode {
    /// Follow the system.
    System,
    /// Always light.
    Light,
    /// Always dark.
    Dark,
}

/// A theme mode: light or dark.
#[derive(Debug, Clone, Copy, PartialEq, Eq, Structural)]
pub enum ThemeMode {
    Light,
    Dark,
}

/// The mode in effect: the system's when following it, else the one the
/// user fixed.
pub fn effective_theme_mode(preference: AppearanceMode, system_mode: ThemeMode) -> (r: ThemeMode)
    ensures
        r == match preference {
            AppearanceMode::System => system_mode,
            AppearanceMode::Light => ThemeMode::Light,
            AppearanceMode::Dark => ThemeMode::Dark,
        },
{
    match preference {
        AppearanceMode::System => system_mode,
        AppearanceMode::Light => ThemeMode::Light,
        AppearanceMode::Dark => ThemeMode::Dark,
    }
}

} // verus!
