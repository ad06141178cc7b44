//! Preferences of the configurator itself, distinct from the Homebrew
//! variables it manages.
use vstd::prelude::*;

verus! {

/// Persisted user preferences.
pub struct AppConfig {
    /// The chosen palette, by name.
    pub theme: Option<String>,
}

impl Default for AppConfig {
    fn default() -> (r: Self)
        ensures
            r.theme is None,
    {
        AppConfig { theme: None }
    }
}

} // verus!
