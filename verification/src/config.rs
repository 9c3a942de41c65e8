//! The engine configuration, as given on the command line.

use vstd::prelude::*;

verus! {

/// How the game was started.
pub struct EngineConfig {
    /// Reload assets when their files change.
    pub hot_reload: bool,
    /// The directory to load assets from.
    pub asset_dir: Option<String>,
    /// The game asset to load at startup.
    pub game_asset: String,
    /// Skip the menu and start the game at once.
    pub auto_start: bool,
    /// The log filter.
    pub log_level: String,
}

impl EngineConfig {
    /// Whether the menu music plays: not when the menu is skipped.
    pub fn plays_menu_music(&self) -> (res: bool)
        ensures
            res == !self.auto_start,
    {
        !self.auto_start
    }
}

} // verus!
