//! Stable string IDs of the tray menu items.
use vstd::prelude::*;

verus! {

pub const EDIT_CONFIG: &'static str = "edit-config";

pub const REVEAL_CONFIG: &'static str = "reveal-config";

pub const RELOAD_CONFIG: &'static str = "reload-config";

pub const SHOW_LOG: &'static str = "show-log";

pub const TOGGLE_LOG: &'static str = "toggle-log";

pub const RESTART: &'static str = "restart";

pub const ABOUT: &'static str = "about";

pub const QUIT: &'static str = "quit";

} // verus!
