//! Verified core of the GhostScribe push-to-talk client.
use vstd::prelude::*;

pub mod audio;
pub mod client;
pub mod config;
pub mod hotkey;
pub mod linux_hotkey;
pub mod paste;
pub mod ptt;
pub mod text;
pub mod tray;
pub mod upload;
pub mod watcher;

verus! {
} // verus!
