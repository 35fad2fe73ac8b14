use vstd::prelude::*;

pub mod text;
pub mod hosts;
pub mod calendar;
pub mod hosts_file;
pub mod json;
pub mod switchhosts;
pub mod app_update;
pub mod intranet;
pub mod mouse_trail;
pub mod spotlight;
pub mod state;
pub mod clipboard;
pub mod windows;
pub mod shortcuts;
pub mod mouse_follow;
pub mod compare_mode;
pub mod brightness;
pub mod plugin_host;
pub mod screensaver;
pub mod overlay_toast;
pub mod tray;
pub mod commands;
pub mod hosts_system;
pub mod autostart;

verus! {

} // verus!
