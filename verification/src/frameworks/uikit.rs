//! UIKit.

pub mod game_laws;
pub mod pending_callback;
pub mod touch_aliases;
pub mod touch_begin;
pub mod touch_laws;
pub mod touch_motion;
pub mod touch_remap;
pub mod touch_target;
pub mod ui_touch;
