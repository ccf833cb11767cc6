//! Verified core of the nat20 developer GUI: text formatting rules, window
//! layout bookkeeping, the settings store and the decision state machines of
//! the level-up, encounter and action-bar windows.
use vstd::prelude::*;

pub mod anchor;
pub mod combat;
pub mod creation;
pub mod debug;
pub mod effects;
pub mod event_log;
pub mod geometry;
pub mod inventory;
pub mod level_up;
pub mod log_text;
pub mod menu;
pub mod reactions;
pub mod settings;
pub mod sheet;
pub mod spawn;
pub mod spellbook;
pub mod tables;
pub mod text;
pub mod time;

verus! {

} // verus!
