//! Verified core of a scrolling window manager for river: workspaces,
//! focus bookkeeping, window migration between outputs, the overview grid,
//! the layout coordinator and the keybinding state machine.

pub mod actions;
pub mod config;
pub mod keybinding;
pub mod layout;
pub mod manage;
pub mod output;
pub mod overview;
pub mod seat;
pub mod traversal;
pub mod types;
pub mod wm;
