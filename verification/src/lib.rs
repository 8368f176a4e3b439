//! A tree picker over the workspaces, tabs and panes of a terminal
//! multiplexer session: search matching, key bindings, the collapsible tree,
//! the input state machine, row rendering and the host theme accent.

pub mod text;
pub mod search;
pub mod keymap;
pub mod config;
pub mod tree;
pub mod app;
pub mod ui;
pub mod host_theme;
