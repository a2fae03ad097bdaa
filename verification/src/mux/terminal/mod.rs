//! Terminals that show a multiplexer's panes.

pub mod pane;
pub mod tmux_codec;
