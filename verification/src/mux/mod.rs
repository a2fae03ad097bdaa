//! Multiplexers: sessions, windows and panes, and the terminals that show them.

pub mod backend;
pub mod command;
pub mod controller;
pub mod order;
pub mod sidebar_meta;
pub mod sidebar_reading;
pub mod snapshot;
pub mod terminal;
