//! Where input goes.

pub mod config;
pub mod focus;
pub mod router;
