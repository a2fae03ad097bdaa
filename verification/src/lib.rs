//! The logic of a terminal workspace: extensions and their host, multiplexer sessions and panes,
//! repositories, input routing and the command line.

pub mod bytes;
pub mod cli;
pub mod extensions;
pub mod git;
pub mod host;
pub mod input;
pub mod layout;
pub mod mux;
pub mod native_host;
pub mod new_session;
pub mod outside;
pub mod path;
pub mod platform;
pub mod program_link;
pub mod remote_catalog;
pub mod table;
pub mod text;
pub mod text_set;
