//! The extension host: packages, their generations, and the resources that a generation owns.

pub mod announcements;
pub mod capabilities;
pub mod cleanup;
pub mod command;
pub mod context;
pub mod descriptor;
pub mod error;
pub mod events;
pub mod file_access;
pub mod file_batch;
pub mod file_commit;
pub mod file_removal;
pub mod files;
pub mod http;
pub mod ids;
pub mod inventory;
pub mod invocation;
pub mod json;
pub mod lifecycle;
pub mod logs;
pub mod lua_host;
pub mod lua_value;
pub mod luau;
pub mod metadata;
pub mod operations;
pub mod output;
pub mod owners;
pub mod packages;
pub mod processes;
pub mod registrations;
pub mod rights;
pub mod runtime;
pub mod storage;
pub mod storage_files;
pub mod surfaces;
pub mod tasks;
pub mod termination;
