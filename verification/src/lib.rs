//! Tools that read, search, patch and run things below a directory, and the
//! routing that lets one caller reach several executors.

pub mod bytes;
pub mod caller;
pub mod context;
pub mod diff;
pub mod edits;
pub mod error;
pub mod exec;
pub mod executor;
pub mod file_transfer;
pub mod fs_ops;
pub mod globs;
pub mod hash;
pub mod hex;
pub mod json;
pub mod mcp;
pub mod order;
pub mod patch;
pub mod paths;
pub mod protocol;
pub mod settings;
pub mod shape;
pub mod shell_manager;
pub mod stdio;
pub mod table;
pub mod text;
pub mod tools;
pub mod websocket;
