//! A toolkit for driving the Godot engine from an MCP client.
//!
//! The modules hold the toolkit's rules: how a process's output is cut into lines and kept, when a
//! test run passes, which preset is exported where, how the API reference is searched and cached,
//! which setting wins over which, which transport is served, and what each tool reports. Starting
//! processes, reading files and speaking the protocol is left to whoever uses the library.
pub mod cache;
pub mod config;
pub mod docs;
pub mod export;
pub mod http;
pub mod path;
pub mod process;
pub mod server;
pub mod session;
pub mod settings;
pub mod storage;
pub mod testrun;
pub mod text;
