//! Verified core of a Markdown note watcher: block parsing, incremental block
//! diffing, slash commands, local routing signals, prompt construction, layered
//! configuration, and the task store.

pub mod text;
pub mod pipeline;
pub mod incremental;
pub mod config;
pub mod llm;
pub mod tasks;
pub mod watcher;
pub mod store;
pub mod filesystem;
pub mod telemetry;
