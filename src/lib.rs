//! A language server that turns command-line linters and formatters into
//! editor diagnostics and formatting edits.
//!
//! The library holds the server's logic: reading linter output into diagnostics,
//! keeping each document's diagnostics coherent across linters and versions,
//! framing JSON-RPC messages, and the decisions of each request handler. Running
//! processes and talking to the editor are left to the program around it.

pub mod text;
pub mod error;
pub mod pattern;
pub mod config;
pub mod document_version;
pub mod diagnostic_severity;
pub mod diagnostic;
pub mod progress;
pub mod document_diagnostics;
pub mod diagnostics_manager;
pub mod linter_output;
pub mod utils;
pub mod tags;
pub mod tool;
pub mod registry;
pub mod document_storage;
pub mod workspace;
pub mod client;
pub mod job;
pub mod language_server;
pub mod backend;
pub mod ai;
pub mod work_queue;
