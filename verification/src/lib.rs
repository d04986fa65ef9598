//! Verified core of the Glas command-line tool: argument parsing, the JSON
//! reader and writer, text rendering for the console and for the generated
//! scripts, and the decisions that the commands take on plain values.

pub mod text;
pub mod json;
pub mod json_laws;
pub mod json_roundtrip;
pub mod installer;
pub mod path;
pub mod server;
pub mod num;
pub mod utils;
pub mod releases;
pub mod cli;
pub mod lint;
pub mod test_runner;
pub mod quickjs;
pub mod order;
pub mod watch;
pub mod audit;
pub mod dev;
pub mod dev_http;
pub mod commands;
pub mod packages;
pub mod project;
pub mod net;
pub mod setup;
pub mod bundle;
pub mod laws;
pub mod audit_laws;
