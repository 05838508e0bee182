//! Argus: event formatting, script bundling and command-line rules of a
//! dynamic-behaviour observation tool, with their contracts proved by Verus.
pub mod text;
pub mod cli;
pub mod event;
pub mod console;
pub mod jsonl;
pub mod message;
pub mod paths;
pub mod load;
pub mod runner;
pub mod receive;
