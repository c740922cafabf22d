//! Discovery and supervised execution of multi-process showcase examples.
//!
//! The library holds the decisions of the launcher: how a configuration
//! document becomes an example, which directory entries the catalog walk
//! visits and loads, in which order processes are delayed, spawned and
//! waited on, and how their outcomes add up to the result of a run.
//! Reading files, starting processes and talking to the terminal are left
//! to the caller.

pub mod json;
pub mod config;
pub mod discovery;
pub mod runner;
pub mod scenario;
