//! Line-level authorship tracking between two commits: which lines of the
//! working tree were last written by a human and which by an AI coding agent.

pub mod seen;
pub mod ranges;
pub mod lines;
pub mod identity;
pub mod checkpoint;
pub mod error;
pub mod working_log;
pub mod replay;
pub mod ownership;
pub mod engine;
pub mod authorship;
pub mod stats;
pub mod recorder;
pub mod conservation;
pub mod laws;
pub mod text;
pub mod commands;
