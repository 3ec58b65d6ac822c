//! The command line: what the arguments ask for, and how results are worded.

pub mod args;
pub mod commands;
pub mod log;
pub mod report;
pub mod sweep;
