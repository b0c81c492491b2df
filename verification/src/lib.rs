//! Local gauge of a coding agent's token consumption: transcript reading
//! and deduplication, the session and weekly windows, open sessions, model
//! table lookup, project memory files, git outcomes of each session's edits,
//! and notification state.
pub mod text;
pub mod json;
pub mod paths;
pub mod scan;
pub mod usage;
pub mod outcome;
pub mod models;
pub mod context;
pub mod memory;
pub mod notify;
pub mod config;
pub mod state;
pub mod icon;
pub mod rtk;
