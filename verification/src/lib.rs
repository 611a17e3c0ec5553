//! Verified rules of a mirror-synchronisation control plane: configuration, schedules, run and
//! attempt lifecycle, dispatch, log retention, publication recovery and the command line.
pub mod agent;
pub mod cli;
pub mod domain;
pub mod outside;
pub mod path;
pub mod protocol;
pub mod server;
pub mod store;
pub mod text;
