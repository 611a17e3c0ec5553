//! Infrastructure-independent types and transitions.
pub mod bundle;
pub mod compile;
pub mod config;
pub mod cron;
pub mod duration;
pub mod ids;
pub mod schedule;
pub mod state;
