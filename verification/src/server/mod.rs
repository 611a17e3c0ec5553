//! The control plane's server: what it answers, and what it does to the tables.
pub mod access;
pub mod backup;
pub mod failure;
pub mod maintenance;
pub mod metrics;
pub mod observation;
pub mod operations;
pub mod requests;
pub mod restoring;
pub mod run_logs;
pub mod services;
pub mod settings;
pub mod status;
pub mod views;
