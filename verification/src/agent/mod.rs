//! The agent: its configuration, its durable records, the publication of finished attempts and
//! what it exchanges with the server.
pub mod config;
pub mod control;
pub mod executor;
pub mod filesystem;
pub mod progress;
pub mod publication;
pub mod reconcile;
pub mod recovery;
pub mod spool;
