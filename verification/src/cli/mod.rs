//! The command line: its settings, what it asks the server for, and what it makes of the answers.
pub mod errors;
pub mod files;
pub mod logs;
pub mod output;
pub mod query;
pub mod requests;
pub mod settings;
