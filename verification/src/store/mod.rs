//! The control plane's tables and every operation on them.
pub mod apply;
pub mod asked;
pub mod cancellation;
pub mod credentials;
pub mod dispatch;
pub mod events;
pub mod keys;
pub mod logs;
pub mod lookup;
pub mod manual;
pub mod migration;
pub mod names;
pub mod nodes;
pub mod planning;
pub mod poll;
pub mod queries;
pub mod ranked;
pub mod restore;
pub mod retire;
pub mod tables;
pub mod ticks;
pub mod wellformed;
