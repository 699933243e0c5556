//! Clusters of pins over one document that describes several chips.

pub mod backend;
pub mod cache;
pub mod context;
pub mod document;
pub mod error;
pub mod get;
pub mod indices;
pub mod init;
pub mod laws;
pub mod mock;
pub mod pinspec;
pub mod properties;
pub mod request_laws;
pub mod schedule;
pub mod set;
pub mod snapshot;
pub mod state_laws;
pub mod watch;
