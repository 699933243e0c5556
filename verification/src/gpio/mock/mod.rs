//! File-backed mock chips: one XML document per chip.

pub mod chip;
pub mod config;
pub mod config_laws;
pub mod diff;
pub mod document;
pub mod document_laws;
pub mod events;
pub mod info;
pub mod laws;
pub mod load;
pub mod log;
pub mod log_laws;
pub mod request;
pub mod request_laws;
pub mod save;
pub mod snapshot;
pub mod state;
pub mod state_laws;
pub mod watch;
pub mod watch_laws;
pub mod xml;
