//! GPIO over newline-delimited JSON: the verified core of the service.

pub mod app;
pub mod app_laws;
pub mod cluster;
pub mod config;
pub mod config_laws;
pub mod consumer;
pub mod document;
pub mod error;
pub mod gpio;
pub mod keys;
pub mod names;
pub mod number;
pub mod number_laws;
pub mod protocol;
pub mod scheduler;
pub mod session;
pub mod system_event;
pub mod system_laws;
pub mod text;
pub mod text_laws;
pub mod transport;
pub mod words_laws;
