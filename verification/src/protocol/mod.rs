//! The line protocol: requests, responses and what makes a request valid.

pub mod line;
pub mod pin_names;
pub mod request;
pub mod request_laws;
pub mod response;
