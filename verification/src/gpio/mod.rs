//! GPIO lines: the libgpiod vocabulary, the file-backed mock and the libgpiod codes.

pub mod libgpiod;
pub mod mock;
pub mod sys;
pub mod traits;
