//! The codes of the C library, and what its return values mean.

pub mod convert;
