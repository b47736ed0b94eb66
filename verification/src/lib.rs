//! The compression core of a time-series store: a Gorilla-style codec for
//! (timestamp, value) samples, a precision bound for lossy methods, and the
//! taxonomy of compression methods.
//!
//! Values are IEEE-754 doubles held by their raw 64 bits throughout.

pub mod client;
pub mod methods;
