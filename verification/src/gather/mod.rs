//! Gathering measurements: patch sequences, formats, capture sessions and
//! gamut probing.

pub mod format;
pub mod gamut;
pub mod probe;
pub mod sequence;
pub mod session;
pub mod time;
