//! The display side: pixel formats, colour descriptions, render modes and the
//! patch surface.

pub mod capabilities;
pub mod color_mgmt;
pub mod format;
pub mod mode;
pub mod surface;
