//! Colorimeter drivers: wire protocols, calibration data and measurement
//! decisions. Talking to the USB bus is left to the caller.

pub mod bytes;
pub mod colorimeter;
pub mod confidence;
pub mod i1d3;
pub mod measurement;
pub mod sample;
pub mod spyder;
