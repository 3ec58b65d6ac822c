//! The i1Display Pro family: reports, unlocking, calibration memory and the
//! adaptive measurement of light frequencies.

pub mod adaptive;
pub mod eeprom;
pub mod emissive;
pub mod report;
pub mod unlock;
