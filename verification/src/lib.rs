//! Measuring how a Wayland compositor and a display reproduce colour: the wire
//! protocols of colorimeters, the pixel formats and colour descriptions of the
//! display, the course of a measuring session, its record, and what is made of
//! it.
//!
//! Talking to the hardware and floating-point arithmetic are the caller's, but for
//! the scaling and the dividing of whole numbers ([`scale`], [`quotient`]).
//! Numbers that are not whole come in as the bit patterns of doubles
//! ([`number::Double`]), as exact fractions, or as text that is already printed.

pub mod analyze;
pub mod capture;
pub mod cli;
pub mod display;
pub mod driver;
pub mod gather;
pub mod number;
pub mod quotient;
pub mod scale;
pub mod text;
