//! Procedural melody generation on an equal-tempered pitch lattice.
//!
//! All quantities are fixed-point integers: frequencies are counted in
//! hundredths of a hertz, note lengths and tempi in thousandths of a beat.

pub mod pitch;
pub mod melody;
pub mod tone;
pub mod numeral;
pub mod command;
pub mod config;
