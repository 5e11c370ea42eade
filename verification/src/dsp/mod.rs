//! Sample timing of 1030 MHz interrogations and the integer side of their
//! detection and DPSK demodulation.
pub mod demodulator;
pub mod detector;
pub mod timing;
