//! Decoding of Mode S 1030 MHz uplink interrogations: bit access, CRC and
//! address/parity recovery, uplink format decoders, source specifications,
//! and the integer side of interrogation detection and DPSK demodulation with
//! their sample timing.
pub mod bits;
pub mod crc;
pub mod dsp;
pub mod source;
pub mod stream;
pub mod text;
pub mod decode;

pub use decode::{decode_frame, DecodedUplink, UplinkFormat};
pub use dsp::demodulator::DemodError;
pub use dsp::timing::{
    TimingError, UplinkTiming, DEFAULT_UPLINK_SAMPLE_RATE_HZ, MIN_UPLINK_SAMPLE_RATE_HZ,
};
