//! Pulse and bit timing of an uplink interrogation in samples.
//!
//! An interrogation is a P1 pulse (0.8 us), a P2 pulse starting 2.0 us after
//! P1, and a P6 pulse starting 3.5 us after P1. P6 begins with a 1.25 us sync
//! phase reversal, then two bit periods, then the DPSK data bits at 4 Mbit/s.
use crate::text::{decimal_text, u64_text};
use vstd::prelude::*;
use vstd::string::StringExecFns;

verus! {

/// Uplink data bit rate.
pub const BIT_RATE_HZ: u32 = 4_000_000;

/// Lowest sample rate the demodulator accepts: two samples per bit.
pub const MIN_UPLINK_SAMPLE_RATE_HZ: u32 = 8_000_000;

/// Sample rate used when none is given.
pub const DEFAULT_UPLINK_SAMPLE_RATE_HZ: u32 = 20_000_000;

/// Durations of the interrogation's parts, in nanoseconds.
pub const P1_DURATION_NS: u64 = 800;
pub const P2_OFFSET_NS: u64 = 2_000;
pub const P2_DURATION_NS: u64 = 800;
pub const P6_OFFSET_NS: u64 = 3_500;
pub const P6_SYNC_NS: u64 = 1_250;

/// Sample counts of the parts of an interrogation at one sample rate.
#[derive(Debug, Clone, Copy, PartialEq, Eq)]
pub struct UplinkTiming {
    pub sample_rate_hz: u32,
    pub samples_per_bit: usize,
    pub p1_samples: usize,
    pub p2_offset_samples: usize,
    pub p2_samples: usize,
    pub p6_offset_samples: usize,
    pub p6_sync_samples: usize,
    pub p6_data_offset_samples: usize,
    pub p6_guard_samples: usize,
}

/// Why a sample rate cannot be used.
#[derive(Debug, Clone, PartialEq, Eq)]
pub enum TimingError {
    SampleRateTooLow { sample_rate_hz: u32, minimum_hz: u32 },
    NonIntegerSamplesPerBit { sample_rate_hz: u32, bit_rate_hz: u32 },
}

impl TimingError {
    /// A one-line description of the error.
    pub fn to_text(&self) -> (t: String)
        ensures
            t@ == match self {
                TimingError::SampleRateTooLow { sample_rate_hz, minimum_hz } => "uplink sample rate "@
                    + decimal_text(*sample_rate_hz as nat) + " Hz is too low; minimum is "@
                    + decimal_text(*minimum_hz as nat) + " Hz"@,
                TimingError::NonIntegerSamplesPerBit { sample_rate_hz, bit_rate_hz } => "sample rate "@
                    + decimal_text(*sample_rate_hz as nat) + " Hz is not an integer multiple of "@
                    + decimal_text(*bit_rate_hz as nat) + " Hz bit rate"@,
            },
    {
        match self {
            TimingError::SampleRateTooLow { sample_rate_hz, minimum_hz } => {
                let mut t = String::from_str("uplink sample rate ");
                t.append(u64_text(*sample_rate_hz as u64).as_str());
                t.append(" Hz is too low; minimum is ");
                t.append(u64_text(*minimum_hz as u64).as_str());
                t.append(" Hz");
                t
            },
            TimingError::NonIntegerSamplesPerBit { sample_rate_hz, bit_rate_hz } => {
                let mut t = String::from_str("sample rate ");
                t.append(u64_text(*sample_rate_hz as u64).as_str());
                t.append(" Hz is not an integer multiple of ");
                t.append(u64_text(*bit_rate_hz as u64).as_str());
                t.append(" Hz bit rate");
                t
            },
        }
    }
}

/// The number of samples nearest to `ns` nanoseconds at `rate` samples per
/// second, halves rounded up.
pub open spec fn samples_in(rate: u32, ns: nat) -> nat {
    ((rate as nat * ns + 500_000_000) / 1_000_000_000) as nat
}

/// The timing at a sample rate that is a whole multiple of the bit rate.
pub open spec fn timing_at(rate: u32) -> UplinkTiming {
    let spb = rate / 4_000_000;
    UplinkTiming {
        sample_rate_hz: rate,
        samples_per_bit: spb as usize,
        p1_samples: samples_in(rate, 800) as usize,
        p2_offset_samples: samples_in(rate, 2_000) as usize,
        p2_samples: samples_in(rate, 800) as usize,
        p6_offset_samples: samples_in(rate, 3_500) as usize,
        p6_sync_samples: samples_in(rate, 1_250) as usize,
        p6_data_offset_samples: (samples_in(rate, 1_250) + 2 * spb) as usize,
        p6_guard_samples: (2 * spb) as usize,
    }
}

/// The samples a frame of `bits` data bits spans from the start of P1.
pub open spec fn frame_span(t: UplinkTiming, bits: nat) -> int {
    t.p6_offset_samples + t.p6_data_offset_samples + bits * t.samples_per_bit
}

/// Convert a duration to the nearest whole number of samples.
fn duration_to_samples(sample_rate_hz: u32, ns: u64) -> (samples: usize)
    requires
        ns <= 3_500,
    ensures
        samples as nat == samples_in(sample_rate_hz, ns as nat),
{
    assert(sample_rate_hz as u64 * ns <= 0xFFFF_FFFFu64 * 3_500) by (nonlinear_arith)
        requires
            ns <= 3_500,
    ;
    let total = sample_rate_hz as u64 * ns + 500_000_000;
    let samples = total / 1_000_000_000;
    assert(samples <= 15_100);
    samples as usize
}

impl UplinkTiming {
    /// Timing at `sample_rate_hz`, which must be at least
    /// `MIN_UPLINK_SAMPLE_RATE_HZ` and a whole multiple of the bit rate.
    pub fn from_sample_rate(sample_rate_hz: u32) -> (r: Result<Self, TimingError>)
        ensures
            sample_rate_hz < MIN_UPLINK_SAMPLE_RATE_HZ ==> r == Err::<Self, TimingError>(
                TimingError::SampleRateTooLow {
                    sample_rate_hz,
                    minimum_hz: MIN_UPLINK_SAMPLE_RATE_HZ,
                },
            ),
            sample_rate_hz >= MIN_UPLINK_SAMPLE_RATE_HZ && sample_rate_hz % BIT_RATE_HZ != 0 ==> r
                == Err::<Self, TimingError>(
                TimingError::NonIntegerSamplesPerBit { sample_rate_hz, bit_rate_hz: BIT_RATE_HZ },
            ),
            sample_rate_hz >= MIN_UPLINK_SAMPLE_RATE_HZ && sample_rate_hz % BIT_RATE_HZ == 0 ==> r
                == Ok::<Self, TimingError>(timing_at(sample_rate_hz)),
    {
        if sample_rate_hz < MIN_UPLINK_SAMPLE_RATE_HZ {
            return Err(
                TimingError::SampleRateTooLow {
                    sample_rate_hz,
                    minimum_hz: MIN_UPLINK_SAMPLE_RATE_HZ,
                },
            );
        }
        if sample_rate_hz % BIT_RATE_HZ != 0 {
            return Err(
                TimingError::NonIntegerSamplesPerBit { sample_rate_hz, bit_rate_hz: BIT_RATE_HZ },
            );
        }
        let samples_per_bit = (sample_rate_hz / BIT_RATE_HZ) as usize;
        let sync = duration_to_samples(sample_rate_hz, P6_SYNC_NS);
        Ok(
            Self {
                sample_rate_hz,
                samples_per_bit,
                p1_samples: duration_to_samples(sample_rate_hz, P1_DURATION_NS),
                p2_offset_samples: duration_to_samples(sample_rate_hz, P2_OFFSET_NS),
                p2_samples: duration_to_samples(sample_rate_hz, P2_DURATION_NS),
                p6_offset_samples: duration_to_samples(sample_rate_hz, P6_OFFSET_NS),
                p6_sync_samples: sync,
                p6_data_offset_samples: sync + 2 * samples_per_bit,
                p6_guard_samples: 2 * samples_per_bit,
            },
        )
    }

    /// Samples from the start of P1 to the end of a 56-bit frame.
    pub fn min_samples_short(&self) -> (n: usize)
        requires
            frame_span(*self, 56) <= usize::MAX,
        ensures
            n == frame_span(*self, 56),
    {
        self.p6_offset_samples + self.p6_data_offset_samples + 56 * self.samples_per_bit
    }

    /// Samples from the start of P1 to the end of a 112-bit frame.
    pub fn min_samples_long(&self) -> (n: usize)
        requires
            frame_span(*self, 112) <= usize::MAX,
        ensures
            n == frame_span(*self, 112),
    {
        self.p6_offset_samples + self.p6_data_offset_samples + 112 * self.samples_per_bit
    }
}

/// A timing derived from a valid sample rate has small sample counts, so its
/// frame spans fit any machine word.
pub proof fn lemma_timing_bounds(rate: u32)
    requires
        rate >= MIN_UPLINK_SAMPLE_RATE_HZ,
        rate % BIT_RATE_HZ == 0,
    ensures
        2 <= timing_at(rate).samples_per_bit <= 1_074,
        timing_at(rate).p6_offset_samples <= 15_100,
        timing_at(rate).p6_data_offset_samples <= 8_000,
        timing_at(rate).samples_per_bit <= timing_at(rate).p6_data_offset_samples,
        frame_span(timing_at(rate), 112) <= 150_000,
{
    assert(rate as nat * 3_500 <= 0xFFFF_FFFFnat * 3_500) by (nonlinear_arith);
    assert(rate as nat * 1_250 <= 0xFFFF_FFFFnat * 1_250) by (nonlinear_arith);
    assert(rate as nat * 800 <= 0xFFFF_FFFFnat * 800) by (nonlinear_arith);
    assert(rate as nat * 2_000 <= 0xFFFF_FFFFnat * 2_000) by (nonlinear_arith);
    let spb = rate / 4_000_000;
    assert(112 * spb <= 112 * 1_074) by (nonlinear_arith)
        requires
            spb <= 1_074,
    ;
}

impl Default for UplinkTiming {
    /// Timing at the default 20 MS/s sample rate.
    fn default() -> (t: Self)
        ensures
            t == timing_at(DEFAULT_UPLINK_SAMPLE_RATE_HZ),
    {
        match Self::from_sample_rate(DEFAULT_UPLINK_SAMPLE_RATE_HZ) {
            Ok(t) => t,
            Err(_) => {
                proof {
                    assert(false);
                }
                Self {
                    sample_rate_hz: 0,
                    samples_per_bit: 0,
                    p1_samples: 0,
                    p2_offset_samples: 0,
                    p2_samples: 0,
                    p6_offset_samples: 0,
                    p6_sync_samples: 0,
                    p6_data_offset_samples: 0,
                    p6_guard_samples: 0,
                }
            },
        }
    }
}

} // verus!
