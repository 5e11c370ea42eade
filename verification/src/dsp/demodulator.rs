//! The integer side of DPSK demodulation: which samples a frame occupies,
//! whether enough of them are present, and how per-bit phase decisions are
//! packed into frame bytes.
//!
//! Each data bit is decided by the sign of the correlation of its sample window
//! with the previous bit's window; that complex-valued arithmetic is done by
//! the caller, which hands the decisions back to `pack_bits`.
use super::timing::{frame_span, UplinkTiming};
use crate::bits::bit_at;
use crate::text::{decimal_text, u64_text};
use vstd::prelude::*;
use vstd::string::StringExecFns;

verus! {

/// Bits in a short (56-bit) uplink frame.
pub const SHORT_BITS: usize = 56;

/// Bits in a long (112-bit) uplink frame.
pub const LONG_BITS: usize = 112;

/// Why a frame cannot be demodulated.
#[derive(Debug, Clone, PartialEq, Eq)]
pub enum DemodError {
    UnsupportedBitLength(usize),
    NotEnoughSamples { needed: usize, got: usize },
}

impl DemodError {
    /// A one-line description of the error.
    pub fn to_text(&self) -> (t: String)
        ensures
            t@ == match self {
                DemodError::UnsupportedBitLength(bits) => "unsupported Mode S uplink length: "@
                    + decimal_text(*bits as nat) + " bits"@,
                DemodError::NotEnoughSamples { needed, got } => "not enough samples: need "@
                    + decimal_text(*needed as nat) + ", got "@ + decimal_text(*got as nat),
            },
    {
        match self {
            DemodError::UnsupportedBitLength(bits) => {
                let mut t = String::from_str("unsupported Mode S uplink length: ");
                t.append(u64_text(*bits as u64).as_str());
                t.append(" bits");
                t
            },
            DemodError::NotEnoughSamples { needed, got } => {
                let mut t = String::from_str("not enough samples: need ");
                t.append(u64_text(*needed as u64).as_str());
                t.append(", got ");
                t.append(u64_text(*got as u64).as_str());
                t
            },
        }
    }
}

/// The samples that `num_bits` data bits need from the start of P6.
pub open spec fn p6_span(timing: UplinkTiming, num_bits: nat) -> int {
    timing.p6_data_offset_samples + num_bits * timing.samples_per_bit
}

/// Check that `available` samples from the start of P6 hold a frame of
/// `num_bits` bits, and return how many samples that frame needs.
pub fn check_p6_span(available: usize, num_bits: usize, timing: &UplinkTiming) -> (r: Result<
    usize,
    DemodError,
>)
    requires
        p6_span(*timing, 112) <= usize::MAX,
    ensures
        num_bits != SHORT_BITS && num_bits != LONG_BITS ==> r == Err::<usize, DemodError>(
            DemodError::UnsupportedBitLength(num_bits),
        ),
        (num_bits == SHORT_BITS || num_bits == LONG_BITS) && available < p6_span(
            *timing,
            num_bits as nat,
        ) ==> r == Err::<usize, DemodError>(
            DemodError::NotEnoughSamples {
                needed: p6_span(*timing, num_bits as nat) as usize,
                got: available,
            },
        ),
        (num_bits == SHORT_BITS || num_bits == LONG_BITS) && available >= p6_span(
            *timing,
            num_bits as nat,
        ) ==> r == Ok::<usize, DemodError>(p6_span(*timing, num_bits as nat) as usize),
{
    if num_bits != SHORT_BITS && num_bits != LONG_BITS {
        return Err(DemodError::UnsupportedBitLength(num_bits));
    }
    assert(num_bits * timing.samples_per_bit <= 112 * timing.samples_per_bit) by (nonlinear_arith)
        requires
            num_bits <= 112,
    ;
    let required = timing.p6_data_offset_samples + num_bits * timing.samples_per_bit;
    if available < required {
        return Err(DemodError::NotEnoughSamples { needed: required, got: available });
    }
    Ok(required)
}

/// The first sample of data bit `n`'s window, counted from the start of P6.
pub fn bit_window_start(timing: &UplinkTiming, n: usize) -> (start: usize)
    requires
        n < LONG_BITS,
        p6_span(*timing, 112) <= usize::MAX,
    ensures
        start == timing.p6_data_offset_samples + n * timing.samples_per_bit,
{
    assert(n * timing.samples_per_bit <= 112 * timing.samples_per_bit) by (nonlinear_arith)
        requires
            n <= 112,
    ;
    timing.p6_data_offset_samples + n * timing.samples_per_bit
}

/// For a snippet whose P1 starts at its first sample, the bit count it is
/// demodulated as (long when it is long enough for a 112-bit frame) and the
/// sample where its P6 starts.
pub fn plan_snippet(n_samples: usize, timing: &UplinkTiming) -> (r: Result<
    (usize, usize),
    DemodError,
>)
    requires
        frame_span(*timing, 112) <= usize::MAX,
    ensures
        n_samples < timing.p6_offset_samples ==> r == Err::<(usize, usize), DemodError>(
            DemodError::NotEnoughSamples { needed: timing.p6_offset_samples, got: n_samples },
        ),
        n_samples >= timing.p6_offset_samples ==> r == Ok::<(usize, usize), DemodError>(
            (
                timing.p6_offset_samples,
                if n_samples >= frame_span(*timing, 112) {
                    LONG_BITS
                } else {
                    SHORT_BITS
                },
            ),
        ),
{
    let num_bits = if n_samples >= timing.min_samples_long() {
        LONG_BITS
    } else {
        SHORT_BITS
    };
    if n_samples < timing.p6_offset_samples {
        return Err(
            DemodError::NotEnoughSamples { needed: timing.p6_offset_samples, got: n_samples },
        );
    }
    Ok((timing.p6_offset_samples, num_bits))
}

/// Check that a detection's P6 start lies within a buffer of `n_samples`.
pub fn check_detection_start(n_samples: usize, p6_sample: usize) -> (r: Result<(), DemodError>)
    requires
        p6_sample < usize::MAX,
    ensures
        p6_sample > n_samples ==> r == Err::<(), DemodError>(
            DemodError::NotEnoughSamples { needed: (p6_sample + 1) as usize, got: n_samples },
        ),
        p6_sample <= n_samples ==> r == Ok::<(), DemodError>(()),
{
    if p6_sample > n_samples {
        return Err(DemodError::NotEnoughSamples { needed: p6_sample + 1, got: n_samples });
    }
    Ok(())
}

/// Pack per-bit decisions into bytes, MSB first: bit `i` of the result (in
/// the numbering of `extract_bits`) is set exactly when `bits[i]` is.
pub fn pack_bits(bits: &[bool]) -> (out: Vec<u8>)
    requires
        bits@.len() % 8 == 0,
    ensures
        out@.len() == bits@.len() / 8,
        forall|i: int| 0 <= i < bits@.len() ==> #[trigger] bit_at(out@, i) == (if bits@[i] {
            1nat
        } else {
            0nat
        }),
{
    let len = bits.len();
    let n_bytes = len / 8;
    let mut out: Vec<u8> = Vec::new();
    let mut k: usize = 0;
    while k < n_bytes
        invariant
            n_bytes == bits@.len() / 8,
            8 * n_bytes == bits@.len(),
            bits@.len() <= usize::MAX,
            k <= n_bytes,
            out@.len() == k,
            forall|i: int| 0 <= i < 8 * k ==> #[trigger] bit_at(out@, i) == (if bits@[i] {
                1nat
            } else {
                0nat
            }),
        decreases n_bytes - k,
    {
        let mut byte: u8 = 0;
        let mut j: usize = 0;
        assert forall|m: int| 0 <= m < 8 implies #[trigger] ((byte >> ((7 - m) as u8)) & 1u8) == 0u8
            by {
            let s = (7 - m) as u8;
            assert((0u8 >> s) & 1u8 == 0u8) by (bit_vector);
        }
        while j < 8
            invariant
                k < n_bytes,
                8 * n_bytes == bits@.len(),
                bits@.len() <= usize::MAX,
                j <= 8,
                forall|m: int|
                    0 <= m < 8 ==> #[trigger] ((byte >> ((7 - m) as u8)) & 1u8) == (if m < j
                        && bits@[8 * k + m] {
                        1u8
                    } else {
                        0u8
                    }),
            decreases 8 - j,
        {
            let ghost old_byte = byte;
            if bits[8 * k + j] {
                let shift = (7 - j) as u8;
                byte = byte | (1u8 << shift);
                assert forall|m: int| 0 <= m < 8 implies #[trigger] ((byte >> ((7 - m) as u8)) & 1u8)
                    == (if m == j {
                    1u8
                } else {
                    (old_byte >> ((7 - m) as u8)) & 1u8
                }) by {
                    let s = (7 - m) as u8;
                    let jj = j as u8;
                    let mm = m as u8;
                    assert(((old_byte | (1u8 << shift)) >> s) & 1u8 == (if mm == jj {
                        1u8
                    } else {
                        (old_byte >> s) & 1u8
                    })) by (bit_vector)
                        requires
                            mm < 8u8,
                            jj < 8u8,
                            s == 7u8 - mm,
                            shift == 7u8 - jj,
                    ;
                }
            }
            j += 1;
        }
        let ghost prev = out@;
        out.push(byte);
        proof {
            assert forall|i: int| 0 <= i < 8 * (k + 1) implies #[trigger] bit_at(out@, i) == (
            if bits@[i] {
                1nat
            } else {
                0nat
            }) by {
                if i < 8 * k {
                    assert(out@[i / 8] == prev[i / 8]);
                    assert(bit_at(prev, i) == (if bits@[i] {
                        1nat
                    } else {
                        0nat
                    }));
                } else {
                    assert(i / 8 == k);
                    let m = i - 8 * k;
                    assert(i % 8 == m);
                    assert(out@[i / 8] == byte);
                    assert(bit_at(out@, i) == ((byte >> ((7 - m) as u8)) & 1u8) as nat);
                    assert(((byte >> ((7 - m) as u8)) & 1u8) == (if bits@[8 * k + m] {
                        1u8
                    } else {
                        0u8
                    }));
                }
            }
        }
        k += 1;
    }
    out
}

} // verus!
