//! The sample windows that interrogation detection inspects.
//!
//! Detection scans a buffer for a P1 rising edge, then checks the P2 pulse, a
//! quiet gap between P1 and P2, the P6 pulse with its sync phase reversal,
//! and, for frames that may be long, the energy just after a short frame's
//! data. Those checks compare floating-point magnitudes over sample windows;
//! which samples each window covers, and where the scan goes on after a
//! detection, are decided here.
use super::demodulator::LONG_BITS;
use super::timing::{frame_span, UplinkTiming};
use vstd::prelude::*;

verus! {

/// How far, in samples, the P2 start may be from its nominal offset.
pub const P2_TOLERANCE: isize = 2;

/// How far, in samples, the P6 sync reversal may be from its nominal place.
pub const P6_SYNC_TOLERANCE: isize = 1;

/// `a - b`, or 0 when `b` exceeds `a`.
pub open spec fn sat_diff(a: int, b: int) -> int {
    if a >= b {
        a - b
    } else {
        0
    }
}

/// The first sample of a P2 window for P1 at `i`, shifted by `off` samples,
/// when the window lies within `count` samples.
pub open spec fn p2_window(t: UplinkTiming, i: int, off: int, count: int) -> Option<usize> {
    let start = i + t.p2_offset_samples + off;
    if start >= 0 && start + t.p2_samples <= count {
        Some(start as usize)
    } else {
        None
    }
}

/// Where to look for P2 when P1 starts at sample `i` of a buffer of `count`
/// samples, `off` samples away from the nominal P2 offset.
pub fn p2_window_start(timing: &UplinkTiming, i: usize, off: isize, count: usize) -> (r: Option<
    usize,
>)
    requires
        -P2_TOLERANCE <= off <= P2_TOLERANCE,
        i + timing.p2_offset_samples + P2_TOLERANCE <= usize::MAX,
    ensures
        r == p2_window(*timing, i as int, off as int, count as int),
{
    let base = i + timing.p2_offset_samples;
    let start = if off < 0 {
        let back = (0 - off) as usize;
        if base < back {
            return None;
        }
        base - back
    } else {
        base + off as usize
    };
    if start <= count && count - start >= timing.p2_samples {
        Some(start)
    } else {
        None
    }
}

/// The length of the quiet gap between P1 and the earliest P2 start.
pub open spec fn gap_len(t: UplinkTiming) -> int {
    sat_diff(sat_diff(t.p2_offset_samples as int, P2_TOLERANCE as int), t.p1_samples as int)
}

/// The quiet gap after a P1 at sample `i`, as its first sample and length,
/// when it is not empty and lies within `count` samples.
pub fn quiet_gap(timing: &UplinkTiming, i: usize, count: usize) -> (r: Option<(usize, usize)>)
    requires
        i + timing.p1_samples <= usize::MAX,
    ensures
        r == (if gap_len(*timing) > 0 && i + timing.p1_samples + gap_len(*timing) <= count {
            Some(((i + timing.p1_samples) as usize, gap_len(*timing) as usize))
        } else {
            None::<(usize, usize)>
        }),
{
    let start = i + timing.p1_samples;
    let len = timing.p2_offset_samples.saturating_sub(P2_TOLERANCE as usize).saturating_sub(
        timing.p1_samples,
    );
    if len > 0 && start <= count && count - start >= len {
        Some((start, len))
    } else {
        None
    }
}

/// For a P1 at sample `i`, when a long frame fits within `count` samples:
/// the window just after a short frame's data (its first sample and length,
/// ten bit periods) whose energy tells a long frame from a short one.
pub fn tail_probe(timing: &UplinkTiming, i: usize, count: usize) -> (r: Option<(usize, usize)>)
    requires
        frame_span(*timing, 112) <= usize::MAX,
        i <= count,
    ensures
        r == (if i + frame_span(*timing, 112) <= count {
            Some(((i + frame_span(*timing, 56)) as usize, (10 * timing.samples_per_bit) as usize))
        } else {
            None::<(usize, usize)>
        }),
{
    let spb = timing.samples_per_bit;
    assert(56 * spb <= 112 * spb && 10 * spb <= 56 * spb) by (nonlinear_arith);
    let long_span = timing.p6_offset_samples + timing.p6_data_offset_samples + 112 * spb;
    if count - i < long_span {
        return None;
    }
    let short_extent = timing.p6_data_offset_samples + 56 * spb;
    let long_extent = timing.p6_data_offset_samples + 112 * spb;
    let tail_len = long_extent - short_extent;
    let probe_len = if tail_len < 10 * spb {
        tail_len
    } else {
        10 * spb
    };
    let tail_start = i + timing.p6_offset_samples + short_extent;
    if count - tail_start >= probe_len {
        Some((tail_start, probe_len))
    } else {
        None
    }
}

/// Where the scan goes on after a frame of `num_bits` bits detected with P1
/// at sample `i`: past the end of that frame (a short one unless `num_bits`
/// is 112).
pub fn next_scan_index(timing: &UplinkTiming, i: usize, num_bits: usize) -> (n: usize)
    requires
        i + frame_span(*timing, 112) <= usize::MAX,
    ensures
        n == i + (if num_bits == LONG_BITS {
            frame_span(*timing, 112)
        } else {
            frame_span(*timing, 56)
        }),
{
    let spb = timing.samples_per_bit;
    assert(56 * spb <= 112 * spb) by (nonlinear_arith);
    let bits = if num_bits == LONG_BITS {
        112
    } else {
        56
    };
    i + timing.p6_offset_samples + timing.p6_data_offset_samples + bits * spb
}

/// The windows compared to find the P6 sync phase reversal: for a P6 at
/// sample `p6_start` and a shift of `off` samples, the reversal point is
/// `p6_start + p6_sync_samples + off`; the window before it starts two bit
/// periods earlier, the one after it at the reversal point. Both are one bit
/// period long and must lie within `len` samples.
pub open spec fn sync_window(t: UplinkTiming, p6_start: int, off: int, len: int) -> Option<
    (usize, usize),
> {
    let at = p6_start + t.p6_sync_samples + off;
    let pre = at - 2 * t.samples_per_bit;
    if pre < 0 || at < 0 || at + t.samples_per_bit > len {
        None
    } else {
        Some((pre as usize, at as usize))
    }
}

/// The first samples of the windows before and after the P6 sync reversal
/// point, shifted by `off` samples, when both lie within `len` samples.
pub fn sync_windows(timing: &UplinkTiming, p6_start: usize, off: isize, len: usize) -> (r: Option<
    (usize, usize),
>)
    requires
        -P6_SYNC_TOLERANCE <= off <= P6_SYNC_TOLERANCE,
        p6_start + timing.p6_sync_samples + P6_SYNC_TOLERANCE <= usize::MAX,
        2 * timing.samples_per_bit <= usize::MAX,
    ensures
        r == sync_window(*timing, p6_start as int, off as int, len as int),
{
    let center = p6_start + timing.p6_sync_samples;
    let at = if off < 0 {
        if center == 0 {
            return None;
        }
        center - 1
    } else {
        center + off as usize
    };
    let window = timing.samples_per_bit;
    let reach_back = 2 * window;
    if at < reach_back {
        return None;
    }
    if at > len || len - at < window {
        return None;
    }
    Some((at - reach_back, at))
}

/// How far the scan moves after a frame of `num_bits` bits detected at a
/// start index: past the end of that frame (a short one unless `num_bits` is
/// 112), and at least one sample.
pub open spec fn scan_step(t: UplinkTiming, num_bits: usize) -> int {
    let span = if num_bits == LONG_BITS {
        frame_span(t, 112)
    } else {
        frame_span(t, 56)
    };
    if span >= 1 {
        span
    } else {
        1
    }
}

/// The start indices a scan from index `i` reports, given for each start
/// index `j` what the detector finds there: `found[j]` is 0 for nothing, else
/// the bit length of the frame detected. A detection moves the scan past the
/// end of its frame; otherwise the scan moves on by one.
pub open spec fn scan_from(t: UplinkTiming, found: Seq<usize>, i: int) -> Seq<usize>
    decreases found.len() - i,
{
    if i < 0 || i >= found.len() {
        Seq::empty()
    } else if found[i] != 0 {
        let next = i + scan_step(t, found[i]);
        if next >= found.len() {
            seq![i as usize]
        } else {
            seq![i as usize] + scan_from(t, found, next)
        }
    } else {
        scan_from(t, found, i + 1)
    }
}

/// The start indices at which a scan of a buffer reports frames, given what
/// the detector finds at each start index where a short frame fits.
pub fn scan(timing: &UplinkTiming, found: &[usize]) -> (hits: Vec<usize>)
    requires
        frame_span(*timing, 56) >= 1,
        found@.len() + frame_span(*timing, 112) <= usize::MAX,
    ensures
        hits@ == scan_from(*timing, found@, 0),
{
    let mut hits: Vec<usize> = Vec::new();
    let mut i: usize = 0;
    proof {
        let spb = timing.samples_per_bit;
        assert(56 * spb <= 112 * spb) by (nonlinear_arith);
    }
    while i < found.len()
        invariant
            frame_span(*timing, 56) >= 1,
            frame_span(*timing, 56) <= frame_span(*timing, 112),
            found@.len() + frame_span(*timing, 112) <= usize::MAX,
            i <= found@.len() + frame_span(*timing, 112),
            hits@ + scan_from(*timing, found@, i as int) == scan_from(*timing, found@, 0),
        decreases found@.len() + frame_span(*timing, 112) - i,
    {
        if found[i] != 0 {
            let ghost before = hits@;
            hits.push(i);
            let next = next_scan_index(timing, i, found[i]);
            proof {
                assert(hits@ == before + seq![i]);
                if next < found@.len() {
                    assert(before + (seq![i] + scan_from(*timing, found@, next as int)) =~= hits@
                        + scan_from(*timing, found@, next as int));
                } else {
                    assert(before + seq![i] =~= hits@ + scan_from(*timing, found@, next as int));
                }
            }
            i = next;
        } else {
            i = i + 1;
        }
    }
    proof {
        assert(hits@ + Seq::<usize>::empty() =~= hits@);
    }
    hits
}

/// Law: the frames a scan reports are spaced at least a short frame apart,
/// so no two overlap, and each lies where the detector found one.
pub proof fn law_scan_spacing(t: UplinkTiming, found: Seq<usize>, i: int)
    requires
        0 <= i,
        found.len() <= usize::MAX,
    ensures
        forall|k: int|
            0 <= k < scan_from(t, found, i).len() ==> i <= #[trigger] scan_from(t, found, i)[k]
                < found.len() && found[scan_from(t, found, i)[k] as int] != 0,
        forall|k: int|
            0 <= k < scan_from(t, found, i).len() - 1 ==> #[trigger] scan_from(t, found, i)[k]
                + scan_step(t, found[scan_from(t, found, i)[k] as int]) <= scan_from(t, found, i)[k
                + 1],
    decreases found.len() - i,
{
    if i >= found.len() {
    } else if found[i] != 0 {
        let next = i + scan_step(t, found[i]);
        if next < found.len() {
            law_scan_spacing(t, found, next);
        }
        let rest = scan_from(t, found, next);
        let all = scan_from(t, found, i);
        assert(all =~= seq![i as usize] + rest);
        assert forall|k: int| 0 <= k < all.len() implies i <= #[trigger] all[k] < found.len()
            && found[all[k] as int] != 0 by {
            if k > 0 {
                assert(all[k] == rest[k - 1]);
            }
        }
        assert forall|k: int| 0 <= k < all.len() - 1 implies #[trigger] all[k] + scan_step(
            t,
            found[all[k] as int],
        ) <= all[k + 1] by {
            if k > 0 {
                assert(all[k] == rest[k - 1] && all[k + 1] == rest[k]);
            } else {
                assert(all[1] == rest[0]);
            }
        }
    } else {
        law_scan_spacing(t, found, i + 1);
        assert(scan_from(t, found, i) == scan_from(t, found, i + 1));
    }
}

} // verus!
