//! Bookkeeping for decoding a continuous sample stream in chunks.
//!
//! Samples arrive in chunks and are appended to a buffer that the detector
//! scans whole. After each scan the buffer is cut back to an overlap long
//! enough to hold any frame that started near its end, so that no frame is
//! missed at a chunk boundary; a detection that starts at or before the last
//! one decoded was already seen in an earlier scan and is skipped.
use crate::dsp::timing::{frame_span, UplinkTiming};
use vstd::prelude::*;

verus! {

/// The samples kept between scans: a long frame, the offset to P6, the P6
/// guard, and a margin of 32.
pub open spec fn overlap_for(t: UplinkTiming) -> int {
    frame_span(t, 112) + t.p6_offset_samples + t.p6_guard_samples + 32
}

/// Whether a detection whose P1 is at stream index `p1` is new to window `w`:
/// later than the last frame decoded, if any.
pub open spec fn is_new_to(w: StreamWindow, p1: int) -> bool {
    !(w.last_detection_p1 matches Some(last) && p1 <= last)
}

/// Window `w` after the frame with P1 at `p1` is recorded as decoded.
pub open spec fn recorded(w: StreamWindow, p1: usize) -> StreamWindow {
    StreamWindow { last_detection_p1: Some(p1), ..w }
}

/// The P1s `ps` are let through one after another, starting from window `w`:
/// each is new when it comes, and is then recorded. (Trimming the buffer in
/// between keeps the record.)
pub open spec fn let_through(w: StreamWindow, ps: Seq<usize>) -> bool
    decreases ps.len(),
{
    ps.len() == 0 || (is_new_to(w, ps[0] as int) && let_through(recorded(w, ps[0]), ps.drop_first()))
}

/// Law: the frames that a stream window lets through have strictly increasing
/// P1, so a burst seen again in the overlap kept between chunks is not
/// decoded twice; and each comes after the last frame decoded before them.
pub proof fn law_let_through_increasing(w: StreamWindow, ps: Seq<usize>)
    requires
        let_through(w, ps),
    ensures
        forall|i: int, j: int| 0 <= i < j < ps.len() ==> ps[i] < ps[j],
        forall|i: int| 0 <= i < ps.len() ==> is_new_to(w, #[trigger] ps[i] as int),
    decreases ps.len(),
{
    if ps.len() > 0 {
        let rest = ps.drop_first();
        law_let_through_increasing(recorded(w, ps[0]), rest);
        assert forall|i: int, j: int| 0 <= i < j < ps.len() implies ps[i] < ps[j] by {
            if i == 0 {
                assert(ps[j] == rest[j - 1]);
            } else {
                assert(ps[i] == rest[i - 1] && ps[j] == rest[j - 1]);
            }
        }
        assert forall|i: int| 0 <= i < ps.len() implies is_new_to(w, #[trigger] ps[i] as int) by {
            if i > 0 {
                assert(ps[i] == rest[i - 1]);
            }
        }
    }
}

/// Where the buffer sits in the stream, and the last frame decoded.
#[derive(Debug, Clone, Copy, PartialEq, Eq)]
pub struct StreamWindow {
    /// Stream index of the buffer's first sample.
    pub base_idx: usize,
    /// Stream index of the P1 of the last frame decoded.
    pub last_detection_p1: Option<usize>,
    /// Samples kept at the end of the buffer after a scan.
    pub overlap: usize,
}

impl StreamWindow {
    /// A window at the start of a stream.
    pub fn new(timing: &UplinkTiming) -> (w: Self)
        requires
            overlap_for(*timing) <= usize::MAX,
        ensures
            w.base_idx == 0,
            w.last_detection_p1 is None,
            w.overlap == overlap_for(*timing),
    {
        let overlap = timing.min_samples_long() + timing.p6_offset_samples
            + timing.p6_guard_samples + 32;
        StreamWindow { base_idx: 0, last_detection_p1: None, overlap }
    }

    /// Whether a detection whose P1 is at stream index `p1_sample` is new.
    pub fn is_new(&self, p1_sample: usize) -> (new: bool)
        ensures
            new == is_new_to(*self, p1_sample as int),
    {
        match self.last_detection_p1 {
            Some(last) => p1_sample > last,
            None => true,
        }
    }

    /// The buffer index of stream index `sample` (0 if it precedes the buffer).
    pub fn local_index(&self, sample: usize) -> (i: usize)
        ensures
            i == (if sample >= self.base_idx {
                sample - self.base_idx
            } else {
                0
            }),
    {
        sample.saturating_sub(self.base_idx)
    }

    /// Note that the frame whose P1 is at stream index `p1_sample` was decoded.
    pub fn record(&mut self, p1_sample: usize)
        ensures
            *final(self) == recorded(*old(self), p1_sample),
    {
        self.last_detection_p1 = Some(p1_sample);
    }

    /// After a scan of a buffer of `buffer_len` samples: how many samples to
    /// drop from its front, keeping the last `overlap`; the window moves on
    /// by as many.
    pub fn trim(&mut self, buffer_len: usize) -> (drain: usize)
        requires
            old(self).base_idx + buffer_len <= usize::MAX,
        ensures
            drain == (if buffer_len > old(self).overlap {
                buffer_len - old(self).overlap
            } else {
                0
            }),
            final(self).base_idx == old(self).base_idx + drain,
            final(self).overlap == old(self).overlap,
            final(self).last_detection_p1 == old(self).last_detection_p1,
    {
        if buffer_len > self.overlap {
            let drain_len = buffer_len - self.overlap;
            self.base_idx = self.base_idx + drain_len;
            drain_len
        } else {
            0
        }
    }
}

/// The sum of `s`.
pub open spec fn count_sum(s: Seq<usize>) -> int
    decreases s.len(),
{
    if s.len() == 0 {
        0
    } else {
        count_sum(s.drop_last()) + s.last()
    }
}

/// No entry exceeds the sum, and adding one to an entry adds one to the sum.
proof fn lemma_count_sum_update(s: Seq<usize>, i: int)
    requires
        0 <= i < s.len(),
        s[i] < usize::MAX,
    ensures
        s[i] <= count_sum(s),
        count_sum(s.update(i, (s[i] + 1) as usize)) == count_sum(s) + 1,
    decreases s.len(),
{
    let t = s.update(i, (s[i] + 1) as usize);
    lemma_count_sum_nonneg(s.drop_last());
    if i == s.len() - 1 {
        assert(t.drop_last() =~= s.drop_last());
    } else {
        lemma_count_sum_update(s.drop_last(), i);
        assert(t.drop_last() =~= s.drop_last().update(i, (s[i] + 1) as usize));
    }
}

proof fn lemma_count_sum_nonneg(s: Seq<usize>)
    ensures
        count_sum(s) >= 0,
    decreases s.len(),
{
    if s.len() > 0 {
        lemma_count_sum_nonneg(s.drop_last());
    }
}

/// The frames counted so far in a stream: in all, and per `UF` number
/// (0 to 31).
#[derive(Debug, Clone)]
pub struct StreamTally {
    decoded_count: usize,
    uf_counts: Vec<usize>,
}

impl StreamTally {
    /// How many frames were counted.
    pub closed spec fn total(self) -> nat {
        self.decoded_count as nat
    }

    /// How many frames were counted for each `UF` number.
    pub closed spec fn counts(self) -> Seq<usize> {
        self.uf_counts@
    }

    /// There is a count for each of the 32 `UF` numbers, and they add up to
    /// the total.
    pub open spec fn wf(self) -> bool {
        self.counts().len() == 32 && count_sum(self.counts()) == self.total()
    }

    /// A tally with nothing counted.
    pub fn new() -> (t: Self)
        ensures
            t.wf(),
            t.total() == 0,
            forall|i: int| 0 <= i < 32 ==> #[trigger] t.counts()[i] == 0,
    {
        let mut uf_counts: Vec<usize> = Vec::new();
        let mut k: usize = 0;
        while k < 32
            invariant
                k <= 32,
                uf_counts@.len() == k,
                forall|i: int| 0 <= i < k ==> #[trigger] uf_counts@[i] == 0,
                count_sum(uf_counts@) == 0,
            decreases 32 - k,
        {
            let ghost prev = uf_counts@;
            uf_counts.push(0);
            assert(uf_counts@.drop_last() =~= prev);
            k += 1;
        }
        StreamTally { decoded_count: 0, uf_counts }
    }

    /// How many frames were counted.
    pub fn decoded_count(&self) -> (n: usize)
        ensures
            n == self.total(),
    {
        self.decoded_count
    }

    /// How many frames were counted for `UF` number `uf`.
    pub fn count_of(&self, uf: u8) -> (n: usize)
        requires
            self.wf(),
            uf < 32,
        ensures
            n == self.counts()[uf as int],
    {
        self.uf_counts[uf as usize]
    }

    /// Count one frame of `UF` number `uf`.
    pub fn count(&mut self, uf: u8)
        requires
            old(self).wf(),
            uf < 32,
            old(self).total() < usize::MAX,
        ensures
            final(self).wf(),
            final(self).total() == old(self).total() + 1,
            final(self).counts() == old(self).counts().update(
                uf as int,
                (old(self).counts()[uf as int] + 1) as usize,
            ),
    {
        let i = uf as usize;
        proof {
            lemma_count_sum_nonneg(self.uf_counts@);
            assert(self.uf_counts@[i as int] < usize::MAX) by {
                if self.uf_counts@[i as int] == usize::MAX {
                    lemma_count_sum_update_bound(self.uf_counts@, i as int);
                }
            }
            lemma_count_sum_update(self.uf_counts@, i as int);
        }
        let c = self.uf_counts[i];
        self.uf_counts.set(i, c + 1);
        self.decoded_count = self.decoded_count + 1;
    }

    /// Count a frame of `UF` number `uf` that window `window` let through
    /// (its P1, at stream index `p1`, is new), and record it in the window.
    pub fn count_frame(&mut self, window: &mut StreamWindow, p1: usize, uf: u8)
        requires
            old(self).wf(),
            uf < 32,
            old(self).total() < usize::MAX,
            is_new_to(*old(window), p1 as int),
        ensures
            final(self).wf(),
            final(self).total() == old(self).total() + 1,
            final(self).counts() == old(self).counts().update(
                uf as int,
                (old(self).counts()[uf as int] + 1) as usize,
            ),
            *final(window) == recorded(*old(window), p1),
    {
        self.count(uf);
        window.record(p1);
    }
}

/// An entry of `s` is at most its sum.
proof fn lemma_count_sum_update_bound(s: Seq<usize>, i: int)
    requires
        0 <= i < s.len(),
    ensures
        s[i] <= count_sum(s),
    decreases s.len(),
{
    lemma_count_sum_nonneg(s.drop_last());
    if i < s.len() - 1 {
        lemma_count_sum_update_bound(s.drop_last(), i);
    }
}

} // verus!
