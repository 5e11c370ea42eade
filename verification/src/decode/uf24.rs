//! UF24 — Comm-C / extended length message (ELM), 112 bits.
//!
//! UF24 is identified by its first two bits `11`; the bits after them are
//! content, not part of a five-bit format number.
//!
//! | Bits (zero-based) | Field | Meaning |
//! | ---: | --- | --- |
//! | 0-1 | `UF` prefix | `11` |
//! | 2-3 | `RC` | Reply control |
//! | 4-7 | `NC` | Number of C-segment |
//! | 8-87 | `MC` | Comm-C message field |
//! | 88-111 | `AP` | Address/parity field |
use super::util::{first_overrun, overrun, field_u8, read_u8, Icao24};
use super::DecodeError;
use crate::bits::{bits_value, lemma_field_word, lemma_low_masks, word_at};
use vstd::arithmetic::power2::lemma2_to64;
use vstd::prelude::*;

verus! {

/// UF24 — Comm-C / extended length message.
#[derive(Debug, Clone, PartialEq, Eq)]
pub struct Uf24 {
    /// UF24 prefix, `3` (binary `11`).
    pub uf_prefix: u8,
    /// Reply control.
    pub rc: u8,
    /// Number of C-segment.
    pub nc: u8,
    /// Comm-C message field: frame bytes 1-10.
    pub mc: [u8; 10],
    /// Address recovered from the address/parity field, bits 88-111, big-endian.
    pub ap: Icao24,
}

/// The UF24 fields of a frame.
pub open spec fn uf24_layout(f: Seq<u8>, icao24: u32) -> Uf24 {
    Uf24 {
        uf_prefix: field_u8(f, 0, 2),
        rc: field_u8(f, 2, 2),
        nc: field_u8(f, 4, 4),
        mc: [f[1], f[2], f[3], f[4], f[5], f[6], f[7], f[8], f[9], f[10]],
        ap: Icao24(icao24),
    }
}

/// The widths of the UF24 fields, in the order they are read.
pub open spec fn uf24_widths() -> Seq<usize> {
    seq![2usize, 2, 4, 8, 8, 8, 8, 8, 8, 8, 8, 8, 8, 24]
}

/// A frame decoded as UF24: its fields when it holds 112 bits.
pub open spec fn uf24_decoded(f: Seq<u8>, icao24: u32) -> Result<Uf24, DecodeError> {
    if f.len() >= 14 {
        Ok(uf24_layout(f, icao24))
    } else {
        Err(DecodeError::Incomplete(overrun(uf24_widths(), 8 * f.len() as int) as usize))
    }
}

/// Decode the UF24 layout from the start of `frame`.
pub fn decode(frame: &[u8], icao24: u32) -> (r: Result<Uf24, DecodeError>)
    ensures
        r == uf24_decoded(frame@, icao24),
{
    if frame.len() < 14 {
        let widths: [usize; 14] = [2usize, 2, 4, 8, 8, 8, 8, 8, 8, 8, 8, 8, 8, 24];
        assert(widths@ =~= uf24_widths());
        return Err(DecodeError::Incomplete(first_overrun(&widths, 8 * frame.len())));
    }
    let mut mc = [0u8; 10];
    let mut k: usize = 0;
    while k < 10
        invariant
            frame@.len() >= 14,
            k <= 10,
            forall|q: int| 0 <= q < k ==> #[trigger] mc@[q] == frame@[q + 1],
        decreases 10 - k,
    {
        mc[k] = frame[k + 1];
        k += 1;
    }
    assert(mc =~= [
        frame@[1],
        frame@[2],
        frame@[3],
        frame@[4],
        frame@[5],
        frame@[6],
        frame@[7],
        frame@[8],
        frame@[9],
        frame@[10],
    ]);
    Ok(
        Uf24 {
            uf_prefix: read_u8(frame, 0, 2),
            rc: read_u8(frame, 2, 2),
            nc: read_u8(frame, 4, 4),
            mc,
            ap: Icao24(icao24),
        },
    )
}

/// Law: each UF24 field sits at its fixed place in the frame. With `w` the
/// big-endian word of the first four bytes: the prefix is frame bits 0-1
/// (binary `11` for a UF24 frame), `RC` bits 2-3, `NC` bits 4-7, `MC` is frame
/// bytes 1-10, and the address is the recovered one.
pub proof fn law_uf24_fields(f: Seq<u8>, icao24: u32)
    requires
        f.len() >= 14,
    ensures
        ({
            let w = word_at(f, 0);
            let v = uf24_layout(f, icao24);
            &&& v.uf_prefix as u32 == (w >> 30u32) & 3u32
            &&& v.rc as u32 == (w >> 28u32) & 3u32
            &&& v.nc as u32 == (w >> 24u32) & 0xfu32
            &&& v.mc@ == f.subrange(1, 11)
            &&& v.ap == Icao24(icao24)
        }),
{
    let w = word_at(f, 0);
    lemma_low_masks(w);
    lemma2_to64();
    lemma_field_word(f, 0, 0, 2);
    lemma_field_word(f, 0, 2, 2);
    lemma_field_word(f, 0, 4, 4);
    assert(uf24_layout(f, icao24).mc@ =~= f.subrange(1, 11));
}

} // verus!
