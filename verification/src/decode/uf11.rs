//! UF11 — Mode S-only all-call interrogation, 56 bits.
//!
//! | Bits (zero-based) | Field | Meaning |
//! | ---: | --- | --- |
//! | 0-4 | `UF` | Uplink format, `11` |
//! | 5-8 | `PR` | Reply probability |
//! | 9-12 | `IC` | Interrogator code |
//! | 13-15 | `CL` | Code label; how `IC` is interpreted |
//! | 16-31 | spare | |
//! | 32-55 | `AP` | Address/parity field |
use super::util::{first_overrun, overrun, field_u8, read_u8, Icao24};
use super::DecodeError;
use crate::bits::{bits_value, extract_bits, lemma_field_word, lemma_low_masks, word_at};
use vstd::arithmetic::power2::lemma2_to64;
use vstd::prelude::*;

verus! {

/// UF11 — Mode S-only all-call interrogation.
#[derive(Debug, Clone, PartialEq, Eq)]
pub struct Uf11 {
    /// Uplink format descriptor, `11`.
    pub uf: u8,
    /// Reply probability.
    pub pr: u8,
    /// Interrogator code.
    pub ic: u8,
    /// Code label.
    pub cl: u8,
    /// Spare field, bits 16-31, big-endian.
    pub spare: u16,
    /// Address recovered from the address/parity field, bits 32-55, big-endian.
    pub ap: Icao24,
}

/// The UF11 fields of a frame.
pub open spec fn uf11_layout(f: Seq<u8>, icao24: u32) -> Uf11 {
    Uf11 {
        uf: field_u8(f, 0, 5),
        pr: field_u8(f, 5, 4),
        ic: field_u8(f, 9, 4),
        cl: field_u8(f, 13, 3),
        spare: bits_value(f, 16, 16) as u16,
        ap: Icao24(icao24),
    }
}

/// The widths of the UF11 fields, in the order they are read.
pub open spec fn uf11_widths() -> Seq<usize> {
    seq![5usize, 4, 4, 3, 16, 24]
}

/// A frame decoded as UF11: its fields when it holds 56 bits.
pub open spec fn uf11_decoded(f: Seq<u8>, icao24: u32) -> Result<Uf11, DecodeError> {
    if f.len() >= 7 {
        Ok(uf11_layout(f, icao24))
    } else {
        Err(DecodeError::Incomplete(overrun(uf11_widths(), 8 * f.len() as int) as usize))
    }
}

/// Decode the UF11 layout from the start of `frame`.
pub fn decode(frame: &[u8], icao24: u32) -> (r: Result<Uf11, DecodeError>)
    ensures
        r == uf11_decoded(frame@, icao24),
{
    if frame.len() < 7 {
        let widths: [usize; 6] = [5usize, 4, 4, 3, 16, 24];
        assert(widths@ =~= uf11_widths());
        return Err(DecodeError::Incomplete(first_overrun(&widths, 8 * frame.len())));
    }
    let spare = extract_bits(frame, 16, 16);
    Ok(
        Uf11 {
            uf: read_u8(frame, 0, 5),
            pr: read_u8(frame, 5, 4),
            ic: read_u8(frame, 9, 4),
            cl: read_u8(frame, 13, 3),
            spare: spare as u16,
            ap: Icao24(icao24),
        },
    )
}

/// Law: each UF11 field sits at its fixed place in the frame. With `w` the
/// big-endian word of the first four bytes (frame bit `i` is bit `31 - i` of
/// `w`): `UF` is frame bits 0-4, `PR` bits 5-8, `IC` bits 9-12, `CL` bits
/// 13-15, the spare field bits 16-31; the address is the recovered one.
pub proof fn law_uf11_fields(f: Seq<u8>, icao24: u32)
    requires
        f.len() >= 7,
    ensures
        ({
            let w = word_at(f, 0);
            let v = uf11_layout(f, icao24);
            &&& v.uf as u32 == (w >> 27u32) & 0x1fu32
            &&& v.pr as u32 == (w >> 23u32) & 0xfu32
            &&& v.ic as u32 == (w >> 19u32) & 0xfu32
            &&& v.cl as u32 == (w >> 16u32) & 7u32
            &&& v.spare as u32 == w & 0xffffu32
            &&& v.ap == Icao24(icao24)
        }),
{
    let w = word_at(f, 0);
    lemma_low_masks(w);
    lemma2_to64();
    lemma_field_word(f, 0, 0, 5);
    lemma_field_word(f, 0, 5, 4);
    lemma_field_word(f, 0, 9, 4);
    lemma_field_word(f, 0, 13, 3);
    lemma_field_word(f, 0, 16, 16);
}

} // verus!
