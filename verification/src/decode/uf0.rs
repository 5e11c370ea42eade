//! UF0 — short air-air surveillance interrogation (ACAS), 56 bits.
//!
//! | Bits (zero-based) | Field | Meaning |
//! | ---: | --- | --- |
//! | 0-4 | `UF` | Uplink format, `0` |
//! | 5-7 | spare | |
//! | 8 | `RL` | Reply length: DF0 or DF16 |
//! | 9-12 | spare | |
//! | 13 | `AQ` | Acquisition |
//! | 14-21 | `DS` | BDS code of the GICB register requested for DF16 |
//! | 22-31 | spare | |
//! | 32-55 | `AP` | Address/parity field |
use super::util::{first_overrun, overrun, field_flag, field_u8, read_flag, read_u8, Icao24};
use super::DecodeError;
use crate::bits::{bits_value, lemma_field_word, lemma_low_masks, word_at};
use vstd::arithmetic::power2::lemma2_to64;
use vstd::prelude::*;

verus! {

/// UF0 — short air-air surveillance interrogation.
#[derive(Debug, Clone, PartialEq, Eq)]
pub struct Uf0 {
    /// Uplink format descriptor, `0`.
    pub uf: u8,
    /// Spare bits 5-7.
    pub spare0: u8,
    /// Reply length command: `false` requests DF0, `true` requests DF16.
    pub rl: bool,
    /// Spare bits 9-12.
    pub spare1: u8,
    /// Acquisition bit.
    pub aq: bool,
    /// Data selector: BDS code of the GICB register requested in a DF16 reply.
    pub ds: u8,
    /// Spare bits 22-31, read little-endian: the first eight bits are the low
    /// byte, the last two the high byte.
    pub spare2: u16,
    /// Address recovered from the address/parity field, bits 32-55, big-endian.
    pub ap: Icao24,
}

/// The UF0 fields of a frame.
pub open spec fn uf0_layout(f: Seq<u8>, icao24: u32) -> Uf0 {
    Uf0 {
        uf: field_u8(f, 0, 5),
        spare0: field_u8(f, 5, 3),
        rl: field_flag(f, 8),
        spare1: field_u8(f, 9, 4),
        aq: field_flag(f, 13),
        ds: field_u8(f, 14, 8),
        spare2: (bits_value(f, 22, 8) + 256 * bits_value(f, 30, 2)) as u16,
        ap: Icao24(icao24),
    }
}

/// The widths of the UF0 fields, in the order they are read.
pub open spec fn uf0_widths() -> Seq<usize> {
    seq![5usize, 3, 1, 4, 1, 8, 10, 24]
}

/// A frame decoded as UF0: its fields when it holds 56 bits.
pub open spec fn uf0_decoded(f: Seq<u8>, icao24: u32) -> Result<Uf0, DecodeError> {
    if f.len() >= 7 {
        Ok(uf0_layout(f, icao24))
    } else {
        Err(DecodeError::Incomplete(overrun(uf0_widths(), 8 * f.len() as int) as usize))
    }
}

/// Decode the UF0 layout from the start of `frame`.
pub fn decode(frame: &[u8], icao24: u32) -> (r: Result<Uf0, DecodeError>)
    ensures
        r == uf0_decoded(frame@, icao24),
{
    if frame.len() < 7 {
        let widths: [usize; 8] = [5usize, 3, 1, 4, 1, 8, 10, 24];
        assert(widths@ =~= uf0_widths());
        return Err(DecodeError::Incomplete(first_overrun(&widths, 8 * frame.len())));
    }
    let low = read_u8(frame, 22, 8);
    let high = read_u8(frame, 30, 2);
    Ok(
        Uf0 {
            uf: read_u8(frame, 0, 5),
            spare0: read_u8(frame, 5, 3),
            rl: read_flag(frame, 8),
            spare1: read_u8(frame, 9, 4),
            aq: read_flag(frame, 13),
            ds: read_u8(frame, 14, 8),
            spare2: low as u16 + 256 * (high as u16),
            ap: Icao24(icao24),
        },
    )
}

/// Law: each UF0 field sits at its fixed place in the frame. With `w` the
/// big-endian word of the first four bytes (frame bit `i` is bit `31 - i` of
/// `w`): `UF` is its top five bits, `RL` bit 8 of the frame, `AQ` bit 13, `DS`
/// bits 14-21, and the address is the one recovered from `AP`.
pub proof fn law_uf0_fields(f: Seq<u8>, icao24: u32)
    requires
        f.len() >= 7,
    ensures
        ({
            let w = word_at(f, 0);
            let v = uf0_layout(f, icao24);
            &&& v.uf as u32 == (w >> 27u32) & 0x1fu32
            &&& v.spare0 as u32 == (w >> 24u32) & 7u32
            &&& v.rl == ((w >> 23u32) & 1u32 == 1u32)
            &&& v.spare1 as u32 == (w >> 19u32) & 0xfu32
            &&& v.aq == ((w >> 18u32) & 1u32 == 1u32)
            &&& v.ds as u32 == (w >> 10u32) & 0xffu32
            &&& v.spare2 as u32 == ((w >> 2u32) & 0xffu32) + 256 * (w & 3u32)
            &&& v.ap == Icao24(icao24)
        }),
{
    let w = word_at(f, 0);
    lemma_low_masks(w);
    lemma2_to64();
    lemma_field_word(f, 0, 0, 5);
    lemma_field_word(f, 0, 5, 3);
    lemma_field_word(f, 0, 8, 1);
    lemma_field_word(f, 0, 9, 4);
    lemma_field_word(f, 0, 13, 1);
    lemma_field_word(f, 0, 14, 8);
    lemma_field_word(f, 0, 22, 8);
    lemma_field_word(f, 0, 30, 2);
}

} // verus!
