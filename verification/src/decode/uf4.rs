//! UF4 — surveillance altitude request, 56 bits.
//!
//! | Bits (zero-based) | Field | Meaning |
//! | ---: | --- | --- |
//! | 0-4 | `UF` | Uplink format, `4` |
//! | 5-7 | `PC` | Protocol control |
//! | 8-12 | `RR` | Reply request (`0..=15` DF4, `16..=31` DF20 with BDS1) |
//! | 13-15 | `DI` | Designator identification; selects the `SD` layout |
//! | 16-31 | `SD` | Special designator |
//! | 32-55 | `AP` | Address/parity field |
use super::util::{overrun, sd_format_overrun, sd_format_widths, 
    decode_sd, field_u8, queried_bds, queried_bds_spec, read_u8, sd_spec, BdsCode, Icao24,
    SpecialDesignator,
};
use super::DecodeError;
use crate::bits::{bits_value, extract_bits, lemma_field_word, lemma_low_masks, word_at};
use vstd::arithmetic::power2::lemma2_to64;
use vstd::prelude::*;

verus! {

/// UF4 — surveillance altitude request.
#[derive(Debug, Clone, PartialEq, Eq)]
pub struct Uf4 {
    /// Uplink format descriptor, `4`.
    pub uf: u8,
    /// `PC`, protocol control.
    pub pc: u8,
    /// `RR`, reply request.
    pub rr: u8,
    /// `DI`, designator identification.
    pub di: u8,
    /// `SD`, special designator, decoded according to `DI`.
    pub sd: SpecialDesignator,
    /// Queried Comm-B register when `RR >= 16`.
    pub bds: Option<BdsCode>,
    /// Address recovered from the `AP` field.
    pub ap: Icao24,
}

/// The UF4 fields of a frame whose recovered address is `icao24`.
pub open spec fn uf4_layout(f: Seq<u8>, icao24: u32) -> Uf4 {
    let rr = field_u8(f, 8, 5);
    let di = field_u8(f, 13, 3);
    let sd = sd_spec(di, bits_value(f, 16, 16) as u16);
    Uf4 {
        uf: field_u8(f, 0, 5),
        pc: field_u8(f, 5, 3),
        rr,
        di,
        sd,
        bds: queried_bds_spec(rr, sd),
        ap: Icao24(icao24),
    }
}

/// A frame decoded as UF4: its fields when it holds 56 bits.
pub open spec fn uf4_decoded(f: Seq<u8>, icao24: u32) -> Result<Uf4, DecodeError> {
    if f.len() >= 7 {
        Ok(uf4_layout(f, icao24))
    } else {
        Err(DecodeError::Incomplete(overrun(sd_format_widths(f, false), 8 * f.len() as int) as usize))
    }
}

/// Decode the UF4 layout from the start of `frame`, with recovered address
/// `icao24`.
pub fn decode(frame: &[u8], icao24: u32) -> (r: Result<Uf4, DecodeError>)
    ensures
        r == uf4_decoded(frame@, icao24),
{
    if frame.len() < 7 {
        return Err(DecodeError::Incomplete(sd_format_overrun(frame, false)));
    }
    let rr = read_u8(frame, 8, 5);
    let di = read_u8(frame, 13, 3);
    let sd_bits = extract_bits(frame, 16, 16);
    let sd = match decode_sd(di, sd_bits as u16) {
        Ok(sd) => sd,
        Err(e) => return Err(e),
    };
    let bds = queried_bds(rr, &sd);
    Ok(Uf4 { uf: read_u8(frame, 0, 5), pc: read_u8(frame, 5, 3), rr, di, sd, bds, ap: Icao24(icao24) })
}

/// Law: each UF4 field sits at its fixed place in the frame. With `w` the
/// big-endian word of the first four bytes (frame bit `i` is bit `31 - i` of
/// `w`): `UF` is frame bits 0-4, `PC` bits 5-7, `RR` bits 8-12, `DI` bits
/// 13-15, `SD` (decoded for that `DI`) bits 16-31; the queried
/// register follows from `RR` and `SD`, and the address is the recovered one.
pub proof fn law_uf4_fields(f: Seq<u8>, icao24: u32)
    requires
        f.len() >= 7,
    ensures
        ({
            let w = word_at(f, 0);
            let v = uf4_layout(f, icao24);
            &&& v.uf as u32 == (w >> 27u32) & 0x1fu32
            &&& v.pc as u32 == (w >> 24u32) & 7u32
            &&& v.rr as u32 == (w >> 19u32) & 0x1fu32
            &&& v.di as u32 == (w >> 16u32) & 7u32
            &&& v.sd == sd_spec(v.di, (w & 0xffffu32) as u16)
            &&& v.bds == queried_bds_spec(v.rr, v.sd)
            &&& v.ap == Icao24(icao24)
        }),
{
    let w = word_at(f, 0);
    lemma_low_masks(w);
    lemma2_to64();
    lemma_field_word(f, 0, 0, 5);
    lemma_field_word(f, 0, 5, 3);
    lemma_field_word(f, 0, 8, 5);
    lemma_field_word(f, 0, 13, 3);
    lemma_field_word(f, 0, 16, 16);
}

} // verus!
