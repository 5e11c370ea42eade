//! Flat raw layouts of UF0 and UF16, with the one-bit fields kept as integers.
use super::util::{field_u8, read_u8};
use super::DecodeError;
use crate::bits::{bits_value, extract_bits};
use super::uf0::uf0_widths;
use super::uf16::uf16_widths;
use super::util::{first_overrun, overrun};
use vstd::prelude::*;

verus! {

/// Raw UF0 layout.
#[derive(Debug, Clone, PartialEq, Eq)]
pub struct RawUf0 {
    pub uf: u8,
    pub spare0: u8,
    pub rl: u8,
    pub spare1: u8,
    pub aq: u8,
    pub ds: u8,
    /// Bits 22-31 read little-endian (first eight bits low byte).
    pub spare2: u16,
    pub ap: u32,
}

/// Raw UF16 layout.
#[derive(Debug, Clone, PartialEq, Eq)]
pub struct RawUf16 {
    pub uf: u8,
    pub spare0: u8,
    pub rl: u8,
    pub spare1: u8,
    pub aq: u8,
    /// Bits 14-31 read little-endian (first eight bits low byte).
    pub spare2: u32,
    pub mu: [u8; 7],
    pub ap: u32,
}

/// The raw UF0 fields of a frame.
pub open spec fn raw_uf0_layout(f: Seq<u8>) -> RawUf0 {
    RawUf0 {
        uf: field_u8(f, 0, 5),
        spare0: field_u8(f, 5, 3),
        rl: field_u8(f, 8, 1),
        spare1: field_u8(f, 9, 4),
        aq: field_u8(f, 13, 1),
        ds: field_u8(f, 14, 8),
        spare2: (bits_value(f, 22, 8) + 256 * bits_value(f, 30, 2)) as u16,
        ap: bits_value(f, 32, 24) as u32,
    }
}

/// The raw UF16 fields of a frame.
pub open spec fn raw_uf16_layout(f: Seq<u8>) -> RawUf16 {
    RawUf16 {
        uf: field_u8(f, 0, 5),
        spare0: field_u8(f, 5, 3),
        rl: field_u8(f, 8, 1),
        spare1: field_u8(f, 9, 4),
        aq: field_u8(f, 13, 1),
        spare2: (bits_value(f, 14, 8) + 256 * bits_value(f, 22, 8) + 65536 * bits_value(f, 30, 2))
            as u32,
        mu: [f[4], f[5], f[6], f[7], f[8], f[9], f[10]],
        ap: bits_value(f, 88, 24) as u32,
    }
}

/// Parse the raw UF0 layout from the start of `frame`.
pub fn parse_uf0(frame: &[u8]) -> (r: Result<RawUf0, DecodeError>)
    ensures
        frame@.len() >= 7 ==> r == Ok::<RawUf0, DecodeError>(raw_uf0_layout(frame@)),
        frame@.len() < 7 ==> r == Err::<RawUf0, DecodeError>(
            DecodeError::Incomplete(overrun(uf0_widths(), 8 * frame@.len() as int) as usize),
        ),
{
    if frame.len() < 7 {
        let widths: [usize; 8] = [5, 3, 1, 4, 1, 8, 10, 24];
        assert(widths@ =~= uf0_widths());
        return Err(DecodeError::Incomplete(first_overrun(&widths, 8 * frame.len())));
    }
    let low = read_u8(frame, 22, 8);
    let high = read_u8(frame, 30, 2);
    Ok(
        RawUf0 {
            uf: read_u8(frame, 0, 5),
            spare0: read_u8(frame, 5, 3),
            rl: read_u8(frame, 8, 1),
            spare1: read_u8(frame, 9, 4),
            aq: read_u8(frame, 13, 1),
            ds: read_u8(frame, 14, 8),
            spare2: low as u16 + 256 * (high as u16),
            ap: extract_bits(frame, 32, 24),
        },
    )
}

/// Parse the raw UF16 layout from the start of `frame`.
pub fn parse_uf16(frame: &[u8]) -> (r: Result<RawUf16, DecodeError>)
    ensures
        frame@.len() >= 14 ==> r == Ok::<RawUf16, DecodeError>(raw_uf16_layout(frame@)),
        frame@.len() < 14 ==> r == Err::<RawUf16, DecodeError>(
            DecodeError::Incomplete(overrun(uf16_widths(), 8 * frame@.len() as int) as usize),
        ),
{
    if frame.len() < 14 {
        let widths: [usize; 14] = [5, 3, 1, 4, 1, 18, 8, 8, 8, 8, 8, 8, 8, 24];
        assert(widths@ =~= uf16_widths());
        return Err(DecodeError::Incomplete(first_overrun(&widths, 8 * frame.len())));
    }
    let b0 = read_u8(frame, 14, 8);
    let b1 = read_u8(frame, 22, 8);
    let b2 = read_u8(frame, 30, 2);
    let mu: [u8; 7] = [frame[4], frame[5], frame[6], frame[7], frame[8], frame[9], frame[10]];
    Ok(
        RawUf16 {
            uf: read_u8(frame, 0, 5),
            spare0: read_u8(frame, 5, 3),
            rl: read_u8(frame, 8, 1),
            spare1: read_u8(frame, 9, 4),
            aq: read_u8(frame, 13, 1),
            spare2: b0 as u32 + 256 * (b1 as u32) + 65536 * (b2 as u32),
            mu,
            ap: extract_bits(frame, 88, 24),
        },
    )
}

} // verus!
