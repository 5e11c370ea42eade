//! UF16 — long air-air surveillance interrogation (ACAS), 112 bits.
//!
//! | Bits (zero-based) | Field | Meaning |
//! | ---: | --- | --- |
//! | 0-4 | `UF` | Uplink format, `16` |
//! | 5-7 | spare | |
//! | 8 | `RL` | Reply length command |
//! | 9-12 | spare | |
//! | 13 | `AQ` | Acquisition |
//! | 14-31 | spare | |
//! | 32-87 | `MU` | ACAS message field |
//! | 88-111 | `AP` | Address/parity field |
//!
//! `MU` starts with `UDS` (`UDS1`, `UDS2` nibbles): `(3, 0)` is a resolution
//! message, `(3, 1)` an RA broadcast, `(3, 2)` an ACAS broadcast. Resolution
//! messages and ACAS broadcasts carry `MID`, the interrogating ACAS aircraft's
//! 24-bit address, in the last three `MU` bytes.
use super::util::{first_overrun, overrun, field_flag, field_u8, read_flag, read_u8, Icao24};
use super::DecodeError;
use crate::bits::{
    bits_value, bytes_to_hex, extract_bits, hex_text, lemma_field_word, lemma_low_masks, word_at,
};
use vstd::arithmetic::power2::lemma2_to64;
use vstd::prelude::*;

verus! {

/// Classification of the UF16 `MU` field by its `UDS` nibbles.
#[derive(Debug, Clone, PartialEq, Eq)]
pub enum MuKind {
    /// `UDS1 = 3`, `UDS2 = 0`.
    ResolutionMessage,
    /// `UDS1 = 3`, `UDS2 = 1`.
    RaBroadcast,
    /// `UDS1 = 3`, `UDS2 = 2`.
    AcasBroadcast,
    /// Any other `UDS`.
    Unknown,
}

/// Summary of the UF16 `MU` field.
#[derive(Debug, Clone, PartialEq, Eq)]
pub struct AcasMu {
    /// `UDS1`, high nibble of the first `MU` byte.
    pub uds1: u8,
    /// `UDS2`, low nibble of the first `MU` byte.
    pub uds2: u8,
    /// Classification from (`UDS1`, `UDS2`).
    pub kind: MuKind,
    /// `MID` as six lowercase hexadecimal digits, for resolution messages and
    /// ACAS broadcasts.
    pub mid: Option<String>,
}

/// UF16 — long air-air surveillance interrogation.
#[derive(Debug, Clone, PartialEq, Eq)]
pub struct Uf16 {
    /// Uplink format descriptor, `16`.
    pub uf: u8,
    /// Spare bits 5-7.
    pub spare0: u8,
    /// Reply length command.
    pub rl: bool,
    /// Spare bits 9-12.
    pub spare1: u8,
    /// Acquisition bit.
    pub aq: bool,
    /// Spare bits 14-31, read little-endian: the first eight bits are the low
    /// byte, the next eight the middle byte, the last two the high byte.
    pub spare2: u32,
    /// ACAS message field: frame bytes 4-10.
    pub mu: [u8; 7],
    /// Summary of `mu`.
    pub acas: AcasMu,
    /// Address recovered from the address/parity field, bits 88-111.
    pub ap: Icao24,
}

/// The `MU` kind of a (`UDS1`, `UDS2`) pair.
pub open spec fn mu_kind_spec(uds1: u8, uds2: u8) -> MuKind {
    if uds1 == 3 && uds2 == 0 {
        MuKind::ResolutionMessage
    } else if uds1 == 3 && uds2 == 1 {
        MuKind::RaBroadcast
    } else if uds1 == 3 && uds2 == 2 {
        MuKind::AcasBroadcast
    } else {
        MuKind::Unknown
    }
}

/// `acas` summarises the seven `MU` bytes `mu`.
pub open spec fn acas_summarises(acas: AcasMu, mu: Seq<u8>) -> bool {
    let kind = mu_kind_spec(mu[0] >> 4u8, mu[0] & 0x0fu8);
    &&& acas.uds1 == mu[0] >> 4u8
    &&& acas.uds2 == mu[0] & 0x0fu8
    &&& acas.kind == kind
    &&& if kind == MuKind::ResolutionMessage || kind == MuKind::AcasBroadcast {
        acas.mid matches Some(mid) && mid@ == hex_text(mu.subrange(4, 7))
    } else {
        acas.mid is None
    }
}

/// `u` holds the UF16 fields of frame `f`.
pub open spec fn uf16_layout_holds(u: Uf16, f: Seq<u8>, icao24: u32) -> bool {
    &&& u.uf == field_u8(f, 0, 5)
    &&& u.spare0 == field_u8(f, 5, 3)
    &&& u.rl == field_flag(f, 8)
    &&& u.spare1 == field_u8(f, 9, 4)
    &&& u.aq == field_flag(f, 13)
    &&& u.spare2 == (bits_value(f, 14, 8) + 256 * bits_value(f, 22, 8) + 65536 * bits_value(
        f,
        30,
        2,
    )) as u32
    &&& u.mu@ == f.subrange(4, 11)
    &&& acas_summarises(u.acas, f.subrange(4, 11))
    &&& u.ap == Icao24(icao24)
}

/// Summarise the seven `MU` bytes.
fn decode_mu_bytes(mu: &[u8; 7]) -> (acas: AcasMu)
    ensures
        acas_summarises(acas, mu@),
{
    let uds1 = mu[0] >> 4u8;
    let uds2 = mu[0] & 0x0fu8;
    let kind = if uds1 == 3 && uds2 == 0 {
        MuKind::ResolutionMessage
    } else if uds1 == 3 && uds2 == 1 {
        MuKind::RaBroadcast
    } else if uds1 == 3 && uds2 == 2 {
        MuKind::AcasBroadcast
    } else {
        MuKind::Unknown
    };
    let mid = match kind {
        MuKind::ResolutionMessage | MuKind::AcasBroadcast => {
            let id: [u8; 3] = [mu[4], mu[5], mu[6]];
            assert(id@ =~= mu@.subrange(4, 7));
            Some(bytes_to_hex(&id))
        },
        _ => None,
    };
    AcasMu { uds1, uds2, kind, mid }
}

/// The widths of the UF16 fields, in the order they are read (`MU` a byte
/// at a time).
pub open spec fn uf16_widths() -> Seq<usize> {
    seq![5usize, 3, 1, 4, 1, 18, 8, 8, 8, 8, 8, 8, 8, 24]
}

/// Decode the UF16 layout from the start of `frame`.
pub fn decode(frame: &[u8], icao24: u32) -> (r: Result<Uf16, DecodeError>)
    ensures
        frame@.len() >= 14 <==> r is Ok,
        frame@.len() >= 14 ==> uf16_layout_holds(r->Ok_0, frame@, icao24),
        frame@.len() < 14 ==> r == Err::<Uf16, DecodeError>(
            DecodeError::Incomplete(overrun(uf16_widths(), 8 * frame@.len() as int) as usize),
        ),
{
    if frame.len() < 14 {
        let widths: [usize; 14] = [5, 3, 1, 4, 1, 18, 8, 8, 8, 8, 8, 8, 8, 24];
        assert(widths@ =~= uf16_widths());
        return Err(DecodeError::Incomplete(first_overrun(&widths, 8 * frame.len())));
    }
    let b0 = read_u8(frame, 14, 8);
    let b1 = read_u8(frame, 22, 8);
    let b2 = read_u8(frame, 30, 2);
    let mu: [u8; 7] = [frame[4], frame[5], frame[6], frame[7], frame[8], frame[9], frame[10]];
    assert(mu@ =~= frame@.subrange(4, 11));
    let acas = decode_mu_bytes(&mu);
    Ok(
        Uf16 {
            uf: read_u8(frame, 0, 5),
            spare0: read_u8(frame, 5, 3),
            rl: read_flag(frame, 8),
            spare1: read_u8(frame, 9, 4),
            aq: read_flag(frame, 13),
            spare2: b0 as u32 + 256 * (b1 as u32) + 65536 * (b2 as u32),
            mu,
            acas,
            ap: Icao24(icao24),
        },
    )
}

/// Summarise the `MU` field of a UF16 frame: `UDS1` and `UDS2` from bits
/// 32-39, the rest from frame bytes 4-10.
pub fn decode_mu(frame: &[u8]) -> (acas: AcasMu)
    requires
        frame@.len() >= 11,
    ensures
        acas_summarises(acas, frame@.subrange(4, 11)),
{
    let uds1 = extract_bits(frame, 32, 4) as u8;
    let uds2 = extract_bits(frame, 36, 4) as u8;
    let mu: [u8; 7] = [frame[4], frame[5], frame[6], frame[7], frame[8], frame[9], frame[10]];
    assert(mu@ =~= frame@.subrange(4, 11));
    let mut acas = decode_mu_bytes(&mu);
    proof {
        lemma_nibbles(frame@, 4);
    }
    acas.uds1 = uds1;
    acas.uds2 = uds2;
    acas
}

/// The two nibbles of byte `k` are the four-bit fields at its start and middle.
proof fn lemma_nibbles(f: Seq<u8>, k: int)
    requires
        0 <= k < f.len(),
    ensures
        bits_value(f, 8 * k, 4) == (f[k] >> 4u8) as nat,
        bits_value(f, 8 * k + 4, 4) == (f[k] & 0x0fu8) as nat,
{
    reveal_with_fuel(bits_value, 5);
    let b = f[k];
    assert((8 * k + 0) / 8 == k && (8 * k + 0) % 8 == 0);
    assert((8 * k + 1) / 8 == k && (8 * k + 1) % 8 == 1);
    assert((8 * k + 2) / 8 == k && (8 * k + 2) % 8 == 2);
    assert((8 * k + 3) / 8 == k && (8 * k + 3) % 8 == 3);
    assert((8 * k + 4) / 8 == k && (8 * k + 4) % 8 == 4);
    assert((8 * k + 5) / 8 == k && (8 * k + 5) % 8 == 5);
    assert((8 * k + 6) / 8 == k && (8 * k + 6) % 8 == 6);
    assert((8 * k + 7) / 8 == k && (8 * k + 7) % 8 == 7);
    assert((b >> 4u8) as nat == 2 * (2 * (2 * ((b >> 7u8) & 1u8) + ((b >> 6u8) & 1u8)) + ((b
        >> 5u8) & 1u8)) + ((b >> 4u8) & 1u8)) by (bit_vector);
    assert((b & 0x0fu8) as nat == 2 * (2 * (2 * ((b >> 3u8) & 1u8) + ((b >> 2u8) & 1u8)) + ((b
        >> 1u8) & 1u8)) + ((b >> 0u8) & 1u8)) by (bit_vector);
}

/// Law: each UF16 field sits at its fixed place in the frame. With `w` the
/// big-endian word of the first four bytes: `UF` is frame bits 0-4, `RL` bit
/// 8, `AQ` bit 13, `MU` frame bytes 4-10, and the address is the recovered
/// one.
pub proof fn law_uf16_fields(u: Uf16, f: Seq<u8>, icao24: u32)
    requires
        f.len() >= 14,
        uf16_layout_holds(u, f, icao24),
    ensures
        ({
            let w = word_at(f, 0);
            &&& u.uf as u32 == (w >> 27u32) & 0x1fu32
            &&& u.spare0 as u32 == (w >> 24u32) & 7u32
            &&& u.rl == ((w >> 23u32) & 1u32 == 1u32)
            &&& u.spare1 as u32 == (w >> 19u32) & 0xfu32
            &&& u.aq == ((w >> 18u32) & 1u32 == 1u32)
            &&& u.spare2 == ((w >> 10u32) & 0xffu32) + 256 * ((w >> 2u32) & 0xffu32) + 65536 * (w
                & 3u32)
            &&& u.mu@ == f.subrange(4, 11)
            &&& u.ap == Icao24(icao24)
        }),
{
    let w = word_at(f, 0);
    lemma_low_masks(w);
    lemma2_to64();
    lemma_field_word(f, 0, 0, 5);
    lemma_field_word(f, 0, 5, 3);
    lemma_field_word(f, 0, 8, 1);
    lemma_field_word(f, 0, 9, 4);
    lemma_field_word(f, 0, 13, 1);
    lemma_field_word(f, 0, 14, 8);
    lemma_field_word(f, 0, 22, 8);
    lemma_field_word(f, 0, 30, 2);
}

} // verus!
