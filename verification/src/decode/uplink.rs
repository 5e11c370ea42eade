//! A flat decoder of uplink frames: format number, recovered address and, for
//! UF0 and UF16, the surveillance fields.
use super::acas::{acas_mu_spec, decode_mu, AcasMu};
use super::deku_uplink::{parse_uf0, parse_uf16, raw_uf0_layout, raw_uf16_layout};
use crate::bits::{bytes_to_hex, hex_text};
use crate::crc::{recover_ap_address, recovered_address};
use vstd::prelude::*;

verus! {

/// Uplink format, from the first five bits (or the `11` prefix of UF24).
#[derive(Debug, Clone, Copy, PartialEq, Eq)]
pub enum UplinkFormat {
    Uf0,
    Uf4,
    Uf5,
    Uf11,
    Uf16,
    Uf20,
    Uf21,
    Uf24,
    Unknown(u8),
}

/// The format of a frame whose first byte is `first`.
pub open spec fn format_of(first: u8) -> UplinkFormat {
    let five = first >> 3u8;
    if five == 0 {
        UplinkFormat::Uf0
    } else if five == 4 {
        UplinkFormat::Uf4
    } else if five == 5 {
        UplinkFormat::Uf5
    } else if five == 11 {
        UplinkFormat::Uf11
    } else if five == 16 {
        UplinkFormat::Uf16
    } else if five == 20 {
        UplinkFormat::Uf20
    } else if five == 21 {
        UplinkFormat::Uf21
    } else if first & 0xC0u8 == 0xC0u8 {
        UplinkFormat::Uf24
    } else {
        UplinkFormat::Unknown(five)
    }
}

/// The number of a format.
pub open spec fn number_of(f: UplinkFormat) -> u8 {
    match f {
        UplinkFormat::Uf0 => 0,
        UplinkFormat::Uf4 => 4,
        UplinkFormat::Uf5 => 5,
        UplinkFormat::Uf11 => 11,
        UplinkFormat::Uf16 => 16,
        UplinkFormat::Uf20 => 20,
        UplinkFormat::Uf21 => 21,
        UplinkFormat::Uf24 => 24,
        UplinkFormat::Unknown(v) => v,
    }
}

impl UplinkFormat {
    /// The format of a frame, from its first byte.
    pub fn from_frame(data: &[u8]) -> (f: Self)
        requires
            data@.len() >= 1,
        ensures
            f == format_of(data@[0]),
    {
        let first_five = data[0] >> 3u8;
        if first_five == 0 {
            Self::Uf0
        } else if first_five == 4 {
            Self::Uf4
        } else if first_five == 5 {
            Self::Uf5
        } else if first_five == 11 {
            Self::Uf11
        } else if first_five == 16 {
            Self::Uf16
        } else if first_five == 20 {
            Self::Uf20
        } else if first_five == 21 {
            Self::Uf21
        } else if (data[0] & 0xC0u8) == 0xC0u8 {
            Self::Uf24
        } else {
            Self::Unknown(first_five)
        }
    }

    /// The format's number.
    pub fn number(self) -> (n: u8)
        ensures
            n == number_of(self),
    {
        match self {
            Self::Uf0 => 0,
            Self::Uf4 => 4,
            Self::Uf5 => 5,
            Self::Uf11 => 11,
            Self::Uf16 => 16,
            Self::Uf20 => 20,
            Self::Uf21 => 21,
            Self::Uf24 => 24,
            Self::Unknown(v) => v,
        }
    }
}

/// UF0 surveillance fields.
#[derive(Debug, Clone, PartialEq, Eq)]
pub struct Uf0Fields {
    pub rl: u8,
    pub aq: u8,
    pub ds: u8,
}

/// UF16 surveillance fields and `MU` summary.
#[derive(Debug, Clone, PartialEq, Eq)]
pub struct Uf16Fields {
    pub rl: u8,
    pub aq: u8,
    pub mu: [u8; 7],
    pub acas: AcasMu,
}

/// Format-specific fields.
#[derive(Debug, Clone, PartialEq, Eq)]
pub enum DecodedFields {
    Uf0(Uf0Fields),
    Uf16(Uf16Fields),
    Unsupported,
}

/// A decoded frame.
#[derive(Debug, Clone, PartialEq, Eq)]
pub struct DecodedUplink {
    /// The frame in hexadecimal.
    pub raw: String,
    /// The format number.
    pub uf: u8,
    /// The frame length in bits.
    pub bits: usize,
    /// The recovered address as six lowercase hexadecimal digits.
    pub address: String,
    /// The recovered address.
    pub address_u32: u32,
    /// Format-specific fields.
    pub fields: DecodedFields,
}

/// Why a frame cannot be decoded.
#[derive(Debug, Clone, PartialEq, Eq)]
pub enum DecodeError {
    InvalidLength(usize),
}

/// The three bytes of a 24-bit value, most significant first.
pub open spec fn bytes24(v: u32) -> Seq<u8> {
    seq![(v >> 16u32) as u8, (v >> 8u32) as u8, v as u8]
}

/// The fields of a frame of `bits` bits.
pub open spec fn fields_of(f: Seq<u8>, bits: nat) -> DecodedFields {
    let fmt = format_of(f[0]);
    if fmt == UplinkFormat::Uf0 && bits == 56 {
        let raw = raw_uf0_layout(f);
        DecodedFields::Uf0(Uf0Fields { rl: raw.rl, aq: raw.aq, ds: raw.ds })
    } else if fmt == UplinkFormat::Uf16 && bits == 112 {
        let raw = raw_uf16_layout(f);
        DecodedFields::Uf16(Uf16Fields { rl: raw.rl, aq: raw.aq, mu: raw.mu, acas: acas_mu_spec(f) })
    } else {
        DecodedFields::Unsupported
    }
}

/// Decode a 7- or 14-byte frame.
pub fn decode_frame(frame: &[u8]) -> (r: Result<DecodedUplink, DecodeError>)
    ensures
        frame@.len() != 7 && frame@.len() != 14 ==> r == Err::<DecodedUplink, DecodeError>(
            DecodeError::InvalidLength(frame@.len() as usize),
        ),
        frame@.len() == 7 || frame@.len() == 14 ==> ({
            let bits: nat = if frame@.len() == 7 {
                56
            } else {
                112
            };
            let address = recovered_address(frame@, bits);
            &&& r is Ok
            &&& r->Ok_0.raw@ == hex_text(frame@)
            &&& r->Ok_0.uf == number_of(format_of(frame@[0]))
            &&& r->Ok_0.bits == bits
            &&& r->Ok_0.address_u32 == address
            &&& r->Ok_0.address@ == hex_text(bytes24(address))
            &&& r->Ok_0.fields == fields_of(frame@, bits)
        }),
{
    let len = frame.len();
    let bits: usize = if len == 7 {
        56
    } else if len == 14 {
        112
    } else {
        return Err(DecodeError::InvalidLength(len));
    };
    let uf = UplinkFormat::from_frame(frame);
    let address_u32 = recover_ap_address(frame, bits);
    let fields = match uf {
        UplinkFormat::Uf0 if bits == 56 => match parse_uf0(frame) {
            Ok(raw) => DecodedFields::Uf0(Uf0Fields { rl: raw.rl, aq: raw.aq, ds: raw.ds }),
            Err(_) => DecodedFields::Unsupported,
        },
        UplinkFormat::Uf16 if bits == 112 => match parse_uf16(frame) {
            Ok(raw) => DecodedFields::Uf16(
                Uf16Fields { rl: raw.rl, aq: raw.aq, mu: raw.mu, acas: decode_mu(frame) },
            ),
            Err(_) => DecodedFields::Unsupported,
        },
        _ => DecodedFields::Unsupported,
    };
    let address_bytes: [u8; 3] = [
        (address_u32 >> 16u32) as u8,
        (address_u32 >> 8u32) as u8,
        address_u32 as u8,
    ];
    assert(address_bytes@ =~= bytes24(address_u32));
    Ok(
        DecodedUplink {
            raw: bytes_to_hex(frame),
            uf: uf.number(),
            bits,
            address: bytes_to_hex(&address_bytes),
            address_u32,
            fields,
        },
    )
}

} // verus!
