//! Decoded Mode S 1030 MHz uplink frames.
//!
//! Format-specific decoders live in `uf0` ... `uf24`. This module dispatches
//! on the `UF` field, recovers the interrogated address from the AP field, and
//! adds the raw frame in hexadecimal. UF0/4/5/11 frames are 56 bits long and
//! UF16/20/21/24 frames 112 bits; UF24 is identified by its first two bits
//! `11`, all others by a five-bit format number.
pub mod acas;
pub mod deku_uplink;
pub mod uf0;
pub mod uf11;
pub mod uf16;
pub mod uf20;
pub mod uf21;
pub mod uf24;
pub mod uf4;
pub mod uf5;
pub mod uplink;
pub mod util;
use crate::bits::{bits_value, bytes_to_hex, hex_text, lemma_bits_value_byte};
use crate::crc::{recover_ap_address, recovered_address};
use uf0::{uf0_layout, Uf0};
use uf11::{uf11_layout, Uf11};
use uf16::{uf16_layout_holds, Uf16};
use uf20::{uf20_layout, Uf20};
use uf21::{uf21_layout, Uf21};
use uf24::{uf24_layout, Uf24};
use uf4::{uf4_layout, Uf4};
use uf5::{uf5_layout, Uf5};
use util::{byte_at, field_u8, read_u8};
use crate::text::{decimal_text, u64_text};
use vstd::prelude::*;
use vstd::string::StringExecFns;
use vstd::slice::slice_subrange;

verus! {

/// Why a frame cannot be decoded.
#[derive(Debug, Clone, PartialEq, Eq)]
pub enum DecodeError {
    /// A frame must be 7 bytes (56 bits) or 14 bytes (112 bits) long.
    InvalidLength(usize),
    /// The data ran out: the read that could not be completed asked for this
    /// many bits.
    Incomplete(usize),
}

impl DecodeError {
    /// A one-line description of the error.
    pub fn to_text(&self) -> (t: String)
        ensures
            t@ == match self {
                DecodeError::InvalidLength(len) => "invalid Mode S uplink byte length: "@
                    + decimal_text(*len as nat),
                DecodeError::Incomplete(bits) => "Not enough data, need "@ + decimal_text(
                    *bits as nat,
                ) + " bits (or "@ + decimal_text((*bits as nat + 7) / 8) + " bytes)"@,
            },
    {
        match self {
            DecodeError::InvalidLength(len) => {
                let mut t = String::from_str("invalid Mode S uplink byte length: ");
                t.append(u64_text(*len as u64).as_str());
                t
            },
            DecodeError::Incomplete(bits) => {
                let bytes: u64 = *bits as u64 / 8 + if *bits as u64 % 8 == 0 { 0 } else { 1 };
                assert(bytes == (*bits as nat + 7) / 8);
                let mut t = String::from_str("Not enough data, need ");
                t.append(u64_text(*bits as u64).as_str());
                t.append(" bits (or ");
                t.append(u64_text(bytes).as_str());
                t.append(" bytes)");
                t
            },
        }
    }
}


/// Mode S uplink format (`UF`) and decoded payload.
#[derive(Debug, Clone, PartialEq, Eq)]
pub enum UplinkFormat {
    /// UF0: short air-air surveillance / ACAS, 56 bits.
    Uf0(Uf0),
    /// UF4: surveillance altitude request, 56 bits.
    Uf4(Uf4),
    /// UF5: surveillance identity request, 56 bits.
    Uf5(Uf5),
    /// UF11: Mode S-only all-call, 56 bits.
    Uf11(Uf11),
    /// UF16: long air-air surveillance / ACAS, 112 bits.
    Uf16(Uf16),
    /// UF20: Comm-A altitude request, 112 bits.
    Uf20(Uf20),
    /// UF21: Comm-A identity request, 112 bits.
    Uf21(Uf21),
    /// UF24: Comm-C / extended length message, 112 bits.
    Uf24(Uf24),
    /// Reserved or unsupported uplink format, with its five-bit `UF` value.
    Unknown { uf: u8 },
}

/// The `UF` number of a decoded format.
pub open spec fn format_number(f: UplinkFormat) -> u8 {
    match f {
        UplinkFormat::Uf0(_) => 0,
        UplinkFormat::Uf4(_) => 4,
        UplinkFormat::Uf5(_) => 5,
        UplinkFormat::Uf11(_) => 11,
        UplinkFormat::Uf16(_) => 16,
        UplinkFormat::Uf20(_) => 20,
        UplinkFormat::Uf21(_) => 21,
        UplinkFormat::Uf24(_) => 24,
        UplinkFormat::Unknown { uf } => uf,
    }
}

/// The first five bits of a frame.
pub open spec fn first_five(f: Seq<u8>) -> u8 {
    f[0] >> 3u8
}

/// Whether a frame's first byte marks a 112-bit format: UF16, UF20, UF21, or
/// UF24 (first two bits `11`).
pub open spec fn is_long_format(first: u8) -> bool {
    let five = first >> 3u8;
    five == 16 || five == 20 || five == 21 || first & 0xC0u8 == 0xC0u8
}

/// The number of bits the layout of a frame's format needs (none for an
/// unknown format).
pub open spec fn needed_bits(f: Seq<u8>) -> nat {
    let five = first_five(f);
    if five == 0 || five == 4 || five == 5 || five == 11 {
        56
    } else if is_long_format(f[0]) {
        112
    } else {
        0
    }
}

/// `fmt` is frame `f` decoded, with `icao24` as its recovered address.
pub open spec fn decoded_as(fmt: UplinkFormat, f: Seq<u8>, icao24: u32) -> bool {
    let five = first_five(f);
    if five == 0 {
        fmt == UplinkFormat::Uf0(uf0_layout(f, icao24))
    } else if five == 4 {
        fmt == UplinkFormat::Uf4(uf4_layout(f, icao24))
    } else if five == 5 {
        fmt == UplinkFormat::Uf5(uf5_layout(f, icao24))
    } else if five == 11 {
        fmt == UplinkFormat::Uf11(uf11_layout(f, icao24))
    } else if five == 16 {
        fmt matches UplinkFormat::Uf16(u) && uf16_layout_holds(u, f, icao24)
    } else if five == 20 {
        fmt == UplinkFormat::Uf20(uf20_layout(f, icao24))
    } else if five == 21 {
        fmt == UplinkFormat::Uf21(uf21_layout(f, icao24))
    } else if f[0] & 0xC0u8 == 0xC0u8 {
        fmt == UplinkFormat::Uf24(uf24_layout(f, icao24))
    } else {
        fmt == UplinkFormat::Unknown { uf: five }
    }
}

impl UplinkFormat {
    /// The `UF` number: the format's number, or the five-bit value of an
    /// unknown format.
    pub fn number(&self) -> (n: u8)
        ensures
            n == format_number(*self),
    {
        match self {
            Self::Uf0(_) => 0,
            Self::Uf4(_) => 4,
            Self::Uf5(_) => 5,
            Self::Uf11(_) => 11,
            Self::Uf16(_) => 16,
            Self::Uf20(_) => 20,
            Self::Uf21(_) => 21,
            Self::Uf24(_) => 24,
            Self::Unknown { uf } => *uf,
        }
    }

    /// Decode `frame` by its `UF` field, with `icao24` as the recovered address.
    fn from_frame(frame: &[u8], icao24: u32) -> (r: Result<Self, DecodeError>)
        requires
            frame@.len() >= 1,
        ensures
            8 * frame@.len() >= needed_bits(frame@) ==> r is Ok && decoded_as(
                r->Ok_0,
                frame@,
                icao24,
            ),
            8 * frame@.len() < needed_bits(frame@) ==> r is Err,
    {
        let first_five = frame[0] >> 3u8;
        if first_five == 0 {
            match uf0::decode(frame, icao24) {
                Ok(v) => Ok(Self::Uf0(v)),
                Err(e) => Err(e),
            }
        } else if first_five == 4 {
            match uf4::decode(frame, icao24) {
                Ok(v) => Ok(Self::Uf4(v)),
                Err(e) => Err(e),
            }
        } else if first_five == 5 {
            match uf5::decode(frame, icao24) {
                Ok(v) => Ok(Self::Uf5(v)),
                Err(e) => Err(e),
            }
        } else if first_five == 11 {
            match uf11::decode(frame, icao24) {
                Ok(v) => Ok(Self::Uf11(v)),
                Err(e) => Err(e),
            }
        } else if first_five == 16 {
            match uf16::decode(frame, icao24) {
                Ok(v) => Ok(Self::Uf16(v)),
                Err(e) => Err(e),
            }
        } else if first_five == 20 {
            match uf20::decode(frame, icao24) {
                Ok(v) => Ok(Self::Uf20(v)),
                Err(e) => Err(e),
            }
        } else if first_five == 21 {
            match uf21::decode(frame, icao24) {
                Ok(v) => Ok(Self::Uf21(v)),
                Err(e) => Err(e),
            }
        } else if (frame[0] & 0xC0u8) == 0xC0u8 {
            match uf24::decode(frame, icao24) {
                Ok(v) => Ok(Self::Uf24(v)),
                Err(e) => Err(e),
            }
        } else {
            Ok(Self::Unknown { uf: first_five })
        }
    }
}

/// The `n` bytes that start at bit `off` of `d`.
pub open spec fn frame_at(d: Seq<u8>, off: int, n: nat) -> Seq<u8> {
    Seq::new(n, |k: int| byte_at(d, off + 8 * k))
}

/// The bit length of the frame whose first byte is `first`.
pub open spec fn frame_bits_for(first: u8) -> nat {
    if is_long_format(first) {
        112
    } else {
        56
    }
}

impl UplinkFormat {
    /// Read one uplink frame starting `input.1` bits into `input.0`.
    ///
    /// The first byte decides the frame length (112 bits for UF16/20/21/24,
    /// else 56); the frame's address is recovered from its AP field and its
    /// payload decoded. On success, returns the bytes from the first one not
    /// wholly consumed together with the bit offset into them, and the
    /// decoded format.
    ///
    /// The data is read in three steps: the bits of `input.1` that precede
    /// the frame within its first byte, the frame's first byte, and the rest
    /// of the frame. When the data runs out, the error gives the size of the
    /// step that failed: `input.1 % 8`, 8, or the frame length less 8.
    pub fn from_bytes<'a>(input: (&'a [u8], usize)) -> (r: Result<((&'a [u8], usize), Self), DecodeError>)
        requires
            input.1 + 120 <= usize::MAX,
        ensures
            ({
                let (d, off) = (input.0@, input.1 as int);
                let n = frame_bits_for(byte_at(d, off));
                let frame = frame_at(d, off, n / 8);
                &&& off % 8 != 0 && d.len() <= off / 8 ==> r == Err::<
                    ((&'a [u8], usize), Self),
                    DecodeError,
                >(DecodeError::Incomplete((off % 8) as usize))
                &&& !(off % 8 != 0 && d.len() <= off / 8) && 8 * d.len() < off + 8 ==> r == Err::<
                    ((&'a [u8], usize), Self),
                    DecodeError,
                >(DecodeError::Incomplete(8))
                &&& off + 8 <= 8 * d.len() < off + n ==> r == Err::<
                    ((&'a [u8], usize), Self),
                    DecodeError,
                >(DecodeError::Incomplete((n - 8) as usize))
                &&& off + n <= 8 * d.len() ==> {
                    &&& r is Ok
                    &&& r->Ok_0.0.0@ == d.subrange((off + n + 7) / 8, d.len() as int)
                    &&& r->Ok_0.0.1 == (off + n) % 8
                    &&& decoded_as(r->Ok_0.1, frame, recovered_address(frame, n))
                }
            }),
    {
        let data = input.0;
        let off = input.1;
        if off % 8 != 0 && data.len() <= off / 8 {
            return Err(DecodeError::Incomplete(off % 8));
        }
        if (off + 8 + 7) / 8 > data.len() {
            return Err(DecodeError::Incomplete(8));
        }
        let first = read_u8(data, off, 8);
        let five = first >> 3u8;
        let bit_len: usize = if five == 16 || five == 20 || five == 21 || (first & 0xC0u8) == 0xC0u8 {
            112
        } else {
            56
        };
        if (off + bit_len + 7) / 8 > data.len() {
            return Err(DecodeError::Incomplete(bit_len - 8));
        }
        let n_bytes = bit_len / 8;
        let mut frame: Vec<u8> = Vec::new();
        let mut k: usize = 0;
        while k < n_bytes
            invariant
                n_bytes == bit_len / 8,
                bit_len == 56 || bit_len == 112,
                off + bit_len <= 8 * data@.len(),
                off + 120 <= usize::MAX,
                k <= n_bytes,
                frame@.len() == k,
                forall|q: int| 0 <= q < k ==> #[trigger] frame@[q] == byte_at(data@, off + 8 * q),
            decreases n_bytes - k,
        {
            let b = read_u8(data, off + 8 * k, 8);
            frame.push(b);
            k += 1;
        }
        assert(frame@ =~= frame_at(data@, off as int, n_bytes as nat));
        let icao24 = recover_ap_address(frame.as_slice(), bit_len);
        let value = match Self::from_frame(frame.as_slice(), icao24) {
            Ok(v) => v,
            Err(e) => return Err(e),
        };
        let bits_read = off + bit_len;
        let idx = (bits_read + 7) / 8;
        let rest = slice_subrange(data, idx, data.len());
        Ok(((rest, bits_read % 8), value))
    }
}

/// Law: reading a frame from the start of a byte sequence decodes it as
/// `decode_frame` decodes the frame's own bytes. When `d` holds the whole
/// frame that its first byte announces, that frame is its first `m` bytes
/// (`m` 7 or 14), `decode_frame` of those bytes succeeds, and a payload that
/// `UplinkFormat::from_bytes((d, 0))` may return is one that `decode_frame`
/// may return for them.
pub proof fn law_from_bytes_matches_decode_frame(d: Seq<u8>, fmt: UplinkFormat)
    requires
        d.len() >= 1,
        frame_bits_for(byte_at(d, 0)) <= 8 * d.len(),
        decoded_as(
            fmt,
            frame_at(d, 0, frame_bits_for(byte_at(d, 0)) / 8),
            recovered_address(
                frame_at(d, 0, frame_bits_for(byte_at(d, 0)) / 8),
                frame_bits_for(byte_at(d, 0)),
            ),
        ),
    ensures
        ({
            let m = frame_bits_for(d[0]) / 8;
            &&& m == 7 || m == 14
            &&& m <= d.len()
            &&& 8 * m >= needed_bits(d.take(m as int))
            &&& decoded_as(fmt, d.take(m as int), recovered_address(d.take(m as int), frame_bits(m)))
        }),
{
    lemma_bits_value_byte(d, 0);
    assert(byte_at(d, 0) == d[0]);
    let n = frame_bits_for(d[0]);
    let m = n / 8;
    let f = frame_at(d, 0, m);
    assert forall|k: int| 0 <= k < m implies #[trigger] f[k] == d.take(m as int)[k] by {
        lemma_bits_value_byte(d, k);
    }
    assert(f =~= d.take(m as int));
    assert(frame_bits(m) == n);
}

/// Law: the `UF` number of a decoded frame is its first five bits, except that
/// every value from 24 up (first two bits `11`) is UF24.
pub proof fn law_decoded_uf_number(fmt: UplinkFormat, f: Seq<u8>, icao24: u32)
    requires
        f.len() >= 1,
        decoded_as(fmt, f, icao24),
    ensures
        format_number(fmt) == (if first_five(f) >= 24 {
            24
        } else {
            first_five(f)
        }),
{
    let b = f[0];
    assert((b >> 3u8 >= 24u8) == (b & 0xC0u8 == 0xC0u8)) by (bit_vector);
}

/// The first five and the first two bits of a frame, read as fields, are its
/// first byte shifted right by three and by six.
proof fn lemma_leading_fields(f: Seq<u8>)
    requires
        f.len() >= 1,
    ensures
        field_u8(f, 0, 5) == f[0] >> 3u8,
        field_u8(f, 0, 2) == f[0] >> 6u8,
{
    reveal_with_fuel(bits_value, 6);
    let b = f[0];
    assert(b >> 3u8 == 16 * ((b >> 7u8) & 1u8) + 8 * ((b >> 6u8) & 1u8) + 4 * ((b >> 5u8) & 1u8)
        + 2 * ((b >> 4u8) & 1u8) + ((b >> 3u8) & 1u8)) by (bit_vector);
    assert(b >> 6u8 == 2 * ((b >> 7u8) & 1u8) + ((b >> 6u8) & 1u8)) by (bit_vector);
}

/// Law: the format field that a decoded payload carries agrees with its
/// format: `UF` is 0, 4, 5, 11, 16, 20 or 21 in those formats, and the UF24
/// prefix is binary `11`.
pub proof fn law_format_field_matches(fmt: UplinkFormat, f: Seq<u8>, icao24: u32)
    requires
        f.len() >= 1,
        decoded_as(fmt, f, icao24),
    ensures
        match fmt {
            UplinkFormat::Uf0(v) => v.uf == 0,
            UplinkFormat::Uf4(v) => v.uf == 4,
            UplinkFormat::Uf5(v) => v.uf == 5,
            UplinkFormat::Uf11(v) => v.uf == 11,
            UplinkFormat::Uf16(v) => v.uf == 16,
            UplinkFormat::Uf20(v) => v.uf == 20,
            UplinkFormat::Uf21(v) => v.uf == 21,
            UplinkFormat::Uf24(v) => v.uf_prefix == 3,
            UplinkFormat::Unknown { uf } => uf == first_five(f),
        },
{
    lemma_leading_fields(f);
    let b = f[0];
    assert((b & 0xC0u8 == 0xC0u8) == (b >> 6u8 == 3u8)) by (bit_vector);
}

/// A decoded uplink frame.
#[derive(Debug, Clone, PartialEq, Eq)]
pub struct DecodedUplink {
    /// Raw demodulated frame in hexadecimal.
    pub raw: String,
    /// Decoded payload.
    pub payload: UplinkFormat,
}

impl DecodedUplink {
    /// The frame's `UF` number.
    pub fn uf(&self) -> (n: u8)
        ensures
            n == format_number(self.payload),
    {
        self.payload.number()
    }
}

/// The bit length of a frame of `len` bytes, if it is a valid uplink length.
pub open spec fn frame_bits(len: nat) -> nat {
    if len == 7 {
        56
    } else {
        112
    }
}

/// For a 56-bit frame whose first byte announces a 112-bit format, the size
/// of the field read that runs past its end: the 5-bit relative altitude of
/// the first TIS traffic block in UF20 and UF21 frames whose Comm-A message
/// is a TIS uplink (header `0x02`), otherwise one byte of the `MU`, `MA` or
/// `MC` field.
pub open spec fn short_read_bits(f: Seq<u8>) -> nat {
    let five = first_five(f);
    if (five == 20 || five == 21) && f[4] == 0x02u8 {
        5
    } else {
        8
    }
}

/// Decode a demodulated 7- or 14-byte uplink frame.
pub fn decode_frame(frame: &[u8]) -> (r: Result<DecodedUplink, DecodeError>)
    ensures
        frame@.len() != 7 && frame@.len() != 14 ==> r == Err::<DecodedUplink, DecodeError>(
            DecodeError::InvalidLength(frame@.len() as usize),
        ),
        (frame@.len() == 7 || frame@.len() == 14) && 8 * frame@.len() < needed_bits(frame@) ==> r
            == Err::<DecodedUplink, DecodeError>(
            DecodeError::Incomplete(short_read_bits(frame@) as usize),
        ),
        (frame@.len() == 7 || frame@.len() == 14) && 8 * frame@.len() >= needed_bits(frame@) ==> r
            is Ok && r->Ok_0.raw@ == hex_text(frame@) && decoded_as(
            r->Ok_0.payload,
            frame@,
            recovered_address(frame@, frame_bits(frame@.len())),
        ),
{
    let len = frame.len();
    let bits: usize = if len == 7 {
        56
    } else if len == 14 {
        112
    } else {
        return Err(DecodeError::InvalidLength(len));
    };
    let first = frame[0];
    let five = first >> 3u8;
    assert((first & 0xC0u8 == 0xC0u8) == (first >> 3u8 >= 24u8)) by (bit_vector);
    if bits == 56 && (five == 16 || five == 20 || five == 21 || (first & 0xC0u8) == 0xC0u8) {
        let short_read: usize = if (five == 20 || five == 21) && frame[4] == 0x02u8 {
            5
        } else {
            8
        };
        return Err(DecodeError::Incomplete(short_read));
    }
    let icao24 = recover_ap_address(frame, bits);
    let payload = match UplinkFormat::from_frame(frame, icao24) {
        Ok(p) => p,
        Err(e) => return Err(e),
    };
    Ok(DecodedUplink { raw: bytes_to_hex(frame), payload })
}

} // verus!
