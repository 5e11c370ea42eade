//! Shared decode structures for UF4/UF5/UF20/UF21.
//!
//! - `SD`, the special designator field, whose layout the `DI` field selects.
//! - `BDS`, the queried Comm-B register derived from `RR` and `SD`'s `RRS`.
//! - `MA`, the 56-bit Comm-A message field of UF20/UF21.
//!
//! Field positions below are zero-based MSB-first bit offsets (Annex 10 bit
//! numbers minus one).
use crate::bits::{
    bits_value, byte_hex_text, extract_bits, hex_digit, hex_text, lemma_bits_value_bound,
    lemma_bits_value_prefix, lemma_field_word, lemma_low_masks, word_at,
};
use crate::text::{
    all_hex_digits, hex_digit_value, hex_digits_value, hex_u32_text, is_hex_digit, parse_hex_u32,
};
use vstd::arithmetic::power2::{lemma2_to64, pow2};
use vstd::prelude::*;
use vstd::slice::slice_subrange;
use vstd::string::*;

verus! {

// -----------------------------------------------------------------------------
// Field readers
// -----------------------------------------------------------------------------

/// The `n`-bit field at bit `start`, as a byte.
pub open spec fn field_u8(data: Seq<u8>, start: int, n: nat) -> u8 {
    bits_value(data, start, n) as u8
}

/// The one-bit field at bit `start`, as a flag.
pub open spec fn field_flag(data: Seq<u8>, start: int) -> bool {
    bits_value(data, start, 1) == 1
}

/// Read an `n`-bit field, `n <= 8`.
pub fn read_u8(data: &[u8], start: usize, n: usize) -> (v: u8)
    requires
        1 <= n <= 8,
        start + n <= 8 * data@.len(),
        start + n <= usize::MAX,
    ensures
        v == field_u8(data@, start as int, n as nat),
        v as nat == bits_value(data@, start as int, n as nat),
        (v as nat) < pow2(n as nat),
{
    let x = extract_bits(data, start, n);
    proof {
        lemma2_to64();
        if n < 8 {
            vstd::arithmetic::power2::lemma_pow2_strictly_increases(n as nat, 8);
        }
    }
    x as u8
}

/// Read a one-bit flag.
pub fn read_flag(data: &[u8], start: usize) -> (v: bool)
    requires
        start + 1 <= 8 * data@.len(),
        start + 1 <= usize::MAX,
    ensures
        v == field_flag(data@, start as int),
{
    read_u8(data, start, 1) == 1
}

/// Read `N` consecutive bytes starting at bit `start`.
pub fn read_bytes<const N: usize>(data: &[u8], start: usize) -> (v: [u8; N])
    requires
        start + 8 * N <= 8 * data@.len(),
        start + 8 * N <= usize::MAX,
    ensures
        forall|k: int| 0 <= k < N ==> #[trigger] v@[k] == field_u8(data@, start + 8 * k, 8),
{
    let mut v = [0u8; N];
    let mut k: usize = 0;
    while k < N
        invariant
            k <= N,
            start + 8 * N <= 8 * data@.len(),
            start + 8 * N <= usize::MAX,
            v@.len() == N,
            forall|q: int| 0 <= q < k ==> #[trigger] v@[q] == field_u8(data@, start + 8 * q, 8),
        decreases N - k,
    {
        let b = read_u8(data, start + 8 * k, 8);
        v[k] = b;
        k += 1;
    }
    v
}

// -----------------------------------------------------------------------------
// Running out of data
// -----------------------------------------------------------------------------

/// The total of field widths `w`.
pub open spec fn width_sum(w: Seq<usize>) -> int
    decreases w.len(),
{
    if w.len() == 0 {
        0
    } else {
        w[0] + width_sum(w.drop_first())
    }
}

/// Reading fields of widths `w` one after another with `avail` bits left:
/// the width of the first read that does not fit, or 0 when all of them fit.
pub open spec fn overrun(w: Seq<usize>, avail: int) -> nat
    decreases w.len(),
{
    if w.len() == 0 {
        0
    } else if w[0] > avail {
        w[0] as nat
    } else {
        overrun(w.drop_first(), avail - w[0])
    }
}

/// Reading `a` then `b`: the first read that does not fit is in `a`, or, when
/// all of `a` fits, in `b` with what `a` left.
pub proof fn lemma_overrun_append(a: Seq<usize>, b: Seq<usize>, avail: int)
    requires
        forall|i: int| 0 <= i < a.len() ==> #[trigger] a[i] > 0,
    ensures
        overrun(a + b, avail) == (if overrun(a, avail) > 0 {
            overrun(a, avail)
        } else {
            overrun(b, avail - width_sum(a))
        }),
    decreases a.len(),
{
    if a.len() == 0 {
        assert(a + b =~= b);
    } else {
        assert((a + b).drop_first() =~= a.drop_first() + b);
        assert((a + b)[0] == a[0]);
        lemma_overrun_append(a.drop_first(), b, avail - a[0]);
    }
}

/// When every read of positive widths `w` fits, they fit together.
pub proof fn lemma_overrun_fits(w: Seq<usize>, avail: int)
    requires
        forall|i: int| 0 <= i < w.len() ==> #[trigger] w[i] > 0,
        overrun(w, avail) == 0,
        avail >= 0,
    ensures
        width_sum(w) <= avail,
    decreases w.len(),
{
    if w.len() > 0 {
        assert(w[0] > 0);
        let t = w.drop_first();
        assert forall|i: int| 0 <= i < t.len() implies #[trigger] t[i] > 0 by {
            assert(t[i] == w[i + 1]);
        }
        lemma_overrun_fits(t, avail - w[0]);
    }
}

/// The total of `a` then `b` is the sum of their totals.
pub proof fn lemma_width_sum_append(a: Seq<usize>, b: Seq<usize>)
    ensures
        width_sum(a + b) == width_sum(a) + width_sum(b),
    decreases a.len(),
{
    if a.len() == 0 {
        assert(a + b =~= b);
    } else {
        assert((a + b).drop_first() =~= a.drop_first() + b);
        lemma_width_sum_append(a.drop_first(), b);
    }
}

/// The width of the first field of `w` that does not fit in `avail` bits, or
/// 0 when they all fit.
pub fn first_overrun(w: &[usize], avail: usize) -> (n: usize)
    ensures
        n == overrun(w@, avail as int),
{
    let mut rem = avail;
    let mut i: usize = 0;
    assert(w@.skip(0) =~= w@);
    while i < w.len()
        invariant
            i <= w@.len(),
            overrun(w@, avail as int) == overrun(w@.skip(i as int), rem as int),
        decreases w@.len() - i,
    {
        assert(w@.skip(i as int).drop_first() =~= w@.skip(i + 1));
        if w[i] > rem {
            return w[i];
        }
        rem = rem - w[i];
        i += 1;
    }
    0
}

/// The widths of the `SD` subfields for designator `di`.
pub open spec fn sd_widths(di: u8) -> Seq<usize> {
    if di == 0 {
        seq![4usize, 7, 1, 4]
    } else if di == 1 {
        seq![4usize, 2, 3, 1, 2, 4]
    } else if di == 2 {
        seq![4usize, 3, 3, 2, 4]
    } else if di == 3 {
        seq![6usize, 1, 4, 1, 4]
    } else if di == 7 {
        seq![4usize, 4, 1, 1, 1, 1, 4]
    } else {
        seq![16usize]
    }
}

/// The widths of the fields of a TIS traffic block.
pub open spec fn tis_block_widths() -> Seq<usize> {
    seq![6usize, 4, 5, 2, 3, 1]
}

/// The widths of the fields of an `MA` message whose first byte is `id`.
pub open spec fn ma_widths(id: u8) -> Seq<usize> {
    if id == 0x02 {
        seq![8usize, 6] + tis_block_widths() + tis_block_widths()
    } else if id == 0x05 {
        seq![8usize, 4, 4, 8, 8, 8, 8, 8]
    } else {
        seq![8usize, 8, 8, 8, 8, 8, 8]
    }
}

/// `overrun` of the `SD` subfields.
pub fn sd_overrun(di: u8, avail: usize) -> (n: usize)
    ensures
        n == overrun(sd_widths(di), avail as int),
        n == 0 ==> width_sum(sd_widths(di)) == 16 && avail >= 16,
{
    reveal_with_fuel(width_sum, 8);
    reveal_with_fuel(overrun, 8);
    let w: &[usize] = if di == 0 {
        &[4, 7, 1, 4]
    } else if di == 1 {
        &[4, 2, 3, 1, 2, 4]
    } else if di == 2 {
        &[4, 3, 3, 2, 4]
    } else if di == 3 {
        &[6, 1, 4, 1, 4]
    } else if di == 7 {
        &[4, 4, 1, 1, 1, 1, 4]
    } else {
        &[16]
    };
    assert(w@ =~= sd_widths(di));
    first_overrun(w, avail)
}

/// `overrun` of the `MA` fields.
pub fn ma_overrun(id: u8, avail: usize) -> (n: usize)
    ensures
        n == overrun(ma_widths(id), avail as int),
        n == 0 ==> width_sum(ma_widths(id)) == 56 && avail >= 56,
{
    reveal_with_fuel(width_sum, 15);
    reveal_with_fuel(overrun, 15);
    let w: &[usize] = if id == 0x02 {
        &[8, 6, 6, 4, 5, 2, 3, 1, 6, 4, 5, 2, 3, 1]
    } else if id == 0x05 {
        &[8, 4, 4, 8, 8, 8, 8, 8]
    } else {
        &[8, 8, 8, 8, 8, 8, 8]
    };
    assert(w@ =~= ma_widths(id));
    first_overrun(w, avail)
}

/// The widths of the fields of a UF4, UF5, UF20 or UF21 frame `f`, in the
/// order they are read: `UF`, `PC`, `RR`, `DI`, the `SD` subfields for its
/// `DI`, the `MA` fields for its first `MA` byte (`with_ma`), and the 24-bit
/// `AP`.
pub open spec fn sd_format_widths(f: Seq<u8>, with_ma: bool) -> Seq<usize> {
    let head = seq![5usize, 3, 5, 3] + sd_widths(field_u8(f, 13, 3));
    let body = if with_ma {
        head + ma_widths(byte_at(f, 32))
    } else {
        head
    };
    body + seq![24usize]
}

/// For a UF4, UF5, UF20 or UF21 frame shorter than its layout: the width of
/// the first field read that runs past its end.
pub fn sd_format_overrun(frame: &[u8], with_ma: bool) -> (n: usize)
    requires
        frame@.len() < 14,
    ensures
        n == overrun(sd_format_widths(frame@, with_ma), 8 * frame@.len() as int),
{
    let avail = 8 * frame.len();
    let ghost f = frame@;
    let ghost a = seq![5usize, 3, 5, 3];
    let ghost b = sd_widths(field_u8(f, 13, 3));
    let ghost c = if with_ma {
        ma_widths(byte_at(f, 32))
    } else {
        Seq::<usize>::empty()
    };
    let ghost d = seq![24usize];
    proof {
        reveal_with_fuel(width_sum, 5);
        reveal_with_fuel(overrun, 2);
        assert(sd_format_widths(f, with_ma) =~= ((a + b) + c) + d);
        assert forall|i: int| 0 <= i < (a + b).len() implies #[trigger] (a + b)[i] > 0 by {
            if i >= 4 {
                assert((a + b)[i] == b[i - 4]);
            }
        }
        assert forall|i: int| 0 <= i < ((a + b) + c).len() implies #[trigger] ((a + b) + c)[i]
            > 0 by {
            if i >= (a + b).len() {
                assert(((a + b) + c)[i] == c[i - (a + b).len()]);
            }
        }
        assert forall|i: int| 0 <= i < a.len() implies #[trigger] a[i] > 0 by {}
        lemma_overrun_append((a + b) + c, d, avail as int);
        lemma_overrun_append(a + b, c, avail as int);
        lemma_overrun_append(a, b, avail as int);
        lemma_width_sum_append(a + b, c);
        lemma_width_sum_append(a, b);
    }
    let head: [usize; 4] = [5, 3, 5, 3];
    assert(head@ =~= a);
    let o = first_overrun(&head, avail);
    if o > 0 {
        return o;
    }
    proof {
        lemma_overrun_fits(a, avail as int);
    }
    let di = read_u8(frame, 13, 3);
    let o = sd_overrun(di, avail - 16);
    if o > 0 {
        return o;
    }
    let mut rem = avail - 32;
    if with_ma {
        if rem < 8 {
            proof {
                let id = byte_at(f, 32);
                assert(ma_widths(id)[0] == 8);
            }
            return 8;
        }
        let id = read_u8(frame, 32, 8);
        let o = ma_overrun(id, rem);
        if o > 0 {
            return o;
        }
        rem = rem - 56;
    } else {
        assert(width_sum(c) == 0);
    }
    let tail: [usize; 1] = [24];
    assert(tail@ =~= d);
    first_overrun(&tail, rem)
}

// -----------------------------------------------------------------------------
// AP: recovered address
// -----------------------------------------------------------------------------

/// Recovered 24-bit address from an uplink `AP` address/parity field.
///
/// The 24 parity bits are consumed from the frame, but the stored value comes
/// from the decoder: the address recovered by removing the CRC and inverting
/// the uplink overlay.
#[derive(PartialEq, Eq, PartialOrd, Ord, Hash, Copy, Clone, Debug)]
pub struct Icao24(pub u32);

/// Text that is not a hexadecimal `u32`.
#[derive(PartialEq, Eq, Copy, Clone, Debug)]
pub struct InvalidIcao24;

/// How many hexadecimal digits `v` is written with: at least six.
pub open spec fn padded_hex_width(v: u32) -> nat {
    if v <= 0xFF_FFFF {
        6
    } else if v <= 0xFFF_FFFF {
        7
    } else {
        8
    }
}

/// `v` in lowercase hexadecimal, zero-padded to six digits.
pub open spec fn padded_hex(v: u32) -> Seq<char> {
    let w = padded_hex_width(v);
    Seq::new(w, |k: int| hex_digit(((v >> ((4 * (w - 1 - k)) as u32)) & 0xfu32) as u8))
}

impl Icao24 {
    /// The address as six lowercase hexadecimal digits (more if it does not
    /// fit in 24 bits).
    pub fn to_text(&self) -> (t: String)
        ensures
            t@ == padded_hex(self.0),
    {
        let v = self.0;
        let w: u32 = if v <= 0xFF_FFFF {
            6
        } else if v <= 0xFFF_FFFF {
            7
        } else {
            8
        };
        let hex = "0123456789abcdef";
        proof {
            reveal_strlit("0123456789abcdef");
            assert(hex@ =~= seq![
                '0', '1', '2', '3', '4', '5', '6', '7', '8', '9', 'a', 'b', 'c', 'd', 'e', 'f',
            ]);
        }
        let mut out = String::new();
        let mut k: u32 = 0;
        while k < w
            invariant
                w as nat == padded_hex_width(v),
                k <= w,
                hex@.len() == 16,
                forall|d: u8| d < 16 ==> hex@[d as int] == #[trigger] hex_digit(d),
                out@ =~= padded_hex(v).subrange(0, k as int),
            decreases w - k,
        {
            let shift: u32 = 4 * (w - 1 - k);
            let d: u32 = (v >> shift) & 0xfu32;
            assert(d < 16) by (bit_vector)
                requires
                    d == (v >> shift) & 0xfu32,
            ;
            let digit = hex.substring_char(d as usize, d as usize + 1);
            out.append(digit);
            assert(out@ =~= padded_hex(v).subrange(0, k + 1)) by {
                assert(padded_hex(v)[k as int] == hex_digit(d as u8));
            }
            k += 1;
        }
        out
    }

    /// Parse an address written in hexadecimal, with the rules of
    /// `u32::from_str_radix(s, 16)`.
    pub fn from_hex(s: &str) -> (r: Result<Icao24, InvalidIcao24>)
        ensures
            hex_u32_text(s@) matches Some(v) ==> r == Ok::<Icao24, InvalidIcao24>(Icao24(v)),
            hex_u32_text(s@) is None ==> r == Err::<Icao24, InvalidIcao24>(InvalidIcao24),
    {
        match parse_hex_u32(s) {
            Some(v) => Ok(Icao24(v)),
            None => Err(InvalidIcao24),
        }
    }
}

/// Each of the sixteen digits reads back as its value.
proof fn lemma_hex_digit_reads_back(d: u8)
    requires
        d < 16,
    ensures
        is_hex_digit(hex_digit(d)),
        hex_digit_value(hex_digit(d)) == d,
{
    let digits = seq!['0', '1', '2', '3', '4', '5', '6', '7', '8', '9', 'a', 'b', 'c', 'd', 'e', 'f'];
    assert(digits[0] == '0' && digits[1] == '1' && digits[2] == '2' && digits[3] == '3');
    assert(digits[4] == '4' && digits[5] == '5' && digits[6] == '6' && digits[7] == '7');
    assert(digits[8] == '8' && digits[9] == '9' && digits[10] == 'a' && digits[11] == 'b');
    assert(digits[12] == 'c' && digits[13] == 'd' && digits[14] == 'e' && digits[15] == 'f');
    assert(hex_digit(d) == digits[d as int]);
}

/// The first `j` digits of `padded_hex(v)` spell `v` without its last
/// `w - j` digits.
proof fn lemma_padded_hex_prefix(v: u32, j: int)
    requires
        1 <= j <= padded_hex_width(v),
    ensures
        hex_digits_value(padded_hex(v).take(j)) == (v >> ((4 * (padded_hex_width(v) - j)) as u32)) as nat,
    decreases j,
{
    let w = padded_hex_width(v);
    let s = padded_hex(v);
    let sh = (4 * (w - j)) as u32;
    assert(sh == 4 * (w - j));
    let d = (v >> sh) & 0xfu32;
    assert(d < 16) by (bit_vector)
        requires
            d == (v >> sh) & 0xfu32,
    ;
    lemma_hex_digit_reads_back(d as u8);
    let t = s.take(j);
    assert(t.last() == s[j - 1]);
    assert(s[j - 1] == hex_digit(d as u8));
    assert(hex_digits_value(t) == hex_digits_value(t.drop_last()) * 16 + hex_digit_value(t.last()));
    if j == 1 {
        assert(t.drop_last() =~= Seq::<char>::empty());
        assert(d == v >> sh) by (bit_vector)
            requires
                d == (v >> sh) & 0xfu32,
                (v <= 0xFF_FFFFu32 && sh == 20u32) || (v <= 0xFFF_FFFFu32 && sh == 24u32) || sh
                    == 28u32,
        ;
    } else {
        lemma_padded_hex_prefix(v, j - 1);
        assert(t.drop_last() =~= s.take(j - 1));
        let sh_hi = (4 * (w - (j - 1))) as u32;
        assert(sh_hi == sh + 4);
        let hi = v >> sh_hi;
        assert(hi as nat * 16 + d == (v >> sh) as nat) by (bit_vector)
            requires
                sh <= 24u32,
                sh_hi == sh + 4u32,
                hi == v >> sh_hi,
                d == (v >> sh) & 0xfu32,
        ;
    }
}

/// Writing an address as text and reading the text back gives the address.
pub proof fn law_icao24_text_round_trip(a: Icao24)
    ensures
        hex_u32_text(padded_hex(a.0)) == Some(a.0),
{
    let v = a.0;
    let w = padded_hex_width(v);
    let s = padded_hex(v);
    assert forall|i: int| 0 <= i < s.len() implies #[trigger] is_hex_digit(s[i]) by {
        let sh = (4 * (w - 1 - i)) as u32;
        let d = (v >> sh) & 0xfu32;
        assert(d < 16) by (bit_vector)
            requires
                d == (v >> sh) & 0xfu32,
        ;
        lemma_hex_digit_reads_back(d as u8);
    }
    lemma_padded_hex_prefix(v, w as int);
    assert(s.take(w as int) =~= s);
    assert((4 * (w - w)) as u32 == 0u32);
    assert(v >> 0u32 == v) by (bit_vector);
    assert(hex_digits_value(s) == v);
    assert(all_hex_digits(s));
    assert(is_hex_digit(s[0]));
    assert(s[0] != '+');
}

impl core::str::FromStr for Icao24 {
    type Err = InvalidIcao24;

    fn from_str(s: &str) -> (r: Result<Self, Self::Err>)
        ensures
            hex_u32_text(s@) matches Some(v) ==> r == Ok::<Icao24, InvalidIcao24>(Icao24(v)),
            hex_u32_text(s@) is None ==> r == Err::<Icao24, InvalidIcao24>(InvalidIcao24),
    {
        Self::from_hex(s)
    }
}

// -----------------------------------------------------------------------------
// SD: special designator
// -----------------------------------------------------------------------------

/// `SD` decoded according to `DI`.
#[derive(Debug, Clone, PartialEq, Eq)]
pub enum SpecialDesignator {
    /// `DI = 0`: II-code interrogator identifier plus overlay control.
    Di0(SdDi0),
    /// `DI = 1`: multisite and communications control information.
    Di1(SdDi1),
    /// `DI = 2`: extended-squitter control information.
    Di2(SdDi2),
    /// `DI = 3`: SI multisite lockout, broadcast and GICB control information.
    Di3(SdDi3),
    /// `DI = 7`: extended data readout request and communications control.
    Di7(SdDi7),
    /// Any other `DI` (4, 5, 6 are reserved): the `DI` value and the raw
    /// 16-bit `SD` field.
    Reserved { di: u8, bits: u16 },
}

#[derive(Debug, Clone, PartialEq, Eq)]
pub struct SdDi0 {
    /// `IIS`, interrogator identifier subfield, Annex bits 17-20.
    pub iis: u8,
    /// Reserved bits 21-27.
    pub reserved_21_27: u8,
    /// `OVC`, overlay control, Annex bit 28.
    pub ovc: bool,
    /// Reserved bits 29-32.
    pub reserved_29_32: u8,
}

#[derive(Debug, Clone, PartialEq, Eq)]
pub struct SdDi1 {
    /// `IIS`, interrogator identifier subfield, Annex bits 17-20.
    pub iis: u8,
    /// `MBS`, multisite Comm-B subfield, Annex bits 21-22.
    pub mbs: u8,
    /// `MES`, multisite ELM subfield, Annex bits 23-25.
    pub mes: u8,
    /// `LOS`, lockout subfield, Annex bit 26.
    pub los: bool,
    /// `RSS`, reservation status subfield, Annex bits 27-28.
    pub rss: u8,
    /// `TMS`, tactical message subfield, Annex bits 29-32.
    pub tms: u8,
}

#[derive(Debug, Clone, PartialEq, Eq)]
pub struct SdDi2 {
    /// Reserved bits 17-20.
    pub reserved_17_20: u8,
    /// `TCS`, type control subfield, Annex bits 21-23.
    pub tcs: u8,
    /// `RCS`, rate control subfield, Annex bits 24-26.
    pub rcs: u8,
    /// `SAS`, surface antenna subfield, Annex bits 27-28.
    pub sas: u8,
    /// Reserved bits 29-32.
    pub reserved_29_32: u8,
}

#[derive(Debug, Clone, PartialEq, Eq)]
pub struct SdDi3 {
    /// `SIS`, surveillance identifier subfield, Annex bits 17-22.
    pub sis: u8,
    /// `LSS`, lockout surveillance subfield, Annex bit 23.
    pub lss: bool,
    /// `RRS`, reply request subfield carrying BDS2, Annex bits 24-27.
    pub rrs: u8,
    /// `OVC`, overlay control, Annex bit 28.
    pub ovc: bool,
    /// Reserved bits 29-32.
    pub reserved_29_32: u8,
}

#[derive(Debug, Clone, PartialEq, Eq)]
pub struct SdDi7 {
    /// `IIS`, interrogator identifier subfield, Annex bits 17-20.
    pub iis: u8,
    /// `RRS`, reply request subfield carrying BDS2, Annex bits 21-24.
    pub rrs: u8,
    /// Reserved bit 25.
    pub reserved_25: bool,
    /// `LOS`, lockout subfield, Annex bit 26.
    pub los: bool,
    /// Reserved bit 27.
    pub reserved_27: bool,
    /// `OVC`, overlay control, Annex bit 28.
    pub ovc: bool,
    /// `TMS`, tactical message subfield, Annex bits 29-32.
    pub tms: u8,
}

impl SdDi1 {
    /// `LAS`, linked Comm-A subfield: the low three bits of `TMS`.
    pub fn las(&self) -> (v: u8)
        ensures
            v == self.tms & 0x07u8,
    {
        self.tms & 0x07u8
    }
}

impl SdDi7 {
    /// `LAS`, linked Comm-A subfield: the low three bits of `TMS`.
    pub fn las(&self) -> (v: u8)
        ensures
            v == self.tms & 0x07u8,
    {
        self.tms & 0x07u8
    }
}

/// The two bytes of a 16-bit `SD` value, most significant first.
pub open spec fn sd_bytes(bits: u16) -> Seq<u8> {
    seq![(bits >> 8u16) as u8, (bits & 0xffu16) as u8]
}

/// The `n`-bit subfield at offset `start` within `SD`.
pub open spec fn sd_field(bits: u16, start: int, n: nat) -> u8 {
    field_u8(sd_bytes(bits), start, n)
}

/// The one-bit subfield at offset `start` within `SD`.
pub open spec fn sd_flag(bits: u16, start: int) -> bool {
    field_flag(sd_bytes(bits), start)
}

/// `SD` as laid out for designator `di`.
pub open spec fn sd_spec(di: u8, bits: u16) -> SpecialDesignator {
    if di == 0 {
        SpecialDesignator::Di0(
            SdDi0 {
                iis: sd_field(bits, 0, 4),
                reserved_21_27: sd_field(bits, 4, 7),
                ovc: sd_flag(bits, 11),
                reserved_29_32: sd_field(bits, 12, 4),
            },
        )
    } else if di == 1 {
        SpecialDesignator::Di1(
            SdDi1 {
                iis: sd_field(bits, 0, 4),
                mbs: sd_field(bits, 4, 2),
                mes: sd_field(bits, 6, 3),
                los: sd_flag(bits, 9),
                rss: sd_field(bits, 10, 2),
                tms: sd_field(bits, 12, 4),
            },
        )
    } else if di == 2 {
        SpecialDesignator::Di2(
            SdDi2 {
                reserved_17_20: sd_field(bits, 0, 4),
                tcs: sd_field(bits, 4, 3),
                rcs: sd_field(bits, 7, 3),
                sas: sd_field(bits, 10, 2),
                reserved_29_32: sd_field(bits, 12, 4),
            },
        )
    } else if di == 3 {
        SpecialDesignator::Di3(
            SdDi3 {
                sis: sd_field(bits, 0, 6),
                lss: sd_flag(bits, 6),
                rrs: sd_field(bits, 7, 4),
                ovc: sd_flag(bits, 11),
                reserved_29_32: sd_field(bits, 12, 4),
            },
        )
    } else if di == 7 {
        SpecialDesignator::Di7(
            SdDi7 {
                iis: sd_field(bits, 0, 4),
                rrs: sd_field(bits, 4, 4),
                reserved_25: sd_flag(bits, 8),
                los: sd_flag(bits, 9),
                reserved_27: sd_flag(bits, 10),
                ovc: sd_flag(bits, 11),
                tms: sd_field(bits, 12, 4),
            },
        )
    } else {
        SpecialDesignator::Reserved { di, bits }
    }
}

/// Decode the 16-bit `SD` field according to designator `di`.
pub fn decode_sd(di: u8, bits: u16) -> (sd: Result<SpecialDesignator, super::DecodeError>)
    ensures
        sd == Ok::<SpecialDesignator, super::DecodeError>(sd_spec(di, bits)),
{
    let bytes: [u8; 2] = [(bits >> 8u16) as u8, (bits & 0xffu16) as u8];
    assert(bytes@ =~= sd_bytes(bits));
    let b: &[u8] = &bytes;
    let value = if di == 0 {
        SpecialDesignator::Di0(
            SdDi0 {
                iis: read_u8(b, 0, 4),
                reserved_21_27: read_u8(b, 4, 7),
                ovc: read_flag(b, 11),
                reserved_29_32: read_u8(b, 12, 4),
            },
        )
    } else if di == 1 {
        SpecialDesignator::Di1(
            SdDi1 {
                iis: read_u8(b, 0, 4),
                mbs: read_u8(b, 4, 2),
                mes: read_u8(b, 6, 3),
                los: read_flag(b, 9),
                rss: read_u8(b, 10, 2),
                tms: read_u8(b, 12, 4),
            },
        )
    } else if di == 2 {
        SpecialDesignator::Di2(
            SdDi2 {
                reserved_17_20: read_u8(b, 0, 4),
                tcs: read_u8(b, 4, 3),
                rcs: read_u8(b, 7, 3),
                sas: read_u8(b, 10, 2),
                reserved_29_32: read_u8(b, 12, 4),
            },
        )
    } else if di == 3 {
        SpecialDesignator::Di3(
            SdDi3 {
                sis: read_u8(b, 0, 6),
                lss: read_flag(b, 6),
                rrs: read_u8(b, 7, 4),
                ovc: read_flag(b, 11),
                reserved_29_32: read_u8(b, 12, 4),
            },
        )
    } else if di == 7 {
        SpecialDesignator::Di7(
            SdDi7 {
                iis: read_u8(b, 0, 4),
                rrs: read_u8(b, 4, 4),
                reserved_25: read_flag(b, 8),
                los: read_flag(b, 9),
                reserved_27: read_flag(b, 10),
                ovc: read_flag(b, 11),
                tms: read_u8(b, 12, 4),
            },
        )
    } else {
        SpecialDesignator::Reserved { di, bits }
    };
    Ok(value)
}

/// Shifting a 16-bit value into the top half of a word and back down.
proof fn lemma_shift_down16(b: u32, e: u32, e16: u32)
    by (bit_vector)
    requires
        b <= 0xffffu32,
        e <= 16u32,
        e16 == e + 16u32,
    ensures
        (b << 16u32) >> e16 == b >> e,
{
}

/// An `n`-bit `SD` subfield at offset `s` (counted from the top of `SD`) is
/// `bits` shifted down past the subfields after it, masked to `n` bits.
proof fn lemma_sd_subfield(bits: u16, s: int, n: nat)
    requires
        0 <= s,
        1 <= n <= 8,
        s + n <= 16,
    ensures
        bits_value(sd_bytes(bits), s, n) == (((bits as u32) >> ((16 - s - n) as u32)) & !(
        0xFFFF_FFFFu32 << (n as u32))) as nat,
        bits_value(sd_bytes(bits), s, n) < 256,
{
    let f = sd_bytes(bits);
    let g = f + seq![0u8, 0u8];
    let hi = (bits >> 8u16) as u8;
    let lo = (bits & 0xffu16) as u8;
    assert(g[0] == hi && g[1] == lo && g[2] == 0 && g[3] == 0);
    lemma_bits_value_prefix(f, g, s, n);
    lemma_field_word(g, 0, s, n);
    let b = bits as u32;
    let wg = word_at(g, 0);
    assert(wg == ((hi as u32) << 24u32) | ((lo as u32) << 16u32) | ((0u8 as u32) << 8u32) | (
    0u8 as u32));
    assert(wg == b << 16u32) by (bit_vector)
        requires
            hi == (bits >> 8u16) as u8,
            lo == (bits & 0xffu16) as u8,
            b == bits as u32,
            wg == ((hi as u32) << 24u32) | ((lo as u32) << 16u32) | ((0u8 as u32) << 8u32) | (
            0u8 as u32),
    ;
    let e = (16 - s - n) as u32;
    lemma_shift_down16(b, e, (32 - s - n) as u32);
    if n < 8 {
        vstd::arithmetic::power2::lemma_pow2_strictly_increases(n, 8);
    }
    lemma2_to64();
}

/// Law: every `SD` subfield sits at its fixed place in the 16-bit `SD` value
/// (`b`, bit 15 its first bit), for each designator `DI`; reserved
/// designators keep `DI` and the raw value.
pub proof fn law_sd_subfields(di: u8, bits: u16)
    ensures
        ({
            let b = bits as u32;
            match sd_spec(di, bits) {
                SpecialDesignator::Di0(v) => di == 0 && v.iis as u32 == (b >> 12u32) & 0xfu32
                    && v.reserved_21_27 as u32 == (b >> 5u32) & 0x7fu32 && v.ovc == ((b >> 4u32)
                    & 1u32 == 1u32) && v.reserved_29_32 as u32 == b & 0xfu32,
                SpecialDesignator::Di1(v) => di == 1 && v.iis as u32 == (b >> 12u32) & 0xfu32
                    && v.mbs as u32 == (b >> 10u32) & 3u32 && v.mes as u32 == (b >> 7u32) & 7u32
                    && v.los == ((b >> 6u32) & 1u32 == 1u32) && v.rss as u32 == (b >> 4u32) & 3u32
                    && v.tms as u32 == b & 0xfu32,
                SpecialDesignator::Di2(v) => di == 2 && v.reserved_17_20 as u32 == (b >> 12u32)
                    & 0xfu32 && v.tcs as u32 == (b >> 9u32) & 7u32 && v.rcs as u32 == (b >> 6u32)
                    & 7u32 && v.sas as u32 == (b >> 4u32) & 3u32 && v.reserved_29_32 as u32 == b
                    & 0xfu32,
                SpecialDesignator::Di3(v) => di == 3 && v.sis as u32 == (b >> 10u32) & 0x3fu32
                    && v.lss == ((b >> 9u32) & 1u32 == 1u32) && v.rrs as u32 == (b >> 5u32)
                    & 0xfu32 && v.ovc == ((b >> 4u32) & 1u32 == 1u32) && v.reserved_29_32 as u32
                    == b & 0xfu32,
                SpecialDesignator::Di7(v) => di == 7 && v.iis as u32 == (b >> 12u32) & 0xfu32
                    && v.rrs as u32 == (b >> 8u32) & 0xfu32 && v.reserved_25 == ((b >> 7u32)
                    & 1u32 == 1u32) && v.los == ((b >> 6u32) & 1u32 == 1u32) && v.reserved_27 == ((
                    b >> 5u32) & 1u32 == 1u32) && v.ovc == ((b >> 4u32) & 1u32 == 1u32) && v.tms
                    as u32 == b & 0xfu32,
                SpecialDesignator::Reserved { di: d, bits: raw } => d == di && raw == bits && di
                    != 0 && di != 1 && di != 2 && di != 3 && di != 7,
            }
        }),
{
    let b = bits as u32;
    lemma_low_masks(b);
    lemma_sd_subfield(bits, 0, 4);
    lemma_sd_subfield(bits, 0, 6);
    lemma_sd_subfield(bits, 4, 2);
    lemma_sd_subfield(bits, 4, 3);
    lemma_sd_subfield(bits, 4, 4);
    lemma_sd_subfield(bits, 4, 7);
    lemma_sd_subfield(bits, 6, 1);
    lemma_sd_subfield(bits, 6, 3);
    lemma_sd_subfield(bits, 7, 3);
    lemma_sd_subfield(bits, 7, 4);
    lemma_sd_subfield(bits, 8, 1);
    lemma_sd_subfield(bits, 9, 1);
    lemma_sd_subfield(bits, 10, 1);
    lemma_sd_subfield(bits, 10, 2);
    lemma_sd_subfield(bits, 11, 1);
    lemma_sd_subfield(bits, 12, 4);
}

/// Law: for `RR` from 16 up the queried Comm-B register has BDS1, the low
/// nibble of `RR`, in its high nibble, and BDS2 in its low nibble: the `RRS`
/// subfield of `SD` when `DI` is 3 (bits 7-10 of `SD`) or 7 (bits 4-7), and 0
/// for every other `DI`. Below 16 no register is queried.
pub proof fn law_queried_register(rr: u8, di: u8, bits: u16)
    ensures
        ({
            let b = bits as u32;
            let bds2: u8 = if di == 3 {
                ((b >> 5u32) & 0xfu32) as u8
            } else if di == 7 {
                ((b >> 8u32) & 0xfu32) as u8
            } else {
                0
            };
            &&& rr < 16 ==> queried_bds_spec(rr, sd_spec(di, bits)) is None
            &&& rr >= 16 ==> queried_bds_spec(rr, sd_spec(di, bits)) == Some(
                BdsCode(((rr & 0x0fu8) << 4u8) | bds2),
            )
        }),
{
    law_sd_subfields(di, bits);
}

// -----------------------------------------------------------------------------
// BDS: queried Comm-B register
// -----------------------------------------------------------------------------

/// A Comm-B data selector: BDS1 in the high nibble, BDS2 in the low nibble.
#[derive(Debug, Clone, Copy, PartialEq, Eq)]
pub struct BdsCode(pub u8);

impl BdsCode {
    /// The code as `0x` and two lowercase hexadecimal digits.
    pub fn to_text(&self) -> (t: String)
        ensures
            t@ == seq!['0', 'x'] + hex_text(seq![self.0]),
    {
        byte_hex_text(self.0)
    }
}

/// BDS2 as carried by `SD`: the `RRS` subfield of DI 3 and DI 7, else 0.
pub open spec fn bds2_of(sd: SpecialDesignator) -> u8 {
    match sd {
        SpecialDesignator::Di3(value) => value.rrs,
        SpecialDesignator::Di7(value) => value.rrs,
        _ => 0,
    }
}

/// The Comm-B register an `RR`/`SD` pair queries: none for `RR < 16`
/// (surveillance replies), else BDS1 from the low nibble of `RR` and BDS2
/// from `SD`.
pub open spec fn queried_bds_spec(rr: u8, sd: SpecialDesignator) -> Option<BdsCode> {
    if rr < 16 {
        None
    } else {
        Some(BdsCode(((rr & 0x0fu8) << 4u8) | bds2_of(sd)))
    }
}

/// The Comm-B register queried by `RR` and `SD`.
pub fn queried_bds(rr: u8, sd: &SpecialDesignator) -> (bds: Option<BdsCode>)
    ensures
        bds == queried_bds_spec(rr, *sd),
{
    if rr < 16 {
        return None;
    }
    let bds1 = rr & 0x0fu8;
    let bds2 = match sd {
        SpecialDesignator::Di3(value) => value.rrs,
        SpecialDesignator::Di7(value) => value.rrs,
        _ => 0,
    };
    Some(BdsCode((bds1 << 4u8) | bds2))
}

// -----------------------------------------------------------------------------
// MA: Comm-A message
// -----------------------------------------------------------------------------

/// The 56-bit Comm-A message field, dispatched on its first byte.
#[derive(Debug, Clone, PartialEq, Eq)]
pub enum Ma {
    /// TIS uplink message, header `0x02`.
    TisUplink(TisUplink),
    /// TCAS/ACAS sensitivity level command, header `0x05`.
    TcasSensitivityLevelCommand(TcasSensitivityLevelCommand),
    /// Differential GPS correction broadcast, identifier `0x01`.
    DifferentialGpsCorrection { payload: [u8; 6] },
    /// TCAS/ACAS RA broadcast, identifier `0x31`.
    TcasRaBroadcast { payload: [u8; 6] },
    /// TCAS/ACAS broadcast, identifier `0x32`.
    AcasBroadcast { payload: [u8; 6] },
    /// Any other Comm-A message; `id` is the first byte.
    Unknown { id: u8, payload: [u8; 6] },
}

#[derive(Debug, Clone, PartialEq, Eq)]
pub struct TisUplink {
    /// TIS message type, the six bits after the header.
    pub message_type: u8,
    /// The message kind `message_type` denotes.
    pub kind: TisMessageKind,
    /// First 21-bit traffic information block.
    pub block1: TisTrafficBlock,
    /// Second 21-bit traffic information block.
    pub block2: TisTrafficBlock,
}

#[derive(Debug, Clone, PartialEq, Eq)]
pub enum TisMessageKind {
    /// Traffic data first segment; carries own heading in 6 degree steps.
    TrafficDataFirstSegment { own_heading_degrees: u16 },
    /// Traffic data intermediate segment, message type 60.
    TrafficDataIntermediateSegment,
    /// Traffic data final segment, message type 61.
    TrafficDataFinalSegment,
    /// TIS goodbye message, message type 62.
    Goodbye,
    /// TIS keep-alive message, message type 63.
    KeepAlive,
}

/// The TIS message kind of a six-bit message type.
pub open spec fn tis_kind_spec(message_type: u8) -> TisMessageKind {
    if message_type <= 59 {
        TisMessageKind::TrafficDataFirstSegment { own_heading_degrees: (message_type * 6) as u16 }
    } else if message_type == 60 {
        TisMessageKind::TrafficDataIntermediateSegment
    } else if message_type == 61 {
        TisMessageKind::TrafficDataFinalSegment
    } else if message_type == 62 {
        TisMessageKind::Goodbye
    } else {
        TisMessageKind::KeepAlive
    }
}

impl TisMessageKind {
    /// The kind a six-bit TIS message type denotes.
    fn from_message_type(message_type: u8) -> (kind: Self)
        requires
            message_type < 64,
        ensures
            kind == tis_kind_spec(message_type),
    {
        if message_type <= 59 {
            Self::TrafficDataFirstSegment { own_heading_degrees: message_type as u16 * 6 }
        } else if message_type == 60 {
            Self::TrafficDataIntermediateSegment
        } else if message_type == 61 {
            Self::TrafficDataFinalSegment
        } else if message_type == 62 {
            Self::Goodbye
        } else {
            Self::KeepAlive
        }
    }
}

#[derive(Debug, Clone, PartialEq, Eq)]
pub struct TisTrafficBlock {
    /// Traffic bearing from own heading, 6-degree units; 63 means null alert.
    pub bearing: u8,
    /// Traffic range code.
    pub range: u8,
    /// Relative altitude code.
    pub relative_altitude: u8,
    /// Altitude-rate code.
    pub altitude_rate: u8,
    /// Traffic heading code, 45-degree units.
    pub heading: u8,
    /// Traffic status: false = proximity alert, true = threat alert.
    pub threat: bool,
}

impl TisTrafficBlock {
    /// A block with bearing 63 reports no traffic.
    pub fn is_null_alert(&self) -> (b: bool)
        ensures
            b == (self.bearing == 63),
    {
        self.bearing == 63
    }
}

#[derive(Debug, Clone, PartialEq, Eq)]
pub struct TcasSensitivityLevelCommand {
    /// `SLC`, sensitivity level command, the four bits after the header.
    pub slc: u8,
    /// The low nibble of the second byte.
    pub reserved_45_48: u8,
    /// The remaining five bytes.
    pub payload: [u8; 5],
}

/// The 21-bit traffic block at bit `s`.
pub open spec fn tis_block_spec(d: Seq<u8>, s: int) -> TisTrafficBlock {
    TisTrafficBlock {
        bearing: field_u8(d, s, 6),
        range: field_u8(d, s + 6, 4),
        relative_altitude: field_u8(d, s + 10, 5),
        altitude_rate: field_u8(d, s + 15, 2),
        heading: field_u8(d, s + 17, 3),
        threat: field_flag(d, s + 20),
    }
}

/// The byte at bit `s` (not necessarily on a byte boundary).
pub open spec fn byte_at(d: Seq<u8>, s: int) -> u8 {
    field_u8(d, s, 8)
}

/// The six bytes starting at bit `s`.
pub open spec fn six_bytes(d: Seq<u8>, s: int) -> [u8; 6] {
    [byte_at(d, s), byte_at(d, s + 8), byte_at(d, s + 16), byte_at(d, s + 24), byte_at(d, s + 32),
    byte_at(d, s + 40)]
}

/// The five bytes starting at bit `s`.
pub open spec fn five_bytes(d: Seq<u8>, s: int) -> [u8; 5] {
    [byte_at(d, s), byte_at(d, s + 8), byte_at(d, s + 16), byte_at(d, s + 24), byte_at(d, s + 32)]
}

/// The Comm-A message field occupying the 56 bits from bit `s` of `d`.
pub open spec fn ma_spec(d: Seq<u8>, s: int) -> Ma {
    let id = byte_at(d, s);
    if id == 0x02 {
        let message_type = field_u8(d, s + 8, 6);
        Ma::TisUplink(
            TisUplink {
                message_type,
                kind: tis_kind_spec(message_type),
                block1: tis_block_spec(d, s + 14),
                block2: tis_block_spec(d, s + 35),
            },
        )
    } else if id == 0x05 {
        Ma::TcasSensitivityLevelCommand(
            TcasSensitivityLevelCommand {
                slc: field_u8(d, s + 8, 4),
                reserved_45_48: field_u8(d, s + 12, 4),
                payload: five_bytes(d, s + 16),
            },
        )
    } else if id == 0x01 {
        Ma::DifferentialGpsCorrection { payload: six_bytes(d, s + 8) }
    } else if id == 0x31 {
        Ma::TcasRaBroadcast { payload: six_bytes(d, s + 8) }
    } else if id == 0x32 {
        Ma::AcasBroadcast { payload: six_bytes(d, s + 8) }
    } else {
        Ma::Unknown { id, payload: six_bytes(d, s + 8) }
    }
}

/// Law: the TIS message kind is fixed by the six-bit message type `t`: 0 to
/// 59 open a traffic data message, with own heading `6 * t` degrees; 60 is an
/// intermediate and 61 the final traffic data segment; 62 is goodbye and 63
/// keep-alive.
pub proof fn law_tis_kind(t: u8)
    requires
        t < 64,
    ensures
        t < 60 ==> tis_kind_spec(t) == (TisMessageKind::TrafficDataFirstSegment {
            own_heading_degrees: (6 * t) as u16,
        }),
        t == 60 ==> tis_kind_spec(t) == TisMessageKind::TrafficDataIntermediateSegment,
        t == 61 ==> tis_kind_spec(t) == TisMessageKind::TrafficDataFinalSegment,
        t == 62 ==> tis_kind_spec(t) == TisMessageKind::Goodbye,
        t == 63 ==> tis_kind_spec(t) == TisMessageKind::KeepAlive,
{
}

/// The facts behind the Comm-A message laws: the bytes and bit fields of a
/// message starting at byte `k`, read through the words of its bytes 0-3 and
/// 3-6.
proof fn lemma_ma_reads(d: Seq<u8>, k: int)
    requires
        0 <= k,
        k + 7 <= d.len(),
    ensures
        forall|j: int| 0 <= j < 7 ==> #[trigger] byte_at(d, 8 * k + 8 * j) == d[k + j],
        six_bytes(d, 8 * k + 8)@ == d.subrange(k + 1, k + 7),
        five_bytes(d, 8 * k + 16)@ == d.subrange(k + 2, k + 7),
        field_u8(d, 8 * k + 8, 6) as u32 == (word_at(d, k) >> 18u32) & 0x3fu32,
        field_u8(d, 8 * k + 8, 4) as u32 == (word_at(d, k) >> 20u32) & 0xfu32,
        field_u8(d, 8 * k + 12, 4) as u32 == (word_at(d, k) >> 16u32) & 0xfu32,
        field_u8(d, 8 * k + 14, 6) as u32 == (word_at(d, k) >> 12u32) & 0x3fu32,
        field_u8(d, 8 * k + 20, 4) as u32 == (word_at(d, k) >> 8u32) & 0xfu32,
        field_u8(d, 8 * k + 24, 5) as u32 == (word_at(d, k) >> 3u32) & 0x1fu32,
        field_u8(d, 8 * k + 29, 2) as u32 == (word_at(d, k) >> 1u32) & 3u32,
        field_u8(d, 8 * k + 31, 3) as u32 == (word_at(d, k + 3) >> 22u32) & 7u32,
        field_flag(d, 8 * k + 34) == ((word_at(d, k + 3) >> 21u32) & 1u32 == 1u32),
        field_u8(d, 8 * k + 35, 6) as u32 == (word_at(d, k + 3) >> 15u32) & 0x3fu32,
        field_u8(d, 8 * k + 41, 4) as u32 == (word_at(d, k + 3) >> 11u32) & 0xfu32,
        field_u8(d, 8 * k + 45, 5) as u32 == (word_at(d, k + 3) >> 6u32) & 0x1fu32,
        field_u8(d, 8 * k + 50, 2) as u32 == (word_at(d, k + 3) >> 4u32) & 3u32,
        field_u8(d, 8 * k + 52, 3) as u32 == (word_at(d, k + 3) >> 1u32) & 7u32,
        field_flag(d, 8 * k + 55) == (word_at(d, k + 3) & 1u32 == 1u32),
{
    let s = 8 * k;
    let w1 = word_at(d, k);
    let w2 = word_at(d, k + 3);
    lemma_low_masks(w1);
    lemma_low_masks(w2);
    lemma2_to64();
    assert forall|j: int| 0 <= j < 7 implies #[trigger] byte_at(d, s + 8 * j) == d[k + j] by {
        crate::bits::lemma_bits_value_byte(d, k + j);
        assert(s + 8 * j == 8 * (k + j));
    }
    lemma_field_word(d, k, s + 8, 6);
    lemma_field_word(d, k, s + 8, 4);
    lemma_field_word(d, k, s + 12, 4);
    lemma_field_word(d, k, s + 14, 6);
    lemma_field_word(d, k, s + 20, 4);
    lemma_field_word(d, k, s + 24, 5);
    lemma_field_word(d, k, s + 29, 2);
    lemma_field_word(d, k + 3, s + 31, 3);
    lemma_field_word(d, k + 3, s + 34, 1);
    lemma_field_word(d, k + 3, s + 35, 6);
    lemma_field_word(d, k + 3, s + 41, 4);
    lemma_field_word(d, k + 3, s + 45, 5);
    lemma_field_word(d, k + 3, s + 50, 2);
    lemma_field_word(d, k + 3, s + 52, 3);
    lemma_field_word(d, k + 3, s + 55, 1);
    assert(byte_at(d, s + 8 * 1) == d[k + 1]);
    assert(byte_at(d, s + 8 * 2) == d[k + 2]);
    assert(byte_at(d, s + 8 * 3) == d[k + 3]);
    assert(byte_at(d, s + 8 * 4) == d[k + 4]);
    assert(byte_at(d, s + 8 * 5) == d[k + 5]);
    assert(byte_at(d, s + 8 * 6) == d[k + 6]);
    assert(six_bytes(d, s + 8)@ =~= d.subrange(k + 1, k + 7));
    assert(five_bytes(d, s + 16)@ =~= d.subrange(k + 2, k + 7));
}

/// Law: the kind of a Comm-A message starting at byte `k` is set by its first
/// byte: 2 a TIS uplink, 5 a TCAS sensitivity level command, 0x01 a
/// differential GPS correction, 0x31 a TCAS RA broadcast, 0x32 an ACAS
/// broadcast, any other value an unknown message keeping that value; all but
/// the first two carry the six bytes after the header.
pub proof fn law_ma_header(d: Seq<u8>, k: int)
    requires
        0 <= k,
        k + 7 <= d.len(),
    ensures
        (d[k] == 0x02) == (ma_spec(d, 8 * k) is TisUplink),
        (d[k] == 0x05) == (ma_spec(d, 8 * k) is TcasSensitivityLevelCommand),
        (d[k] == 0x01) == (ma_spec(d, 8 * k) == (Ma::DifferentialGpsCorrection {
            payload: six_bytes(d, 8 * k + 8),
        })),
        (d[k] == 0x31) == (ma_spec(d, 8 * k) == (Ma::TcasRaBroadcast {
            payload: six_bytes(d, 8 * k + 8),
        })),
        (d[k] == 0x32) == (ma_spec(d, 8 * k) == (Ma::AcasBroadcast {
            payload: six_bytes(d, 8 * k + 8),
        })),
        ma_spec(d, 8 * k) is Unknown ==> ma_spec(d, 8 * k) == (Ma::Unknown {
            id: d[k],
            payload: six_bytes(d, 8 * k + 8),
        }),
        six_bytes(d, 8 * k + 8)@ == d.subrange(k + 1, k + 7),
{
    lemma_ma_reads(d, k);
    assert(byte_at(d, 8 * k + 8 * 0) == d[k + 0]);
}

/// Law: a TIS uplink message starting at byte `k` holds, with `w1` the
/// big-endian word of its bytes 0-3 and `w2` that of bytes 3-6 (message bit
/// `i` is bit `31 - i` of `w1` and bit `55 - i` of `w2`), its message type in
/// bits 8-13 and its two traffic blocks in bits 14-34 and 35-55: bearing 6
/// bits, range 4, relative altitude 5, altitude rate 2, heading 3, threat 1.
pub proof fn law_tis_fields(d: Seq<u8>, k: int)
    requires
        0 <= k,
        k + 7 <= d.len(),
        d[k] == 0x02,
    ensures
        ma_spec(d, 8 * k) is TisUplink,
        ({
            let t = ma_spec(d, 8 * k)->TisUplink_0;
            let w1 = word_at(d, k);
            &&& t.message_type as u32 == (w1 >> 18u32) & 0x3fu32
            &&& t.kind == tis_kind_spec(t.message_type)
            &&& t.block1.bearing as u32 == (w1 >> 12u32) & 0x3fu32
            &&& t.block1.range as u32 == (w1 >> 8u32) & 0xfu32
            &&& t.block1.relative_altitude as u32 == (w1 >> 3u32) & 0x1fu32
            &&& t.block1.altitude_rate as u32 == (w1 >> 1u32) & 3u32
        }),
        ({
            let t = ma_spec(d, 8 * k)->TisUplink_0;
            let w2 = word_at(d, k + 3);
            &&& t.block1.heading as u32 == (w2 >> 22u32) & 7u32
            &&& t.block1.threat == ((w2 >> 21u32) & 1u32 == 1u32)
            &&& t.block2.bearing as u32 == (w2 >> 15u32) & 0x3fu32
            &&& t.block2.range as u32 == (w2 >> 11u32) & 0xfu32
            &&& t.block2.relative_altitude as u32 == (w2 >> 6u32) & 0x1fu32
            &&& t.block2.altitude_rate as u32 == (w2 >> 4u32) & 3u32
            &&& t.block2.heading as u32 == (w2 >> 1u32) & 7u32
            &&& t.block2.threat == (w2 & 1u32 == 1u32)
        }),
{
    lemma_ma_reads(d, k);
    assert(byte_at(d, 8 * k + 8 * 0) == d[k + 0]);
}

/// Law: a TCAS sensitivity level command starting at byte `k` holds `SLC` in
/// message bits 8-11 (the high nibble of byte 1), four reserved bits after
/// it, and the five bytes after those as payload.
pub proof fn law_tcas_fields(d: Seq<u8>, k: int)
    requires
        0 <= k,
        k + 7 <= d.len(),
        d[k] == 0x05,
    ensures
        ma_spec(d, 8 * k) is TcasSensitivityLevelCommand,
        ({
            let c = ma_spec(d, 8 * k)->TcasSensitivityLevelCommand_0;
            let w1 = word_at(d, k);
            &&& c.slc as u32 == (w1 >> 20u32) & 0xfu32
            &&& c.reserved_45_48 as u32 == (w1 >> 16u32) & 0xfu32
            &&& c.payload@ == d.subrange(k + 2, k + 7)
        }),
{
    lemma_ma_reads(d, k);
    assert(byte_at(d, 8 * k + 8 * 0) == d[k + 0]);
}

/// Read a 21-bit TIS traffic block at bit `s`.
fn read_tis_block(d: &[u8], s: usize) -> (block: TisTrafficBlock)
    requires
        s + 21 <= 8 * d@.len(),
        s + 21 <= usize::MAX,
    ensures
        block == tis_block_spec(d@, s as int),
{
    TisTrafficBlock {
        bearing: read_u8(d, s, 6),
        range: read_u8(d, s + 6, 4),
        relative_altitude: read_u8(d, s + 10, 5),
        altitude_rate: read_u8(d, s + 15, 2),
        heading: read_u8(d, s + 17, 3),
        threat: read_flag(d, s + 20),
    }
}

/// Decode the Comm-A message field occupying the 56 bits from bit `s`.
pub fn decode_ma(d: &[u8], s: usize) -> (ma: Ma)
    requires
        s + 56 <= 8 * d@.len(),
        s + 56 <= usize::MAX,
    ensures
        ma == ma_spec(d@, s as int),
{
    let id = read_u8(d, s, 8);
    if id == 0x02 {
        let message_type = read_u8(d, s + 8, 6);
        proof {
            lemma2_to64();
        }
        Ma::TisUplink(
            TisUplink {
                message_type,
                kind: TisMessageKind::from_message_type(message_type),
                block1: read_tis_block(d, s + 14),
                block2: read_tis_block(d, s + 35),
            },
        )
    } else if id == 0x05 {
        let payload: [u8; 5] = read_bytes(d, s + 16);
        assert(payload =~= five_bytes(d@, s + 16));
        Ma::TcasSensitivityLevelCommand(
            TcasSensitivityLevelCommand {
                slc: read_u8(d, s + 8, 4),
                reserved_45_48: read_u8(d, s + 12, 4),
                payload,
            },
        )
    } else {
        let payload: [u8; 6] = read_bytes(d, s + 8);
        assert(payload =~= six_bytes(d@, s + 8));
        if id == 0x01 {
            Ma::DifferentialGpsCorrection { payload }
        } else if id == 0x31 {
            Ma::TcasRaBroadcast { payload }
        } else if id == 0x32 {
            Ma::AcasBroadcast { payload }
        } else {
            Ma::Unknown { id, payload }
        }
    }
}

/// For data that ends within an `MA` field starting at bit `off`: the width
/// of the first field read that runs past its end.
fn ma_short_overrun(data: &[u8], off: usize) -> (n: usize)
    requires
        8 * data@.len() < off + 56,
        off + 63 <= usize::MAX,
    ensures
        n == overrun(ma_widths(byte_at(data@, off as int)), 8 * data@.len() - off),
{
    if data.len() * 8 < off + 8 {
        proof {
            assert(ma_widths(byte_at(data@, off as int))[0] == 8);
        }
        return 8;
    }
    let id = read_u8(data, off, 8);
    ma_overrun(id, data.len() * 8 - off)
}

impl Ma {
    /// Read a Comm-A message field starting `input.1` bits into `input.0`.
    ///
    /// On success, returns the bytes from the one holding the first unread
    /// bit, the bit offset into them, and the message. When the data runs
    /// out, the error gives the size of the read that failed: the bits of
    /// `input.1` before the message within its first byte, or a field of the
    /// message.
    pub fn from_bytes<'a>(input: (&'a [u8], usize)) -> (r: Result<((&'a [u8], usize), Ma), super::DecodeError>)
        requires
            input.1 + 63 <= usize::MAX,
        ensures
            ({
                let (d, off) = (input.0@, input.1 as int);
                &&& off % 8 != 0 && d.len() <= off / 8 ==> r == Err::<
                    ((&'a [u8], usize), Ma),
                    super::DecodeError,
                >(super::DecodeError::Incomplete((off % 8) as usize))
                &&& !(off % 8 != 0 && d.len() <= off / 8) && 8 * d.len() < off + 56 ==> r == Err::<
                    ((&'a [u8], usize), Ma),
                    super::DecodeError,
                >(
                    super::DecodeError::Incomplete(
                        overrun(ma_widths(byte_at(d, off)), 8 * d.len() - off) as usize,
                    ),
                )
                &&& off + 56 <= 8 * d.len() ==> {
                    &&& r is Ok
                    &&& r->Ok_0.0.0@ == d.subrange((off + 56) / 8, d.len() as int)
                    &&& r->Ok_0.0.1 == (off + 56) % 8
                    &&& r->Ok_0.1 == ma_spec(d, off)
                }
            }),
    {
        let data = input.0;
        let off = input.1;
        if off % 8 != 0 && data.len() <= off / 8 {
            return Err(super::DecodeError::Incomplete(off % 8));
        }
        if (off + 56 + 7) / 8 > data.len() {
            return Err(super::DecodeError::Incomplete(ma_short_overrun(data, off)));
        }
        let ma = decode_ma(data, off);
        let bits_read = off + 56;
        let rest = slice_subrange(data, bits_read / 8, data.len());
        Ok(((rest, bits_read % 8), ma))
    }
}

} // verus!
