//! MSB-first bit access on Mode S byte frames, and hexadecimal rendering.
//!
//! Bit `i` of a frame is bit `7 - i % 8` of byte `i / 8`: bit 0 is the most
//! significant bit of the first byte, as in the Annex 10 bit numbering
//! (shifted down by one).
use vstd::arithmetic::power2::*;
use vstd::prelude::*;
use vstd::string::*;

verus! {

/// The bit at zero-based MSB-first position `i` of `data`, as 0 or 1.
pub open spec fn bit_at(data: Seq<u8>, i: int) -> nat {
    ((data[i / 8] >> ((7 - i % 8) as u8)) & 1u8) as nat
}

/// The unsigned integer whose big-endian binary digits are the `n` bits of
/// `data` starting at bit `start`.
pub open spec fn bits_value(data: Seq<u8>, start: int, n: nat) -> nat
    decreases n,
{
    if n == 0 {
        0
    } else {
        2 * bits_value(data, start, (n - 1) as nat) + bit_at(data, start + n - 1)
    }
}

/// How many bits `extract_bits` reads when asked for `num_bits`: at most 32.
pub open spec fn field_width(num_bits: usize) -> nat {
    if num_bits < 32 {
        num_bits as nat
    } else {
        32
    }
}

/// A single bit taken out of a byte is 0 or 1.
pub proof fn lemma_bit_is_binary(x: u8, s: u8)
    ensures
        (x >> s) & 1u8 <= 1u8,
{
    assert((x >> s) & 1u8 <= 1u8) by (bit_vector);
}

/// A field of `n` bits holds a value below `2^n`.
pub proof fn lemma_bits_value_bound(data: Seq<u8>, start: int, n: nat)
    ensures
        bits_value(data, start, n) < pow2(n),
    decreases n,
{
    if n == 0 {
        lemma2_to64();
    } else {
        lemma_bits_value_bound(data, start, (n - 1) as nat);
        lemma_pow2_unfold(n);
        lemma_bit_is_binary(data[(start + n - 1) / 8], (7 - (start + n - 1) % 8) as u8);
    }
}

/// A field of `n + m` bits is its first `n` bits shifted left by `m`, plus its
/// last `m` bits.
pub proof fn lemma_bits_value_split(data: Seq<u8>, start: int, n: nat, m: nat)
    ensures
        bits_value(data, start, n + m) == bits_value(data, start, n) * pow2(m) + bits_value(
            data,
            start + n,
            m,
        ),
    decreases m,
{
    if m == 0 {
        lemma2_to64();
    } else {
        lemma_bits_value_split(data, start, n, (m - 1) as nat);
        lemma_pow2_unfold(m);
        assert(bits_value(data, start, n + m) == 2 * bits_value(data, start, (n + m - 1) as nat)
            + bit_at(data, start + n + m - 1));
        assert(bits_value(data, start + n, m) == 2 * bits_value(data, start + n, (m - 1) as nat)
            + bit_at(data, start + n + m - 1));
        assert(bits_value(data, start, n) * pow2(m) == 2 * (bits_value(data, start, n) * pow2(
            (m - 1) as nat,
        ))) by (nonlinear_arith)
            requires
                pow2(m) == 2 * pow2((m - 1) as nat),
        ;
    }
}

/// The eight bits starting at a byte boundary are that byte.
pub proof fn lemma_bits_value_byte(data: Seq<u8>, k: int)
    requires
        0 <= k < data.len(),
    ensures
        bits_value(data, 8 * k, 8) == data[k] as nat,
{
    reveal_with_fuel(bits_value, 9);
    let b = data[k];
    assert((8 * k + 0) / 8 == k && (8 * k + 0) % 8 == 0);
    assert((8 * k + 1) / 8 == k && (8 * k + 1) % 8 == 1);
    assert((8 * k + 2) / 8 == k && (8 * k + 2) % 8 == 2);
    assert((8 * k + 3) / 8 == k && (8 * k + 3) % 8 == 3);
    assert((8 * k + 4) / 8 == k && (8 * k + 4) % 8 == 4);
    assert((8 * k + 5) / 8 == k && (8 * k + 5) % 8 == 5);
    assert((8 * k + 6) / 8 == k && (8 * k + 6) % 8 == 6);
    assert((8 * k + 7) / 8 == k && (8 * k + 7) % 8 == 7);
    assert(b as nat == 2 * (2 * (2 * (2 * (2 * (2 * (2 * ((b >> 7u8) & 1u8) + ((b >> 6u8) & 1u8))
        + ((b >> 5u8) & 1u8)) + ((b >> 4u8) & 1u8)) + ((b >> 3u8) & 1u8)) + ((b >> 2u8) & 1u8))
        + ((b >> 1u8) & 1u8)) + ((b >> 0u8) & 1u8)) by (bit_vector);
}

/// Extract up to 32 bits from an MSB-first Mode S byte slice.
///
/// `start_bit` is zero-based: bit 0 is the MSB of `data[0]`. Requests wider
/// than 32 bits read only the first 32.
pub fn extract_bits(data: &[u8], start_bit: usize, num_bits: usize) -> (result: u32)
    requires
        field_width(num_bits) == 0 || start_bit + field_width(num_bits) <= 8 * data@.len(),
        start_bit + field_width(num_bits) <= usize::MAX,
    ensures
        result as nat == bits_value(data@, start_bit as int, field_width(num_bits)),
        (result as nat) < pow2(field_width(num_bits)),
{
    let n: usize = if num_bits < 32 {
        num_bits
    } else {
        32
    };
    let mut result: u32 = 0;
    let mut i: usize = 0;
    proof {
        lemma2_to64();
    }
    while i < n
        invariant
            n as nat == field_width(num_bits),
            n == 0 || start_bit + n <= 8 * data@.len(),
            start_bit + n <= usize::MAX,
            i <= n,
            result as nat == bits_value(data@, start_bit as int, i as nat),
        decreases n - i,
    {
        let bit_index = start_bit + i;
        let byte_index = bit_index / 8;
        let bit_in_byte = 7 - (bit_index % 8);
        let bit = (data[byte_index] >> (bit_in_byte as u8)) & 1u8;
        proof {
            lemma_bits_value_bound(data@, start_bit as int, i as nat);
            lemma2_to64();
            if i < 31 {
                lemma_pow2_strictly_increases(i as nat, 31);
            }
            lemma_bit_is_binary(data[byte_index as int], bit_in_byte as u8);
        }
        let b32 = bit as u32;
        let r = result;
        assert((r << 1u32) | b32 == 2 * r + b32) by (bit_vector)
            requires
                r < 0x8000_0000u32,
                b32 <= 1u32,
        ;
        result = (result << 1u32) | b32;
        i += 1;
    }
    proof {
        lemma_bits_value_bound(data@, start_bit as int, n as nat);
    }
    result
}

/// The lowercase hexadecimal digit for a value below 16.
pub open spec fn hex_digit(v: u8) -> char {
    seq!['0', '1', '2', '3', '4', '5', '6', '7', '8', '9', 'a', 'b', 'c', 'd', 'e', 'f'][v as int]
}

/// Two lowercase hexadecimal digits per byte, high nibble first.
pub open spec fn hex_text(data: Seq<u8>) -> Seq<char> {
    Seq::new(
        2 * data.len(),
        |k: int|
            if k % 2 == 0 {
                hex_digit(data[k / 2] >> 4u8)
            } else {
                hex_digit(data[k / 2] & 0x0fu8)
            },
    )
}

/// Render bytes as lowercase hexadecimal, two digits per byte.
pub fn bytes_to_hex(data: &[u8]) -> (out: String)
    ensures
        out@ == hex_text(data@),
{
    let hex = "0123456789abcdef";
    proof {
        reveal_strlit("0123456789abcdef");
        assert(hex@ =~= seq![
            '0',
            '1',
            '2',
            '3',
            '4',
            '5',
            '6',
            '7',
            '8',
            '9',
            'a',
            'b',
            'c',
            'd',
            'e',
            'f',
        ]);
    }
    let mut out = String::new();
    let mut i: usize = 0;
    while i < data.len()
        invariant
            i <= data@.len(),
            hex@.len() == 16,
            forall|v: u8| v < 16 ==> hex@[v as int] == #[trigger] hex_digit(v),
            out@ =~= hex_text(data@.subrange(0, i as int)),
        decreases data@.len() - i,
    {
        let b = data[i];
        let hi = b >> 4u8;
        let lo = b & 0x0fu8;
        assert(hi < 16 && lo < 16) by (bit_vector)
            requires
                hi == b >> 4u8,
                lo == b & 0x0fu8,
        ;
        let hi_digit = hex.substring_char(hi as usize, hi as usize + 1);
        let lo_digit = hex.substring_char(lo as usize, lo as usize + 1);
        let ghost prev = out@;
        out.append(hi_digit);
        out.append(lo_digit);
        proof {
            let next = data@.subrange(0, i + 1);
            assert(hex_text(next) =~= prev + seq![hex_digit(hi), hex_digit(lo)]) by {
                assert forall|k: int| 0 <= k < 2 * (i as int) implies #[trigger] hex_text(next)[k]
                    == prev[k] by {
                    assert(next[k / 2] == data@.subrange(0, i as int)[k / 2]);
                }
            }
        }
        i += 1;
    }
    assert(data@.subrange(0, data@.len() as int) =~= data@);
    out
}

/// A byte as `0x` and two lowercase hexadecimal digits.
pub fn byte_hex_text(b: u8) -> (t: String)
    ensures
        t@ == seq!['0', 'x'] + hex_text(seq![b]),
{
    let mut t = String::from_str("0x");
    let bytes: [u8; 1] = [b];
    let digits = bytes_to_hex(&bytes);
    proof {
        reveal_strlit("0x");
        assert(bytes@ =~= seq![b]);
    }
    t.append(digits.as_str());
    t
}

/// The big-endian 32-bit word made of bytes `k` to `k + 3` of `f`.
pub open spec fn word_at(f: Seq<u8>, k: int) -> u32 {
    ((f[k] as u32) << 24u32) | ((f[k + 1] as u32) << 16u32) | ((f[k + 2] as u32) << 8u32) | (f[k
        + 3] as u32)
}

/// Bit `i` of a frame is the matching bit of the 32-bit word of the four
/// bytes that hold it.
pub proof fn lemma_bit_at_word(f: Seq<u8>, k: int, i: int)
    requires
        0 <= k,
        k + 4 <= f.len(),
        8 * k <= i < 8 * k + 32,
    ensures
        bit_at(f, i) == ((word_at(f, k) >> ((8 * k + 31 - i) as u32)) & 1u32) as nat,
{
    let w = word_at(f, k);
    let (b0, b1, b2, b3) = (f[k], f[k + 1], f[k + 2], f[k + 3]);
    let j = (i - 8 * k) as u32;
    let r = (j % 8) as u8;
    assert(i / 8 == k + j / 8 && i % 8 == j % 8) by (nonlinear_arith)
        requires
            j == i - 8 * k,
            0 <= j < 32,
    ;
    let sh = (31 - j) as u32;
    let rs = (7 - r) as u8;
    assert(sh == (8 * k + 31 - i) as u32);
    if j < 8 {
        assert(((w >> sh) & 1u32) == ((b0 >> rs) & 1u8) as u32) by (bit_vector)
            requires
                w == ((b0 as u32) << 24u32) | ((b1 as u32) << 16u32) | ((b2 as u32) << 8u32) | (
                b3 as u32),
                j < 8,
                r == (j % 8) as u8,
                sh == 31 - j,
                rs == 7 - r,
        ;
    } else if j < 16 {
        assert(((w >> sh) & 1u32) == ((b1 >> rs) & 1u8) as u32) by (bit_vector)
            requires
                w == ((b0 as u32) << 24u32) | ((b1 as u32) << 16u32) | ((b2 as u32) << 8u32) | (
                b3 as u32),
                8 <= j < 16,
                r == (j % 8) as u8,
                sh == 31 - j,
                rs == 7 - r,
        ;
    } else if j < 24 {
        assert(((w >> sh) & 1u32) == ((b2 >> rs) & 1u8) as u32) by (bit_vector)
            requires
                w == ((b0 as u32) << 24u32) | ((b1 as u32) << 16u32) | ((b2 as u32) << 8u32) | (
                b3 as u32),
                16 <= j < 24,
                r == (j % 8) as u8,
                sh == 31 - j,
                rs == 7 - r,
        ;
    } else {
        assert(((w >> sh) & 1u32) == ((b3 >> rs) & 1u8) as u32) by (bit_vector)
            requires
                w == ((b0 as u32) << 24u32) | ((b1 as u32) << 16u32) | ((b2 as u32) << 8u32) | (
                b3 as u32),
                24 <= j < 32,
                r == (j % 8) as u8,
                sh == 31 - j,
                rs == 7 - r,
        ;
    }
}

/// A field of at most 31 bits that lies within the four bytes from byte `k`
/// is the matching bits of their 32-bit word: shifted down past the bits that
/// follow it, and masked to its width.
pub proof fn lemma_bits_value_word(f: Seq<u8>, k: int, s: int, n: nat)
    requires
        0 <= k,
        k + 4 <= f.len(),
        8 * k <= s,
        s + n <= 8 * k + 32,
        n <= 31,
    ensures
        bits_value(f, s, n) == ((word_at(f, k) >> ((8 * k + 32 - s - n) as u32)) & !(0xFFFF_FFFFu32
            << (n as u32))) as nat,
    decreases n,
{
    let w = word_at(f, k);
    let e = (8 * k + 32 - s - n) as u32;
    let m = n as u32;
    if n == 0 {
        assert(((w >> e) & !(0xFFFF_FFFFu32 << 0u32)) == 0u32) by (bit_vector);
    } else {
        lemma_bits_value_word(f, k, s, (n - 1) as nat);
        lemma_bit_at_word(f, k, s + n - 1);
        assert((8 * k + 31 - (s + n - 1)) as u32 == e);
        assert((8 * k + 32 - s - (n - 1)) as u32 == e + 1);
        let e1 = (e + 1) as u32;
        let m1 = (m - 1) as u32;
        assert(((w >> e1) & !(0xFFFF_FFFFu32 << m1)) * 2 + ((w >> e) & 1u32) == (w >> e) & !(
        0xFFFF_FFFFu32 << m)) by (bit_vector)
            requires
                1u32 <= m <= 31u32,
                e + m <= 32u32,
                e1 == e + 1,
                m1 == m - 1,
        ;
    }
}

/// The masks `!(0xFFFF_FFFF << n)` of the low `n` bits, for the field widths
/// that frames use; and a shift by zero leaves a word as it is.
pub proof fn lemma_low_masks(w: u32)
    ensures
        !(0xFFFF_FFFFu32 << 1u32) == 1u32,
        !(0xFFFF_FFFFu32 << 2u32) == 3u32,
        !(0xFFFF_FFFFu32 << 3u32) == 7u32,
        !(0xFFFF_FFFFu32 << 4u32) == 0xfu32,
        !(0xFFFF_FFFFu32 << 5u32) == 0x1fu32,
        !(0xFFFF_FFFFu32 << 6u32) == 0x3fu32,
        !(0xFFFF_FFFFu32 << 7u32) == 0x7fu32,
        !(0xFFFF_FFFFu32 << 8u32) == 0xffu32,
        !(0xFFFF_FFFFu32 << 16u32) == 0xffffu32,
        w >> 0u32 == w,
{
    assert(!(0xFFFF_FFFFu32 << 1u32) == 1u32 && !(0xFFFF_FFFFu32 << 2u32) == 3u32 && !(
    0xFFFF_FFFFu32 << 3u32) == 7u32 && !(0xFFFF_FFFFu32 << 4u32) == 0xfu32 && !(0xFFFF_FFFFu32
        << 5u32) == 0x1fu32 && !(0xFFFF_FFFFu32 << 6u32) == 0x3fu32 && !(0xFFFF_FFFFu32 << 7u32)
        == 0x7fu32 && !(0xFFFF_FFFFu32 << 8u32) == 0xffu32 && !(0xFFFF_FFFFu32 << 16u32)
        == 0xffffu32 && w >> 0u32 == w) by (bit_vector);
}

/// A field of `n <= 8` bits within the four bytes from byte `k`, read as a
/// byte: the matching bits of their 32-bit word.
pub proof fn lemma_field_word(f: Seq<u8>, k: int, s: int, n: nat)
    requires
        0 <= k,
        k + 4 <= f.len(),
        8 * k <= s,
        s + n <= 8 * k + 32,
        1 <= n <= 16,
    ensures
        bits_value(f, s, n) == ((word_at(f, k) >> ((8 * k + 32 - s - n) as u32)) & !(0xFFFF_FFFFu32
            << (n as u32))) as nat,
        bits_value(f, s, n) < pow2(n),
{
    lemma_bits_value_word(f, k, s, n);
    lemma_bits_value_bound(f, s, n);
}

/// A field read from bytes that a longer sequence starts with is the same in
/// both.
pub proof fn lemma_bits_value_prefix(f: Seq<u8>, g: Seq<u8>, s: int, n: nat)
    requires
        0 <= s,
        s + n <= 8 * f.len(),
        f.len() <= g.len(),
        forall|i: int| 0 <= i < f.len() ==> #[trigger] f[i] == g[i],
    ensures
        bits_value(f, s, n) == bits_value(g, s, n),
    decreases n,
{
    if n > 0 {
        lemma_bits_value_prefix(f, g, s, (n - 1) as nat);
        let i = s + n - 1;
        assert(i / 8 < f.len());
        assert(f[i / 8] == g[i / 8]);
    }
}

} // verus!
