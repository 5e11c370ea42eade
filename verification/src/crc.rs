//! Mode S CRC-24 and the uplink address/parity (AP) overlay.
//!
//! An uplink interrogation's last 24 bits carry the CRC of the preceding bits
//! combined with the interrogated aircraft's 24-bit address. On uplink the
//! address is not XORed in directly: it first goes through the "overlay"
//! transform, the top 24 bits of the carry-less product of the address with the
//! CRC generator polynomial. Recovering the address removes the CRC and then
//! inverts the overlay, a linear map over GF(2) whose inverse is computed by
//! Gaussian elimination.
use crate::bits::{bit_at, bits_value, lemma_bit_is_binary};
use vstd::arithmetic::power2::*;
use vstd::prelude::*;
use vstd::relations::injective_on;
use vstd::set_lib::{lemma_int_range, lemma_map_size, lemma_subset_equality, set_int_range};

verus! {

/// The Mode S CRC-24 generator polynomial without its `x^24` term.
pub const CRC24_GENERATOR: u32 = 0xFFF409;

/// The Mode S CRC-24 generator polynomial including its `x^24` term.
pub const CRC24_GENERATOR_FULL: u64 = 0x1FFF409;

/// The 24 address bits.
pub const ADDRESS_MASK: u32 = 0xFF_FFFF;

/// One step of polynomial long division by the generator: shift the running
/// remainder left, bring in the next message bit, and subtract (XOR) the
/// generator when the bit shifted out of the 24-bit register was set.
pub open spec fn crc_step(crc: u32, bit: u32) -> u32 {
    let shifted = ((crc << 1u32) | bit) & 0xFF_FFFFu32;
    if (crc >> 23u32) & 1u32 != 0 {
        shifted ^ 0xFFF409u32
    } else {
        shifted
    }
}

/// The CRC-24 register after the first `n` bits of `data`.
pub open spec fn crc24_spec(data: Seq<u8>, n: nat) -> u32
    decreases n,
{
    if n == 0 {
        0
    } else {
        crc_step(crc24_spec(data, (n - 1) as nat), bit_at(data, n - 1) as u32)
    }
}

/// Mode S CRC-24 over the first `n_bits` bits of `data`, MSB first.
pub fn crc24(data: &[u8], n_bits: usize) -> (crc: u32)
    requires
        n_bits <= 8 * data@.len(),
    ensures
        crc == crc24_spec(data@, n_bits as nat),
{
    let mut crc: u32 = 0;
    let mut i: usize = 0;
    while i < n_bits
        invariant
            i <= n_bits,
            n_bits <= 8 * data@.len(),
            crc == crc24_spec(data@, i as nat),
        decreases n_bits - i,
    {
        let byte_idx = i / 8;
        let bit_idx = 7 - (i % 8);
        let bit = ((data[byte_idx] >> (bit_idx as u8)) & 1u8) as u32;
        let msb = (crc >> 23u32) & 1u32;
        crc = ((crc << 1u32) | bit) & 0xFF_FFFFu32;
        if msb != 0 {
            crc = crc ^ CRC24_GENERATOR;
        }
        i += 1;
    }
    crc
}

/// Whether address bit `23 - i` is set: the bit of column `i`, counting
/// columns from the most significant address bit.
pub open spec fn col_bit(x: u32, i: int) -> bool {
    x & (1u32 << ((23 - i) as u32)) != 0
}

/// The carry-less product of `address` with the full generator, over the
/// address bits of columns `0..n`.
pub open spec fn overlay_product(address: u32, n: nat) -> u64
    decreases n,
{
    if n == 0 {
        0
    } else {
        let p = overlay_product(address, (n - 1) as nat);
        if col_bit(address, n - 1) {
            p ^ (0x1FFF409u64 << ((23 - (n - 1)) as u64))
        } else {
            p
        }
    }
}

/// The uplink AP overlay of a 24-bit address: the top 24 bits of the 48-bit
/// carry-less product of the address with the full CRC-24 generator.
pub open spec fn ap_overlay(address: u32) -> u32 {
    ((overlay_product(address & 0xFF_FFFFu32, 24) >> 24u64) as u32) & 0xFF_FFFFu32
}

/// Compute the uplink AP overlay of a 24-bit address; bits above the 24
/// address bits are ignored.
pub fn ap_overlay_from_address(address: u32) -> (overlay: u32)
    ensures
        overlay == ap_overlay(address),
        overlay <= ADDRESS_MASK,
{
    let address = address & ADDRESS_MASK;
    let mut product: u64 = 0;
    let mut i: u32 = 0;
    while i < 24
        invariant
            i <= 24,
            product == overlay_product(address, i as nat),
        decreases 24 - i,
    {
        if (address & (1u32 << (23 - i))) != 0 {
            product = product ^ (CRC24_GENERATOR_FULL << ((23 - i) as u64));
        }
        i += 1;
    }
    proof {
        lemma_wide(product, 0, 0);
    }
    ((product >> 24u64) as u32) & ADDRESS_MASK
}


// ---------------------------------------------------------------------------
// Parity and GF(2) dot products
// ---------------------------------------------------------------------------

/// Number of set bits among the low `n` bits of `x`.
pub open spec fn ones(x: u32, n: nat) -> nat
    decreases n,
{
    if n == 0 {
        0
    } else {
        ones(x, (n - 1) as nat) + ((x >> ((n - 1) as u32)) & 1u32) as nat
    }
}

/// 1 when `x` has an odd number of set bits, else 0.
pub open spec fn parity(x: u32) -> nat {
    ones(x, 32) % 2
}

/// The GF(2) dot product of two 24-bit vectors given as bit masks.
pub open spec fn dot(mask: u32, y: u32) -> nat {
    parity(mask & y)
}

/// The overlay of the single-bit address of column `i`: column `i` of the
/// overlay matrix.
pub open spec fn column(i: int) -> u32 {
    ap_overlay(1u32 << ((23 - i) as u32))
}

/// `rows` are the rows of the inverse of the overlay matrix: row `r` dotted
/// with column `i` is 1 exactly when `r == i`.
pub open spec fn is_overlay_inverse(rows: Seq<u32>) -> bool {
    &&& rows.len() == 24
    &&& forall|r: int| 0 <= r < 24 ==> #[trigger] rows[r] <= 0xFF_FFFFu32
    &&& forall|r: int, i: int|
        0 <= r < 24 && 0 <= i < 24 ==> #[trigger] dot(rows[r], column(i)) == (if r == i {
            1nat
        } else {
            0nat
        })
}

/// Bitwise facts on 32-bit words used throughout this module.
pub proof fn lemma_word(a: u32, b: u32, c: u32)
    by (bit_vector)
    ensures
        (a ^ b) & c == (a & c) ^ (b & c),
        c & (a ^ b) == (c & a) ^ (c & b),
        a & 0u32 == 0u32,
        0u32 & a == 0u32,
        a & 0xFF_FFFFu32 <= 0xFF_FFFFu32,
        a <= 0xFF_FFFFu32 ==> a & 0xFF_FFFFu32 == a,
        a <= 0xFF_FFFFu32 && b <= 0xFF_FFFFu32 ==> a ^ b <= 0xFF_FFFFu32,
        a ^ a == 0u32,
        a ^ (a ^ b) == b,
        a <= 0xFF_FFFFu32 ==> a & b == a & (b & 0xFF_FFFFu32),
        a & ((0xFF_FFFFu32 >> 24u32) << 24u32) == 0u32,
        (0xFF_FFFFu32 >> 0u32) << 0u32 == 0xFF_FFFFu32,
        ((a & 1u32) != 0u32) == (a % 2 == 1),
        b <= 0xFF_FFFFu32 && (a ^ b) & 0xFF_FFFFu32 == 0u32 ==> b == a & 0xFF_FFFFu32,
{
}

/// Bitwise facts on 64-bit carry-less products.
pub proof fn lemma_wide(p: u64, q: u64, g: u64)
    by (bit_vector)
    ensures
        (((p ^ q) >> 24u64) as u32) & 0xFF_FFFFu32 == ((((p >> 24u64) as u32) & 0xFF_FFFFu32) ^ (
        ((q >> 24u64) as u32) & 0xFF_FFFFu32)),
        ((p >> 24u64) as u32) & 0xFF_FFFFu32 <= 0xFF_FFFFu32,
        0u64 ^ g == g,
        ((0u64 >> 24u64) as u32) & 0xFF_FFFFu32 == 0u32,
        (p ^ g) ^ q == (p ^ q) ^ g,
        p ^ (q ^ g) == (p ^ q) ^ g,
        (p ^ g) ^ (q ^ g) == p ^ q,
{
}

/// Count the set bits of `x`.
fn count_ones(x: u32) -> (n: u32)
    ensures
        n as nat == ones(x, 32),
{
    let mut n: u32 = 0;
    let mut k: u32 = 0;
    while k < 32
        invariant
            k <= 32,
            n as nat == ones(x, k as nat),
            n <= k,
        decreases 32 - k,
    {
        let b = (x >> k) & 1u32;
        proof {
            lemma_bit_of_xor(x, 0, k);
        }
        n = n + b;
        k += 1;
    }
    n
}

proof fn lemma_bit_of_xor(a: u32, b: u32, k: u32)
    by (bit_vector)
    requires
        k < 32,
    ensures
        ((a ^ b) >> k) & 1u32 == (((a >> k) & 1u32) + ((b >> k) & 1u32)) % 2,
        (a >> k) & 1u32 <= 1u32,
        (b >> k) & 1u32 <= 1u32,
        (0u32 >> k) & 1u32 == 0u32,
{
}

proof fn lemma_ones_xor(a: u32, b: u32, n: nat)
    requires
        n <= 32,
    ensures
        ones(a ^ b, n) % 2 == (ones(a, n) + ones(b, n)) % 2,
    decreases n,
{
    if n > 0 {
        lemma_ones_xor(a, b, (n - 1) as nat);
        lemma_bit_of_xor(a, b, (n - 1) as u32);
    }
}

/// Parity is additive over XOR.
pub proof fn lemma_parity_xor(a: u32, b: u32)
    ensures
        parity(a ^ b) == (parity(a) + parity(b)) % 2,
{
    lemma_ones_xor(a, b, 32);
}

proof fn lemma_ones_zero(n: nat)
    requires
        n <= 32,
    ensures
        ones(0u32, n) == 0,
    decreases n,
{
    if n > 0 {
        lemma_ones_zero((n - 1) as nat);
        let k = (n - 1) as u32;
        lemma_bit_of_xor(0, 0, k);
    }
}

proof fn lemma_ones_single(x: u32, k: u32, n: nat)
    requires
        k < 32,
        n <= 32,
    ensures
        ones(x & (1u32 << k), n) == (if n > k {
            ((x >> k) & 1u32) as nat
        } else {
            0nat
        }),
    decreases n,
{
    if n > 0 {
        lemma_ones_single(x, k, (n - 1) as nat);
        let j = (n - 1) as u32;
        assert(((x & (1u32 << k)) >> j) & 1u32 == (if j == k {
            (x >> k) & 1u32
        } else {
            0u32
        })) by (bit_vector)
            requires
                k < 32u32,
                j < 32u32,
        ;
    }
}

/// Dot products are linear in the mask.
pub proof fn lemma_dot_xor_mask(m1: u32, m2: u32, y: u32)
    ensures
        dot(m1 ^ m2, y) == (dot(m1, y) + dot(m2, y)) % 2,
{
    lemma_word(m1, m2, y);
    lemma_parity_xor(m1 & y, m2 & y);
}

/// Dot products are linear in the vector.
pub proof fn lemma_dot_xor_vector(m: u32, y1: u32, y2: u32)
    ensures
        dot(m, y1 ^ y2) == (dot(m, y1) + dot(m, y2)) % 2,
{
    lemma_word(y1, y2, m);
    lemma_parity_xor(m & y1, m & y2);
}

/// The dot product of a single-bit mask of column `r` with `y` is that bit of `y`.
proof fn lemma_dot_unit(r: int, y: u32)
    requires
        0 <= r < 24,
    ensures
        dot(1u32 << ((23 - r) as u32), y) == (if col_bit(y, r) {
            1nat
        } else {
            0nat
        }),
{
    let k = (23 - r) as u32;
    lemma_unit_mask(y, k);
    lemma_ones_single(y, k, 32);
}

proof fn lemma_unit_mask(y: u32, k: u32)
    by (bit_vector)
    requires
        k < 24,
    ensures
        (1u32 << k) & y == y & (1u32 << k),
        ((y >> k) & 1u32 == 1u32) == (y & (1u32 << k) != 0u32),
        (y >> k) & 1u32 <= 1u32,
        (y & 0xFF_FFFFu32) & (1u32 << k) == y & (1u32 << k),
        1u32 << k <= 0xFF_FFFFu32,
{
}

/// A mask limited to the 24 address bits ignores anything above them.
proof fn lemma_dot_high_bits(m: u32, y: u32)
    requires
        m <= 0xFF_FFFFu32,
    ensures
        dot(m, y) == dot(m, y & 0xFF_FFFFu32),
{
    lemma_word(m, y, 0);
}

// ---------------------------------------------------------------------------
// Shape of the overlay matrix
// ---------------------------------------------------------------------------

proof fn lemma_unit_bits(k: int, m: int)
    requires
        0 <= k < 24,
        0 <= m < 24,
    ensures
        col_bit(1u32 << ((23 - k) as u32), m) == (k == m),
        (1u32 << ((23 - k) as u32)) & 0xFF_FFFFu32 == 1u32 << ((23 - k) as u32),
{
    let a = (23 - k) as u32;
    let b = (23 - m) as u32;
    lemma_two_units(a, b);
}

proof fn lemma_two_units(a: u32, b: u32)
    by (bit_vector)
    requires
        a < 24,
        b < 24,
    ensures
        ((1u32 << a) & (1u32 << b) != 0u32) == (a == b),
        (1u32 << a) & 0xFF_FFFFu32 == 1u32 << a,
{
}

proof fn lemma_unit_product(k: int, n: nat)
    requires
        0 <= k < 24,
        n <= 24,
    ensures
        overlay_product(1u32 << ((23 - k) as u32), n) == (if n > k {
            0x1FFF409u64 << ((23 - k) as u64)
        } else {
            0u64
        }),
    decreases n,
{
    if n > 0 {
        lemma_unit_product(k, (n - 1) as nat);
        lemma_unit_bits(k, n - 1);
        let s = (23 - k) as u64;
        lemma_wide(0, 0, 0x1FFF409u64 << s);
    }
}

/// Column `k` of the overlay matrix is the generator shifted into place.
proof fn lemma_column_value(k: int)
    requires
        0 <= k < 24,
    ensures
        column(k) == ((((0x1FFF409u64 << ((23 - k) as u64)) >> 24u64) as u32) & 0xFF_FFFFu32),
{
    lemma_unit_bits(k, 0);
    lemma_unit_product(k, 24);
}

/// The overlay matrix is unitriangular: column `k` has its own bit set and no
/// bit of an earlier column.
proof fn lemma_column_shape(k: int, j: int)
    requires
        0 <= k < 24,
        0 <= j < 24,
    ensures
        j < k ==> !col_bit(column(k), j),
        col_bit(column(k), k),
{
    lemma_column_value(k);
    let s = (23 - k) as u64;
    let kk = k as u64;
    let jj = j as u64;
    let c = (((0x1FFF409u64 << s) >> 24u64) as u32) & 0xFF_FFFFu32;
    assert(jj < kk ==> c & (1u32 << ((23u64 - jj) as u32)) == 0u32) by (bit_vector)
        requires
            kk < 24u64,
            jj < 24u64,
            s == 23u64 - kk,
            c == (((0x1FFF409u64 << s) >> 24u64) as u32) & 0xFF_FFFFu32,
    ;
    assert(c & (1u32 << ((23u64 - kk) as u32)) != 0u32) by (bit_vector)
        requires
            kk < 24u64,
            s == 23u64 - kk,
            c == (((0x1FFF409u64 << s) >> 24u64) as u32) & 0xFF_FFFFu32,
    ;
}

proof fn lemma_has_or(x: u32, i: int, k: int)
    requires
        0 <= i < 24,
        0 <= k < 24,
    ensures
        col_bit(x | (1u32 << ((23 - i) as u32)), k) == (col_bit(x, k) || i == k),
{
    let a = (23 - i) as u32;
    let b = (23 - k) as u32;
    assert(((x | (1u32 << a)) & (1u32 << b) != 0u32) == ((x & (1u32 << b) != 0u32) || a == b))
        by (bit_vector)
        requires
            a < 24u32,
            b < 24u32,
    ;
}

proof fn lemma_has_xor(x: u32, y: u32, k: int)
    requires
        0 <= k < 24,
    ensures
        col_bit(x ^ y, k) == (col_bit(x, k) != col_bit(y, k)),
{
    let b = (23 - k) as u32;
    assert(((x ^ y) & (1u32 << b) != 0u32) == ((x & (1u32 << b) != 0u32) != (y & (1u32 << b)
        != 0u32))) by (bit_vector)
        requires
            b < 24u32,
    ;
}

proof fn lemma_has_zero(k: int)
    requires
        0 <= k < 24,
    ensures
        !col_bit(0u32, k),
{
    let b = (23 - k) as u32;
    lemma_word(1u32 << b, 0, 0);
}

proof fn lemma_xor_in_range(a: u32, b: u32)
    requires
        a <= 0xFF_FFFFu32,
        b <= 0xFF_FFFFu32,
    ensures
        a ^ b <= 0xFF_FFFFu32,
{
    lemma_word(a, b, 0);
}

// ---------------------------------------------------------------------------
// Inverting the overlay
// ---------------------------------------------------------------------------

/// Invert the overlay matrix by Gauss-Jordan elimination over GF(2).
///
/// Row `j` of the matrix holds, at the bit of column `i`, the bit of column `j`
/// of the overlay of the single-bit address of column `i`. The returned rows
/// are the rows of the inverse.
pub fn build_overlay_inverse() -> (inv: [u32; 24])
    ensures
        is_overlay_inverse(inv@),
{
    let mut mat = [0u32; 24];
    let mut inv = [0u32; 24];
    proof {
        assert forall|j: int, k: int| 0 <= j < 24 && 0 <= k < 24 implies !#[trigger] col_bit(
            mat[j],
            k,
        ) by {
            assert(mat[j] == 0u32);
            lemma_has_zero(k);
        }
    }

    let mut i: usize = 0;
    while i < 24
        invariant
            i <= 24,
            forall|j: int, k: int|
                0 <= j < 24 && 0 <= k < 24 ==> #[trigger] col_bit(mat[j], k) == (k < i
                    && col_bit(column(k), j)),
        decreases 24 - i,
    {
        let col = ap_overlay_from_address(1u32 << ((23 - i) as u32));
        let mut j: usize = 0;
        while j < 24
            invariant
                i < 24,
                j <= 24,
                col == column(i as int),
                forall|jj: int, k: int|
                    0 <= jj < 24 && 0 <= k < 24 ==> #[trigger] col_bit(mat[jj], k) == (if jj < j {
                        k < i + 1 && col_bit(column(k), jj)
                    } else {
                        k < i && col_bit(column(k), jj)
                    }),
            decreases 24 - j,
        {
            if (col & (1u32 << ((23 - j) as u32))) != 0 {
                let updated = mat[j] | (1u32 << ((23 - i) as u32));
                proof {
                    assert forall|k: int| 0 <= k < 24 implies #[trigger] col_bit(updated, k) == (
                    col_bit(mat[j as int], k) || i == k) by {
                        lemma_has_or(mat[j as int], i as int, k);
                    }
                }
                mat[j] = updated;
            }
            j += 1;
        }
        i += 1;
    }

    let mut r: usize = 0;
    while r < 24
        invariant
            r <= 24,
            forall|q: int| 0 <= q < r ==> #[trigger] inv[q] == 1u32 << ((23 - q) as u32),
        decreases 24 - r,
    {
        inv[r] = 1u32 << ((23 - r) as u32);
        r += 1;
    }

    proof {
        assert forall|q: int, k: int| 0 <= q < 24 && 0 <= k < 24 implies #[trigger] col_bit(
            mat[q],
            k,
        ) == (dot(inv[q], column(k)) == 1) by {
            lemma_dot_unit(q, column(k));
        }
        assert forall|q: int| 0 <= q < 24 implies #[trigger] inv[q] <= 0xFF_FFFFu32 by {
            let a = (23 - q) as u32;
            lemma_unit_mask(0, a);
        }
        assert forall|q: int, k: int| 0 <= q < 24 && 0 <= k < 24 implies (k > q ==> !col_bit(
            mat[q],
            k,
        )) && col_bit(mat[q], q) by {
            lemma_column_shape(k, q);
            lemma_column_shape(q, q);
        }
    }

    let mut col: usize = 0;
    while col < 24
        invariant
            col <= 24,
            forall|q: int, k: int|
                0 <= q < 24 && 0 <= k < 24 ==> #[trigger] col_bit(mat[q], k) == (dot(
                    inv[q],
                    column(k),
                ) == 1),
            forall|q: int| 0 <= q < 24 ==> #[trigger] inv[q] <= 0xFF_FFFFu32,
            forall|q: int, k: int|
                0 <= q < col && 0 <= k < 24 ==> #[trigger] col_bit(mat[q], k) == (k == q),
            forall|q: int, k: int|
                col <= q < 24 && 0 <= k < 24 ==> ((k > q || k < col) ==> !#[trigger] col_bit(
                    mat[q],
                    k,
                )),
            forall|q: int| col <= q < 24 ==> #[trigger] col_bit(mat[q], q),
        decreases 24 - col,
    {
        let mask = 1u32 << ((23 - col) as u32);
        let mut pivot = col;
        while pivot < 24 && (mat[pivot] & mask) == 0
            invariant
                col < 24,
                col <= pivot <= 24,
                mask == 1u32 << ((23 - col) as u32),
                col_bit(mat[col as int], col as int),
                forall|q: int| col <= q < pivot ==> !#[trigger] col_bit(mat[q], col as int),
            decreases 24 - pivot,
        {
            pivot += 1;
        }
        assert(pivot == col);
        if pivot != col {
            let t = mat[pivot];
            mat[pivot] = mat[col];
            mat[col] = t;
            let t = inv[pivot];
            inv[pivot] = inv[col];
            inv[col] = t;
        }
        let ghost pivot_row = mat[col as int];
        let ghost pivot_inv = inv[col as int];
        assert(forall|k: int| 0 <= k < 24 ==> #[trigger] col_bit(pivot_row, k) == (k == col));

        let mut row: usize = 0;
        while row < 24
            invariant
                col < 24,
                row <= 24,
                mask == 1u32 << ((23 - col) as u32),
                mat[col as int] == pivot_row,
                inv[col as int] == pivot_inv,
                forall|k: int| 0 <= k < 24 ==> #[trigger] col_bit(pivot_row, k) == (k == col),
                forall|q: int, k: int|
                    0 <= q < 24 && 0 <= k < 24 ==> #[trigger] col_bit(mat[q], k) == (dot(
                        inv[q],
                        column(k),
                    ) == 1),
                forall|q: int| 0 <= q < 24 ==> #[trigger] inv[q] <= 0xFF_FFFFu32,
                forall|q: int, k: int|
                    0 <= q < col && 0 <= k < 24 ==> #[trigger] col_bit(mat[q], k) == (k == q),
                forall|q: int, k: int|
                    col < q < 24 && q < row && 0 <= k < 24 ==> ((k > q || k <= col) ==> !#[trigger] col_bit(
                        mat[q],
                        k,
                    )),
                forall|q: int, k: int|
                    col <= q < 24 && q >= row && 0 <= k < 24 ==> ((k > q || k < col) ==> !#[trigger] col_bit(
                        mat[q],
                        k,
                    )),
                forall|q: int| col < q < 24 ==> #[trigger] col_bit(mat[q], q),
            decreases 24 - row,
        {
            if row != col && (mat[row] & mask) != 0 {
                let new_row = mat[row] ^ mat[col];
                let new_inv = inv[row] ^ inv[col];
                proof {
                    assert(col_bit(mat[row as int], col as int));
                    assert forall|k: int| 0 <= k < 24 implies #[trigger] col_bit(new_row, k) == (
                    dot(new_inv, column(k)) == 1) by {
                        lemma_has_xor(mat[row as int], pivot_row, k);
                        lemma_dot_xor_mask(inv[row as int], pivot_inv, column(k));
                    }
                    assert forall|k: int| 0 <= k < 24 implies #[trigger] col_bit(new_row, k) == (
                    col_bit(mat[row as int], k) != (k == col)) by {
                        lemma_has_xor(mat[row as int], pivot_row, k);
                    }
                    lemma_xor_in_range(inv[row as int], pivot_inv);
                }
                mat[row] = new_row;
                inv[row] = new_inv;
            }
            row += 1;
        }
        col += 1;
    }

    proof {
        assert forall|q: int, k: int| 0 <= q < 24 && 0 <= k < 24 implies #[trigger] dot(
            inv[q],
            column(k),
        ) == (if q == k {
            1nat
        } else {
            0nat
        }) by {
            assert(col_bit(mat[q], k) == (k == q));
        }
    }
    inv
}

/// The rows of the inverse overlay matrix, computed by elimination on each call.
fn inverse_rows() -> (rows: [u32; 24])
    ensures
        is_overlay_inverse(rows@),
{
    build_overlay_inverse()
}

/// The overlay restricted to the address bits of columns `0..n`.
pub open spec fn overlay_prefix(address: u32, n: nat) -> u32 {
    ((overlay_product(address & 0xFF_FFFFu32, n) >> 24u64) as u32) & 0xFF_FFFFu32
}

/// The dot product of `mask` with the columns selected by the address bits of
/// columns `0..n`, summed over GF(2).
pub open spec fn dot_prefix(mask: u32, address: u32, n: nat) -> nat
    decreases n,
{
    if n == 0 {
        0
    } else {
        (dot_prefix(mask, address, (n - 1) as nat) + if col_bit(address, n - 1) {
            dot(mask, column(n - 1))
        } else {
            0nat
        }) % 2
    }
}

/// The address assembled from the dot products of `rows[0..n]` with `y`: bit
/// of column `r` set when row `r` dotted with `y` is 1.
pub open spec fn address_prefix(rows: Seq<u32>, y: u32, n: nat) -> u32
    decreases n,
{
    if n == 0 {
        0
    } else {
        let p = address_prefix(rows, y, (n - 1) as nat);
        if dot(rows[n - 1], y) == 1 {
            p | (1u32 << ((23 - (n - 1)) as u32))
        } else {
            p
        }
    }
}

/// The address bits of columns `0..n`.
pub open spec fn top_mask(n: nat) -> u32 {
    (0xFF_FFFFu32 >> ((24 - n) as u32)) << ((24 - n) as u32)
}

proof fn lemma_dot_zero(m: u32)
    ensures
        dot(m, 0u32) == 0,
{
    lemma_word(m, 0, 0);
    lemma_ones_zero(32);
}

/// The overlay is linear: dotting a mask with the overlay of an address sums
/// the mask's dot products with the columns the address selects.
proof fn lemma_dot_overlay_prefix(m: u32, a: u32, n: nat)
    requires
        n <= 24,
    ensures
        dot(m, overlay_prefix(a, n)) == dot_prefix(m, a, n),
    decreases n,
{
    if n == 0 {
        lemma_wide(0, 0, 0);
        lemma_dot_zero(m);
    } else {
        lemma_dot_overlay_prefix(m, a, (n - 1) as nat);
        let k = n - 1;
        let b = (23 - k) as u32;
        lemma_unit_mask(a, b);
        if col_bit(a, k) {
            let p = overlay_product(a & 0xFF_FFFFu32, (n - 1) as nat);
            let s = (23 - k) as u64;
            let q = 0x1FFF409u64 << s;
            lemma_column_value(k);
            lemma_wide(p, q, 0);
            lemma_dot_xor_vector(m, overlay_prefix(a, (n - 1) as nat), column(k));
        }
    }
}

proof fn lemma_dot_prefix_inverse(rows: Seq<u32>, r: int, a: u32, n: nat)
    requires
        is_overlay_inverse(rows),
        0 <= r < 24,
        n <= 24,
    ensures
        dot_prefix(rows[r], a, n) == (if n > r && col_bit(a, r) {
            1nat
        } else {
            0nat
        }),
    decreases n,
{
    if n > 0 {
        lemma_dot_prefix_inverse(rows, r, a, (n - 1) as nat);
        assert(dot(rows[r], column(n - 1)) == (if r == n - 1 {
            1nat
        } else {
            0nat
        }));
    }
}

/// Each inverse row picks out one address bit from an overlay.
proof fn lemma_inverse_row_bit(rows: Seq<u32>, r: int, a: u32)
    requires
        is_overlay_inverse(rows),
        0 <= r < 24,
    ensures
        dot(rows[r], ap_overlay(a)) == (if col_bit(a, r) {
            1nat
        } else {
            0nat
        }),
{
    lemma_dot_overlay_prefix(rows[r], a, 24);
    lemma_dot_prefix_inverse(rows, r, a, 24);
}

proof fn lemma_top_mask_step(a: u32, k: u32)
    requires
        k < 24,
    ensures
        a & top_mask((k + 1) as nat) == (if a & (1u32 << ((23u32 - k) as u32)) != 0u32 {
            (a & top_mask(k as nat)) | (1u32 << ((23u32 - k) as u32))
        } else {
            a & top_mask(k as nat)
        }),
{
    let t0 = (0xFF_FFFFu32 >> ((24u32 - k) as u32)) << ((24u32 - k) as u32);
    let t1 = (0xFF_FFFFu32 >> ((24u32 - (k + 1)) as u32)) << ((24u32 - (k + 1)) as u32);
    let e = 1u32 << ((23u32 - k) as u32);
    assert(a & t1 == (if a & e != 0u32 {
        (a & t0) | e
    } else {
        a & t0
    })) by (bit_vector)
        requires
            k < 24u32,
            t0 == (0xFF_FFFFu32 >> ((24u32 - k) as u32)) << ((24u32 - k) as u32),
            t1 == (0xFF_FFFFu32 >> ((24u32 - (k + 1)) as u32)) << ((24u32 - (k + 1)) as u32),
            e == 1u32 << ((23u32 - k) as u32),
    ;
}

proof fn lemma_address_prefix(rows: Seq<u32>, y: u32, a: u32, n: nat)
    requires
        n <= 24,
        rows.len() == 24,
        forall|q: int| 0 <= q < n ==> #[trigger] dot(rows[q], y) == (if col_bit(a, q) {
            1nat
        } else {
            0nat
        }),
    ensures
        address_prefix(rows, y, n) == a & top_mask(n),
    decreases n,
{
    if n == 0 {
        lemma_word(a, 0, 0);
    } else {
        lemma_address_prefix(rows, y, a, (n - 1) as nat);
        let k = (n - 1) as u32;
        assert(dot(rows[k as int], y) == (if col_bit(a, k as int) {
            1nat
        } else {
            0nat
        }));
        lemma_top_mask_step(a, k);
    }
}

/// Assembling the address from the inverse rows undoes the overlay.
proof fn lemma_decode_overlay(rows: Seq<u32>, a: u32)
    requires
        is_overlay_inverse(rows),
    ensures
        address_prefix(rows, ap_overlay(a), 24) == a & 0xFF_FFFFu32,
{
    assert forall|q: int| 0 <= q < 24 implies #[trigger] dot(rows[q], ap_overlay(a)) == (
    if col_bit(a, q) {
        1nat
    } else {
        0nat
    }) by {
        lemma_inverse_row_bit(rows, q, a);
    }
    lemma_address_prefix(rows, ap_overlay(a), a, 24);
    lemma_word(0, 0, 0);
}

/// Law: rows that invert the overlay matrix (as `build_overlay_inverse`
/// returns) decode every overlay: setting the bit of column `r` exactly when
/// row `r` dotted with `ap_overlay(a)` is 1 gives back the address `a`.
pub proof fn law_inverse_rows_decode(rows: Seq<u32>, a: u32)
    requires
        is_overlay_inverse(rows),
        a <= 0xFF_FFFFu32,
    ensures
        address_prefix(rows, ap_overlay(a), 24) == a,
{
    lemma_decode_overlay(rows, a);
    assert(a & 0xFF_FFFFu32 == a) by (bit_vector)
        requires
            a <= 0xFF_FFFFu32,
    ;
}

/// Every 24-bit value is the overlay of some 24-bit address: the overlay is
/// injective on the 2^24 addresses, so its image is all of them.
proof fn lemma_overlay_onto(rows: Seq<u32>, y: u32)
    requires
        is_overlay_inverse(rows),
        y <= 0xFF_FFFFu32,
    ensures
        exists|a: u32| a <= 0xFF_FFFFu32 && ap_overlay(a) == y,
{
    let dom = set_int_range(0, 0x100_0000);
    let f = |x: int| ap_overlay(x as u32) as int;
    lemma_int_range(0, 0x100_0000);
    assert forall|x1: int, x2: int|
        dom.contains(x1) && dom.contains(x2) && #[trigger] f(x1) == #[trigger] f(x2) implies x1
        == x2 by {
        lemma_decode_overlay(rows, x1 as u32);
        lemma_decode_overlay(rows, x2 as u32);
        let a1 = x1 as u32;
        let a2 = x2 as u32;
        lemma_word(a1, 0, 0);
        lemma_word(a2, 0, 0);
    }
    assert(injective_on(f, dom));
    let img = dom.map(f);
    lemma_map_size(dom, img, f);
    assert forall|v: int| img.contains(v) implies dom.contains(v) by {
        let x = choose|x: int| dom.contains(x) && f(x) == v;
        lemma_overlay_in_range(x as u32);
    }
    lemma_subset_equality(img, dom);
    assert(dom.contains(y as int));
    assert(img.contains(y as int));
    let x = choose|x: int| dom.contains(x) && f(x) == y as int;
    assert(ap_overlay(x as u32) == y);
}

/// Recover the 24-bit address whose uplink AP overlay is `overlay_bits`
/// (bits above the 24 overlay bits are ignored).
pub fn ap_address_from_overlay(overlay_bits: u32) -> (address: u32)
    ensures
        address <= ADDRESS_MASK,
        ap_overlay(address) == overlay_bits & ADDRESS_MASK,
{
    let inverse_rows = inverse_rows();
    let mut address: u32 = 0;
    let mut row: usize = 0;
    while row < 24
        invariant
            row <= 24,
            is_overlay_inverse(inverse_rows@),
            address == address_prefix(inverse_rows@, overlay_bits, row as nat),
        decreases 24 - row,
    {
        let mask = inverse_rows[row];
        let n = count_ones(mask & overlay_bits);
        proof {
            lemma_word(n, 0, 0);
        }
        if (n & 1u32) != 0 {
            address = address | (1u32 << ((23 - row) as u32));
        }
        row += 1;
    }
    proof {
        let rows = inverse_rows@;
        let y = overlay_bits & 0xFF_FFFFu32;
        lemma_word(overlay_bits, 0, 0);
        lemma_overlay_onto(rows, y);
        let a = choose|a: u32| a <= 0xFF_FFFFu32 && ap_overlay(a) == y;
        assert forall|q: int| 0 <= q < 24 implies #[trigger] dot(rows[q], overlay_bits) == (
        if col_bit(a, q) {
            1nat
        } else {
            0nat
        }) by {
            lemma_dot_high_bits(rows[q], overlay_bits);
            lemma_inverse_row_bit(rows, q, a);
        }
        lemma_address_prefix(rows, overlay_bits, a, 24);
        lemma_word(a, 0, 0);
    }
    address & ADDRESS_MASK
}

// ---------------------------------------------------------------------------
// Injectivity of the overlay, without reference to a computed inverse
// ---------------------------------------------------------------------------

/// The overlay is linear over GF(2).
proof fn lemma_overlay_product_xor(a: u32, b: u32, n: nat)
    requires
        n <= 24,
    ensures
        overlay_product(a ^ b, n) == overlay_product(a, n) ^ overlay_product(b, n),
    decreases n,
{
    if n == 0 {
        lemma_wide(0, 0, 0);
    } else {
        lemma_overlay_product_xor(a, b, (n - 1) as nat);
        lemma_has_xor(a, b, n - 1);
        let p = overlay_product(a, (n - 1) as nat);
        let q = overlay_product(b, (n - 1) as nat);
        let g = 0x1FFF409u64 << ((23 - (n - 1)) as u64);
        lemma_wide(p, q, g);
    }
}

proof fn lemma_overlay_xor(a: u32, b: u32)
    ensures
        ap_overlay(a ^ b) == ap_overlay(a) ^ ap_overlay(b),
{
    let am = a & 0xFF_FFFFu32;
    let bm = b & 0xFF_FFFFu32;
    lemma_word(a, b, 0xFF_FFFFu32);
    lemma_overlay_product_xor(am, bm, 24);
    let p = overlay_product(am, 24);
    let q = overlay_product(bm, 24);
    lemma_wide(p, q, 0);
}

/// An overlay never exceeds 24 bits.
pub proof fn lemma_overlay_in_range(a: u32)
    ensures
        ap_overlay(a) <= 0xFF_FFFFu32,
{
    let p = overlay_product(a & 0xFF_FFFFu32, 24);
    lemma_wide(p, 0, 0);
}

proof fn lemma_dot_prefix_unit(d: u32, k: int, n: nat)
    requires
        0 <= k < 24,
        n <= 24,
        forall|i: int| 0 <= i < k ==> !#[trigger] col_bit(d, i),
    ensures
        dot_prefix(1u32 << ((23 - k) as u32), d, n) == (if n > k && col_bit(d, k) {
            1nat
        } else {
            0nat
        }),
    decreases n,
{
    if n > 0 {
        lemma_dot_prefix_unit(d, k, (n - 1) as nat);
        let i = n - 1;
        lemma_dot_unit(k, column(i));
        if i > k {
            lemma_column_shape(i, k);
        } else if i == k {
            lemma_column_shape(k, k);
        }
    }
}

proof fn lemma_kernel_prefix(d: u32, k: int)
    requires
        ap_overlay(d) == 0,
        0 <= k <= 24,
    ensures
        forall|i: int| 0 <= i < k ==> !#[trigger] col_bit(d, i),
        d & top_mask(k as nat) == 0,
    decreases k,
{
    if k == 0 {
        lemma_word(d, 0, 0);
    } else {
        let c = k - 1;
        lemma_kernel_prefix(d, c);
        lemma_dot_overlay_prefix(1u32 << ((23 - c) as u32), d, 24);
        lemma_dot_prefix_unit(d, c, 24);
        lemma_dot_zero(1u32 << ((23 - c) as u32));
        lemma_top_mask_step(d, c as u32);
    }
}

/// Only the zero address has a zero overlay.
proof fn lemma_overlay_kernel(d: u32)
    requires
        ap_overlay(d) == 0,
    ensures
        d & 0xFF_FFFFu32 == 0,
{
    lemma_kernel_prefix(d, 24);
    lemma_word(0, 0, 0);
}

/// Law: the overlay is one-to-one on 24-bit addresses, so the address that
/// `ap_address_from_overlay` recovers from the overlay of `address` is
/// `address` itself (its low 24 bits).
pub proof fn law_overlay_round_trip(address: u32, recovered: u32)
    requires
        recovered <= 0xFF_FFFFu32,
        ap_overlay(recovered) == ap_overlay(address) & 0xFF_FFFFu32,
    ensures
        recovered == address & 0xFF_FFFFu32,
{
    lemma_overlay_in_range(address);
    let o = ap_overlay(address);
    lemma_word(o, 0, 0);
    lemma_overlay_xor(address, recovered);
    lemma_overlay_kernel(address ^ recovered);
    lemma_word(address, recovered, 0);
}

/// The AP field of a frame of `n_bits` bits: its last three whole bytes read
/// as a big-endian 24-bit number.
pub open spec fn ap_field(msg: Seq<u8>, n_bits: nat) -> nat {
    let p = (n_bits - 24) / 8;
    msg[p] as nat * 65536 + msg[p + 1] as nat * 256 + msg[p + 2] as nat
}

/// The address recovered from a frame: the 24-bit address whose overlay is the
/// CRC of the bits before the AP field XORed with the AP field.
pub open spec fn recovered_address_is(msg: Seq<u8>, n_bits: nat, address: u32) -> bool {
    &&& address <= 0xFF_FFFFu32
    &&& ap_overlay(address) == crc24_spec(msg, (n_bits - 24) as nat) ^ (ap_field(msg, n_bits) as u32)
}

/// The address recovered from a frame of `n_bits` bits (unique, see
/// `lemma_recovered_address_unique`).
pub open spec fn recovered_address(msg: Seq<u8>, n_bits: nat) -> u32 {
    choose|a: u32| recovered_address_is(msg, n_bits, a)
}

/// At most one address is recovered from a frame.
pub proof fn lemma_recovered_address_unique(msg: Seq<u8>, n_bits: nat, a: u32, b: u32)
    requires
        recovered_address_is(msg, n_bits, a),
        recovered_address_is(msg, n_bits, b),
    ensures
        a == b,
{
    lemma_overlay_in_range(a);
    let o = ap_overlay(a);
    lemma_word(o, 0, 0);
    lemma_word(a, 0, 0);
    law_overlay_round_trip(a, b);
}

/// Recover the interrogated address from an uplink frame of `n_bits` bits:
/// remove the CRC of the data bits from the AP field, then invert the overlay.
pub fn recover_ap_address(msg: &[u8], n_bits: usize) -> (address: u32)
    requires
        n_bits >= 24,
        (n_bits - 24) / 8 + 3 <= msg@.len(),
    ensures
        recovered_address_is(msg@, n_bits as nat, address),
        address == recovered_address(msg@, n_bits as nat),
{
    let parity_start = (n_bits - 24) / 8;
    let b0 = msg[parity_start];
    let b1 = msg[parity_start + 1];
    let b2 = msg[parity_start + 2];
    let parity = ((b0 as u32) << 16u32) | ((b1 as u32) << 8u32) | b2 as u32;
    assert(parity == b0 as nat * 65536 + b1 as nat * 256 + b2 as nat && parity <= 0xFF_FFFFu32)
        by (bit_vector)
        requires
            parity == ((b0 as u32) << 16u32) | ((b1 as u32) << 8u32) | b2 as u32,
    ;
    let crc = crc24(msg, n_bits - 24);
    let address = ap_address_from_overlay(crc ^ parity);
    proof {
        lemma_crc_in_range(msg@, (n_bits - 24) as nat);
        lemma_word(crc, parity, 0);
        lemma_word(crc ^ parity, 0, 0);
        assert(recovered_address_is(msg@, n_bits as nat, address));
        let chosen = recovered_address(msg@, n_bits as nat);
        lemma_recovered_address_unique(msg@, n_bits as nat, address, chosen);
    }
    address
}

/// The CRC register never exceeds 24 bits.
pub proof fn lemma_crc_in_range(data: Seq<u8>, n: nat)
    ensures
        crc24_spec(data, n) <= 0xFF_FFFFu32,
    decreases n,
{
    if n > 0 {
        let c = crc24_spec(data, (n - 1) as nat);
        let b = bit_at(data, n - 1) as u32;
        assert(crc_step(c, b) <= 0xFF_FFFFu32) by (bit_vector);
    }
}

/// Law: when a frame's AP field is the CRC of its data bits XORed with the
/// overlay of `address`, the address recovered from the frame is `address`.
pub proof fn law_recover_encoded_address(msg: Seq<u8>, n_bits: nat, address: u32, recovered: u32)
    requires
        n_bits >= 24,
        ap_field(msg, n_bits) == (crc24_spec(msg, (n_bits - 24) as nat) ^ ap_overlay(address)) as nat,
        recovered_address_is(msg, n_bits, recovered),
    ensures
        recovered == address & 0xFF_FFFFu32,
{
    let c = crc24_spec(msg, (n_bits - 24) as nat);
    let o = ap_overlay(address);
    lemma_overlay_in_range(address);
    lemma_crc_in_range(msg, (n_bits - 24) as nat);
    lemma_word(c, o, 0);
    lemma_word(o, 0, 0);
    law_overlay_round_trip(address, recovered);
}

/// A division step on a remainder below `2^23` only shifts the bit in.
proof fn lemma_step_small(c: u32, b: u32)
    by (bit_vector)
    requires
        c < 0x80_0000u32,
        b <= 1u32,
    ensures
        crc_step(c, b) == 2 * c + b,
{
}

/// Bringing in `j` more bits while the running value stays below `2^24`
/// only shifts them in: no generator is subtracted.
proof fn lemma_crc_shift_in(data: Seq<u8>, m: nat, j: nat)
    requires
        crc24_spec(data, m) * pow2(j) + bits_value(data, m as int, j) < pow2(24),
    ensures
        crc24_spec(data, m + j) == crc24_spec(data, m) * pow2(j) + bits_value(data, m as int, j),
    decreases j,
{
    let c = crc24_spec(data, m);
    lemma2_to64();
    if j == 0 {
        assert(c * pow2(0) == c);
    } else {
        let j1 = (j - 1) as nat;
        let bit = bit_at(data, m + j - 1);
        lemma_bit_is_binary(data[(m + j - 1) / 8], (7 - (m + j - 1) % 8) as u8);
        assert(bits_value(data, m as int, j) == 2 * bits_value(data, m as int, j1) + bit);
        lemma_pow2_unfold(j);
        assert(c * pow2(j) == 2 * (c * pow2(j1))) by (nonlinear_arith)
            requires
                pow2(j) == 2 * pow2(j1),
        ;
        lemma_crc_shift_in(data, m, j1);
        let x = crc24_spec(data, m + j1);
        assert(x < 0x80_0000);
        lemma_step_small(x, bit as u32);
        assert(m + j1 + 1 == m + j);
    }
}

/// Law: the CRC is the remainder of division by the generator, so data whose
/// bits, read as a binary number, stay below `2^24` (a polynomial of degree
/// below 24) is its own CRC.
pub proof fn law_crc_of_short_data(data: Seq<u8>, n: nat)
    requires
        bits_value(data, 0, n) < pow2(24),
    ensures
        crc24_spec(data, n) == bits_value(data, 0, n),
{
    lemma_crc_shift_in(data, 0, n);
    assert(0 * pow2(n) == 0);
}

/// Law: the CRC of a multiple of the generator `x^24 + 0xFFF409` is 0: when
/// the bits of `data`, read as a binary number, are the generator shifted
/// left by `k` (the number `0x1FFF409 * 2^k`), the CRC is 0.
pub proof fn law_crc_of_generator_multiple(data: Seq<u8>, n: nat, k: nat)
    requires
        bits_value(data, 0, n) == 0x1FFF409 * pow2(k),
    ensures
        crc24_spec(data, n) == 0,
{
    let p: nat = 0x1FFF409;
    lemma2_to64();
    crate::bits::lemma_bits_value_bound(data, 0, n);
    if n < k + 25 {
        lemma_pow2_adds(24, k);
        if n < 24 + k {
            lemma_pow2_strictly_increases(n, 24 + k);
        }
        assert(pow2(n) <= pow2(24 + k));
        assert(p * pow2(k) >= pow2(24) * pow2(k)) by (nonlinear_arith)
            requires
                p >= pow2(24),
        ;
        assert(false);
    }
    let top = (n - k) as nat;
    let m = (top - 25) as nat;
    crate::bits::lemma_bits_value_split(data, 0, top, k);
    crate::bits::lemma_bits_value_bound(data, top as int, k);
    let hi = bits_value(data, 0, top);
    let lo = bits_value(data, top as int, k);
    assert(hi == p && lo == 0) by (nonlinear_arith)
        requires
            hi * pow2(k) + lo == p * pow2(k),
            lo < pow2(k),
            pow2(k) > 0,
    {
        if hi > p {
            assert(hi * pow2(k) >= (p + 1) * pow2(k));
        } else if hi < p {
            assert(hi * pow2(k) + lo < (hi + 1) * pow2(k));
            assert((hi + 1) * pow2(k) <= p * pow2(k));
        }
    }
    assert(0 + top == top);
    crate::bits::lemma_bits_value_split(data, 0, m, 25);
    crate::bits::lemma_bits_value_bound(data, m as int, 25);
    let h2 = bits_value(data, 0, m);
    let l2 = bits_value(data, m as int, 25);
    assert(m + 25 == top);
    assert(h2 == 0 && l2 == p) by (nonlinear_arith)
        requires
            h2 * 0x200_0000 + l2 == p,
            l2 < 0x200_0000,
            p == 0x1FFF409,
    ;
    crate::bits::lemma_bits_value_split(data, m as int, 24, 1);
    crate::bits::lemma_bits_value_bound(data, (m + 24) as int, 1);
    let h3 = bits_value(data, m as int, 24);
    let l3 = bits_value(data, (m + 24) as int, 1);
    assert(h3 == 0xFF_FA04 && l3 == 1);
    law_crc_of_short_data(data, m);
    assert(crc24_spec(data, m) == 0);
    lemma_crc_shift_in(data, m, 24);
    assert(crc24_spec(data, m + 24) == 0xFF_FA04);
    assert(bit_at(data, (m + 24) as int) == 1);
    assert(crc_step(0xFF_FA04u32, 1u32) == 0u32) by (bit_vector);
    assert(crc24_spec(data, m + 25) == 0);
    assert(0 * pow2(k) == 0);
    lemma_crc_shift_in(data, m + 25, k);
    assert(m + 25 + k == n);
}

/// Two byte sequences of the same length combined byte by byte with XOR.
pub open spec fn xor_bytes(a: Seq<u8>, b: Seq<u8>) -> Seq<u8> {
    Seq::new(a.len(), |i: int| a[i] ^ b[i])
}

/// A division step commutes with XOR.
proof fn lemma_step_xor(c1: u32, c2: u32, b1: u32, b2: u32)
    by (bit_vector)
    requires
        c1 <= 0xFF_FFFFu32,
        c2 <= 0xFF_FFFFu32,
        b1 <= 1u32,
        b2 <= 1u32,
    ensures
        crc_step(c1 ^ c2, b1 ^ b2) == crc_step(c1, b1) ^ crc_step(c2, b2),
        0u32 ^ 0u32 == 0u32,
{
}

/// A bit of the XOR of two bytes is the XOR of their bits.
proof fn lemma_bit_xor(x: u8, y: u8, r: u8)
    by (bit_vector)
    requires
        r < 8u8,
    ensures
        (((x ^ y) >> r) & 1u8) as u32 == (((x >> r) & 1u8) as u32) ^ (((y >> r) & 1u8) as u32),
{
}

/// Law: the CRC is linear over GF(2): the CRC of two messages XORed bit by
/// bit is the XOR of their CRCs. With `law_crc_of_short_data` and
/// `law_crc_of_generator_multiple` this makes the CRC exactly the remainder of
/// the message polynomial divided by `x^24 + 0xFFF409`.
pub proof fn law_crc_linear(a: Seq<u8>, b: Seq<u8>, n: nat)
    requires
        a.len() == b.len(),
        n <= 8 * a.len(),
    ensures
        crc24_spec(xor_bytes(a, b), n) == crc24_spec(a, n) ^ crc24_spec(b, n),
    decreases n,
{
    if n == 0 {
        lemma_step_xor(0, 0, 0, 0);
    } else {
        let n1 = (n - 1) as nat;
        law_crc_linear(a, b, n1);
        let i = n - 1;
        let q = i / 8;
        let r = (7 - i % 8) as u8;
        assert(xor_bytes(a, b)[q] == a[q] ^ b[q]);
        lemma_bit_xor(a[q], b[q], r);
        lemma_crc_in_range(a, n1);
        lemma_crc_in_range(b, n1);
        lemma_bit_is_binary(a[q], r);
        lemma_bit_is_binary(b[q], r);
        lemma_step_xor(
            crc24_spec(a, n1),
            crc24_spec(b, n1),
            bit_at(a, i) as u32,
            bit_at(b, i) as u32,
        );
        assert(bit_at(xor_bytes(a, b), i) as u32 == (bit_at(a, i) as u32) ^ (bit_at(b, i) as u32));
    }
}

/// Law: the overlay is linear over GF(2) (the overlay of two addresses
/// XORed is the XOR of their overlays), and the overlay of the address with
/// only the bit of column `k` set (bit `23 - k`) is the top 24 bits of the
/// generator `0x1FFF409` shifted left by `23 - k`. Together these fix the
/// overlay of every address.
pub proof fn law_overlay_structure(a: u32, b: u32, k: int)
    requires
        0 <= k < 24,
    ensures
        ap_overlay(a ^ b) == ap_overlay(a) ^ ap_overlay(b),
        ap_overlay(1u32 << ((23 - k) as u32)) == ((((0x1FFF409u64 << ((23 - k) as u64)) >> 24u64)
            as u32) & 0xFF_FFFFu32),
{
    lemma_overlay_xor(a, b);
    lemma_column_value(k);
}

} // verus!
