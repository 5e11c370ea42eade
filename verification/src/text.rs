//! Character-level text helpers: comparison, substring search, prefix
//! trimming, and decimal integer parsing with the rules of the standard
//! library's integer `FromStr` (an optional sign, then one or more ASCII
//! digits, and a value in range).
use vstd::prelude::*;
use vstd::string::{StrSliceExecFns, StringExecFns};

verus! {

/// `c` is an ASCII decimal digit.
pub open spec fn is_digit(c: char) -> bool {
    '0' <= c && c <= '9'
}

/// The value of the decimal digit `c`.
pub open spec fn digit_value(c: char) -> nat {
    (c as nat - '0' as nat) as nat
}

/// The number whose decimal digits are `s`.
pub open spec fn digits_value(s: Seq<char>) -> nat
    decreases s.len(),
{
    if s.len() == 0 {
        0
    } else {
        digits_value(s.drop_last()) * 10 + digit_value(s.last())
    }
}

/// `s` is one or more decimal digits.
pub open spec fn all_digits(s: Seq<char>) -> bool {
    s.len() > 0 && forall|i: int| 0 <= i < s.len() ==> #[trigger] is_digit(s[i])
}

/// The value of unsigned decimal text: an optional `+`, then digits.
pub open spec fn unsigned_text(s: Seq<char>) -> Option<nat> {
    let d = if s.len() > 0 && s[0] == '+' {
        s.drop_first()
    } else {
        s
    };
    if all_digits(d) {
        Some(digits_value(d))
    } else {
        None
    }
}

/// The value of signed decimal text: an optional `+` or `-`, then digits.
pub open spec fn signed_text(s: Seq<char>) -> Option<int> {
    if s.len() > 0 && s[0] == '-' {
        if all_digits(s.drop_first()) {
            Some(-digits_value(s.drop_first()))
        } else {
            None
        }
    } else {
        match unsigned_text(s) {
            Some(v) => Some(v as int),
            None => None,
        }
    }
}

/// What the standard library's `u32` parser gives for `s`.
pub open spec fn u32_text(s: Seq<char>) -> Option<u32> {
    match unsigned_text(s) {
        Some(v) => if v <= u32::MAX {
            Some(v as u32)
        } else {
            None
        },
        None => None,
    }
}

/// What the standard library's `usize` parser gives for `s`.
pub open spec fn usize_text(s: Seq<char>) -> Option<usize> {
    match unsigned_text(s) {
        Some(v) => if v <= usize::MAX {
            Some(v as usize)
        } else {
            None
        },
        None => None,
    }
}

/// What the standard library's `i32` parser gives for `s`.
pub open spec fn i32_text(s: Seq<char>) -> Option<i32> {
    match signed_text(s) {
        Some(v) => if i32::MIN <= v <= i32::MAX {
            Some(v as i32)
        } else {
            None
        },
        None => None,
    }
}

/// `s` contains the separator `://`.
pub open spec fn has_scheme_separator(s: Seq<char>) -> bool {
    exists|i: int| 0 <= i && i + 3 <= s.len() && #[trigger] s.subrange(i, i + 3) == seq![':', '/', '/']
}

/// `s` without its leading `/` characters.
pub open spec fn trim_leading_slashes(s: Seq<char>) -> Seq<char>
    decreases s.len(),
{
    if s.len() > 0 && s[0] == '/' {
        trim_leading_slashes(s.drop_first())
    } else {
        s
    }
}

/// Whether two texts are equal, character by character.
pub fn text_eq(a: &str, b: &str) -> (eq: bool)
    ensures
        eq == (a@ == b@),
{
    let n = a.unicode_len();
    if n != b.unicode_len() {
        return false;
    }
    let mut i: usize = 0;
    while i < n
        invariant
            n == a@.len(),
            n == b@.len(),
            i <= n,
            forall|j: int| 0 <= j < i ==> a@[j] == b@[j],
        decreases n - i,
    {
        if a.get_char(i) != b.get_char(i) {
            return false;
        }
        i += 1;
    }
    assert(a@ =~= b@);
    true
}

/// Whether `s` contains `://`.
pub fn contains_scheme_separator(s: &str) -> (found: bool)
    ensures
        found == has_scheme_separator(s@),
{
    let n = s.unicode_len();
    let mut i: usize = 0;
    while n >= 3 && i <= n - 3
        invariant
            n == s@.len(),
            forall|j: int|
                0 <= j < i && j + 3 <= s@.len() ==> #[trigger] s@.subrange(j, j + 3) != seq![
                    ':',
                    '/',
                    '/',
                ],
        decreases n - i,
    {
        if s.get_char(i) == ':' && s.get_char(i + 1) == '/' && s.get_char(i + 2) == '/' {
            assert(s@.subrange(i as int, i + 3) =~= seq![':', '/', '/']);
            return true;
        }
        assert(s@.subrange(i as int, i + 3)[0] == s@[i as int]);
        assert(s@.subrange(i as int, i + 3)[1] == s@[i + 1]);
        assert(s@.subrange(i as int, i + 3)[2] == s@[i + 2]);
        i += 1;
    }
    false
}

/// `s` without its leading `/` characters.
pub fn trim_start_slashes(s: &str) -> (t: String)
    ensures
        t@ == trim_leading_slashes(s@),
{
    let n = s.unicode_len();
    let mut i: usize = 0;
    assert(s@.subrange(0, n as int) =~= s@);
    while i < n && s.get_char(i) == '/'
        invariant
            n == s@.len(),
            i <= n,
            trim_leading_slashes(s@) == trim_leading_slashes(s@.subrange(i as int, n as int)),
        decreases n - i,
    {
        let ghost rest = s@.subrange(i as int, n as int);
        assert(rest.drop_first() =~= s@.subrange(i + 1, n as int));
        i += 1;
    }
    let tail = s.substring_char(i, n);
    proof {
        let rest = s@.subrange(i as int, n as int);
        assert(!(rest.len() > 0 && rest[0] == '/'));
    }
    String::from_str(tail)
}

proof fn lemma_digits_value_prefix(s: Seq<char>, k: int)
    requires
        0 <= k <= s.len(),
    ensures
        digits_value(s.subrange(0, k)) <= digits_value(s),
    decreases s.len() - k,
{
    if k < s.len() {
        lemma_digits_value_prefix(s, k + 1);
        let t = s.subrange(0, k + 1);
        assert(t.drop_last() =~= s.subrange(0, k));
    } else {
        assert(s.subrange(0, k) =~= s);
    }
}

/// Parse unsigned decimal text with value at most `max`.
pub fn parse_unsigned(s: &str, max: u64) -> (v: Option<u64>)
    requires
        max >= 9,
    ensures
        v == (match unsigned_text(s@) {
            Some(n) => if n <= max {
                Some(n as u64)
            } else {
                None::<u64>
            },
            None => None::<u64>,
        }),
{
    let n = s.unicode_len();
    let mut start: usize = 0;
    if n > 0 && s.get_char(0) == '+' {
        start = 1;
    }
    let ghost d = if s@.len() > 0 && s@[0] == '+' {
        s@.drop_first()
    } else {
        s@
    };
    assert(d =~= s@.subrange(start as int, n as int));
    if start >= n {
        return None;
    }
    let mut acc: u64 = 0;
    let mut i: usize = start;
    while i < n
        invariant
            n == s@.len(),
            start <= i <= n,
            start < n,
            d =~= s@.subrange(start as int, n as int),
            d == (if s@.len() > 0 && s@[0] == '+' {
                s@.drop_first()
            } else {
                s@
            }),
            max >= 9,
            acc as nat == digits_value(s@.subrange(start as int, i as int)),
            acc <= max,
            forall|j: int| start <= j < i ==> #[trigger] is_digit(s@[j]),
        decreases n - i,
    {
        let c = s.get_char(i);
        if !('0' <= c && c <= '9') {
            assert(c == s@[i as int]);
            assert(d[i - start] == s@[i as int]);
            assert(!is_digit(d[i - start]));
            assert(!all_digits(d));
            return None;
        }
        let digit = (c as u32 - '0' as u32) as u64;
        let ghost prefix = s@.subrange(start as int, i + 1);
        assert(prefix.drop_last() =~= s@.subrange(start as int, i as int));
        if acc > (max - digit) / 10 {
            proof {
                assert(acc * 10 + digit > max) by (nonlinear_arith)
                    requires
                        acc > (max - digit) / 10,
                        digit <= max || digit > max,
                ;
                let rest = s@.subrange(start as int, n as int);
                assert(rest.subrange(0, i + 1 - start) =~= prefix);
                lemma_digits_value_prefix(rest, i + 1 - start);
            }
            return None;
        }
        assert(acc * 10 + digit <= max) by (nonlinear_arith)
            requires
                acc <= (max - digit) / 10,
                digit <= 9,
        ;
        acc = acc * 10 + digit;
        i += 1;
    }
    assert(s@.subrange(start as int, n as int) =~= d);
    Some(acc)
}

/// Parse text as a `u32` with the standard library's rules.
pub fn parse_u32(s: &str) -> (v: Option<u32>)
    ensures
        v == u32_text(s@),
{
    match parse_unsigned(s, u32::MAX as u64) {
        Some(n) => Some(n as u32),
        None => None,
    }
}

/// Parse text as a `usize` with the standard library's rules.
pub fn parse_usize(s: &str) -> (v: Option<usize>)
    ensures
        v == usize_text(s@),
{
    match parse_unsigned(s, usize::MAX as u64) {
        Some(n) => Some(n as usize),
        None => None,
    }
}

/// Parse text as an `i32` with the standard library's rules.
pub fn parse_i32(s: &str) -> (v: Option<i32>)
    ensures
        v == i32_text(s@),
{
    let n = s.unicode_len();
    if n > 0 && s.get_char(0) == '-' {
        let digits = s.substring_char(1, n);
        if digits.unicode_len() > 0 && digits.get_char(0) == '+' {
            assert(!is_digit(digits@[0]));
            assert(!all_digits(s@.drop_first()));
            return None;
        }
        assert(digits@ =~= s@.drop_first());
        match parse_unsigned(digits, 0x8000_0000u64) {
            Some(m) => Some((0 - (m as i64)) as i32),
            None => None,
        }
    } else {
        match parse_unsigned(s, 0x7FFF_FFFFu64) {
            Some(m) => Some(m as i32),
            None => None,
        }
    }
}

/// The decimal digit character for a value below 10.
pub open spec fn digit_char(d: nat) -> char {
    seq!['0', '1', '2', '3', '4', '5', '6', '7', '8', '9'][d as int]
}

/// `n` in decimal, without leading zeros.
pub open spec fn decimal_text(n: nat) -> Seq<char>
    decreases n,
{
    if n < 10 {
        seq![digit_char(n)]
    } else {
        decimal_text(n / 10).push(digit_char(n % 10))
    }
}

/// `n` in decimal.
pub fn u64_text(n: u64) -> (t: String)
    ensures
        t@ == decimal_text(n as nat),
    decreases n,
{
    let digits = "0123456789";
    proof {
        reveal_strlit("0123456789");
        assert(digits@ =~= seq!['0', '1', '2', '3', '4', '5', '6', '7', '8', '9']);
    }
    let d = (n % 10) as usize;
    let last = digits.substring_char(d, d + 1);
    assert(last@ =~= seq![digit_char(d as nat)]);
    if n < 10 {
        String::from_str(last)
    } else {
        let mut t = u64_text(n / 10);
        t.append(last);
        t
    }
}

// -----------------------------------------------------------------------------
// Hexadecimal text
// -----------------------------------------------------------------------------

/// `c` is an ASCII hexadecimal digit, in either case.
pub open spec fn is_hex_digit(c: char) -> bool {
    is_digit(c) || ('a' <= c && c <= 'f') || ('A' <= c && c <= 'F')
}

/// The value of the hexadecimal digit `c`.
pub open spec fn hex_digit_value(c: char) -> nat {
    if is_digit(c) {
        digit_value(c)
    } else if 'a' <= c && c <= 'f' {
        (c as nat - 'a' as nat + 10) as nat
    } else {
        (c as nat - 'A' as nat + 10) as nat
    }
}

/// The number whose hexadecimal digits are `s`.
pub open spec fn hex_digits_value(s: Seq<char>) -> nat
    decreases s.len(),
{
    if s.len() == 0 {
        0
    } else {
        hex_digits_value(s.drop_last()) * 16 + hex_digit_value(s.last())
    }
}

/// `s` is one or more hexadecimal digits.
pub open spec fn all_hex_digits(s: Seq<char>) -> bool {
    s.len() > 0 && forall|i: int| 0 <= i < s.len() ==> #[trigger] is_hex_digit(s[i])
}

/// What the standard library's `u32::from_str_radix(s, 16)` accepts: an
/// optional `+`, then one or more hexadecimal digits, with a value that fits.
pub open spec fn hex_u32_text(s: Seq<char>) -> Option<u32> {
    let d = if s.len() > 0 && s[0] == '+' {
        s.drop_first()
    } else {
        s
    };
    if all_hex_digits(d) && hex_digits_value(d) <= u32::MAX {
        Some(hex_digits_value(d) as u32)
    } else {
        None
    }
}

proof fn lemma_hex_digits_value_prefix(s: Seq<char>, k: int)
    requires
        0 <= k <= s.len(),
    ensures
        hex_digits_value(s.subrange(0, k)) <= hex_digits_value(s),
    decreases s.len() - k,
{
    if k < s.len() {
        lemma_hex_digits_value_prefix(s, k + 1);
        let t = s.subrange(0, k + 1);
        assert(t.drop_last() =~= s.subrange(0, k));
    } else {
        assert(s.subrange(0, k) =~= s);
    }
}

/// Parse hexadecimal text as a `u32` with the standard library's rules.
pub fn parse_hex_u32(s: &str) -> (v: Option<u32>)
    ensures
        v == hex_u32_text(s@),
{
    let n = s.unicode_len();
    let mut start: usize = 0;
    if n > 0 && s.get_char(0) == '+' {
        start = 1;
    }
    let ghost d = if s@.len() > 0 && s@[0] == '+' {
        s@.drop_first()
    } else {
        s@
    };
    assert(d =~= s@.subrange(start as int, n as int));
    if start >= n {
        return None;
    }
    let mut acc: u32 = 0;
    let mut i: usize = start;
    while i < n
        invariant
            n == s@.len(),
            start <= i <= n,
            start < n,
            d =~= s@.subrange(start as int, n as int),
            d == (if s@.len() > 0 && s@[0] == '+' {
                s@.drop_first()
            } else {
                s@
            }),
            acc as nat == hex_digits_value(s@.subrange(start as int, i as int)),
            forall|j: int| start <= j < i ==> #[trigger] is_hex_digit(s@[j]),
        decreases n - i,
    {
        let c = s.get_char(i);
        let digit: u32 = if '0' <= c && c <= '9' {
            c as u32 - '0' as u32
        } else if 'a' <= c && c <= 'f' {
            c as u32 - 'a' as u32 + 10
        } else if 'A' <= c && c <= 'F' {
            c as u32 - 'A' as u32 + 10
        } else {
            assert(d[i - start] == s@[i as int]);
            assert(!is_hex_digit(d[i - start]));
            assert(!all_hex_digits(d));
            return None;
        };
        assert(digit as nat == hex_digit_value(s@[i as int]));
        let ghost prefix = s@.subrange(start as int, i + 1);
        assert(prefix.drop_last() =~= s@.subrange(start as int, i as int));
        if acc > (u32::MAX - digit) / 16 {
            proof {
                assert(acc * 16 + digit > u32::MAX) by (nonlinear_arith)
                    requires
                        acc > (u32::MAX - digit) / 16,
                        digit <= 15,
                ;
                let rest = s@.subrange(start as int, n as int);
                assert(rest.subrange(0, i + 1 - start) =~= prefix);
                lemma_hex_digits_value_prefix(rest, i + 1 - start);
                assert(hex_digits_value(d) > u32::MAX);
            }
            return None;
        }
        assert(acc * 16 + digit <= u32::MAX) by (nonlinear_arith)
            requires
                acc <= (u32::MAX - digit) / 16,
                digit <= 15,
        ;
        acc = acc * 16 + digit;
        i += 1;
    }
    assert(s@.subrange(start as int, n as int) =~= d);
    Some(acc)
}

// -----------------------------------------------------------------------------
// Floating-point text
// -----------------------------------------------------------------------------

/// `c` is an exponent marker.
pub open spec fn is_exp_marker(c: char) -> bool {
    c == 'e' || c == 'E'
}

/// `u` spells `lower` ignoring ASCII case (`upper` is `lower` in capitals).
pub open spec fn word_ci(u: Seq<char>, lower: Seq<char>, upper: Seq<char>) -> bool {
    &&& u.len() == lower.len()
    &&& forall|i: int| 0 <= i < u.len() ==> #[trigger] u[i] == lower[i] || u[i] == upper[i]
}

/// The index of the first exponent marker in `s`, or its length.
pub open spec fn first_exp_marker(s: Seq<char>) -> int
    decreases s.len(),
{
    if s.len() == 0 {
        0
    } else if is_exp_marker(s[0]) {
        0
    } else {
        1 + first_exp_marker(s.drop_first())
    }
}

/// Digits with at most one `.`, and at least one digit.
pub open spec fn mantissa_text(m: Seq<char>) -> bool {
    &&& forall|j: int| 0 <= j < m.len() ==> is_digit(#[trigger] m[j]) || m[j] == '.'
    &&& forall|j: int, k: int| 0 <= j < k < m.len() ==> !(#[trigger] m[j] == '.' && #[trigger] m[k] == '.')
    &&& exists|j: int| 0 <= j < m.len() && is_digit(#[trigger] m[j])
}

/// An optional sign, then one or more digits.
pub open spec fn exponent_text(x: Seq<char>) -> bool {
    if x.len() > 0 && (x[0] == '+' || x[0] == '-') {
        all_digits(x.drop_first())
    } else {
        all_digits(x)
    }
}

/// A decimal number: a mantissa, then optionally an exponent marker and an
/// exponent.
pub open spec fn number_text(u: Seq<char>) -> bool {
    let i = first_exp_marker(u);
    mantissa_text(u.take(i)) && (i == u.len() || exponent_text(u.skip(i + 1)))
}

/// Text the standard library parses as a floating-point number: an optional
/// sign, then `inf`, `infinity`, `nan` (in any case), or a decimal number.
pub open spec fn float_text(s: Seq<char>) -> bool {
    let u = if s.len() > 0 && (s[0] == '+' || s[0] == '-') {
        s.drop_first()
    } else {
        s
    };
    ||| word_ci(u, seq!['i', 'n', 'f'], seq!['I', 'N', 'F'])
    ||| word_ci(
        u,
        seq!['i', 'n', 'f', 'i', 'n', 'i', 't', 'y'],
        seq!['I', 'N', 'F', 'I', 'N', 'I', 'T', 'Y'],
    )
    ||| word_ci(u, seq!['n', 'a', 'n'], seq!['N', 'A', 'N'])
    ||| number_text(u)
}

/// Whether the characters of `s` from `from` spell `lower`/`upper` ignoring case.
fn matches_word_ci(s: &str, from: usize, lower: &str, upper: &str) -> (m: bool)
    requires
        from <= s@.len(),
        lower@.len() == upper@.len(),
    ensures
        m == word_ci(s@.skip(from as int), lower@, upper@),
{
    let n = s.unicode_len();
    let w = lower.unicode_len();
    if n - from != w {
        return false;
    }
    let mut i: usize = 0;
    while i < w
        invariant
            n == s@.len(),
            w == lower@.len(),
            w == upper@.len(),
            n - from == w,
            from <= n,
            i <= w,
            forall|j: int| 0 <= j < i ==> #[trigger] s@.skip(from as int)[j] == lower@[j] || s@.skip(
                from as int,
            )[j] == upper@[j],
        decreases w - i,
    {
        let c = s.get_char(from + i);
        if c != lower.get_char(i) && c != upper.get_char(i) {
            assert(s@.skip(from as int)[i as int] == c);
            return false;
        }
        i += 1;
    }
    true
}

proof fn lemma_first_exp_marker(s: Seq<char>, i: int)
    requires
        0 <= i <= s.len(),
        forall|j: int| 0 <= j < i ==> !is_exp_marker(#[trigger] s[j]),
        i == s.len() || is_exp_marker(s[i]),
    ensures
        first_exp_marker(s) == i,
    decreases i,
{
    if i > 0 {
        assert(!is_exp_marker(s[0]));
        let t = s.drop_first();
        assert forall|j: int| 0 <= j < i - 1 implies !is_exp_marker(#[trigger] t[j]) by {
            assert(t[j] == s[j + 1]);
        }
        lemma_first_exp_marker(t, i - 1);
    }
}

/// Whether `s` is text the standard library parses as a floating-point number.
pub fn is_float_text(s: &str) -> (ok: bool)
    ensures
        ok == float_text(s@),
{
    let n = s.unicode_len();
    let mut start: usize = 0;
    if n > 0 && (s.get_char(0) == '+' || s.get_char(0) == '-') {
        start = 1;
    }
    let ghost u = if s@.len() > 0 && (s@[0] == '+' || s@[0] == '-') {
        s@.drop_first()
    } else {
        s@
    };
    assert(u =~= s@.skip(start as int));
    proof {
        reveal_strlit("inf");
        reveal_strlit("INF");
        reveal_strlit("infinity");
        reveal_strlit("INFINITY");
        reveal_strlit("nan");
        reveal_strlit("NAN");
        assert("inf"@ =~= seq!['i', 'n', 'f']);
        assert("INF"@ =~= seq!['I', 'N', 'F']);
        assert("infinity"@ =~= seq!['i', 'n', 'f', 'i', 'n', 'i', 't', 'y']);
        assert("INFINITY"@ =~= seq!['I', 'N', 'F', 'I', 'N', 'I', 'T', 'Y']);
        assert("nan"@ =~= seq!['n', 'a', 'n']);
        assert("NAN"@ =~= seq!['N', 'A', 'N']);
    }
    if matches_word_ci(s, start, "inf", "INF") || matches_word_ci(s, start, "infinity", "INFINITY")
        || matches_word_ci(s, start, "nan", "NAN") {
        return true;
    }
    // Mantissa: from `start` up to the first exponent marker.

    let mut i: usize = start;
    let mut dots: usize = 0;
    let mut digits: usize = 0;
    let mut valid = true;
    let ghost mut dot_at: int = 0;
    let ghost mut digit_at: int = 0;
    while i < n && !(s.get_char(i) == 'e' || s.get_char(i) == 'E')
        invariant
            n == s@.len(),
            start <= i <= n,
            u =~= s@.skip(start as int),
            forall|j: int| start <= j < i ==> !is_exp_marker(#[trigger] s@[j]),
            valid == (forall|j: int| start <= j < i ==> is_digit(#[trigger] s@[j]) || s@[j] == '.'),
            dots <= 2,
            dots == 0 ==> forall|j: int| start <= j < i ==> #[trigger] s@[j] != '.',
            dots == 1 ==> start <= dot_at < i && s@[dot_at] == '.' && forall|j: int|
                start <= j < i && j != dot_at ==> #[trigger] s@[j] != '.',
            dots == 2 ==> exists|j: int, k: int| start <= j < k < i && #[trigger] s@[j] == '.' && #[trigger] s@[k] == '.',
            digits == 0 ==> forall|j: int| start <= j < i ==> !is_digit(#[trigger] s@[j]),
            digits > 0 ==> start <= digit_at < i && is_digit(s@[digit_at]),
            digits <= 1,
        decreases n - i,
    {
        let c = s.get_char(i);
        if '0' <= c && c <= '9' {
            if digits == 0 {
                proof {
                    digit_at = i as int;
                }
                digits = 1;
            }
        } else if c == '.' {
            if dots == 0 {
                proof {
                    dot_at = i as int;
                }
                dots = 1;
            } else if dots == 1 {
                dots = 2;
            }
        } else {
            valid = false;
        }
        i += 1;
    }
    let e = i;
    proof {
        lemma_first_exp_marker(u, e - start);
        let m = u.take(e - start);
        assert forall|j: int| 0 <= j < m.len() implies #[trigger] m[j] == s@[start + j] by {}
        if valid && dots <= 1 && digits > 0 {
            assert(m[digit_at - start] == s@[digit_at]);
            assert forall|j: int, k: int| 0 <= j < k < m.len() implies !(#[trigger] m[j] == '.'
                && #[trigger] m[k] == '.') by {
                assert(m[j] == s@[start + j]);
                assert(m[k] == s@[start + k]);
            }
            assert forall|j: int| 0 <= j < m.len() implies is_digit(#[trigger] m[j]) || m[j]
                == '.' by {
                assert(m[j] == s@[start + j]);
            }
            assert(mantissa_text(m));
        } else if !valid {
            let j = choose|j: int| start <= j < e && !(is_digit(#[trigger] s@[j]) || s@[j] == '.');
            assert(m[j - start] == s@[j]);
            assert(!mantissa_text(m));
        } else if dots == 2 {
            let (j, k) = choose|j: int, k: int|
                start <= j < k < e && #[trigger] s@[j] == '.' && #[trigger] s@[k] == '.';
            assert(m[j - start] == s@[j]);
            assert(m[k - start] == s@[k]);
            assert(!mantissa_text(m));
        } else {
            assert forall|j: int| 0 <= j < m.len() implies !is_digit(#[trigger] m[j]) by {
                assert(m[j] == s@[start + j]);
            }
            assert(!mantissa_text(m));
        }
        assert(!word_ci(u, seq!['i', 'n', 'f'], seq!['I', 'N', 'F']));
    }
    if !(valid && dots <= 1 && digits > 0) {
        return false;
    }
    if e == n {
        return true;
    }
    // Exponent: an optional sign, then one or more digits.

    let mut k: usize = e + 1;
    if k < n && (s.get_char(k) == '+' || s.get_char(k) == '-') {
        k = k + 1;
    }
    let ghost x = u.skip(e - start + 1);
    assert(x =~= s@.skip(e + 1));
    let ghost xd = if x.len() > 0 && (x[0] == '+' || x[0] == '-') {
        x.drop_first()
    } else {
        x
    };
    assert(xd =~= s@.skip(k as int));
    if k >= n {
        return false;
    }
    let mut q: usize = k;
    while q < n
        invariant
            n == s@.len(),
            k <= q <= n,
            k < n,
            xd =~= s@.skip(k as int),
            x =~= s@.skip(e + 1),
            number_text(u) == (exponent_text(x)),
            u == (if s@.len() > 0 && (s@[0] == '+' || s@[0] == '-') {
                s@.drop_first()
            } else {
                s@
            }),
            xd == (if x.len() > 0 && (x[0] == '+' || x[0] == '-') {
                x.drop_first()
            } else {
                x
            }),
            !word_ci(u, seq!['i', 'n', 'f'], seq!['I', 'N', 'F']),
            !word_ci(
                u,
                seq!['i', 'n', 'f', 'i', 'n', 'i', 't', 'y'],
                seq!['I', 'N', 'F', 'I', 'N', 'I', 'T', 'Y'],
            ),
            !word_ci(u, seq!['n', 'a', 'n'], seq!['N', 'A', 'N']),
            forall|j: int| k <= j < q ==> is_digit(#[trigger] s@[j]),
        decreases n - q,
    {
        let c = s.get_char(q);
        if !('0' <= c && c <= '9') {
            assert(xd[q - k] == s@[q as int]);
            assert(!is_digit(xd[q - k]));
            assert(!all_digits(xd));
            return false;
        }
        q += 1;
    }
    assert forall|j: int| 0 <= j < xd.len() implies #[trigger] is_digit(xd[j]) by {
        assert(xd[j] == s@[k + j]);
    }
    true
}

} // verus!
