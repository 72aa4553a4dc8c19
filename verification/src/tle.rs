//! Two-line element set (TLE) parsing: the column layout of the standard
//! 69-character NORAD element lines, their modulo-10 checksums, and the
//! integer fields. Reference: <https://celestrak.org/NORAD/documentation/tle-fmt.php>
//!
//! Element lines are ASCII by definition of the format, and every function
//! here works on their bytes. The fractional fields (angles, mean motion,
//! drag terms, the fractional epoch day) are handed back as their trimmed
//! column text, ready for a decimal-number parser.

use vstd::prelude::*;

use crate::error::OrbitError;
use vstd::string::StringSliceAdditionalSpecFns;

verus! {

/// Whether `b` is ASCII whitespace (tab, line feed, vertical tab, form
/// feed, carriage return, space).
pub open spec fn is_space(b: u8) -> bool {
    b == 32 || (9 <= b && b <= 13)
}

/// Whether the two bytes `b0 b1` are the UTF-8 encoding of a whitespace
/// character: U+0085 or U+00A0.
pub open spec fn is_space2(b0: u8, b1: u8) -> bool {
    b0 == 0xC2 && (b1 == 0x85 || b1 == 0xA0)
}

/// Whether the three bytes `b0 b1 b2` are the UTF-8 encoding of a whitespace
/// character: U+1680, U+2000..U+200A, U+2028, U+2029, U+202F, U+205F or
/// U+3000.
pub open spec fn is_space3(b0: u8, b1: u8, b2: u8) -> bool {
    ||| b0 == 0xE1 && b1 == 0x9A && b2 == 0x80
    ||| b0 == 0xE2 && b1 == 0x80 && ((0x80 <= b2 && b2 <= 0x8A) || b2 == 0xA8 || b2 == 0xA9
        || b2 == 0xAF)
    ||| b0 == 0xE2 && b1 == 0x81 && b2 == 0x9F
    ||| b0 == 0xE3 && b1 == 0x80 && b2 == 0x80
}

/// The byte length of the whitespace character `s` starts with, or 0 when it
/// does not start with one (the Unicode `White_Space` characters, in UTF-8).
pub open spec fn leading_space_len(s: Seq<u8>) -> int {
    if s.len() >= 1 && is_space(s[0]) {
        1
    } else if s.len() >= 2 && is_space2(s[0], s[1]) {
        2
    } else if s.len() >= 3 && is_space3(s[0], s[1], s[2]) {
        3
    } else {
        0
    }
}

/// The byte length of the whitespace character `s` ends with, or 0 when it
/// does not end with one.
pub open spec fn trailing_space_len(s: Seq<u8>) -> int {
    let n = s.len() as int;
    if n >= 1 && is_space(s[n - 1]) {
        1
    } else if n >= 2 && is_space2(s[n - 2], s[n - 1]) {
        2
    } else if n >= 3 && is_space3(s[n - 3], s[n - 2], s[n - 1]) {
        3
    } else {
        0
    }
}

/// `s` without its leading whitespace.
pub open spec fn trim_start(s: Seq<u8>) -> Seq<u8>
    decreases s.len(),
{
    if leading_space_len(s) > 0 {
        trim_start(s.skip(leading_space_len(s)))
    } else {
        s
    }
}

/// `s` without its trailing whitespace.
pub open spec fn trim_end(s: Seq<u8>) -> Seq<u8>
    decreases s.len(),
{
    if trailing_space_len(s) > 0 {
        trim_end(s.take(s.len() - trailing_space_len(s)))
    } else {
        s
    }
}

/// `s` without leading and trailing whitespace.
pub open spec fn trim(s: Seq<u8>) -> Seq<u8> {
    trim_end(trim_start(s))
}

/// The trimmed text of columns `a .. b` of a line.
pub open spec fn column(line: Seq<u8>, a: int, b: int) -> Seq<u8> {
    trim(line.subrange(a, b))
}

/// Whether `b` is an ASCII decimal digit.
pub open spec fn is_digit(b: u8) -> bool {
    48 <= b && b <= 57
}

/// The value of a string of decimal digits.
pub open spec fn digits_value(s: Seq<u8>) -> nat
    decreases s.len(),
{
    if s.len() == 0 {
        0
    } else {
        digits_value(s.drop_last()) * 10 + (s.last() - 48) as nat
    }
}

/// The unsigned integer written in `s`: an optional `+` followed by at least
/// one decimal digit, no larger than `u32::MAX`.
pub open spec fn parse_u32(s: Seq<u8>) -> Option<u32> {
    if unsigned_digits(s).len() == 0 || !all_digits(unsigned_digits(s)) {
        None
    } else if digits_value(unsigned_digits(s)) > u32::MAX {
        None
    } else {
        Some(digits_value(unsigned_digits(s)) as u32)
    }
}

/// `s` without a leading `+` sign.
pub open spec fn unsigned_digits(s: Seq<u8>) -> Seq<u8> {
    if s.len() > 0 && s[0] == 43 {
        s.drop_first()
    } else {
        s
    }
}

/// Whether every byte of `d` is a decimal digit.
pub open spec fn all_digits(d: Seq<u8>) -> bool {
    forall|i: int| 0 <= i < d.len() ==> is_digit(#[trigger] d[i])
}

/// The checksum contribution of one byte: its value for a digit, 1 for a
/// minus sign, 0 otherwise.
pub open spec fn checksum_weight(b: u8) -> nat {
    if is_digit(b) {
        (b - 48) as nat
    } else if b == 45 {
        1
    } else {
        0
    }
}

/// The sum of the checksum weights of the first `n` bytes of `s`.
pub open spec fn checksum_sum(s: Seq<u8>, n: nat) -> nat
    decreases n,
{
    if n == 0 {
        0
    } else {
        checksum_sum(s, (n - 1) as nat) + checksum_weight(s[n - 1])
    }
}

/// The checksum computed over the first 68 bytes of an element line.
pub open spec fn computed_checksum(line: Seq<u8>) -> u8 {
    (checksum_sum(line, 68) % 10) as u8
}

/// The checksum stated in column 69 of an element line.
pub open spec fn stated_checksum(line: Seq<u8>) -> u8 {
    (line[68] - 48) as u8
}

/// The outcome of the checksum test of one element line.
pub open spec fn checksum_check(line: Seq<u8>) -> Result<(), OrbitError> {
    if computed_checksum(line) != stated_checksum(line) {
        Err(OrbitError::ChecksumMismatch(computed_checksum(line), stated_checksum(line)))
    } else {
        Ok(())
    }
}

proof fn lemma_checksum_sum_prefix(s: Seq<u8>, t: Seq<u8>, n: nat)
    requires
        n <= s.len(),
        n <= t.len(),
        forall|i: int| 0 <= i < n ==> s[i] == t[i],
    ensures
        checksum_sum(s, n) == checksum_sum(t, n),
    decreases n,
{
    if n > 0 {
        lemma_checksum_sum_prefix(s, t, (n - 1) as nat);
    }
}

proof fn lemma_checksum_sum_update(line: Seq<u8>, i: int, a: u8, n: nat)
    requires
        0 <= i < n <= line.len(),
    ensures
        checksum_sum(line.update(i, a), n) + checksum_weight(line[i]) == checksum_sum(line, n)
            + checksum_weight(a),
    decreases n,
{
    let t = line.update(i, a);
    if i == n - 1 {
        lemma_checksum_sum_prefix(line, t, (n - 1) as nat);
    } else {
        lemma_checksum_sum_update(line, i, a, (n - 1) as nat);
    }
}

/// Law (every byte of columns 1-68 counts): changing one byte among the
/// first 68 of an element line moves the computed checksum by the new byte's
/// weight minus the old one's, modulo 10, where a digit weighs its value, a
/// minus sign 1 and every other byte 0.
pub proof fn lemma_checksum_counts_byte(line: Seq<u8>, i: int, a: u8)
    requires
        line.len() >= 69,
        0 <= i < 68,
    ensures
        computed_checksum(line.update(i, a)) as int == (computed_checksum(line) as int + 10
            + (if 48 <= a && a <= 57 {
            a - 48
        } else if a == 45 {
            1int
        } else {
            0int
        }) - (if 48 <= line[i] && line[i] <= 57 {
            line[i] - 48
        } else if line[i] == 45 {
            1int
        } else {
            0int
        })) % 10,
{
    lemma_checksum_sum_update(line, i, a, 68);
    let s = checksum_sum(line, 68) as int;
    let t = checksum_sum(line.update(i, a), 68) as int;
    let wa = checksum_weight(a) as int;
    let wl = checksum_weight(line[i]) as int;
    assert(0 <= wa <= 9 && 0 <= wl <= 9);
    assert(t % 10 == (s % 10 + 10 + wa - wl) % 10) by (nonlinear_arith)
        requires
            t + wl == s + wa,
            0 <= t,
            0 <= s,
    {
        vstd::arithmetic::div_mod::lemma_fundamental_div_mod(s, 10);
        vstd::arithmetic::div_mod::lemma_mod_add_multiples_vanish(s % 10 + 10 + wa - wl, 10);
        vstd::arithmetic::div_mod::lemma_mod_multiples_vanish(s / 10 - 1, s % 10 + 10 + wa - wl, 10);
    }
}

/// Law (columns 69 onwards do not count): changing any byte from column 69
/// on leaves the computed checksum unchanged.
pub proof fn lemma_checksum_ignores_tail(line: Seq<u8>, i: int, a: u8)
    requires
        line.len() >= 69,
        68 <= i < line.len(),
    ensures
        computed_checksum(line.update(i, a)) == computed_checksum(line),
{
    lemma_checksum_sum_prefix(line, line.update(i, a), 68);
}

proof fn lemma_checksum_sum_blank(line: Seq<u8>, n: nat)
    requires
        n <= line.len(),
        forall|k: int| 0 <= k < n ==> !(48 <= #[trigger] line[k] <= 57) && line[k] != 45,
    ensures
        checksum_sum(line, n) == 0,
    decreases n,
{
    if n > 0 {
        lemma_checksum_sum_blank(line, (n - 1) as nat);
    }
}

/// Law (starting point): a line whose first 68 bytes hold no digit and no
/// minus sign has computed checksum 0.
pub proof fn lemma_checksum_of_blank(line: Seq<u8>)
    requires
        line.len() >= 69,
        forall|k: int| 0 <= k < 68 ==> !(48 <= #[trigger] line[k] <= 57) && line[k] != 45,
    ensures
        computed_checksum(line) == 0,
{
    lemma_checksum_sum_blank(line, 68);
}

/// Law: on a line whose checksum is correct, replacing the check digit by any
/// other digit makes the checksum test fail, reporting the replaced digit as
/// computed and the new one as stated.
pub proof fn lemma_wrong_check_digit_rejected(line: Seq<u8>, d: u8)
    requires
        line.len() >= 69,
        line[68] >= 48,
        checksum_check(line) is Ok,
        is_digit(d),
        d != line[68],
    ensures
        checksum_check(line.update(68, d)) == Err::<(), OrbitError>(
            OrbitError::ChecksumMismatch((line[68] - 48) as u8, (d - 48) as u8),
        ),
{
    let t = line.update(68, d);
    lemma_checksum_sum_prefix(line, t, 68);
}

/// The outcome of the structural checks on a pair of element lines, in the
/// order: length of line 1, length of line 2, checksum of line 1, checksum of
/// line 2. Lines may be longer than 69 bytes (verification sets append
/// fields); only the first 69 are read.
pub open spec fn lines_check(line1: Seq<u8>, line2: Seq<u8>) -> Result<(), OrbitError> {
    if line1.len() < 69 {
        Err(OrbitError::InvalidLineLength(line1.len() as usize))
    } else if line2.len() < 69 {
        Err(OrbitError::InvalidLineLength(line2.len() as usize))
    } else if checksum_check(line1) is Err {
        checksum_check(line1)
    } else {
        checksum_check(line2)
    }
}

/// Whether column 69 of a line holds a byte at or above `'0'`, so that the
/// stated check digit can be read as `byte - '0'`.
pub open spec fn checksum_readable(line: Seq<u8>) -> bool {
    line.len() >= 69 && line[68] >= 48
}

/// Check the modulo-10 checksum of an element line: digits count their value,
/// a minus sign counts 1, everything else 0, summed over the first 68 bytes
/// and compared with the digit in column 69.
pub fn check_checksum(line: &[u8]) -> (r: Result<(), OrbitError>)
    requires
        checksum_readable(line@),
    ensures
        r == checksum_check(line@),
{
    let mut sum: u32 = 0;
    let mut i: usize = 0;
    while i < 68
        invariant
            i <= 68,
            68 < line@.len(),
            sum == checksum_sum(line@, i as nat),
            sum <= 9 * i,
        decreases 68 - i,
    {
        let ch = line[i];
        if 48u8 <= ch && ch <= 57u8 {
            sum = sum + (ch - 48u8) as u32;
        } else if ch == 45u8 {
            sum = sum + 1;
        }
        i = i + 1;
    }
    let expected: u8 = line[68] - 48u8;
    let computed: u8 = (sum % 10) as u8;
    if computed != expected {
        Err(OrbitError::ChecksumMismatch(computed, expected))
    } else {
        Ok(())
    }
}


fn is_space_byte(b: u8) -> (r: bool)
    ensures
        r == is_space(b),
{
    b == 32u8 || (9u8 <= b && b <= 13u8)
}

fn is_space2_bytes(b0: u8, b1: u8) -> (r: bool)
    ensures
        r == is_space2(b0, b1),
{
    b0 == 0xC2u8 && (b1 == 0x85u8 || b1 == 0xA0u8)
}

fn is_space3_bytes(b0: u8, b1: u8, b2: u8) -> (r: bool)
    ensures
        r == is_space3(b0, b1, b2),
{
    (b0 == 0xE1u8 && b1 == 0x9Au8 && b2 == 0x80u8) || (b0 == 0xE2u8 && b1 == 0x80u8 && ((0x80u8
        <= b2 && b2 <= 0x8Au8) || b2 == 0xA8u8 || b2 == 0xA9u8 || b2 == 0xAFu8)) || (b0 == 0xE2u8
        && b1 == 0x81u8 && b2 == 0x9Fu8) || (b0 == 0xE3u8 && b1 == 0x80u8 && b2 == 0x80u8)
}

/// The byte length of the whitespace character `s[i..j]` starts with, or 0.
fn leading_space_at(s: &[u8], i: usize, j: usize) -> (n: usize)
    requires
        i <= j <= s@.len(),
    ensures
        n == leading_space_len(s@.subrange(i as int, j as int)),
{
    let ghost t = s@.subrange(i as int, j as int);
    if j - i >= 1 && is_space_byte(s[i]) {
        assert(t[0] == s@[i as int]);
        1
    } else if j - i >= 2 && is_space2_bytes(s[i], s[i + 1]) {
        assert(t[0] == s@[i as int] && t[1] == s@[i + 1]);
        2
    } else if j - i >= 3 && is_space3_bytes(s[i], s[i + 1], s[i + 2]) {
        assert(t[0] == s@[i as int] && t[1] == s@[i + 1] && t[2] == s@[i + 2]);
        3
    } else {
        proof {
            if j - i >= 1 {
                assert(t[0] == s@[i as int]);
            }
            if j - i >= 2 {
                assert(t[1] == s@[i + 1]);
            }
            if j - i >= 3 {
                assert(t[2] == s@[i + 2]);
            }
        }
        0
    }
}

/// The byte length of the whitespace character `s[i..j]` ends with, or 0.
fn trailing_space_at(s: &[u8], i: usize, j: usize) -> (n: usize)
    requires
        i <= j <= s@.len(),
    ensures
        n == trailing_space_len(s@.subrange(i as int, j as int)),
{
    let ghost t = s@.subrange(i as int, j as int);
    let ghost m = t.len() as int;
    if j - i >= 1 && is_space_byte(s[j - 1]) {
        assert(t[m - 1] == s@[j - 1]);
        1
    } else if j - i >= 2 && is_space2_bytes(s[j - 2], s[j - 1]) {
        assert(t[m - 2] == s@[j - 2] && t[m - 1] == s@[j - 1]);
        2
    } else if j - i >= 3 && is_space3_bytes(s[j - 3], s[j - 2], s[j - 1]) {
        assert(t[m - 3] == s@[j - 3] && t[m - 2] == s@[j - 2] && t[m - 1] == s@[j - 1]);
        3
    } else {
        proof {
            if j - i >= 1 {
                assert(t[m - 1] == s@[j - 1]);
            }
            if j - i >= 2 {
                assert(t[m - 2] == s@[j - 2]);
            }
            if j - i >= 3 {
                assert(t[m - 3] == s@[j - 3]);
            }
        }
        0
    }
}

/// The end `j` of the text of `s[i..b]` without its trailing whitespace.
pub fn trim_end_bound(s: &[u8], i: usize, b: usize) -> (j: usize)
    requires
        i <= b <= s@.len(),
    ensures
        i <= j <= b,
        s@.subrange(i as int, j as int) == trim_end(s@.subrange(i as int, b as int)),
{
    let ghost whole = s@.subrange(i as int, b as int);
    let mut j: usize = b;
    loop
        invariant
            i <= j <= b,
            b <= s@.len(),
            trim_end(whole) == trim_end(s@.subrange(i as int, j as int)),
            whole == s@.subrange(i as int, b as int),
        ensures
            i <= j <= b,
            trim_end(whole) == trim_end(s@.subrange(i as int, j as int)),
            trailing_space_len(s@.subrange(i as int, j as int)) == 0,
        decreases j - i,
    {
        let k = trailing_space_at(s, i, j);
        if k == 0 {
            break;
        }
        assert(s@.subrange(i as int, j as int).take(j - i - k) =~= s@.subrange(i as int, j - k));
        j = j - k;
    }
    j
}

/// The bounds `(i, j)` of the trimmed text of `s[a..b]`: `s[i..j]` is
/// `s[a..b]` without its leading and trailing whitespace.
pub fn trim_bounds(s: &[u8], a: usize, b: usize) -> (r: (usize, usize))
    requires
        a <= b <= s@.len(),
    ensures
        a <= r.0 <= r.1 <= b,
        s@.subrange(r.0 as int, r.1 as int) == trim(s@.subrange(a as int, b as int)),
{
    let mut i: usize = a;
    loop
        invariant
            a <= i <= b,
            b <= s@.len(),
            trim_start(s@.subrange(a as int, b as int)) == trim_start(s@.subrange(i as int, b as int)),
        ensures
            a <= i <= b,
            trim_start(s@.subrange(a as int, b as int)) == trim_start(s@.subrange(i as int, b as int)),
            leading_space_len(s@.subrange(i as int, b as int)) == 0,
        decreases b - i,
    {
        let k = leading_space_at(s, i, b);
        if k == 0 {
            break;
        }
        assert(s@.subrange(i as int, b as int).skip(k as int) =~= s@.subrange(i + k, b as int));
        i = i + k;
    }
    let ghost mid = s@.subrange(i as int, b as int);
    assert(trim_start(mid) == mid);
    assert(trim(s@.subrange(a as int, b as int)) == trim_end(mid));
    let j = trim_end_bound(s, i, b);
    assert(trim_end(mid) == s@.subrange(i as int, j as int));
    (i, j)
}

/// A copy of `s[a..b]`.
pub fn copy_range(s: &[u8], a: usize, b: usize) -> (v: Vec<u8>)
    requires
        a <= b <= s@.len(),
    ensures
        v@ == s@.subrange(a as int, b as int),
{
    let mut v: Vec<u8> = Vec::new();
    let mut k: usize = a;
    while k < b
        invariant
            a <= k <= b,
            b <= s@.len(),
            v@ == s@.subrange(a as int, k as int),
        decreases b - k,
    {
        v.push(s[k]);
        k = k + 1;
        assert(v@ =~= s@.subrange(a as int, k as int));
    }
    v
}

/// The trimmed text of `s[a..b]`, copied.
pub fn trimmed_column(s: &[u8], a: usize, b: usize) -> (v: Vec<u8>)
    requires
        a <= b <= s@.len(),
    ensures
        v@ == column(s@, a as int, b as int),
{
    let (i, j) = trim_bounds(s, a, b);
    copy_range(s, i, j)
}

proof fn lemma_digits_value_push(s: Seq<u8>, d: u8)
    ensures
        digits_value(s.push(d)) == digits_value(s) * 10 + (d - 48) as nat,
{
    assert(s.push(d).drop_last() =~= s);
}

/// Parse an unsigned integer column: an optional `+` followed by decimal
/// digits, rejecting empty text, any other byte, and values above
/// `u32::MAX`.
pub fn parse_u32_text(s: &[u8]) -> (r: Option<u32>)
    ensures
        r == parse_u32(s@),
{
    let n = s.len();
    let start: usize = if n > 0 && s[0] == 43u8 {
        1
    } else {
        0
    };
    let ghost d = unsigned_digits(s@);
    assert(d =~= s@.subrange(start as int, n as int));
    if start == n {
        return None;
    }
    let mut value: u32 = 0;
    let mut k: usize = start;
    while k < n
        invariant
            start <= k <= n,
            n == s@.len(),
            d == s@.subrange(start as int, n as int),
            d == unsigned_digits(s@),
            forall|i: int| start <= i < k ==> is_digit(#[trigger] s@[i]),
            value == digits_value(s@.subrange(start as int, k as int)),
        decreases n - k,
    {
        let ch = s[k];
        if !(48u8 <= ch && ch <= 57u8) {
            assert(d[k - start] == ch);
            assert(!is_digit(d[k - start]));
            return None;
        }
        proof {
            assert(s@.subrange(start as int, k + 1) =~= s@.subrange(start as int, k as int).push(ch));
            lemma_digits_value_push(s@.subrange(start as int, k as int), ch);
        }
        let digit: u32 = (ch - 48u8) as u32;
        let next = match value.checked_mul(10) {
            Some(t) => t.checked_add(digit),
            None => None,
        };
        match next {
            Some(v) => {
                value = v;
            },
            None => {
                proof {
                    lemma_digits_value_monotone(s@.subrange(start as int, n as int), k + 1 - start);
                    assert(s@.subrange(start as int, n as int).take(k + 1 - start) =~= s@.subrange(
                        start as int,
                        k + 1,
                    ));
                    assert(digits_value(s@.subrange(start as int, k + 1)) == value * 10 + digit);
                    assert(value * 10 + digit > u32::MAX);
                    assert(digits_value(d) > u32::MAX);
                }
                return None;
            },
        }
        k = k + 1;
    }
    Some(value)
}

proof fn lemma_digits_value_monotone(s: Seq<u8>, m: int)
    requires
        0 <= m <= s.len(),
    ensures
        digits_value(s.take(m)) <= digits_value(s),
    decreases s.len() - m,
{
    if m < s.len() {
        lemma_digits_value_monotone(s, m + 1);
        assert(s.take(m + 1).drop_last() =~= s.take(m));
    } else {
        assert(s.take(m) =~= s);
    }
}

/// The four-digit year of a two-digit TLE epoch year: 57..99 are 1957..1999,
/// 00..56 are 2000..2056.
pub open spec fn full_year(yy: u32) -> int {
    if yy < 57 {
        2000 + yy
    } else {
        1900 + yy
    }
}

/// Expand a two-digit epoch year to four digits (57..99 -> 19xx, else 20xx).
pub fn epoch_year(yy: u32) -> (y: u32)
    requires
        full_year(yy) <= u32::MAX,
    ensures
        y == full_year(yy),
{
    if yy < 57 {
        2000 + yy
    } else {
        1900 + yy
    }
}

/// Whether `y` is a Gregorian leap year.
pub open spec fn leap(y: int) -> bool {
    (y % 4 == 0 && y % 100 != 0) || y % 400 == 0
}

/// Whether `y` is a Gregorian leap year.
pub fn is_leap(y: u32) -> (r: bool)
    ensures
        r == leap(y as int),
{
    (y % 4 == 0 && y % 100 != 0) || y % 400 == 0
}

/// The number of days in year `y`.
pub open spec fn year_days(y: int) -> int {
    if leap(y) {
        366
    } else {
        365
    }
}

/// Days from the start of 2000 to the start of year `y` (negative before 2000).
pub open spec fn days_from_2000(y: int) -> int
    decreases (if y >= 2000 { y - 2000 } else { 2000 - y }),
{
    if y == 2000 {
        0
    } else if y > 2000 {
        days_from_2000(y - 1) + year_days(y - 1)
    } else {
        days_from_2000(y + 1) - year_days(y)
    }
}

/// Law: consecutive year starts are one year length apart, on both sides of
/// 2000.
pub proof fn lemma_days_from_2000_step(y: int)
    ensures
        days_from_2000(y + 1) == days_from_2000(y) + year_days(y),
{
    if y >= 2000 {
    } else {
        assert(days_from_2000(y) == days_from_2000(y + 1) - year_days(y));
    }
}

proof fn lemma_days_bound(y: int)
    ensures
        y >= 2000 ==> 0 <= days_from_2000(y) <= 366 * (y - 2000),
        y < 2000 ==> -366 * (2000 - y) <= days_from_2000(y) <= 0,
    decreases (if y >= 2000 { y - 2000 } else { 2000 - y }),
{
    if y > 2000 {
        lemma_days_bound(y - 1);
    } else if y < 2000 {
        lemma_days_bound(y + 1);
    }
}

/// Days from 2000-01-01 to January 1 of `year`, counting leap years; the
/// modified Julian date of January 1 of `year` is `51544 + days`.
pub fn days_from_2000_to(year: u32) -> (d: i64)
    ensures
        d == days_from_2000(year as int),
{
    proof {
        lemma_days_bound(year as int);
    }
    if year >= 2000 {
        let mut d: i64 = 0;
        let mut y: u32 = 2000;
        while y < year
            invariant
                2000 <= y <= year,
                d == days_from_2000(y as int),
                0 <= d <= 366 * (y - 2000),
            decreases year - y,
        {
            proof {
                lemma_days_from_2000_step(y as int);
            }
            d = d + if is_leap(y) {
                366
            } else {
                365
            };
            y = y + 1;
        }
        d
    } else {
        let mut d: i64 = 0;
        let mut y: u32 = year;
        proof {
            lemma_days_bound(year as int);
        }
        while y < 2000
            invariant
                year <= y <= 2000,
                d == days_from_2000(year as int) - days_from_2000(y as int),
                -366 * (y - year) <= d <= 0,
            decreases 2000 - y,
        {
            proof {
                lemma_days_from_2000_step(y as int);
            }
            d = d - if is_leap(y) {
                366
            } else {
                365
            };
            y = y + 1;
        }
        d
    }
}


/// The trimmed column texts of an element-line pair, in the order the fields
/// appear on the lines. Integer fields are read with `parse_u32_text`, the
/// exponent fields are rewritten by `exp_field_text`, and the rest are plain
/// decimal numbers.
#[derive(Debug, Clone)]
pub struct TleColumns {
    /// Line 1, columns 3-7: NORAD catalog number.
    pub satellite_number: Vec<u8>,
    /// Line 1, columns 10-17: international designator.
    pub international_designator: Vec<u8>,
    /// Line 1, columns 19-32: the whole epoch field.
    pub epoch: Vec<u8>,
    /// The first two bytes of the epoch field, trimmed: the two-digit year
    /// (empty when the epoch field is shorter than two bytes).
    pub epoch_year: Vec<u8>,
    /// The rest of the epoch field, trimmed: fractional day of year (empty
    /// when the epoch field is shorter than two bytes).
    pub epoch_day: Vec<u8>,
    /// Line 1, columns 34-43: first derivative of mean motion.
    pub mean_motion_dot: Vec<u8>,
    /// Line 1, columns 45-52: second derivative of mean motion (exponent form).
    pub mean_motion_ddot: Vec<u8>,
    /// Line 1, columns 54-61: BSTAR drag term (exponent form).
    pub bstar: Vec<u8>,
    /// Line 1, columns 65-68: element set number.
    pub element_set_number: Vec<u8>,
    /// Line 2, columns 9-16: inclination, degrees.
    pub inclination: Vec<u8>,
    /// Line 2, columns 18-25: right ascension of the ascending node, degrees.
    pub raan: Vec<u8>,
    /// Line 2, columns 27-33: eccentricity digits (implied leading decimal point).
    pub eccentricity: Vec<u8>,
    /// Line 2, columns 35-42: argument of perigee, degrees.
    pub arg_perigee: Vec<u8>,
    /// Line 2, columns 44-51: mean anomaly, degrees.
    pub mean_anomaly: Vec<u8>,
    /// Line 2, columns 53-63: mean motion, revolutions per day.
    pub mean_motion: Vec<u8>,
    /// Line 2, columns 64-68: revolution number at epoch.
    pub rev_number_at_epoch: Vec<u8>,
}

/// Whether every check digit that scanning a line pair reads (line 1's when
/// present, line 2's when line 1's checksum holds) is a byte at or above
/// `'0'`.
pub open spec fn scan_readable(line1: Seq<u8>, line2: Seq<u8>) -> bool {
    &&& line1.len() >= 69 ==> line1[68] >= 48
    &&& (line1.len() >= 69 && line2.len() >= 69 && checksum_check(line1) is Ok) ==> line2[68] >= 48
}

/// Whether `c` holds the column texts of the line pair `line1`, `line2`.
pub open spec fn columns_of(c: TleColumns, line1: Seq<u8>, line2: Seq<u8>) -> bool {
    let epoch = column(line1, 18, 32);
    &&& c.satellite_number@ == column(line1, 2, 7)
    &&& c.international_designator@ == column(line1, 9, 17)
    &&& c.epoch@ == epoch
    &&& c.epoch_year@ == (if epoch.len() >= 2 {
        trim(epoch.take(2))
    } else {
        seq![]
    })
    &&& c.epoch_day@ == (if epoch.len() >= 2 {
        trim(epoch.skip(2))
    } else {
        seq![]
    })
    &&& c.mean_motion_dot@ == column(line1, 33, 43)
    &&& c.mean_motion_ddot@ == column(line1, 44, 52)
    &&& c.bstar@ == column(line1, 53, 61)
    &&& c.element_set_number@ == column(line1, 64, 68)
    &&& c.inclination@ == column(line2, 8, 16)
    &&& c.raan@ == column(line2, 17, 25)
    &&& c.eccentricity@ == column(line2, 26, 33)
    &&& c.arg_perigee@ == column(line2, 34, 42)
    &&& c.mean_anomaly@ == column(line2, 43, 51)
    &&& c.mean_motion@ == column(line2, 52, 63)
    &&& c.rev_number_at_epoch@ == column(line2, 63, 68)
}

/// Check an element-line pair (lengths, then checksums) and cut it into its
/// trimmed column texts. Only the first 69 bytes of each line are read.
pub fn scan_lines(line1: &[u8], line2: &[u8]) -> (r: Result<TleColumns, OrbitError>)
    requires
        scan_readable(line1@, line2@),
    ensures
        match lines_check(line1@, line2@) {
            Ok(_) => r matches Ok(c) && columns_of(c, line1@, line2@),
            Err(e) => r matches Err(e2) && e2 == e,
        },
{
    if line1.len() < 69 {
        return Err(OrbitError::InvalidLineLength(line1.len()));
    }
    if line2.len() < 69 {
        return Err(OrbitError::InvalidLineLength(line2.len()));
    }
    match check_checksum(line1) {
        Ok(()) => {},
        Err(e) => return Err(e),
    }
    match check_checksum(line2) {
        Ok(()) => {},
        Err(e) => return Err(e),
    }
    let epoch = trimmed_column(line1, 18, 32);
    let (epoch_year, epoch_day) = if epoch.len() >= 2 {
        proof {
            assert(epoch@.subrange(0, 2) =~= epoch@.take(2));
            assert(epoch@.subrange(2, epoch@.len() as int) =~= epoch@.skip(2));
        }
        (trimmed_column(&epoch, 0, 2), trimmed_column(&epoch, 2, epoch.len()))
    } else {
        (Vec::new(), Vec::new())
    };
    Ok(
        TleColumns {
            satellite_number: trimmed_column(line1, 2, 7),
            international_designator: trimmed_column(line1, 9, 17),
            epoch,
            epoch_year,
            epoch_day,
            mean_motion_dot: trimmed_column(line1, 33, 43),
            mean_motion_ddot: trimmed_column(line1, 44, 52),
            bstar: trimmed_column(line1, 53, 61),
            element_set_number: trimmed_column(line1, 64, 68),
            inclination: trimmed_column(line2, 8, 16),
            raan: trimmed_column(line2, 17, 25),
            eccentricity: trimmed_column(line2, 26, 33),
            arg_perigee: trimmed_column(line2, 34, 42),
            mean_anomaly: trimmed_column(line2, 43, 51),
            mean_motion: trimmed_column(line2, 52, 63),
            rev_number_at_epoch: trimmed_column(line2, 63, 68),
        },
    )
}


/// Law (column layout): a scan's field texts are the trimmed bytes of fixed
/// column ranges (0-indexed, end exclusive) of the standard NORAD layout:
/// line 1 bytes 2..7 (catalog number), 9..17 (international designator),
/// 18..32 (epoch), 33..43 (first derivative of mean motion), 44..52 (second
/// derivative), 53..61 (BSTAR) and 64..68 (element set number); line 2 bytes
/// 8..16 (inclination), 17..25 (right ascension of the node), 26..33
/// (eccentricity), 34..42 (argument of perigee), 43..51 (mean anomaly),
/// 52..63 (mean motion) and 63..68 (revolution number).
pub proof fn lemma_scan_column_ranges(c: TleColumns, line1: Seq<u8>, line2: Seq<u8>)
    requires
        line1.len() >= 69,
        line2.len() >= 69,
        columns_of(c, line1, line2),
    ensures
        c.satellite_number@ == trim(line1.subrange(2, 7)),
        c.international_designator@ == trim(line1.subrange(9, 17)),
        c.epoch@ == trim(line1.subrange(18, 32)),
        c.mean_motion_dot@ == trim(line1.subrange(33, 43)),
        c.mean_motion_ddot@ == trim(line1.subrange(44, 52)),
        c.bstar@ == trim(line1.subrange(53, 61)),
        c.element_set_number@ == trim(line1.subrange(64, 68)),
        c.inclination@ == trim(line2.subrange(8, 16)),
        c.raan@ == trim(line2.subrange(17, 25)),
        c.eccentricity@ == trim(line2.subrange(26, 33)),
        c.arg_perigee@ == trim(line2.subrange(34, 42)),
        c.mean_anomaly@ == trim(line2.subrange(43, 51)),
        c.mean_motion@ == trim(line2.subrange(52, 63)),
        c.rev_number_at_epoch@ == trim(line2.subrange(63, 68)),
{
}

/// Law (a known element set): scanning the ISS element lines of day 15 of
/// 2024 gives the argument of perigee `360.0000`, the mean anomaly
/// `130.3994`, the right ascension `208.9163` and the eccentricity digits
/// `0007652`.
pub proof fn lemma_scan_iss_columns(c: TleColumns, line1: Seq<u8>, line2: Seq<u8>)
    requires
        line1 == seq![49u8, 32u8, 50u8, 53u8, 53u8, 52u8, 52u8, 85u8, 32u8, 57u8, 56u8, 48u8, 54u8, 55u8, 65u8, 32u8, 32u8, 32u8, 50u8, 52u8, 48u8, 49u8, 53u8, 46u8, 53u8, 48u8, 48u8, 48u8, 48u8, 48u8, 48u8, 48u8, 32u8, 32u8, 46u8, 48u8, 48u8, 48u8, 49u8, 54u8, 55u8, 49u8, 55u8, 32u8, 32u8, 48u8, 48u8, 48u8, 48u8, 48u8, 45u8, 48u8, 32u8, 32u8, 49u8, 48u8, 50u8, 55u8, 48u8, 45u8, 51u8, 32u8, 48u8, 32u8, 32u8, 57u8, 48u8, 48u8, 52u8],
        line2 == seq![50u8, 32u8, 50u8, 53u8, 53u8, 52u8, 52u8, 32u8, 32u8, 53u8, 49u8, 46u8, 54u8, 52u8, 48u8, 48u8, 32u8, 50u8, 48u8, 56u8, 46u8, 57u8, 49u8, 54u8, 51u8, 32u8, 48u8, 48u8, 48u8, 55u8, 54u8, 53u8, 50u8, 32u8, 51u8, 54u8, 48u8, 46u8, 48u8, 48u8, 48u8, 48u8, 32u8, 49u8, 51u8, 48u8, 46u8, 51u8, 57u8, 57u8, 52u8, 32u8, 49u8, 53u8, 46u8, 52u8, 57u8, 56u8, 49u8, 53u8, 51u8, 48u8, 56u8, 32u8, 57u8, 48u8, 48u8, 48u8, 56u8],
        columns_of(c, line1, line2),
    ensures
        c.raan@ == seq![50u8, 48u8, 56u8, 46u8, 57u8, 49u8, 54u8, 51u8],
        c.eccentricity@ == seq![48u8, 48u8, 48u8, 55u8, 54u8, 53u8, 50u8],
        c.arg_perigee@ == seq![51u8, 54u8, 48u8, 46u8, 48u8, 48u8, 48u8, 48u8],
        c.mean_anomaly@ == seq![49u8, 51u8, 48u8, 46u8, 51u8, 57u8, 57u8, 52u8],
{
    assert(line2.subrange(17, 25) =~= seq![50u8, 48u8, 56u8, 46u8, 57u8, 49u8, 54u8, 51u8]);
    assert(line2.subrange(26, 33) =~= seq![48u8, 48u8, 48u8, 55u8, 54u8, 53u8, 50u8]);
    assert(line2.subrange(34, 42) =~= seq![51u8, 54u8, 48u8, 46u8, 48u8, 48u8, 48u8, 48u8]);
    assert(line2.subrange(43, 51) =~= seq![49u8, 51u8, 48u8, 46u8, 51u8, 57u8, 57u8, 52u8]);
}


/// Whether `b` is `+` or `-`.
pub open spec fn is_sign(b: u8) -> bool {
    b == 43 || b == 45
}

/// Whether an exponent-form column denotes zero: it is empty or made only
/// of `0`, space, `-` and `+`.
pub open spec fn zero_exp_field(s: Seq<u8>) -> bool {
    forall|i: int| 0 <= i < s.len() ==> (#[trigger] s[i] == 48 || s[i] == 32 || is_sign(s[i]))
}

/// `s` without its leading run of `+` and `-` signs.
pub open spec fn strip_signs(s: Seq<u8>) -> Seq<u8>
    decreases s.len(),
{
    if s.len() > 0 && is_sign(s[0]) {
        strip_signs(s.drop_first())
    } else {
        s
    }
}

/// The index of the last `+` or `-` in `d`, or -1 when there is none.
pub open spec fn last_sign(d: Seq<u8>) -> int
    decreases d.len(),
{
    if d.len() == 0 {
        -1
    } else if is_sign(d.last()) {
        d.len() - 1
    } else {
        last_sign(d.drop_last())
    }
}

/// The decimal-number text an exponent-form column stands for. The columns
/// omit the leading `0.` and the `e`: `" 12345-6"` is `0.12345e-6`, and
/// `"-11606-4"` is `-0.11606e-4`. A column of only zeros, blanks and signs
/// stands for `0`.
pub open spec fn exp_field_number(s: Seq<u8>) -> Seq<u8> {
    if zero_exp_field(s) {
        seq![48u8]
    } else {
        let sign: Seq<u8> = if s[0] == 45 {
            seq![45u8]
        } else {
            seq![]
        };
        let digits = trim(strip_signs(s));
        let i = last_sign(digits);
        let mantissa = if i >= 0 {
            digits.take(i)
        } else {
            digits
        };
        let exponent = if i >= 0 {
            digits.skip(i)
        } else {
            seq![]
        };
        sign + seq![48u8, 46u8] + mantissa + seq![101u8] + exponent
    }
}

fn is_sign_byte(b: u8) -> (r: bool)
    ensures
        r == is_sign(b),
{
    b == 43u8 || b == 45u8
}

proof fn lemma_last_sign_step(s: Seq<u8>, a: int, j: int, b: int)
    requires
        0 <= a < j <= b <= s.len(),
        !is_sign(s[j - 1]),
        last_sign(s.subrange(a, b)) == last_sign(s.subrange(a, j)),
    ensures
        last_sign(s.subrange(a, b)) == last_sign(s.subrange(a, j - 1)),
{
    assert(s.subrange(a, j).drop_last() =~= s.subrange(a, j - 1));
}

/// Rewrite a trimmed exponent-form column (mean-motion second derivative,
/// BSTAR) into ordinary decimal-number text by inserting the implied `0.`
/// and the `e` before the exponent.
pub fn exp_field_text(s: &[u8]) -> (t: Vec<u8>)
    ensures
        t@ == exp_field_number(s@),
{
    let n = s.len();
    let mut k: usize = 0;
    let mut zero = true;
    while k < n
        invariant
            k <= n,
            n == s@.len(),
            zero == (forall|i: int|
                0 <= i < k ==> (#[trigger] s@[i] == 48 || s@[i] == 32 || is_sign(s@[i]))),
        decreases n - k,
    {
        let c = s[k];
        if !(c == 48u8 || c == 32u8 || is_sign_byte(c)) {
            zero = false;
        }
        k = k + 1;
    }
    if zero {
        let mut t: Vec<u8> = Vec::new();
        t.push(48u8);
        assert(t@ =~= seq![48u8]);
        return t;
    }
    // Skip the leading signs, then trim.
    let mut i: usize = 0;
    assert(s@.subrange(0, n as int) =~= s@);
    while i < n && is_sign_byte(s[i])
        invariant
            i <= n,
            n == s@.len(),
            strip_signs(s@) == strip_signs(s@.subrange(i as int, n as int)),
        decreases n - i,
    {
        assert(s@.subrange(i as int, n as int).drop_first() =~= s@.subrange(i + 1, n as int));
        i = i + 1;
    }
    assert(s@.subrange(0, n as int) =~= s@);
    assert(strip_signs(s@) == s@.subrange(i as int, n as int));
    let (a, b) = trim_bounds(s, i, n);
    let ghost digits = s@.subrange(a as int, b as int);
    // The last sign starts the exponent.
    let mut j: usize = b;
    while j > a && !is_sign_byte(s[j - 1])
        invariant
            a <= j <= b,
            b <= n,
            n == s@.len(),
            last_sign(digits) == last_sign(s@.subrange(a as int, j as int)),
            digits == s@.subrange(a as int, b as int),
        decreases j - a,
    {
        proof {
            lemma_last_sign_step(s@, a as int, j as int, b as int);
        }
        j = j - 1;
    }
    let split: usize = if j > a {
        j - 1
    } else {
        b
    };
    proof {
        if j > a {
            assert(s@.subrange(a as int, j as int).last() == s@[j - 1]);
            assert(last_sign(digits) == j - 1 - a);
            assert(digits.take(j - 1 - a) =~= s@.subrange(a as int, split as int));
            assert(digits.skip(j - 1 - a) =~= s@.subrange(split as int, b as int));
        } else {
            assert(s@.subrange(a as int, j as int).len() == 0);
            assert(last_sign(digits) == -1);
            assert(s@.subrange(split as int, b as int) =~= seq![]);
        }
    }
    let mut t: Vec<u8> = Vec::new();
    if s[0] == 45u8 {
        t.push(45u8);
    }
    let ghost sign = t@;
    t.push(48u8);
    t.push(46u8);
    let mut m: usize = a;
    while m < split
        invariant
            a <= m <= split,
            split <= b,
            b <= s@.len(),
            t@ == sign + seq![48u8, 46u8] + s@.subrange(a as int, m as int),
        decreases split - m,
    {
        t.push(s[m]);
        m = m + 1;
        assert(t@ =~= sign + seq![48u8, 46u8] + s@.subrange(a as int, m as int));
    }
    t.push(101u8);
    let ghost head = t@;
    let mut e: usize = split;
    while e < b
        invariant
            split <= e <= b,
            b <= s@.len(),
            t@ == head + s@.subrange(split as int, e as int),
        decreases b - e,
    {
        t.push(s[e]);
        e = e + 1;
        assert(t@ =~= head + s@.subrange(split as int, e as int));
    }
    assert(t@ =~= exp_field_number(s@));
    t
}


/// Whether `line` begins with the byte `c` followed by a space.
pub open spec fn starts_with_tag(line: Seq<u8>, c: u8) -> bool {
    line.len() >= 2 && line[0] == c && line[1] == 32
}

/// Reading the first `n` lines of an element-set listing: the index pairs
/// `(line 1, line 2)` found so far, and the index of a line 1 still waiting
/// for its line 2. A line starting `"1 "` is held (replacing any held one); a
/// line starting `"2 "` completes a pair with the held line, if there is one;
/// comment lines (starting `#`) and all other lines are skipped.
pub open spec fn pairing(lines: Seq<Seq<u8>>, n: nat) -> (Seq<(int, int)>, Option<int>)
    decreases n,
{
    if n == 0 {
        (seq![], None)
    } else {
        let prev = pairing(lines, (n - 1) as nat);
        let l = lines[n - 1];
        if l.len() >= 1 && l[0] == 35 {
            prev
        } else if starts_with_tag(l, 49) {
            (prev.0, Some(n - 1))
        } else if starts_with_tag(l, 50) {
            match prev.1 {
                Some(h) => (prev.0.push((h, n - 1)), None),
                None => (prev.0, None),
            }
        } else {
            prev
        }
    }
}

/// The bytes of each line.
pub open spec fn line_bytes(lines: Seq<&str>) -> Seq<Seq<u8>> {
    lines.map_values(|l: &str| l.spec_bytes())
}

fn has_tag(line: &[u8], c: u8) -> (r: bool)
    ensures
        r == starts_with_tag(line@, c),
{
    line.len() >= 2 && line[0] == c && line[1] == 32u8
}

/// Pair up the line-1 / line-2 records of an element-set listing (such as the
/// verification set `SGP4-VER.TLE`), returning the index of each line 1 with
/// the index of the line 2 that follows it.
pub fn pair_element_lines(lines: &[&str]) -> (r: Vec<(usize, usize)>)
    ensures
        r@.len() == pairing(line_bytes(lines@), lines@.len() as nat).0.len(),
        forall|k: int|
            0 <= k < r@.len() ==> (#[trigger] r@[k]).0 as int == pairing(
                line_bytes(lines@),
                lines@.len() as nat,
            ).0[k].0 && r@[k].1 as int == pairing(line_bytes(lines@), lines@.len() as nat).0[k].1,
{
    let ghost all = line_bytes(lines@);
    let mut pairs: Vec<(usize, usize)> = Vec::new();
    let mut held: Option<usize> = None;
    let mut i: usize = 0;
    while i < lines.len()
        invariant
            i <= lines@.len(),
            all == line_bytes(lines@),
            pairs@.len() == pairing(all, i as nat).0.len(),
            forall|k: int|
                0 <= k < pairs@.len() ==> (#[trigger] pairs@[k]).0 as int == pairing(
                    all,
                    i as nat,
                ).0[k].0 && pairs@[k].1 as int == pairing(all, i as nat).0[k].1,
            match pairing(all, i as nat).1 {
                Some(h) => held == Some(h as usize) && 0 <= h < i,
                None => held is None,
            },
        decreases lines@.len() - i,
    {
        let line: &[u8] = lines[i].as_bytes();
        assert(line@ == all[i as int]);
        if line.len() >= 1 && line[0] == 35u8 {
        } else if has_tag(line, 49u8) {
            held = Some(i);
        } else if has_tag(line, 50u8) {
            match held {
                Some(h) => {
                    pairs.push((h, i));
                    held = None;
                },
                None => {},
            }
        }
        i = i + 1;
    }
    pairs
}


/// The line spans `(start, end)` of `s` from byte `i` on, where the current
/// line began at byte `start`: a line runs up to the next line feed (which
/// belongs to no line), and the text after the last line feed is a final
/// line when it is not empty.
pub open spec fn line_spans(s: Seq<u8>, start: int, i: int) -> Seq<(int, int)>
    decreases s.len() - i,
{
    if i >= s.len() {
        if start < s.len() {
            seq![(start, s.len() as int)]
        } else {
            seq![]
        }
    } else if s[i] == 10 {
        seq![(start, i)] + line_spans(s, i + 1, i + 1)
    } else {
        line_spans(s, start, i + 1)
    }
}

/// The lines of a text, as byte spans.
pub open spec fn text_lines(s: Seq<u8>) -> Seq<(int, int)> {
    line_spans(s, 0, 0)
}

/// Whether `got` is the span `line` of `s` with its trailing whitespace cut.
pub open spec fn trimmed_line(s: Seq<u8>, got: (usize, usize), line: (int, int)) -> bool {
    &&& got.0 == line.0
    &&& line.0 <= got.1 <= line.1
    &&& s.subrange(got.0 as int, got.1 as int) == trim_end(s.subrange(line.0, line.1))
}

/// Where the lines of an element set stand in its text: the optional name
/// line and the two element lines, each without trailing whitespace.
#[derive(Debug, Clone, Copy, PartialEq, Eq)]
pub struct ElementLineSpans {
    /// The satellite name line (line 0), when three lines were given.
    pub name: Option<(usize, usize)>,
    /// Element line 1.
    pub line1: (usize, usize),
    /// Element line 2.
    pub line2: (usize, usize),
}

proof fn lemma_line_spans_bounds(s: Seq<u8>, start: int, i: int)
    requires
        0 <= start <= i,
    ensures
        forall|k: int|
            0 <= k < line_spans(s, start, i).len() ==> start <= (#[trigger] line_spans(s, start, i)[k]).0
                <= line_spans(s, start, i)[k].1 <= s.len(),
    decreases s.len() - i,
{
    let ls = line_spans(s, start, i);
    if i < s.len() {
        if s[i] == 10 {
            lemma_line_spans_bounds(s, i + 1, i + 1);
            let rest = line_spans(s, i + 1, i + 1);
            assert forall|k: int| 0 <= k < ls.len() implies start <= (#[trigger] ls[k]).0 <= ls[k].1
                <= s.len() by {
                if k > 0 {
                    assert(ls[k] == rest[k - 1]);
                } else {
                    assert(ls[0] == (start, i));
                }
            }
        } else {
            lemma_line_spans_bounds(s, start, i + 1);
            assert(ls == line_spans(s, start, i + 1));
        }
    } else {
        if start < s.len() {
            assert(ls == seq![(start, s.len() as int)]);
        } else {
            assert(ls.len() == 0);
        }
    }
}

/// Split an element-set text into its lines and pick out the name line (when
/// there are three) and the two element lines, each with trailing whitespace
/// cut; any other number of lines is an error.
pub fn element_line_spans(text: &[u8]) -> (r: Result<ElementLineSpans, OrbitError>)
    ensures
        match r {
            Ok(e) => match e.name {
                None => text_lines(text@).len() == 2 && trimmed_line(
                    text@,
                    e.line1,
                    text_lines(text@)[0],
                ) && trimmed_line(text@, e.line2, text_lines(text@)[1]),
                Some(n) => text_lines(text@).len() == 3 && trimmed_line(
                    text@,
                    n,
                    text_lines(text@)[0],
                ) && trimmed_line(text@, e.line1, text_lines(text@)[1]) && trimmed_line(
                    text@,
                    e.line2,
                    text_lines(text@)[2],
                ),
            },
            Err(x) => text_lines(text@).len() != 2 && text_lines(text@).len() != 3 && x
                == OrbitError::InvalidLineCount(text_lines(text@).len() as usize),
        },
{
    let ghost all = text_lines(text@);
    proof {
        lemma_line_spans_bounds(text@, 0, 0);
    }
    let mut spans: Vec<(usize, usize)> = Vec::new();
    let ghost mut found: Seq<(int, int)> = seq![];
    let mut start: usize = 0;
    let mut i: usize = 0;
    while i < text.len()
        invariant
            start <= i <= text@.len(),
            all == text_lines(text@),
            all == found + line_spans(text@, start as int, i as int),
            spans@.len() == found.len(),
            forall|k: int|
                0 <= k < found.len() ==> (#[trigger] spans@[k]).0 == found[k].0 && spans@[k].1
                    == found[k].1,
        decreases text@.len() - i,
    {
        if text[i] == 10u8 {
            spans.push((start, i));
            proof {
                found = found.push((start as int, i as int));
                assert(found + line_spans(text@, i + 1, i + 1) =~= found.drop_last() + line_spans(
                    text@,
                    start as int,
                    i as int,
                ));
            }
            start = i + 1;
        }
        i = i + 1;
    }
    if start < text.len() {
        spans.push((start, text.len()));
        proof {
            found = found.push((start as int, text@.len() as int));
        }
    }
    assert(all =~= found);
    let n = spans.len();
    proof {
        if n >= 1 {
            assert(0 <= all[0].0 <= all[0].1 <= text@.len());
        }
        if n >= 2 {
            assert(0 <= all[1].0 <= all[1].1 <= text@.len());
        }
        if n >= 3 {
            assert(0 <= all[2].0 <= all[2].1 <= text@.len());
        }
    }
    if n == 2 {
        let l1 = (spans[0].0, trim_end_bound(text, spans[0].0, spans[0].1));
        let l2 = (spans[1].0, trim_end_bound(text, spans[1].0, spans[1].1));
        Ok(ElementLineSpans { name: None, line1: l1, line2: l2 })
    } else if n == 3 {
        let l0 = (spans[0].0, trim_end_bound(text, spans[0].0, spans[0].1));
        let l1 = (spans[1].0, trim_end_bound(text, spans[1].0, spans[1].1));
        let l2 = (spans[2].0, trim_end_bound(text, spans[2].0, spans[2].1));
        Ok(ElementLineSpans { name: Some(l0), line1: l1, line2: l2 })
    } else {
        Err(OrbitError::InvalidLineCount(n))
    }
}

} // verus!
