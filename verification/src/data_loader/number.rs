//! Decimal numbers as text.
//!
//! A number is written in plain notation: an optional sign, digits, and an
//! optional point followed by more digits, with at least one digit in all.
//! Its value is counted in millionths; digits beyond the sixth after the
//! point are dropped.

use crate::decimal::SCALE;
use vstd::prelude::*;
use vstd::string::StrSliceExecFns;

verus! {

/// Why a field of a record could not be read.
#[derive(Debug, Clone, Copy, PartialEq, Eq, Structural)]
pub enum ParseError {
    /// The text is not a number in plain decimal notation.
    InvalidNumber,
    /// The number does not fit the integer that holds the field.
    OutOfRange,
    /// The text is not a date in the expected format.
    InvalidDate,
}

pub open spec fn is_digit(c: char) -> bool {
    '0' <= c <= '9'
}

pub open spec fn digit_value(c: char) -> int {
    c as int - '0' as int
}

/// Whether the text consists of digits only. The empty text does.
pub open spec fn all_digits(s: Seq<char>) -> bool {
    forall|i: int| 0 <= i < s.len() ==> is_digit(#[trigger] s[i])
}

/// The number that the first `k` digits of `s` write.
pub open spec fn digits_value(s: Seq<char>, k: int) -> int
    decreases k,
{
    if k <= 0 {
        0
    } else {
        digits_value(s, k - 1) * 10 + digit_value(s[k - 1])
    }
}

/// Ten to the power of `n`.
pub open spec fn pow10(n: int) -> int
    decreases n,
{
    if n <= 0 {
        1
    } else {
        10 * pow10(n - 1)
    }
}

/// The millionths that the digits after the point stand for: the first six
/// count, and missing ones count as zero.
pub open spec fn millionths(fraction: Seq<char>) -> int {
    if fraction.len() >= 6 {
        digits_value(fraction, 6)
    } else {
        digits_value(fraction, fraction.len() as int) * pow10(6 - fraction.len())
    }
}

/// Where the first point among the first `k` characters stands, or `k`
/// where there is none.
pub open spec fn first_point(s: Seq<char>, k: int) -> int
    decreases k,
{
    if k <= 0 {
        0
    } else if first_point(s, k - 1) < k - 1 {
        first_point(s, k - 1)
    } else if s[k - 1] == '.' {
        k - 1
    } else {
        k
    }
}

/// The digits before the first point.
pub open spec fn whole_part(s: Seq<char>) -> Seq<char> {
    s.subrange(0, first_point(s, s.len() as int))
}

/// The characters after the first point; none where there is no point.
pub open spec fn fraction_part(s: Seq<char>) -> Seq<char> {
    let p = first_point(s, s.len() as int);
    if p < s.len() {
        s.subrange(p + 1, s.len() as int)
    } else {
        Seq::empty()
    }
}

/// The value in millionths of an unsigned number, or `None` where the text
/// is not one.
pub open spec fn magnitude(s: Seq<char>) -> Option<int> {
    let whole = whole_part(s);
    let fraction = fraction_part(s);
    if all_digits(whole) && all_digits(fraction) && whole.len() + fraction.len() > 0 {
        Some(digits_value(whole, whole.len() as int) * (SCALE as int) + millionths(fraction))
    } else {
        None
    }
}

/// The value in millionths of a number with an optional sign, or `None`
/// where the text is not one.
pub open spec fn decimal_value(s: Seq<char>) -> Option<int> {
    if s.len() > 0 && s[0] == '-' {
        match magnitude(s.subrange(1, s.len() as int)) {
            Some(m) => Some(-m),
            None => None,
        }
    } else if s.len() > 0 && s[0] == '+' {
        magnitude(s.subrange(1, s.len() as int))
    } else {
        magnitude(s)
    }
}

/// The characters of a text, one by one.
pub fn chars_of(text: &str) -> (chars: Vec<char>)
    ensures
        chars@ == text@,
{
    let n: usize = text.unicode_len();
    let mut chars: Vec<char> = Vec::new();
    let mut i: usize = 0;
    while i < n
        invariant
            n == text@.len(),
            i <= n,
            chars@ == text@.take(i as int),
        decreases n - i,
    {
        chars.push(text.get_char(i));
        assert(text@.take(i + 1) =~= text@.take(i as int).push(text@[i as int]));
        i += 1;
    }
    assert(text@.take(n as int) =~= text@);
    chars
}

/// The characters from `from` up to `to`.
pub fn copy_range(s: &[char], from: usize, to: usize) -> (part: Vec<char>)
    requires
        from <= to <= s.len(),
    ensures
        part@ == s@.subrange(from as int, to as int),
{
    let mut part: Vec<char> = Vec::new();
    let mut i: usize = from;
    while i < to
        invariant
            from <= i <= to <= s.len(),
            part@ == s@.subrange(from as int, i as int),
        decreases to - i,
    {
        part.push(s[i]);
        assert(s@.subrange(from as int, i + 1) =~= s@.subrange(from as int, i as int).push(
            s@[i as int],
        ));
        i += 1;
    }
    part
}

/// A point, once met, stays the first point of every longer stretch.
pub proof fn lemma_first_point_persists(s: Seq<char>, k: int, n: int)
    requires
        0 <= k <= n,
        first_point(s, k) < k,
    ensures
        first_point(s, n) == first_point(s, k),
    decreases n - k,
{
    if k < n {
        lemma_first_point_persists(s, k, n - 1);
    }
}

/// The position of the first point, or the length where there is none.
pub fn find_point(s: &[char]) -> (p: usize)
    ensures
        p == first_point(s@, s.len() as int),
        p <= s.len(),
{
    let mut i: usize = 0;
    while i < s.len()
        invariant
            i <= s.len(),
            first_point(s@, i as int) == i,
        decreases s.len() - i,
    {
        if s[i] == '.' {
            proof {
                assert(first_point(s@, i + 1) == i);
                lemma_first_point_persists(s@, i + 1, s.len() as int);
            }
            return i;
        }
        i += 1;
    }
    i
}

/// Whether the text consists of digits only.
pub fn check_digits(s: &[char]) -> (ok: bool)
    ensures
        ok == all_digits(s@),
{
    let mut i: usize = 0;
    while i < s.len()
        invariant
            i <= s.len(),
            forall|j: int| 0 <= j < i ==> is_digit(#[trigger] s@[j]),
        decreases s.len() - i,
    {
        let c: char = s[i];
        if !(c >= '0' && c <= '9') {
            assert(!is_digit(s@[i as int]));
            return false;
        }
        i += 1;
    }
    true
}

/// The number that a digit stands for.
pub fn digit_of(c: char) -> (d: u8)
    requires
        is_digit(c),
    ensures
        d == digit_value(c),
        d <= 9,
{
    (c as u32 - '0' as u32) as u8
}

/// The value of digits grows with every further digit.
pub proof fn lemma_digits_value_grows(s: Seq<char>, k: int, n: int)
    requires
        0 <= k <= n <= s.len(),
        all_digits(s),
    ensures
        0 <= digits_value(s, k) <= digits_value(s, n),
    decreases n,
{
    if n > 0 {
        assert(is_digit(s[n - 1]));
        if k < n {
            lemma_digits_value_grows(s, k, n - 1);
        } else {
            lemma_digits_value_grows(s, k - 1, n - 1);
        }
    }
}

/// The number that the digits write, or `None` where it exceeds `u64`.
pub fn whole_value(s: &[char]) -> (r: Option<u64>)
    requires
        all_digits(s@),
    ensures
        r == (if digits_value(s@, s.len() as int) <= u64::MAX {
            Some(digits_value(s@, s.len() as int) as u64)
        } else {
            None::<u64>
        }),
{
    let mut acc: u64 = 0;
    let mut i: usize = 0;
    while i < s.len()
        invariant
            i <= s.len(),
            all_digits(s@),
            acc == digits_value(s@, i as int),
        decreases s.len() - i,
    {
        let d: u64 = digit_of(s[i]) as u64;
        let next: u128 = acc as u128 * 10 + d as u128;
        if next > u64::MAX as u128 {
            proof {
                lemma_digits_value_grows(s@, i + 1, s.len() as int);
            }
            return None;
        }
        acc = next as u64;
        i += 1;
    }
    Some(acc)
}

/// Six digits write less than a million.
pub proof fn lemma_digits_value_bound(s: Seq<char>, k: int)
    requires
        0 <= k <= s.len(),
        all_digits(s),
    ensures
        0 <= digits_value(s, k) < pow10(k),
    decreases k,
{
    if k > 0 {
        lemma_digits_value_bound(s, k - 1);
        assert(is_digit(s[k - 1]));
    }
}

/// The millionths that the digits after the point stand for.
pub fn fraction_millionths(s: &[char]) -> (r: u64)
    requires
        all_digits(s@),
    ensures
        r == millionths(s@),
        r < SCALE,
{
    let mut acc: u64 = 0;
    let mut i: usize = 0;
    proof {
        reveal_with_fuel(pow10, 8);
    }
    while i < 6
        invariant
            i <= 6,
            all_digits(s@),
            i <= s.len() ==> acc == digits_value(s@, i as int),
            i > s.len() ==> acc == digits_value(s@, s.len() as int) * pow10(i - s.len()),
            acc < pow10(i as int),
            pow10(i as int) <= pow10(6) == 1_000_000,
        decreases 6 - i,
    {
        proof {
            reveal_with_fuel(pow10, 8);
            if i < s.len() {
                lemma_digits_value_bound(s@, i + 1);
            }
        }
        let d: u64 = if i < s.len() {
            digit_of(s[i]) as u64
        } else {
            0
        };
        acc = acc * 10 + d;
        i += 1;
        proof {
            if i > s.len() {
                let base = digits_value(s@, s.len() as int);
                assert(base * pow10(i - s.len()) == base * pow10(i - 1 - s.len()) * 10)
                    by (nonlinear_arith)
                    requires
                        pow10(i - s.len()) == 10 * pow10(i - 1 - s.len()),
                ;
            }
        }
    }
    acc
}

/// The value in millionths of an unsigned number: `InvalidNumber` where the
/// text is not one, `OutOfRange` where the value exceeds `u64`.
pub fn parse_magnitude(s: &[char]) -> (r: Result<u64, ParseError>)
    ensures
        r == (match magnitude(s@) {
            None => Err::<u64, ParseError>(ParseError::InvalidNumber),
            Some(m) => if m <= u64::MAX {
                Ok(m as u64)
            } else {
                Err(ParseError::OutOfRange)
            },
        }),
{
    let p: usize = find_point(s);
    let whole = copy_range(s, 0, p);
    let fraction = if p < s.len() {
        copy_range(s, p + 1, s.len())
    } else {
        Vec::new()
    };
    assert(whole@ == whole_part(s@));
    assert(fraction@ =~= fraction_part(s@));
    if !check_digits(whole.as_slice()) || !check_digits(fraction.as_slice()) {
        return Err(ParseError::InvalidNumber);
    }
    if whole.len() == 0 && fraction.len() == 0 {
        return Err(ParseError::InvalidNumber);
    }
    let small: u64 = fraction_millionths(fraction.as_slice());
    proof {
        lemma_digits_value_grows(whole@, 0, whole.len() as int);
    }
    match whole_value(whole.as_slice()) {
        Some(units) => {
            assert(units * SCALE + small <= u64::MAX * 1_000_000 + 1_000_000) by (nonlinear_arith)
                requires
                    units <= u64::MAX,
                    small < SCALE,
                    SCALE == 1_000_000,
            ;
            let total: u128 = units as u128 * SCALE as u128 + small as u128;
            if total <= u64::MAX as u128 {
                Ok(total as u64)
            } else {
                Err(ParseError::OutOfRange)
            }
        },
        None => {
            assert(digits_value(whole@, whole.len() as int) * SCALE + small > u64::MAX)
                by (nonlinear_arith)
                requires
                    digits_value(whole@, whole.len() as int) > u64::MAX,
                    small >= 0,
                    SCALE == 1_000_000,
            ;
            Err(ParseError::OutOfRange)
        },
    }
}

/// An unsigned number is not negative.
pub proof fn lemma_magnitude_nonnegative(s: Seq<char>)
    requires
        magnitude(s) is Some,
    ensures
        magnitude(s)->Some_0 >= 0,
{
    let whole = whole_part(s);
    let fraction = fraction_part(s);
    lemma_digits_value_grows(whole, 0, whole.len() as int);
    if fraction.len() >= 6 {
        lemma_digits_value_grows(fraction, 0, 6);
    } else {
        lemma_digits_value_grows(fraction, 0, fraction.len() as int);
        lemma_pow10_positive(6 - fraction.len());
        assert(digits_value(fraction, fraction.len() as int) * pow10(6 - fraction.len()) >= 0)
            by (nonlinear_arith)
            requires
                digits_value(fraction, fraction.len() as int) >= 0,
                pow10(6 - fraction.len()) > 0,
        ;
    }
    assert(digits_value(whole, whole.len() as int) * (SCALE as int) >= 0) by (nonlinear_arith)
        requires
            digits_value(whole, whole.len() as int) >= 0,
            SCALE > 0,
    ;
}

/// A power of ten is positive.
pub proof fn lemma_pow10_positive(n: int)
    ensures
        pow10(n) > 0,
    decreases n,
{
    if n > 0 {
        lemma_pow10_positive(n - 1);
    }
}

/// The value in millionths of a number with an optional sign:
/// `InvalidNumber` where the text is not one, `OutOfRange` where the value
/// is further from zero than `u64` reaches.
pub fn parse_decimal(s: &[char]) -> (r: Result<i128, ParseError>)
    ensures
        r == (match decimal_value(s@) {
            None => Err::<i128, ParseError>(ParseError::InvalidNumber),
            Some(v) => if -(u64::MAX as int) <= v <= u64::MAX {
                Ok(v as i128)
            } else {
                Err(ParseError::OutOfRange)
            },
        }),
{
    if s.len() > 0 && (s[0] == '-' || s[0] == '+') {
        let negative: bool = s[0] == '-';
        let body = copy_range(s, 1, s.len());
        proof {
            if magnitude(body@) is Some {
                lemma_magnitude_nonnegative(body@);
            }
        }
        match parse_magnitude(body.as_slice()) {
            Ok(m) => if negative {
                Ok(-(m as i128))
            } else {
                Ok(m as i128)
            },
            Err(e) => Err(e),
        }
    } else {
        proof {
            if magnitude(s@) is Some {
                lemma_magnitude_nonnegative(s@);
            }
        }
        match parse_magnitude(s) {
            Ok(m) => Ok(m as i128),
            Err(e) => Err(e),
        }
    }
}

/// The first `k` characters of `s` without those that equal `c`.
pub open spec fn without(s: Seq<char>, c: char, k: int) -> Seq<char>
    decreases k,
{
    if k <= 0 {
        Seq::empty()
    } else if s[k - 1] == c {
        without(s, c, k - 1)
    } else {
        without(s, c, k - 1).push(s[k - 1])
    }
}

/// The text without the characters that equal `c`.
pub fn remove_all(s: &[char], c: char) -> (kept: Vec<char>)
    ensures
        kept@ == without(s@, c, s.len() as int),
{
    let mut kept: Vec<char> = Vec::new();
    let mut i: usize = 0;
    while i < s.len()
        invariant
            i <= s.len(),
            kept@ == without(s@, c, i as int),
        decreases s.len() - i,
    {
        if s[i] != c {
            kept.push(s[i]);
        }
        i += 1;
    }
    kept
}

/// Whether the character is white space, as Unicode defines it.
pub open spec fn is_space(c: char) -> bool {
    let code = c as u32;
    ||| 0x09 <= code <= 0x0d
    ||| code == 0x20
    ||| code == 0x85
    ||| code == 0xa0
    ||| code == 0x1680
    ||| 0x2000 <= code <= 0x200a
    ||| code == 0x2028
    ||| code == 0x2029
    ||| code == 0x202f
    ||| code == 0x205f
    ||| code == 0x3000
}

/// Whether the text holds nothing but white space. The empty text does.
pub open spec fn is_blank(s: Seq<char>) -> bool {
    forall|i: int| 0 <= i < s.len() ==> is_space(#[trigger] s[i])
}

/// Executable form of [`is_space`].
pub fn check_space(c: char) -> (b: bool)
    ensures
        b == is_space(c),
{
    let code: u32 = c as u32;
    (0x09 <= code && code <= 0x0d) || code == 0x20 || code == 0x85 || code == 0xa0 || code
        == 0x1680 || (0x2000 <= code && code <= 0x200a) || code == 0x2028 || code == 0x2029
        || code == 0x202f || code == 0x205f || code == 0x3000
}

/// Executable form of [`is_blank`].
pub fn check_blank(s: &[char]) -> (b: bool)
    ensures
        b == is_blank(s@),
{
    let mut i: usize = 0;
    while i < s.len()
        invariant
            i <= s.len(),
            forall|j: int| 0 <= j < i ==> is_space(#[trigger] s@[j]),
        decreases s.len() - i,
    {
        if !check_space(s[i]) {
            assert(!is_space(s@[i as int]));
            return false;
        }
        i += 1;
    }
    true
}

} // verus!
