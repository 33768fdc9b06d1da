//! Reading numbers from text.
//!
//! Quantities are held exactly: a volume is a `u64`, and every other number is
//! a [`Decimal`], a signed count of ten-thousandths.

use vstd::prelude::*;
use vstd::string::*;
use vstd::utf8::is_ascii_chars;

verus! {

/// Ten-thousandths in one unit.
pub const SCALE: i128 = 10_000;

/// The ASCII code of `+`.
const PLUS: u8 = 43;

/// The ASCII code of `-`.
const MINUS: u8 = 45;

/// The ASCII code of `.`.
const POINT: u8 = 46;

/// The ASCII code of `0`.
const DIGIT_ZERO: u8 = 48;

/// The ASCII code of `9`.
const DIGIT_NINE: u8 = 57;

/// One of `0` to `9`.
pub open spec fn is_digit(c: char) -> bool {
    '0' <= c && c <= '9'
}

/// The number that a digit stands for.
pub open spec fn digit_value(c: char) -> int {
    c as int - '0' as int
}

/// Nothing but digits, or nothing at all.
pub open spec fn all_digits(s: Seq<char>) -> bool {
    forall|i: int| 0 <= i < s.len() ==> is_digit(#[trigger] s[i])
}

/// The number that a run of decimal digits writes, most significant digit first.
pub open spec fn digits_value(s: Seq<char>) -> int
    decreases s.len(),
{
    if s.len() == 0 {
        0
    } else {
        digits_value(s.drop_last()) * 10 + digit_value(s.last())
    }
}

/// A text without its leading `+`, if it has one.
pub open spec fn unsigned_body(s: Seq<char>) -> Seq<char> {
    if s.len() > 0 && s[0] == '+' {
        s.drop_first()
    } else {
        s
    }
}

/// What a text says as an unsigned 64-bit integer: an optional `+`, then one or
/// more digits and nothing else, whose value fits.
pub open spec fn unsigned_value(s: Seq<char>) -> Option<u64> {
    let body = unsigned_body(s);
    if body.len() > 0 && all_digits(body) && digits_value(body) <= u64::MAX {
        Some(digits_value(body) as u64)
    } else {
        None
    }
}

/// A decimal number held exactly, as a signed count of ten-thousandths.
#[derive(Clone, Copy, Debug, PartialEq, Eq, Structural)]
pub struct Decimal {
    pub units: i128,
}

/// The text starts with `+` or `-`.
pub open spec fn has_sign(s: Seq<char>) -> bool {
    s.len() > 0 && (s[0] == '+' || s[0] == '-')
}

/// The text starts with `-`.
pub open spec fn is_negative(s: Seq<char>) -> bool {
    s.len() > 0 && s[0] == '-'
}

/// A text without its leading sign, if it has one.
pub open spec fn decimal_body(s: Seq<char>) -> Seq<char> {
    if has_sign(s) {
        s.drop_first()
    } else {
        s
    }
}

/// The value of the digit at position `i`, zero past the end.
pub open spec fn digit_or_zero(s: Seq<char>, i: int) -> int {
    if 0 <= i < s.len() {
        digit_value(s[i])
    } else {
        0
    }
}

/// The ten-thousandths that the digits after a decimal point stand for. Digits
/// past the fourth are dropped.
pub open spec fn fraction_units(frac: Seq<char>) -> int {
    digit_or_zero(frac, 0) * 1000 + digit_or_zero(frac, 1) * 100 + digit_or_zero(frac, 2) * 10
        + digit_or_zero(frac, 3)
}

/// What a text says as a count of ten-thousandths. A decimal is an optional
/// sign, then digits with at most one `.` among them and at least one digit on
/// one side of it. Exponents, `inf` and `nan` are no decimals.
pub open spec fn decimal_units(s: Seq<char>) -> Option<int> {
    let body = decimal_body(s);
    let (whole, frac) = match body.index_of_first('.') {
        Some(dot) => (body.subrange(0, dot), body.subrange(dot + 1, body.len() as int)),
        None => (body, Seq::<char>::empty()),
    };
    if all_digits(whole) && all_digits(frac) && whole.len() + frac.len() > 0 {
        let magnitude = digits_value(whole) * 10_000 + fraction_units(frac);
        Some(
            if is_negative(s) {
                -magnitude
            } else {
                magnitude
            },
        )
    } else {
        None
    }
}

/// The decimal that a text says, if it says one that fits.
pub open spec fn decimal_value(s: Seq<char>) -> Option<Decimal> {
    match decimal_units(s) {
        Some(units) => if i128::MIN <= units <= i128::MAX {
            Some(Decimal { units: units as i128 })
        } else {
            None
        },
        None => None,
    }
}

/// A run of digits writes no negative number.
proof fn lemma_digits_value_bounds(s: Seq<char>)
    requires
        all_digits(s),
    ensures
        0 <= digits_value(s),
    decreases s.len(),
{
    if s.len() > 0 {
        assert(is_digit(s[s.len() - 1]));
        lemma_digits_value_bounds(s.drop_last());
    }
}

/// A text with a character outside ASCII holds something that is no digit, sign
/// or decimal point.
proof fn lemma_not_ascii(s: Seq<char>) -> (i: int)
    requires
        !is_ascii_chars(s),
    ensures
        0 <= i < s.len(),
        !is_digit(s[i]),
        s[i] != '+',
        s[i] != '-',
        s[i] != '.',
{
    choose|i: int| 0 <= i < s.len() && !('\0' <= #[trigger] s[i] <= '\u{7f}')
}

/// The number of sign characters that a text starts with, none or one.
pub open spec fn sign_length(s: Seq<char>) -> int {
    if has_sign(s) {
        1
    } else {
        0
    }
}

/// A character behind the sign that is neither a digit nor the first `.`
/// spoils a decimal.
proof fn lemma_stray_character(s: Seq<char>, p: int)
    requires
        sign_length(s) <= p < s.len(),
        !is_digit(s[p]),
        s[p] == '.' ==> exists|q: int| sign_length(s) <= q < p && s[q] == '.',
    ensures
        decimal_units(s) is None,
{
    let body = decimal_body(s);
    let start = sign_length(s);
    assert(forall|i: int| 0 <= i < body.len() ==> body[i] == s[i + start]);
    body.index_of_first_ensures('.');
    match body.index_of_first('.') {
        Some(dot) => {
            if p - start < dot {
                assert(body.subrange(0, dot)[p - start] == s[p]);
            } else if p - start > dot {
                assert(body.subrange(dot + 1, body.len() as int)[p - start - dot - 1] == s[p]);
            } else {
                let q = choose|q: int| start <= q < p && s[q] == '.';
                assert(body[q - start] == '.');
            }
        },
        None => {
            assert(body[p - start] == s[p]);
        },
    }
}

/// What a text says where, behind the sign, digits run up to `dot` and either
/// the text ends there or a `.` and nothing but digits follow.
proof fn lemma_decimal_shape(s: Seq<char>, dot: int, has_point: bool)
    requires
        sign_length(s) <= dot <= s.len(),
        all_digits(s.subrange(sign_length(s), dot)),
        has_point ==> dot < s.len() && s[dot] == '.' && all_digits(
            s.subrange(dot + 1, s.len() as int),
        ),
        !has_point ==> dot == s.len(),
    ensures
        ({
            let whole = s.subrange(sign_length(s), dot);
            let frac = if has_point {
                s.subrange(dot + 1, s.len() as int)
            } else {
                Seq::<char>::empty()
            };
            let magnitude = digits_value(whole) * 10_000 + fraction_units(frac);
            &&& 0 <= digits_value(whole)
            &&& 0 <= fraction_units(frac) <= 9999
            &&& decimal_units(s) == if whole.len() + frac.len() > 0 {
                Some(
                    if is_negative(s) {
                        -magnitude
                    } else {
                        magnitude
                    },
                )
            } else {
                None::<int>
            }
        }),
{
    let body = decimal_body(s);
    let start = sign_length(s);
    let whole = s.subrange(start, dot);
    let frac = if has_point {
        s.subrange(dot + 1, s.len() as int)
    } else {
        Seq::<char>::empty()
    };
    assert(forall|i: int| 0 <= i < body.len() ==> body[i] == s[i + start]);
    body.index_of_first_ensures('.');
    assert forall|j: int| 0 <= j < dot - start implies body[j] != '.' by {
        assert(is_digit(whole[j]));
    }
    assert(whole =~= body.subrange(0, dot - start));
    if has_point {
        assert(body[dot - start] == '.');
        let first = body.index_of_first('.')->0;
        if first > dot - start {
            assert(body[dot - start] != '.');
        }
        assert(frac =~= body.subrange(dot - start + 1, body.len() as int));
    } else {
        assert(whole =~= body);
        if body.contains('.') {
            let j = choose|j: int| 0 <= j < body.len() && body[j] == '.';
            assert(is_digit(whole[j]));
        }
    }
    lemma_digits_value_bounds(whole);
    assert forall|i: int| 0 <= i < 4 implies 0 <= #[trigger] digit_or_zero(frac, i) <= 9 by {
        if i < frac.len() {
            assert(is_digit(frac[i]));
        }
    }
}

/// The digit at position `i`, if there is one.
fn digit_at(text: &str, i: usize) -> (r: Option<u8>)
    requires
        text.is_ascii(),
        i < text@.len(),
    ensures
        r is Some <==> is_digit(text@[i as int]),
        r is Some ==> r->0 == digit_value(text@[i as int]),
{
    let b: u8 = text.get_ascii(i);
    if DIGIT_ZERO <= b && b <= DIGIT_NINE {
        Some(b - DIGIT_ZERO)
    } else {
        None
    }
}

/// Reads the run of digits that starts at `from`: where it ends, and its value
/// unless that passes `u128::MAX`.
fn read_digits(text: &str, from: usize) -> (r: (usize, Option<u128>))
    requires
        text.is_ascii(),
        from <= text@.len(),
    ensures
        from <= r.0 <= text@.len(),
        all_digits(text@.subrange(from as int, r.0 as int)),
        r.0 < text@.len() ==> !is_digit(text@[r.0 as int]),
        match r.1 {
            Some(value) => value == digits_value(text@.subrange(from as int, r.0 as int)),
            None => digits_value(text@.subrange(from as int, r.0 as int)) > u128::MAX,
        },
{
    proof {
        is_ascii_spec_bytes(text);
    }
    let n: usize = text.as_bytes().len();
    let mut end: usize = from;
    let mut value: Option<u128> = Some(0);
    let mut in_digits: bool = true;
    while in_digits && end < n
        invariant
            text.is_ascii(),
            n == text@.len(),
            from <= end <= n,
            all_digits(text@.subrange(from as int, end as int)),
            !in_digits ==> end < n && !is_digit(text@[end as int]),
            match value {
                Some(v) => v == digits_value(text@.subrange(from as int, end as int)),
                None => digits_value(text@.subrange(from as int, end as int)) > u128::MAX,
            },
        decreases n - end + if in_digits { 1int } else { 0int },
    {
        let ghost seen = text@.subrange(from as int, end as int);
        let ghost next = text@.subrange(from as int, end + 1);
        assert(next.drop_last() =~= seen);
        match digit_at(text, end) {
            None => {
                in_digits = false;
            },
            Some(d) => {
                assert(all_digits(next));
                value = match value {
                    Some(v) => if v <= (u128::MAX - d as u128) / 10 {
                        Some(v * 10 + d as u128)
                    } else {
                        None
                    },
                    None => None,
                };
                end += 1;
            },
        }
    }
    (end, value)
}

/// Reads an unsigned integer as `str::parse::<u64>` does: an optional `+` and
/// then digits only, with `None` for anything else or for a value past
/// `u64::MAX`.
pub fn parse_unsigned(text: &str) -> (r: Option<u64>)
    ensures
        r == unsigned_value(text@),
{
    if !text.is_ascii() {
        proof {
            let bad = lemma_not_ascii(text@);
            if bad > 0 {
                assert(text@.drop_first()[bad - 1] == text@[bad]);
            }
        }
        return None;
    }
    proof {
        is_ascii_spec_bytes(text);
    }
    let n: usize = text.as_bytes().len();
    let start: usize = if n > 0 && text.get_ascii(0) == PLUS {
        1
    } else {
        0
    };
    assert(unsigned_body(text@) =~= text@.subrange(start as int, n as int));
    let (end, value) = read_digits(text, start);
    if end < n {
        assert(unsigned_body(text@)[end - start] == text@[end as int]);
        return None;
    }
    if end == start {
        return None;
    }
    match value {
        Some(v) => if v <= u64::MAX as u128 {
            Some(v as u64)
        } else {
            None
        },
        None => None,
    }
}

/// The value of the digit `place` positions into `text[from..end]`, zero past
/// its end.
fn fraction_digit(text: &str, from: usize, end: usize, place: usize) -> (r: u128)
    requires
        text.is_ascii(),
        from <= end <= text@.len(),
        all_digits(text@.subrange(from as int, end as int)),
        place < 4,
    ensures
        r == digit_or_zero(text@.subrange(from as int, end as int), place as int),
        r <= 9,
{
    if place < end - from {
        assert(text@.subrange(from as int, end as int)[place as int] == text@[from + place]);
        match digit_at(text, from + place) {
            Some(d) => d as u128,
            None => 0,
        }
    } else {
        0
    }
}

impl Decimal {
    /// The decimal 0.
    pub open spec fn zero() -> Decimal {
        Decimal { units: 0 }
    }

    /// The decimal for a whole number.
    pub fn from_whole(n: u64) -> (r: Decimal)
        ensures
            r.units == n * 10_000,
    {
        Decimal { units: n as i128 * SCALE }
    }

    /// Reads a decimal. The value is cut off after the fourth decimal place;
    /// text that is no decimal, or whose value does not fit, gives `None`.
    pub fn parse(text: &str) -> (r: Option<Decimal>)
        ensures
            r == decimal_value(text@),
    {
        if !text.is_ascii() {
            proof {
                let bad = lemma_not_ascii(text@);
                lemma_stray_character(text@, bad);
            }
            return None;
        }
        proof {
            is_ascii_spec_bytes(text);
        }
        let n: usize = text.as_bytes().len();
        let (negative, start) = read_sign(text);
        let (dot, whole) = read_digits(text, start);
        let has_point: bool = dot < n && text.get_ascii(dot) == POINT;
        if dot < n && !has_point {
            proof {
                lemma_stray_character(text@, dot as int);
            }
            return None;
        }
        let end: usize = if has_point {
            read_digits(text, dot + 1).0
        } else {
            dot
        };
        if end < n {
            proof {
                lemma_stray_character(text@, end as int);
            }
            return None;
        }
        proof {
            lemma_decimal_shape(text@, dot as int, has_point);
        }
        let digits: usize = if has_point {
            n - start - 1
        } else {
            n - start
        };
        if digits == 0 {
            return None;
        }
        let fraction: u128 = if has_point {
            fraction_digit(text, dot + 1, n, 0) * 1000 + fraction_digit(text, dot + 1, n, 1) * 100
                + fraction_digit(text, dot + 1, n, 2) * 10 + fraction_digit(text, dot + 1, n, 3)
        } else {
            0
        };
        let ghost value = digits_value(text@.subrange(start as int, dot as int));
        signed(negative, whole, fraction, Ghost(value))
    }
}

/// Whether a text starts with `-`, and how many sign characters it starts with.
fn read_sign(text: &str) -> (r: (bool, usize))
    requires
        text.is_ascii(),
    ensures
        r.0 == is_negative(text@),
        r.1 == sign_length(text@),
{
    proof {
        is_ascii_spec_bytes(text);
    }
    if text.as_bytes().len() == 0 {
        return (false, 0);
    }
    let first: u8 = text.get_ascii(0);
    if first == PLUS {
        (false, 1)
    } else if first == MINUS {
        (true, 1)
    } else {
        (false, 0)
    }
}

/// Puts sign, whole part and fraction together, if the result fits. The whole
/// part is `None` where it is too large to be held.
fn signed(
    negative: bool,
    whole: Option<u128>,
    fraction: u128,
    Ghost(value): Ghost<int>,
) -> (r: Option<Decimal>)
    requires
        fraction <= 9999,
        match whole {
            Some(held) => held == value,
            None => value > u128::MAX,
        },
    ensures
        ({
            let magnitude = value * 10_000 + fraction;
            let units = if negative {
                -magnitude
            } else {
                magnitude
            };
            r == if i128::MIN <= units <= i128::MAX {
                Some(Decimal { units: units as i128 })
            } else {
                None
            }
        }),
{
    let limit: u128 = if negative {
        0x8000_0000_0000_0000_0000_0000_0000_0000
    } else {
        0x7fff_ffff_ffff_ffff_ffff_ffff_ffff_ffff
    };
    let whole: u128 = match whole {
        Some(whole) => whole,
        None => {
            return None;
        },
    };
    if whole > limit / 10_000 {
        return None;
    }
    let magnitude: u128 = whole * 10_000 + fraction;
    if magnitude > limit {
        return None;
    }
    let units: i128 = if !negative {
        magnitude as i128
    } else if magnitude == limit {
        i128::MIN
    } else {
        -(magnitude as i128)
    };
    Some(Decimal { units })
}

} // verus!
