//! Reading integers and fixed-point numbers from ASCII text, in decimal or
//! scientific notation.

use vstd::prelude::*;
use vstd::arithmetic::div_mod::{
    lemma_basic_div, lemma_div_denominator, lemma_div_multiples_vanish_fancy,
};
use vstd::math::abs;
use crate::errors::AggregationError;
use crate::types::SCALE;

verus! {

/// Number of decimal places that a fixed-point quantity keeps.
pub const DECIMALS: usize = 8;

/// Whether `b` is one of the ASCII digits `0` to `9`.
pub open spec fn is_digit(b: u8) -> bool {
    0x30 <= b <= 0x39
}

/// Whether `s` holds ASCII digits only.
pub open spec fn all_digits(s: Seq<u8>) -> bool {
    forall|i: int| 0 <= i < s.len() ==> is_digit(#[trigger] s[i])
}

/// The number that the ASCII digits `s` write in base ten.
pub open spec fn digits_value(s: Seq<u8>) -> nat
    decreases s.len(),
{
    if s.len() == 0 {
        0
    } else {
        digits_value(s.drop_last()) * 10 + (s.last() - 0x30) as nat
    }
}

/// Ten to the power `k`.
pub open spec fn pow10(k: nat) -> nat
    decreases k,
{
    if k == 0 {
        1
    } else {
        10 * pow10((k - 1) as nat)
    }
}

/// Whether `s` begins with a plus or a minus sign.
pub open spec fn has_sign(s: Seq<u8>) -> bool {
    s.len() > 0 && (s[0] == 0x2b || s[0] == 0x2d)
}

/// Whether `s` begins with a minus sign.
pub open spec fn is_negative(s: Seq<u8>) -> bool {
    s.len() > 0 && s[0] == 0x2d
}

/// `s` without its sign, if it has one.
pub open spec fn unsigned_part(s: Seq<u8>) -> Seq<u8> {
    if has_sign(s) {
        s.skip(1)
    } else {
        s
    }
}

/// The integer that `s` writes: an optional sign, then at least one digit
/// and nothing but digits, with a value in the range of `i64`.
pub open spec fn integer_of(s: Seq<u8>) -> Option<i64> {
    let digits = unsigned_part(s);
    let v = if is_negative(s) {
        -(digits_value(digits) as int)
    } else {
        digits_value(digits) as int
    };
    if digits.len() > 0 && all_digits(digits) && i64::MIN <= v <= i64::MAX {
        Some(v as i64)
    } else {
        None
    }
}

/// The index of the first decimal point in `s`, or the length of `s` if it

/// The index of the first byte of `s` that is `a` or `b`, or the length of
/// `s` if it holds neither.
pub open spec fn first_of(s: Seq<u8>, a: u8, b: u8) -> int
    decreases s.len(),
{
    if s.len() == 0 || s[0] == a || s[0] == b {
        0
    } else {
        1 + first_of(s.skip(1), a, b)
    }
}

/// The part of the unsigned text `s` before its exponent mark `e` or `E`;
/// all of `s` if it has none.
pub open spec fn mantissa_text(s: Seq<u8>) -> Seq<u8> {
    s.take(first_of(s, 0x65, 0x45))
}

/// The digits before the decimal point of the mantissa `m`.
pub open spec fn whole_digits(m: Seq<u8>) -> Seq<u8> {
    m.take(first_of(m, 0x2e, 0x2e))
}

/// The digits after the decimal point of the mantissa `m`; empty if it has
/// no decimal point.
pub open spec fn fraction_digits(m: Seq<u8>) -> Seq<u8> {
    if first_of(m, 0x2e, 0x2e) < m.len() {
        m.skip(first_of(m, 0x2e, 0x2e) + 1)
    } else {
        Seq::empty()
    }
}

/// The exponent that the unsigned text `s` writes after its mark `e` or
/// `E`: an optional sign and at least one digit, nothing else. Without a
/// mark the exponent is zero.
pub open spec fn exponent_of(s: Seq<u8>) -> Option<int> {
    let mark = first_of(s, 0x65, 0x45);
    if mark >= s.len() {
        Some(0)
    } else {
        let text = s.skip(mark + 1);
        let digits = unsigned_part(text);
        if digits.len() > 0 && all_digits(digits) {
            Some(
                if is_negative(text) {
                    -(digits_value(digits) as int)
                } else {
                    digits_value(digits) as int
                },
            )
        } else {
            None
        }
    }
}

/// The number `d` times ten to the power `shift`, cut to a whole number.
pub open spec fn scaled(d: nat, shift: int) -> nat {
    if shift >= 0 {
        d * pow10(shift as nat)
    } else {
        d / pow10((-shift) as nat)
    }
}

/// The fixed-point number that `s` writes in decimal or scientific
/// notation: an optional sign; digits with an optional decimal point among
/// them, before them or after them, at least one digit in all; and
/// optionally `e` or `E`, an optional sign and at least one digit.
///
/// Text of another form is `MalformedInputRow`; that includes the names of
/// the infinities and of not-a-number. The result is the written quantity
/// times `SCALE`, cut after the eighth decimal place, and is `Overflow`
/// only where that is out of the range of `i64`.
pub open spec fn decimal_of(s: Seq<u8>) -> Result<i64, AggregationError> {
    let body = unsigned_part(s);
    let whole = whole_digits(mantissa_text(body));
    let fraction = fraction_digits(mantissa_text(body));
    if whole.len() + fraction.len() == 0 || !all_digits(whole) || !all_digits(fraction)
        || exponent_of(body) is None {
        Err(AggregationError::MalformedInputRow)
    } else {
        let units = scaled(
            digits_value(whole + fraction),
            exponent_of(body)->Some_0 - fraction.len() + DECIMALS,
        );
        let v = if is_negative(s) {
            -(units as int)
        } else {
            units as int
        };
        if i64::MIN <= v <= i64::MAX {
            Ok(v as i64)
        } else {
            Err(AggregationError::Overflow)
        }
    }
}


/// A number written with more digits is at least as large as the number
/// written by any of its prefixes.
pub proof fn lemma_digits_value_grows(s: Seq<u8>, k: int)
    requires
        0 <= k <= s.len(),
        all_digits(s),
    ensures
        digits_value(s.take(k)) <= digits_value(s),
    decreases s.len() - k,
{
    if k == s.len() {
        assert(s.take(k) == s);
    } else {
        lemma_digits_value_grows(s, k + 1);
        let longer = s.take(k + 1);
        assert(longer.drop_last() == s.take(k));
        assert(is_digit(s[k]));
        assert(longer.last() == s[k]);
    }
}

/// A number written with `n` digits is below ten to the power `n`.
pub proof fn lemma_digits_value_bound(s: Seq<u8>)
    requires
        all_digits(s),
    ensures
        digits_value(s) < pow10(s.len()),
    decreases s.len(),
{
    if s.len() > 0 {
        let front = s.drop_last();
        assert forall|i: int| 0 <= i < front.len() implies is_digit(#[trigger] front[i]) by {
            assert(front[i] == s[i]);
        }
        lemma_digits_value_bound(front);
        assert(is_digit(s[s.len() - 1]));
    }
}

/// Whether the bytes of `s` from `from` up to `to` are all ASCII digits.
pub fn only_digits(s: &[u8], from: usize, to: usize) -> (r: bool)
    requires
        from <= to <= s@.len(),
    ensures
        r == all_digits(s@.subrange(from as int, to as int)),
{
    let ghost part = s@.subrange(from as int, to as int);
    let mut i: usize = from;
    while i < to
        invariant
            from <= i <= to <= s@.len(),
            part == s@.subrange(from as int, to as int),
            forall|j: int| 0 <= j < i - from ==> is_digit(#[trigger] part[j]),
        decreases to - i,
    {
        let b = s[i];
        if b < 0x30 || b > 0x39 {
            assert(part[i - from] == b);
            return false;
        }
        assert(part[i - from] == b);
        i = i + 1;
    }
    true
}

/// The number written by the bytes of `s` from `from` up to `to`, if they
/// are all digits and the number fits 64 bits.
pub fn read_digits(s: &[u8], from: usize, to: usize) -> (r: Option<u64>)
    requires
        from <= to <= s@.len(),
    ensures
        ({
            let part = s@.subrange(from as int, to as int);
            r == if all_digits(part) && digits_value(part) <= u64::MAX {
                Some(digits_value(part) as u64)
            } else {
                None
            }
        }),
{
    if !only_digits(s, from, to) {
        return None;
    }
    let ghost part = s@.subrange(from as int, to as int);
    let mut acc: u64 = 0;
    let mut i: usize = from;
    assert(part.take(0).len() == 0);
    while i < to
        invariant
            from <= i <= to <= s@.len(),
            part == s@.subrange(from as int, to as int),
            all_digits(part),
            acc == digits_value(part.take(i - from)),
        decreases to - i,
    {
        assert(is_digit(part[i - from]) && part[i - from] == s[i as int]);
        let d: u64 = (s[i] - 0x30) as u64;
        proof {
            let longer = part.take(i - from + 1);
            assert(longer.drop_last() == part.take(i - from));
            assert(longer.last() == s[i as int]);
            assert(is_digit(part[i - from]));
            lemma_digits_value_grows(part, i - from + 1);
        }
        if acc > (u64::MAX - d) / 10 {
            return None;
        }
        acc = acc * 10 + d;
        i = i + 1;
    }
    assert(part.take(to - from) == part);
    Some(acc)
}

/// Reads a signed integer: see [`integer_of`].
pub fn parse_integer(s: &[u8]) -> (r: Option<i64>)
    ensures
        r == integer_of(s@),
{
    let n = s.len();
    let signed = n > 0 && (s[0] == 0x2b || s[0] == 0x2d);
    let negative = n > 0 && s[0] == 0x2d;
    let from: usize = if signed {
        1
    } else {
        0
    };
    assert(s@.subrange(from as int, n as int) == unsigned_part(s@));
    if from == n {
        return None;
    }
    match read_digits(s, from, n) {
        None => None,
        Some(m) => {
            if negative {
                if m > 0x8000_0000_0000_0000 {
                    None
                } else {
                    Some((-(m as i128)) as i64)
                }
            } else {
                if m > 0x7fff_ffff_ffff_ffff {
                    None
                } else {
                    Some(m as i64)
                }
            }
        },
    }
}

/// Powers of ten grow with the exponent.
pub proof fn lemma_pow10_grows(a: nat, b: nat)
    requires
        a <= b,
    ensures
        0 < pow10(a) <= pow10(b),
    decreases b,
{
    if a < b {
        lemma_pow10_grows(a, (b - 1) as nat);
    } else if b > 0 {
        lemma_pow10_grows((a - 1) as nat, (b - 1) as nat);
    }
}

/// One whole unit is ten to the power `DECIMALS`.
pub proof fn lemma_scale_is_power_of_ten()
    ensures
        pow10(DECIMALS as nat) == SCALE,
{
    reveal_with_fuel(pow10, 9);
}


/// The first of the bytes `a` and `b` in `s` is at `k` if neither is before
/// `k` and `k` is either the end of `s` or holds one of them.
pub proof fn lemma_first_of(s: Seq<u8>, a: u8, b: u8, k: int)
    requires
        0 <= k <= s.len(),
        forall|j: int| 0 <= j < k ==> s[j] != a && s[j] != b,
        k == s.len() || s[k] == a || s[k] == b,
    ensures
        first_of(s, a, b) == k,
    decreases s.len(),
{
    if k > 0 {
        let rest = s.skip(1);
        assert forall|j: int| 0 <= j < k - 1 implies rest[j] != a && rest[j] != b by {
            assert(rest[j] == s[j + 1]);
        }
        lemma_first_of(rest, a, b, k - 1);
    }
}

/// The position of the first byte `a` or `b` of `s` from `from` up to
/// `to`, or `to` if there is none.
pub fn find_first(s: &[u8], from: usize, to: usize, a: u8, b: u8) -> (p: usize)
    requires
        from <= to <= s@.len(),
    ensures
        from <= p <= to,
        p - from == first_of(s@.subrange(from as int, to as int), a, b),
{
    let ghost part = s@.subrange(from as int, to as int);
    let mut p: usize = from;
    while p < to && s[p] != a && s[p] != b
        invariant
            from <= p <= to <= s@.len(),
            part == s@.subrange(from as int, to as int),
            forall|j: int| 0 <= j < p - from ==> part[j] != a && part[j] != b,
        decreases to - p,
    {
        p = p + 1;
    }
    proof {
        lemma_first_of(part, a, b, p - from);
    }
    p
}

/// The digits of a number without its last `m` digits write the number
/// divided by ten to the power `m`.
pub proof fn lemma_digits_value_of_prefix(s: Seq<u8>, k: int)
    requires
        0 <= k <= s.len(),
        all_digits(s),
    ensures
        digits_value(s.take(k)) == digits_value(s) / pow10((s.len() - k) as nat),
    decreases s.len() - k,
{
    if k == s.len() {
        assert(s.take(k) == s);
        assert(pow10(0) == 1);
        assert(digits_value(s) as int / 1 == digits_value(s));
    } else {
        lemma_digits_value_of_prefix(s, k + 1);
        let longer = s.take(k + 1);
        assert(longer.drop_last() == s.take(k));
        assert(longer.last() == s[k]);
        assert(is_digit(s[k]));
        let v = digits_value(s.take(k)) as int;
        let d = (s[k] - 0x30) as int;
        let m = (s.len() - k - 1) as nat;
        let whole = digits_value(s) as int;
        let unit = pow10(m) as int;
        lemma_pow10_grows(0, m);
        assert(digits_value(longer) == 10 * v + d);
        assert((10 * v + d) / 10 == v) by {
            lemma_div_multiples_vanish_fancy(v, d, 10);
        }
        assert((whole / unit) / 10 == whole / (unit * 10)) by {
            lemma_div_denominator(whole, unit, 10);
        }
        assert(pow10(m + 1) == 10 * pow10(m));
        assert(unit * 10 == pow10(m + 1));
        assert((s.len() - k) as nat == m + 1);
        assert(digits_value(longer) == whole / unit);
        assert(v == whole / (unit * 10));
    }
}

/// Cutting off at least as many digits as a number has leaves zero.
pub proof fn lemma_scaled_to_nothing(s: Seq<u8>, shift: int)
    requires
        all_digits(s),
        shift <= -s.len(),
    ensures
        scaled(digits_value(s), shift) == 0,
{
    lemma_digits_value_bound(s);
    if shift < 0 {
        lemma_pow10_grows(s.len(), (-shift) as nat);
        lemma_basic_div(digits_value(s) as int, pow10((-shift) as nat) as int);
    } else {
        assert(pow10(0) == 1);
        assert(digits_value(s) == 0);
        assert(0 * pow10(shift as nat) == 0);
    }
}

/// Twenty zeros or more behind a number give zero or more than 64 bits
/// hold.
pub proof fn lemma_scaled_far(d: nat, shift: int)
    requires
        shift >= 20,
    ensures
        d == 0 ==> scaled(d, shift) == 0,
        d > 0 ==> scaled(d, shift) > u64::MAX,
{
    lemma_pow10_grows(20, shift as nat);
    assert(pow10(20) == 100_000_000_000_000_000_000) by {
        reveal_with_fuel(pow10, 21);
    }
    let p = pow10(shift as nat);
    if d == 0 {
        assert(0 * p == 0);
    } else {
        assert(d * p >= p) by (nonlinear_arith)
            requires
                d >= 1,
                p >= 0,
        ;
    }
}

/// A number that 64 bits do not hold is written with twenty digits or more.
pub proof fn lemma_long_digits(s: Seq<u8>)
    requires
        all_digits(s),
        digits_value(s) > u64::MAX,
    ensures
        s.len() >= 20,
{
    lemma_digits_value_bound(s);
    if s.len() < 20 {
        lemma_pow10_grows(s.len(), 19);
        assert(pow10(19) == 10_000_000_000_000_000_000) by {
            reveal_with_fuel(pow10, 20);
        }
    }
}

/// The number `x` followed by `k` zeros, if 64 bits hold it.
pub fn times_power_of_ten(x: u64, k: u128) -> (r: Option<u64>)
    ensures
        r == if x * pow10(k as nat) <= u64::MAX {
            Some((x * pow10(k as nat)) as u64)
        } else {
            None
        },
{
    if x == 0 {
        assert(0 * pow10(k as nat) == 0);
        return Some(0);
    }
    let mut acc: u64 = x;
    let mut i: u128 = 0;
    assert(pow10(0) == 1);
    assert(x * 1 == x);
    while i < k
        invariant
            i <= k,
            x > 0,
            acc == x * pow10(i as nat),
        decreases k - i,
    {
        proof {
            lemma_pow10_grows((i + 1) as nat, k as nat);
            assert(x * pow10((i + 1) as nat) == 10 * (x * pow10(i as nat))) by (nonlinear_arith)
                requires
                    pow10((i + 1) as nat) == 10 * pow10(i as nat),
            ;
            assert(x * pow10((i + 1) as nat) <= x * pow10(k as nat)) by (nonlinear_arith)
                requires
                    pow10((i + 1) as nat) <= pow10(k as nat),
                    x > 0,
            ;
        }
        if acc > u64::MAX / 10 {
            return None;
        }
        acc = acc * 10;
        i = i + 1;
    }
    Some(acc)
}

/// The number written by `digits`, times ten to the power `shift` and cut
/// to a whole number, if 64 bits hold it.
pub fn shifted_value(digits: &[u8], shift: i128) -> (r: Option<u64>)
    requires
        all_digits(digits@),
    ensures
        r == if scaled(digits_value(digits@), shift as int) <= u64::MAX {
            Some(scaled(digits_value(digits@), shift as int) as u64)
        } else {
            None
        },
{
    let n = digits.len();
    assert(digits@.subrange(0, n as int) == digits@);
    if shift >= 0 {
        match read_digits(digits, 0, n) {
            Some(v) => times_power_of_ten(v, shift as u128),
            None => {
                proof {
                    let d = digits_value(digits@);
                    let p = pow10(shift as nat);
                    lemma_pow10_grows(0, shift as nat);
                    assert(d * p >= d) by (nonlinear_arith)
                        requires
                            p >= 1,
                            d >= 0,
                    ;
                }
                None
            },
        }
    } else {
        if shift <= -(n as i128) {
            proof {
                lemma_scaled_to_nothing(digits@, shift as int);
            }
            Some(0)
        } else {
            let kept: usize = (n as i128 + shift) as usize;
            proof {
                lemma_digits_value_of_prefix(digits@, kept as int);
                assert(digits@.subrange(0, kept as int) == digits@.take(kept as int));
            }
            read_digits(digits, 0, kept)
        }
    }
}

/// The bytes of `s` from `from` up to `to` followed by those from `next`
/// up to `end`.
pub fn joined(s: &[u8], from: usize, to: usize, next: usize, end: usize) -> (r: Vec<u8>)
    requires
        from <= to <= s@.len(),
        next <= end <= s@.len(),
    ensures
        r@ == s@.subrange(from as int, to as int) + s@.subrange(next as int, end as int),
{
    let mut out: Vec<u8> = Vec::new();
    let mut i: usize = from;
    while i < to
        invariant
            from <= i <= to <= s@.len(),
            out@ == s@.subrange(from as int, i as int),
        decreases to - i,
    {
        out.push(s[i]);
        assert(out@ == s@.subrange(from as int, i + 1));
        i = i + 1;
    }
    let mut j: usize = next;
    while j < end
        invariant
            next <= j <= end <= s@.len(),
            out@ == s@.subrange(from as int, to as int) + s@.subrange(next as int, j as int),
        decreases end - j,
    {
        out.push(s[j]);
        assert(out@ == s@.subrange(from as int, to as int) + s@.subrange(next as int, j + 1));
        j = j + 1;
    }
    out
}

/// Reads the exponent that stands after the mark at `mark`, or zero where
/// `mark` is the end of `s`: whether it is written with a minus sign, and
/// its absolute value, held at the largest 64-bit number where it is
/// larger. `None` where the text after the mark writes no exponent.
pub fn read_exponent(s: &[u8], mark: usize) -> (r: Option<(bool, u64)>)
    requires
        mark <= s@.len(),
    ensures
        ({
            let text = s@.subrange(mark as int + 1, s@.len() as int);
            let digits = unsigned_part(text);
            if mark == s@.len() {
                r == Some((false, 0u64))
            } else if digits.len() > 0 && all_digits(digits) {
                &&& r matches Some((negative, held))
                &&& negative == is_negative(text)
                &&& held == if digits_value(digits) <= u64::MAX {
                    digits_value(digits) as u64
                } else {
                    u64::MAX
                }
                &&& digits_value(digits) > u64::MAX ==> s@.len() - mark >= 21
            } else {
                r is None
            }
        }),
{
    let n = s.len();
    if mark == n {
        return Some((false, 0));
    }
    let start = mark + 1;
    let ghost text = s@.subrange(start as int, n as int);
    let signed = start < n && (s[start] == 0x2b || s[start] == 0x2d);
    let negative = start < n && s[start] == 0x2d;
    let from: usize = if signed {
        start + 1
    } else {
        start
    };
    assert(s@.subrange(from as int, n as int) == unsigned_part(text));
    if from == n || !only_digits(s, from, n) {
        return None;
    }
    match read_digits(s, from, n) {
        Some(v) => Some((negative, v)),
        None => {
            proof {
                lemma_long_digits(unsigned_part(text));
            }
            Some((negative, u64::MAX))
        },
    }
}

/// Where an exponent is too large for 64 bits, the largest 64-bit number
/// in its place gives the same result: nothing, or too much.
pub proof fn lemma_held_exponent_is_enough(digits: Seq<u8>, places: int, exact: int, held: int)
    requires
        all_digits(digits),
        -0xffff_ffff_ffff_ffff + 29 <= places <= DECIMALS,
        digits.len() + 21 <= 0xffff_ffff_ffff_ffff,
        abs(exact) > abs(held) == 0xffff_ffff_ffff_ffff,
        (exact < 0) == (held < 0),
    ensures
        scaled(digits_value(digits), exact + places) <= u64::MAX <==> scaled(
            digits_value(digits),
            held + places,
        ) <= u64::MAX,
        scaled(digits_value(digits), exact + places) <= u64::MAX ==> scaled(
            digits_value(digits),
            exact + places,
        ) == scaled(digits_value(digits), held + places),
{
    let d = digits_value(digits);
    if exact < 0 {
        lemma_scaled_to_nothing(digits, held + places);
        lemma_scaled_to_nothing(digits, exact + places);
    } else {
        lemma_scaled_far(d, held + places);
        lemma_scaled_far(d, exact + places);
    }
}

/// The fixed-point units of a mantissa with an exponent: the digits of `s`
/// from `from` up to `point` and from `next` up to `mark`, the latter being
/// decimal places, times ten to the power of the exponent.
pub fn mantissa_units(
    s: &[u8],
    from: usize,
    point: usize,
    next: usize,
    mark: usize,
    exponent_negative: bool,
    exponent: u64,
) -> (r: Option<u64>)
    requires
        from <= point <= next <= mark <= s@.len(),
        all_digits(s@.subrange(from as int, point as int)),
        all_digits(s@.subrange(next as int, mark as int)),
    ensures
        ({
            let digits = s@.subrange(from as int, point as int) + s@.subrange(
                next as int,
                mark as int,
            );
            let e = if exponent_negative {
                -(exponent as int)
            } else {
                exponent as int
            };
            let units = scaled(digits_value(digits), e - (mark - next) + DECIMALS);
            r == if units <= u64::MAX {
                Some(units as u64)
            } else {
                None
            }
        }),
{
    let digits = joined(s, from, point, next, mark);
    proof {
        let whole = s@.subrange(from as int, point as int);
        let fraction = s@.subrange(next as int, mark as int);
        assert forall|i: int| 0 <= i < digits@.len() implies is_digit(#[trigger] digits@[i]) by {
            if i < whole.len() {
                assert(digits@[i] == whole[i]);
            } else {
                assert(digits@[i] == fraction[i - whole.len()]);
            }
        }
    }
    let places: i128 = DECIMALS as i128 - (mark - next) as i128;
    let shift: i128 = if exponent_negative {
        places - exponent as i128
    } else {
        places + exponent as i128
    };
    shifted_value(digits.as_slice(), shift)
}

/// Where the parts of the number that `s` writes stand: its digits before
/// the decimal point from `from` up to `point`, its decimal places from
/// `next` up to `mark`, and `mark` the place of the exponent mark or the
/// end of `s`.
pub fn layout(s: &[u8]) -> (r: (usize, usize, usize, usize))
    ensures
        ({
            let (from, point, next, mark) = r;
            let body = unsigned_part(s@);
            &&& from <= point <= next <= mark <= s@.len()
            &&& body == s@.subrange(from as int, s@.len() as int)
            &&& mark - from == first_of(body, 0x65, 0x45)
            &&& whole_digits(mantissa_text(body)) == s@.subrange(from as int, point as int)
            &&& fraction_digits(mantissa_text(body)) == s@.subrange(next as int, mark as int)
            &&& mark < s@.len() ==> s@.subrange(mark as int + 1, s@.len() as int) == body.skip(
                first_of(body, 0x65, 0x45) + 1,
            )
        }),
{
    let n = s.len();
    let signed = n > 0 && (s[0] == 0x2b || s[0] == 0x2d);
    let from: usize = if signed {
        1
    } else {
        0
    };
    let ghost body = unsigned_part(s@);
    assert(s@.subrange(from as int, n as int) == body);
    let mark = find_first(s, from, n, 0x65, 0x45);
    assert(mantissa_text(body) == s@.subrange(from as int, mark as int));
    let point = find_first(s, from, mark, 0x2e, 0x2e);
    let next: usize = if point < mark {
        point + 1
    } else {
        mark
    };
    assert(whole_digits(mantissa_text(body)) == s@.subrange(from as int, point as int));
    assert(fraction_digits(mantissa_text(body)) == s@.subrange(next as int, mark as int));
    assert(mark < n ==> s@.subrange(mark as int + 1, n as int) == body.skip(mark - from + 1));
    (from, point, next, mark)
}

/// Reads a fixed-point decimal: see [`decimal_of`].
pub fn parse_decimal(s: &[u8]) -> (r: Result<i64, AggregationError>)
    ensures
        r == decimal_of(s@),
{
    let negative = s.len() > 0 && s[0] == 0x2d;
    let (from, point, next, mark) = layout(s);
    let ghost body = unsigned_part(s@);
    let ghost whole = whole_digits(mantissa_text(body));
    let ghost fraction = fraction_digits(mantissa_text(body));
    if (point - from) + (mark - next) == 0 {
        return Err(AggregationError::MalformedInputRow);
    }
    if !only_digits(s, from, point) || !only_digits(s, next, mark) {
        return Err(AggregationError::MalformedInputRow);
    }
    let (exponent_negative, exponent) = match read_exponent(s, mark) {
        Some(e) => e,
        None => {
            return Err(AggregationError::MalformedInputRow);
        },
    };
    let units = mantissa_units(s, from, point, next, mark, exponent_negative, exponent);
    proof {
        let exact = exponent_of(body)->Some_0;
        let held = if exponent_negative {
            -(exponent as int)
        } else {
            exponent as int
        };
        if exact != held {
            lemma_held_exponent_is_enough(
                whole + fraction,
                DECIMALS - fraction.len(),
                exact,
                held,
            );
        }
    }
    signed_units(units, negative)
}

/// Gives the units their sign, if the result is in the range of `i64`.
pub fn signed_units(units: Option<u64>, negative: bool) -> (r: Result<i64, AggregationError>)
    ensures
        r == match units {
            Some(u) => {
                let v = if negative {
                    -(u as int)
                } else {
                    u as int
                };
                if i64::MIN <= v <= i64::MAX {
                    Ok::<i64, AggregationError>(v as i64)
                } else {
                    Err::<i64, AggregationError>(AggregationError::Overflow)
                }
            },
            None => Err::<i64, AggregationError>(AggregationError::Overflow),
        },
{
    match units {
        None => Err(AggregationError::Overflow),
        Some(u) => {
            if negative {
                if u > 0x8000_0000_0000_0000 {
                    Err(AggregationError::Overflow)
                } else {
                    Ok((-(u as i128)) as i64)
                }
            } else {
                if u > 0x7fff_ffff_ffff_ffff {
                    Err(AggregationError::Overflow)
                } else {
                    Ok(u as i64)
                }
            }
        },
    }
}

} // verus!
