//! Single-precision numbers as text: reading decimal notation and writing two
//! decimal places.

use crate::decimal::{
    all_digits, begins_with_minus, decimal_text, digit_char, digits_only, digits_value, has_minus,
    integer, unsigned_part, unsigned_slice,
};
use crate::natural::{
    digit_at, low_value, natural, power, proper, scale_add, scale_ten, shift_left, value, LIMB,
};
use crate::single::{
    assemble, doublings, infinity, nan, nearest, nearest_magnitude, one_in_units, round_half_even,
    round_quotient, Single, INFINITY_MAGNITUDE, NAN_BITS, SIGN_BIT,
};
use crate::text::{
    ascii_lower, ascii_lower_slice, chars_of, copy_chars, equals_str, index_of, index_of_slice,
    is_digit, string_of, trim_end, trim_end_slice, CharClass,
};
use vstd::prelude::*;

verus! {

/// What a numeral stands for.
pub enum Numeral {
    Nan,
    Infinite { negative: bool },
    /// `digits * 10^exponent`, with the given sign.
    Decimal { negative: bool, digits: nat, exponent: int },
}

/// A mantissa with an optional point and an optional exponent behind `e`.
pub open spec fn decimal_numeral(negative: bool, s: Seq<char>) -> Option<Numeral> {
    let i = index_of(ascii_lower(s), 'e') as int;
    let mantissa = s.take(i);
    let exponent = if i < s.len() {
        integer(s.skip(i + 1))
    } else {
        Some(0)
    };
    let j = index_of(mantissa, '.') as int;
    let whole = mantissa.take(j);
    let fraction = if j < mantissa.len() {
        mantissa.skip(j + 1)
    } else {
        Seq::empty()
    };
    match exponent {
        Some(e) if all_digits(whole) && all_digits(fraction) && whole.len() + fraction.len() > 0
            => Some(
            Numeral::Decimal {
                negative,
                digits: digits_value(whole + fraction),
                exponent: e - fraction.len(),
            },
        ),
        _ => None,
    }
}

/// What a text stands for as a number: an optional sign before `inf`,
/// `infinity`, `nan` or a decimal numeral, in capital or small letters.
pub open spec fn numeral(s: Seq<char>) -> Option<Numeral> {
    let body = unsigned_part(s);
    let lower = ascii_lower(body);
    if lower == "inf"@ || lower == "infinity"@ {
        Some(Numeral::Infinite { negative: has_minus(s) })
    } else if lower == "nan"@ {
        Some(Numeral::Nan)
    } else {
        decimal_numeral(has_minus(s), body)
    }
}

/// The exponent's part above zero.
pub open spec fn upward(e: int) -> nat {
    if e > 0 {
        e as nat
    } else {
        0
    }
}

/// The single-precision number nearest to `digits * 10^exponent`.
pub open spec fn nearest_decimal(negative: bool, digits: nat, exponent: int) -> Single {
    nearest(
        negative,
        digits * power(10, upward(exponent)) * one_in_units(),
        power(10, upward(-exponent)),
    )
}

/// The single-precision number nearest to what a text stands for.
pub open spec fn single_of_text(s: Seq<char>) -> Option<Single> {
    match numeral(s) {
        Some(Numeral::Nan) => Some(nan()),
        Some(Numeral::Infinite { negative }) => Some(infinity(negative)),
        Some(Numeral::Decimal { negative, digits, exponent }) => Some(
            nearest_decimal(negative, digits, exponent),
        ),
        None => None,
    }
}

// ---------------------------------------------------------------------------
// Numbers beyond the range
// ---------------------------------------------------------------------------

proof fn lemma_ten_beats_eight(n: nat)
    ensures
        power(10, n) >= power(2, 3 * n),
    decreases n,
{
    if n > 0 {
        lemma_ten_beats_eight((n - 1) as nat);
        let m = (3 * n - 3) as nat;
        assert(power(2, (m + 1) as nat) == 2 * power(2, m));
        assert(power(2, (m + 2) as nat) == 2 * power(2, (m + 1) as nat));
        assert(power(2, (m + 3) as nat) == 2 * power(2, (m + 2) as nat));
    }
}

/// Each doubling of the divisor up to the dividend is counted.
pub proof fn lemma_doublings_at_least(p: nat, d: nat, k: nat)
    requires
        d > 0,
        k > 0 ==> p >= d * power(2, (23 + k) as nat),
    ensures
        doublings(p, d) >= k,
    decreases k,
{
    if k > 0 {
        crate::natural::lemma_power_monotone(2, 24, (23 + k) as nat);
        lemma_power_small();
        assert(d * 0x100_0000 <= d * power(2, (23 + k) as nat)) by (nonlinear_arith)
            requires
                0x100_0000 <= power(2, (23 + k) as nat),
        ;
        if k > 1 {
            assert(power(2, (23 + k) as nat) == 2 * power(2, (22 + k) as nat));
            assert(d * (2 * power(2, (22 + k) as nat)) == (2 * d) * power(2, (22 + k) as nat))
                by (nonlinear_arith);
        }
        lemma_doublings_at_least(p, 2 * d, (k - 1) as nat);
    }
}

proof fn lemma_power_small()
    ensures
        power(2, 24) == 0x100_0000,
        power(2, 1) == 2,
        power(2, 0) == 1,
{
    reveal_with_fuel(power, 25);
}

/// A dividend far above the divisor rounds to infinity.
proof fn lemma_huge(p: nat, q: nat)
    requires
        q > 0,
        p >= q * power(2, 278),
    ensures
        nearest_magnitude(p, q) == INFINITY_MAGNITUDE,
{
    lemma_doublings_at_least(p, q, 255);
    let k = doublings(p, q);
    assert(k * 0x80_0000 >= 255 * 0x80_0000) by (nonlinear_arith)
        requires
            k >= 255,
    ;
}

/// A dividend below half the divisor rounds to zero.
proof fn lemma_tiny(p: nat, q: nat)
    requires
        2 * p < q,
    ensures
        nearest_magnitude(p, q) == 0,
{
    assert(p < q * 0x100_0000) by (nonlinear_arith)
        requires
            2 * p < q,
    ;
    assert(doublings(p, q) == 0);
    lemma_power_small();
    assert(q * 1 == q) by (nonlinear_arith);
    assert(0 * q == 0) by (nonlinear_arith);
    crate::single::lemma_divided(p, q, 0, p);
}

/// A decimal of more than sixty digits before the point is infinite.
proof fn lemma_decimal_huge(negative: bool, digits: nat, exponent: int, n: nat)
    requires
        n > 0,
        digits >= power(10, (n - 1) as nat),
        exponent + n > 60,
    ensures
        nearest_decimal(negative, digits, exponent) == infinity(negative),
{
    let up = upward(exponent);
    let down = upward(-exponent);
    let scaled = digits * power(10, up);
    let q = power(10, down);
    crate::natural::lemma_power_positive(10, down);
    crate::natural::lemma_power_positive(10, up);
    // digits * 10^up >= 10^(n - 1 + up) >= 10^(60 + down)
    crate::natural::lemma_power_add(10, (n - 1) as nat, up);
    assert(scaled >= power(10, (n - 1) as nat) * power(10, up)) by (nonlinear_arith)
        requires
            digits >= power(10, (n - 1) as nat),
            scaled == digits * power(10, up),
    ;
    crate::natural::lemma_power_monotone(10, (60 + down) as nat, (n - 1 + up) as nat);
    crate::natural::lemma_power_add(10, 60, down);
    lemma_ten_beats_eight(60);
    assert(scaled >= power(2, 180) * q) by (nonlinear_arith)
        requires
            scaled >= power(10, 60) * q,
            power(10, 60) >= power(2, 180),
    ;
    crate::natural::lemma_power_add(2, 180, 149);
    crate::natural::lemma_power_monotone(2, 278, 329);
    let p = scaled * one_in_units();
    assert(p >= q * power(2, 329)) by (nonlinear_arith)
        requires
            scaled >= power(2, 180) * q,
            p == scaled * one_in_units(),
            power(2, 329) == power(2, 180) * one_in_units(),
    ;
    assert(q * power(2, 329) >= q * power(2, 278)) by (nonlinear_arith)
        requires
            power(2, 329) >= power(2, 278),
    ;
    lemma_huge(p, q);
}

/// A decimal with sixty zeros behind the point is zero.
proof fn lemma_decimal_tiny(negative: bool, digits: nat, exponent: int, n: nat)
    requires
        digits < power(10, n),
        exponent + n < -60,
    ensures
        nearest_decimal(negative, digits, exponent) == assemble(negative, 0),
{
    let down = upward(-exponent);
    let q = power(10, down);
    let p = digits * power(10, 0) * one_in_units();
    assert(digits * power(10, 0) == digits) by (nonlinear_arith)
        requires
            power(10, 0) == 1,
    ;
    crate::natural::lemma_power_positive(10, n);
    crate::natural::lemma_power_positive(2, 149);
    crate::natural::lemma_power_monotone(10, (60 + n) as nat, down);
    crate::natural::lemma_power_add(10, 60, n);
    lemma_ten_beats_eight(60);
    crate::natural::lemma_power_monotone(2, 150, 180);
    assert(power(2, 150) == 2 * power(2, 149));
    assert(2 * p < 2 * one_in_units() * power(10, n)) by (nonlinear_arith)
        requires
            p == digits * one_in_units(),
            digits < power(10, n),
            one_in_units() > 0,
    ;
    assert(2 * one_in_units() * power(10, n) <= power(10, 60) * power(10, n)) by (nonlinear_arith)
        requires
            2 * one_in_units() <= power(10, 60),
    ;
    lemma_tiny(p, q);
}

// ---------------------------------------------------------------------------
// Reading
// ---------------------------------------------------------------------------

/// Above this size an exponent is far out of range, whatever stands before it.
const EXPONENT_LIMIT: i128 = 1_000_000_000_000_000_000_000_000_000_000;

/// Reads an exponent; one beyond the limit is given as some number beyond it.
fn read_exponent(s: &[char]) -> (res: Option<i128>)
    ensures
        match integer(s@) {
            Some(n) => {
                &&& res is Some
                &&& -10 * EXPONENT_LIMIT <= res->0 <= 10 * EXPONENT_LIMIT
                &&& n == res->0 || (n >= EXPONENT_LIMIT && res->0 >= EXPONENT_LIMIT) || (n
                    <= -EXPONENT_LIMIT && res->0 <= -EXPONENT_LIMIT)
            },
            None => res is None,
        },
{
    let body = unsigned_slice(s);
    if body.len() == 0 || !digits_only(body) {
        return None;
    }
    let mut n: i128 = 0;
    assert(body@.take(0) == Seq::<char>::empty());
    for i in 0..body.len()
        invariant
            all_digits(body@),
            0 <= n <= 10 * EXPONENT_LIMIT,
            n == digits_value(body@.take(i as int)) || (n >= EXPONENT_LIMIT && digits_value(
                body@.take(i as int),
            ) >= EXPONENT_LIMIT),
    {
        let c = body[i];
        assert(is_digit(body@[i as int]));
        let d: i128 = (c as u32 - '0' as u32) as i128;
        proof {
            assert(body@.take(i + 1).drop_last() == body@.take(i as int));
            assert(body@.take(i + 1).last() == c);
        }
        if n < EXPONENT_LIMIT {
            n = n * 10 + d;
        }
    }
    assert(body@.take(body@.len() as int) == body@);
    if begins_with_minus(s) {
        Some(-n)
    } else {
        Some(n)
    }
}

/// The number written by digits, exactly.
fn read_digits(s: &[char]) -> (out: Vec<u32>)
    requires
        all_digits(s@),
    ensures
        proper(out@, LIMB as nat),
        value(out@, LIMB as nat) == digits_value(s@),
{
    let mut out = natural(0);
    assert(s@.take(0) == Seq::<char>::empty());
    for i in 0..s.len()
        invariant
            all_digits(s@),
            proper(out@, LIMB as nat),
            value(out@, LIMB as nat) == digits_value(s@.take(i as int)),
    {
        let c = s[i];
        assert(is_digit(s@[i as int]));
        proof {
            assert(s@.take(i + 1).drop_last() == s@.take(i as int));
            assert(s@.take(i + 1).last() == c);
        }
        scale_add(&mut out, LIMB, 10, c as u32 - '0' as u32);
    }
    assert(s@.take(s@.len() as int) == s@);
    out
}

/// The number nearest to `digits * 10^exponent`, the digits given as text.
fn round_decimal(negative: bool, digits: &[char], exponent: i128) -> (res: Single)
    requires
        all_digits(digits@),
        -20 * EXPONENT_LIMIT <= exponent <= 20 * EXPONENT_LIMIT,
    ensures
        res == nearest_decimal(negative, digits_value(digits@), exponent as int),
{
    let mut start: usize = 0;
    assert(digits@.skip(0) == digits@);
    while start < digits.len() && digits[start] == '0'
        invariant
            start <= digits@.len(),
            digits_value(digits@) == digits_value(digits@.skip(start as int)),
        decreases digits@.len() - start,
    {
        proof {
            crate::decimal::lemma_digits_value_push_front(digits@.skip(start as int));
            assert(digits@.skip(start as int).skip(1) == digits@.skip(start + 1));
        }
        start = start + 1;
    }
    let sig = &digits[start..digits.len()];
    assert(sig@ == digits@.skip(start as int));
    assert forall|i: int| 0 <= i < sig@.len() implies is_digit(#[trigger] sig@[i]) by {
        assert(is_digit(digits@[start + i]));
    }
    let n: i128 = sig.len() as i128;
    let ghost d = digits_value(sig@);
    proof {
        crate::decimal::lemma_digits_value_bound(sig@);
    }
    if n > 0 && exponent + n > 60 {
        proof {
            crate::decimal::lemma_digits_value_at_least(sig@);
            lemma_decimal_huge(negative, d, exponent as int, n as nat);
        }
        return infinite_single(negative);
    }
    if exponent + n < -60 {
        proof {
            lemma_decimal_tiny(negative, d, exponent as int, n as nat);
        }
        return zero_single(negative);
    }
    if n == 0 {
        proof {
            lemma_zero_decimal(negative, exponent as int);
        }
        return zero_single(negative);
    }
    let mut p = read_digits(sig);
    let mut q = natural(1);
    if exponent > 0 {
        scale_ten(&mut p, exponent as u128);
    } else {
        scale_ten(&mut q, (-exponent) as u128);
        proof {
            assert(d * power(10, 0) == d) by (nonlinear_arith)
                requires
                    power(10, 0) == 1,
            ;
        }
    }
    shift_left(&mut p, 149);
    proof {
        let down = upward(-(exponent as int));
        crate::natural::lemma_power_positive(10, down);
        assert(1 * power(10, down) == power(10, down)) by (nonlinear_arith);
    }
    round_quotient(negative, p, q)
}

proof fn lemma_zero_decimal(negative: bool, exponent: int)
    ensures
        nearest_decimal(negative, 0, exponent) == assemble(negative, 0),
{
    let q = power(10, upward(-exponent));
    crate::natural::lemma_power_positive(10, upward(-exponent));
    assert(0 * power(10, upward(exponent)) * one_in_units() == 0) by (nonlinear_arith);
    lemma_tiny(0, q);
}

fn infinite_single(negative: bool) -> (res: Single)
    ensures
        res == infinity(negative),
{
    if negative {
        Single { bits: INFINITY_MAGNITUDE + SIGN_BIT }
    } else {
        Single { bits: INFINITY_MAGNITUDE }
    }
}

fn zero_single(negative: bool) -> (res: Single)
    ensures
        res == assemble(negative, 0),
{
    if negative {
        Single { bits: SIGN_BIT }
    } else {
        Single { bits: 0 }
    }
}

/// Reads a number: the nearest single-precision number to what the text says.
pub fn read_single(s: &[char]) -> (res: Option<Single>)
    ensures
        res == single_of_text(s@),
{
    let body = unsigned_slice(s);
    let negative = begins_with_minus(s);
    let lower = ascii_lower_slice(body);
    if equals_str(&lower, "inf") || equals_str(&lower, "infinity") {
        return Some(infinite_single(negative));
    }
    if equals_str(&lower, "nan") {
        return Some(Single { bits: NAN_BITS });
    }
    let i = index_of_slice(&lower, 'e');
    assert(lower@.len() == body@.len());
    let mantissa = &body[0..i];
    assert(mantissa@ == body@.take(i as int));
    let e: i128 = if i < body.len() {
        let tail = &body[i + 1..body.len()];
        assert(tail@ == body@.skip(i + 1));
        match read_exponent(tail) {
            Some(e) => e,
            None => {
                return None;
            },
        }
    } else {
        0
    };
    let j = index_of_slice(mantissa, '.');
    let whole = &mantissa[0..j];
    assert(whole@ == mantissa@.take(j as int));
    let fraction = if j < mantissa.len() {
        let f = &mantissa[j + 1..mantissa.len()];
        assert(f@ == mantissa@.skip(j + 1));
        f
    } else {
        let f = &mantissa[j..j];
        assert(f@ == Seq::<char>::empty());
        f
    };
    if !digits_only(whole) || !digits_only(fraction) || (whole.len() == 0 && fraction.len() == 0) {
        return None;
    }
    let mut digits = copy_chars(whole);
    let mut more = copy_chars(fraction);
    digits.append(&mut more);
    assert(digits@ == whole@ + fraction@);
    assert forall|k: int| 0 <= k < digits@.len() implies is_digit(#[trigger] digits@[k]) by {
        if k < whole@.len() {
            assert(is_digit(whole@[k]));
        } else {
            assert(is_digit(fraction@[k - whole@.len()]));
        }
    }
    let exponent: i128 = e - fraction.len() as i128;
    let res = round_decimal(negative, &digits, exponent);
    proof {
        let d = digits_value(digits@);
        let true_e = if i < body@.len() {
            integer(body@.skip(i + 1))->0
        } else {
            0
        };
        lemma_far_exponent(negative, digits@, e as int, true_e, fraction@.len());
    }
    Some(res)
}

/// Two exponents beyond the limit on the same side give the same number.
proof fn lemma_far_exponent(negative: bool, digits: Seq<char>, e: int, f: int, n: nat)
    requires
        all_digits(digits),
        digits.len() <= usize::MAX,
        n <= usize::MAX,
        e == f || (e >= EXPONENT_LIMIT && f >= EXPONENT_LIMIT) || (e <= -EXPONENT_LIMIT && f
            <= -EXPONENT_LIMIT),
    ensures
        nearest_decimal(negative, digits_value(digits), e - n) == nearest_decimal(
            negative,
            digits_value(digits),
            f - n,
        ),
{
    let d = digits_value(digits);
    crate::decimal::lemma_digits_value_bound(digits);
    if e != f {
        if d == 0 {
            lemma_zero_decimal(negative, e - n);
            lemma_zero_decimal(negative, f - n);
        } else if e >= EXPONENT_LIMIT {
            assert(power(10, 0) == 1);
            lemma_decimal_huge(negative, d, e - n, 1);
            lemma_decimal_huge(negative, d, f - n, 1);
        } else {
            lemma_decimal_tiny(negative, d, e - n, digits.len());
            lemma_decimal_tiny(negative, d, f - n, digits.len());
        }
    }
}

// ---------------------------------------------------------------------------
// Writing
// ---------------------------------------------------------------------------

/// The number of hundredths nearest to a number of units, a tie to the even.
pub open spec fn hundredths(units: nat) -> nat {
    round_half_even(units * 100, one_in_units())
}

/// A number of hundredths with a point before the last two digits.
pub open spec fn hundredths_text(h: nat) -> Seq<char> {
    decimal_text(h / 100) + seq!['.', digit_char(h / 10 % 10), digit_char(h % 10)]
}

/// A number with two decimal places.
pub open spec fn two_places(x: Single) -> Seq<char> {
    if x.nan() {
        "NaN"@
    } else {
        let sign = if x.negative() {
            seq!['-']
        } else {
            Seq::empty()
        };
        sign + (if x.infinite() {
            "inf"@
        } else {
            hundredths_text(hundredths(x.units()))
        })
    }
}

/// A number with up to two decimal places: no zeros at the end of the
/// fraction, and no point without a fraction.
pub open spec fn short_number(x: Single) -> Seq<char> {
    trim_end(trim_end(two_places(x), CharClass::Only('0')), CharClass::Only('.'))
}

/// A common factor does not change what a quotient rounds to.
pub proof fn lemma_round_cancel(p: nat, d: nat, c: nat)
    requires
        d > 0,
        c > 0,
    ensures
        round_half_even(p * c, d * c) == round_half_even(p, d),
{
    let n = p / d;
    let r = p % d;
    vstd::arithmetic::div_mod::lemma_fundamental_div_mod(p as int, d as int);
    assert(p == n * d + r) by (nonlinear_arith)
        requires
            p == d * n + r,
    ;
    assert(p * c == n * (d * c) + r * c) by (nonlinear_arith)
        requires
            p == n * d + r,
    ;
    assert(r * c < d * c) by (nonlinear_arith)
        requires
            r < d,
            c > 0,
    ;
    crate::single::lemma_divided(p * c, d * c, n, r * c);
    assert(2 * (r * c) == (2 * r) * c) by (nonlinear_arith);
    if 2 * r > d {
        assert((2 * r) * c > d * c) by (nonlinear_arith)
            requires
                2 * r > d,
                c > 0,
        ;
    } else if 2 * r < d {
        assert((2 * r) * c < d * c) by (nonlinear_arith)
            requires
                2 * r < d,
                c > 0,
        ;
    }
}

/// Two to the power `n`.
fn power_of_two(n: u32) -> (res: u64)
    requires
        n <= 40,
    ensures
        res == power(2, n as nat),
{
    let mut res: u64 = 1;
    let mut i: u32 = 0;
    reveal_with_fuel(power, 2);
    while i < n
        invariant
            i <= n <= 40,
            res == power(2, i as nat),
            res <= 0x100_0000_0000,
        decreases n - i,
    {
        proof {
            lemma_power_40();
            crate::natural::lemma_power_monotone(2, (i + 1) as nat, 40);
            assert(power(2, (i + 1) as nat) == 2 * power(2, i as nat));
        }
        res = res * 2;
        i = i + 1;
    }
    res
}

proof fn lemma_power_40()
    ensures
        power(2, 40) == 0x100_0000_0000,
{
    reveal_with_fuel(power, 41);
}

/// The decimal digits of a number, the least significant first.
fn decimal_digits(n: u64) -> (out: Vec<u32>)
    ensures
        proper(out@, 10),
        value(out@, 10) == n,
{
    let mut out: Vec<u32> = Vec::new();
    let mut rest: u64 = n;
    assert(rest * 1 == rest) by (nonlinear_arith);
    while rest > 0
        invariant
            proper(out@, 10),
            value(out@, 10) + rest * power(10, out@.len()) == n,
        decreases rest,
    {
        let low: u64 = rest % 10;
        let next: u64 = rest / 10;
        let ghost prev = out@;
        out.push(low as u32);
        proof {
            let p = power(10, prev.len());
            crate::natural::lemma_low_value_same(out@, prev, 10, prev.len());
            assert(digit_at(out@, prev.len() as int) == low);
            assert(power(10, out@.len()) == 10 * p);
            assert(low * p + next * (10 * p) == rest * p) by (nonlinear_arith)
                requires
                    rest == next * 10 + low,
            ;
        }
        rest = next;
    }
    assert(0 * power(10, out@.len()) == 0) by (nonlinear_arith);
    out
}

/// The hundredths of a finite number, as decimal digits.
fn hundredths_digits(x: Single) -> (out: Vec<u32>)
    requires
        x.finite(),
    ensures
        proper(out@, 10),
        value(out@, 10) == hundredths(x.units()),
{
    let (m, e) = x.parts();
    let ghost pe = power(2, e as nat);
    let ghost one = one_in_units();
    proof {
        crate::natural::lemma_power_positive(2, e as nat);
        crate::natural::lemma_power_positive(2, 149);
    }
    let c: u64 = (m as u64) * 100;
    assert(x.units() * 100 == c * pe) by (nonlinear_arith)
        requires
            x.units() == m * pe,
            c == m * 100,
    ;
    if e >= 149 {
        let shift: u32 = e - 149;
        let mut out = decimal_digits(c);
        let mut i: u32 = 0;
        assert(c * 1 == c) by (nonlinear_arith);
        while i < shift
            invariant
                i <= shift,
                proper(out@, 10),
                value(out@, 10) == c * power(2, i as nat),
            decreases shift - i,
        {
            scale_add(&mut out, 10, 2, 0);
            proof {
                let p = power(2, i as nat);
                assert(power(2, (i + 1) as nat) == 2 * p);
                assert((c * p) * 2 == c * (2 * p)) by (nonlinear_arith);
            }
            i = i + 1;
        }
        proof {
            let h = c * power(2, shift as nat);
            crate::natural::lemma_power_add(2, shift as nat, 149);
            assert(c * pe == h * one + 0) by (nonlinear_arith)
                requires
                    pe == power(2, shift as nat) * one,
                    h == c * power(2, shift as nat),
            ;
            crate::single::lemma_divided((c * pe) as nat, one, h as nat, 0);
        }
        return out;
    }
    let shift: u32 = 149 - e;
    proof {
        let d = power(2, shift as nat);
        crate::natural::lemma_power_positive(2, shift as nat);
        crate::natural::lemma_power_add(2, shift as nat, e as nat);
        lemma_round_cancel(c as nat, d, pe);
        assert(hundredths(x.units()) == round_half_even(c as nat, d));
    }
    if shift > 40 {
        proof {
            let d = power(2, shift as nat);
            lemma_power_40();
            crate::natural::lemma_power_monotone(2, 40, shift as nat);
            assert(0 * d == 0) by (nonlinear_arith);
            crate::single::lemma_divided(c as nat, d, 0, c as nat);
        }
        return decimal_digits(0);
    }
    let d = power_of_two(shift);
    let n: u64 = c / d;
    let r: u64 = c % d;
    proof {
        lemma_power_40();
        crate::natural::lemma_power_monotone(2, shift as nat, 40);
        crate::natural::lemma_power_positive(2, shift as nat);
        vstd::arithmetic::div_mod::lemma_div_is_ordered_by_denominator(c as int, 1, d as int);
    }
    let h: u64 = if 2 * r > d || (2 * r == d && n % 2 == 1) {
        n + 1
    } else {
        n
    };
    decimal_digits(h)
}

fn char_of_digit(d: u32) -> (res: char)
    requires
        d < 10,
    ensures
        res == digit_char(d as nat),
{
    ('0' as u8 + d as u8) as char
}

fn digit_or_zero(l: &Vec<u32>, i: usize) -> (res: u32)
    requires
        proper(l@, 10),
    ensures
        res == digit_at(l@, i as int),
        res < 10,
{
    if i < l.len() {
        l[i]
    } else {
        0
    }
}

/// The number written by the digits from index `i` on.
spec fn high_value(l: Seq<u32>, i: int) -> nat
    decreases l.len() - i,
{
    if 0 <= i < l.len() {
        (l[i] + 10 * high_value(l, i + 1)) as nat
    } else {
        0
    }
}

proof fn lemma_high_value(l: Seq<u32>, i: int)
    requires
        0 <= i <= l.len(),
    ensures
        value(l, 10) == low_value(l, 10, i as nat) + high_value(l, i) * power(10, i as nat),
    decreases l.len() - i,
{
    if i < l.len() {
        lemma_high_value(l, i + 1);
        let p = power(10, i as nat);
        let h = high_value(l, i + 1);
        assert(power(10, (i + 1) as nat) == 10 * p);
        assert(digit_at(l, i) == l[i]);
        assert((l[i] + 10 * h) * p == l[i] * p + h * (10 * p)) by (nonlinear_arith);
    } else {
        assert(0 * power(10, i as nat) == 0) by (nonlinear_arith);
    }
}

proof fn lemma_last_two_digits(l: Seq<u32>)
    ensures
        value(l, 10) == digit_at(l, 0) + 10 * digit_at(l, 1) + 100 * high_value(l, 2),
{
    reveal_with_fuel(low_value, 3);
    reveal_with_fuel(power, 3);
    assert(power(10, 0) == 1 && power(10, 1) == 10 && power(10, 2) == 100);
    let d0 = digit_at(l, 0);
    let d1 = digit_at(l, 1);
    assert(low_value(l, 10, 2) == d0 * 1 + d1 * 10);
    if l.len() >= 2 {
        lemma_high_value(l, 2);
        let h = high_value(l, 2);
        assert(h * power(10, 2) == 100 * h) by (nonlinear_arith)
            requires
                power(10, 2) == 100,
        ;
    } else {
        crate::natural::lemma_low_value_beyond(l, 10, 2);
        assert(high_value(l, 2) == 0);
    }
}

/// Writes a number of hundredths, given by its digits.
fn write_hundredths(l: &Vec<u32>, out: &mut String)
    requires
        proper(l@, 10),
    ensures
        final(out)@ == old(out)@ + hundredths_text(value(l@, 10)),
{
    let ghost h = value(l@, 10);
    let ghost start = out@;
    let mut top: usize = l.len();
    assert(high_value(l@, l@.len() as int) == 0);
    while top > 2 && l[top - 1] == 0
        invariant
            top <= l@.len(),
            l@.len() >= 2 ==> top >= 2,
            high_value(l@, top as int) == 0,
        decreases top,
    {
        top = top - 1;
    }
    let ghost whole = high_value(l@, 2);
    proof {
        lemma_last_two_digits(l@);
    }
    if top <= 2 {
        out.push('0');
        assert(whole == 0) by {
            if l@.len() <= 2 {
                assert(high_value(l@, 2) == 0);
            }
        }
        assert(out@ == start + decimal_text(0));
    } else {
        let mut i: usize = top - 1;
        assert(high_value(l@, i as int) == l@[i as int]);
        out.push(char_of_digit(l[i]));
        assert(out@ == start + decimal_text(high_value(l@, i as int)));
        while i > 2
            invariant
                2 <= i < l@.len(),
                proper(l@, 10),
                high_value(l@, i as int) > 0,
                out@ == start + decimal_text(high_value(l@, i as int)),
            decreases i,
        {
            let ghost prev = out@;
            i = i - 1;
            out.push(char_of_digit(l[i]));
            proof {
                let v = high_value(l@, i as int);
                assert(v == l@[i as int] + 10 * high_value(l@, i + 1));
                assert(v >= 10 && v / 10 == high_value(l@, i + 1) && v % 10 == l@[i as int]);
                assert(decimal_text(v) == decimal_text(v / 10).push(digit_char(v % 10)));
                assert(out@ == start + decimal_text(v));
            }
        }
    }
    out.push('.');
    out.push(char_of_digit(digit_or_zero(l, 1)));
    out.push(char_of_digit(digit_or_zero(l, 0)));
    proof {
        assert(h / 100 == whole);
        assert(h / 10 % 10 == digit_at(l@, 1));
        assert(h % 10 == digit_at(l@, 0));
        assert(out@ == start + hundredths_text(h));
    }
}

/// Writes a number with two decimal places.
pub fn write_two_places(x: Single) -> (out: String)
    ensures
        out@ == two_places(x),
{
    if x.is_nan() {
        return "NaN".to_owned();
    }
    let mut out = String::new();
    if x.bits >= SIGN_BIT {
        out.push('-');
        assert(out@ == seq!['-']);
    }
    if x.is_infinite() {
        out.append("inf");
    } else {
        let l = hundredths_digits(x);
        write_hundredths(&l, &mut out);
    }
    out
}

/// Writes a number with as many of two decimal places as it needs.
pub fn trim_number(x: Single) -> (out: String)
    ensures
        out@ == short_number(x),
{
    let text = write_two_places(x);
    let chars = chars_of(text.as_str());
    string_of(
        trim_end_slice(trim_end_slice(&chars, CharClass::Only('0')), CharClass::Only('.')),
    )
}

} // verus!
