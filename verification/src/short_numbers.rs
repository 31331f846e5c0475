//! Reading back what was written: numbers with up to two decimal places.

use crate::decimal::{
    all_digits, decimal_text, digit_char, digit_value, digits_value, has_minus, lemma_decimal_text,
    unsigned_part,
};
use crate::natural::{lemma_power_add, lemma_power_monotone, lemma_power_positive, power};
use crate::numeral::{
    decimal_numeral, hundredths, lemma_round_cancel, nearest_decimal, short_number, single_of_text,
    two_places, Numeral,
};
use crate::rounding::{
    distance, law_nearest_is_nearest, lemma_assembled, lemma_nearest_error, lemma_round_is_nearest,
    lemma_round_to,
};
use crate::single::{
    assemble, doublings, lemma_units_increase, magnitude_units, nearest_magnitude, one_in_units,
    Single, INFINITY_MAGNITUDE,
};
use crate::text::{ascii_lower, is_digit, lemma_index_of_is, trim_end, CharClass};
use vstd::prelude::*;

verus! {

/// The number nearest to the hundredths of a number.
pub open spec fn rounded(x: Single) -> Single {
    nearest_decimal(x.negative(), hundredths(x.units()), -2)
}

/// A common factor does not change how often a divisor is doubled.
proof fn lemma_doublings_cancel(p: nat, q: nat, c: nat)
    requires
        q > 0,
        c > 0,
    ensures
        doublings(p * c, q * c) == doublings(p, q),
    decreases p - q,
{
    assert(q * c > 0) by (nonlinear_arith)
        requires
            q > 0,
            c > 0,
    ;
    assert((q * c) * 0x100_0000 == (q * 0x100_0000) * c) by (nonlinear_arith);
    if p < q * 0x100_0000 {
        assert(p * c < (q * 0x100_0000) * c) by (nonlinear_arith)
            requires
                p < q * 0x100_0000,
                c > 0,
        ;
    } else {
        assert(p * c >= (q * 0x100_0000) * c) by (nonlinear_arith)
            requires
                p >= q * 0x100_0000,
        ;
        assert(2 * (q * c) == (2 * q) * c) by (nonlinear_arith);
        lemma_doublings_cancel(p, 2 * q, c);
    }
}

/// A common factor does not change what a quotient is nearest to.
pub proof fn lemma_nearest_cancel(p: nat, q: nat, c: nat)
    requires
        q > 0,
        c > 0,
    ensures
        nearest_magnitude(p * c, q * c) == nearest_magnitude(p, q),
{
    lemma_doublings_cancel(p, q, c);
    let w = power(2, doublings(p, q));
    lemma_power_positive(2, doublings(p, q));
    assert((q * c) * w == (q * w) * c) by (nonlinear_arith);
    assert(q * w > 0) by (nonlinear_arith)
        requires
            q > 0,
            w > 0,
    ;
    lemma_round_cancel(p, q * w, c);
}

/// Zeros at the end of a fraction do not change the number.
proof fn lemma_same_decimal(negative: bool, digits: nat, k: nat)
    requires
        k <= 2,
    ensures
        nearest_decimal(negative, digits, k as int - 2) == nearest_decimal(
            negative,
            digits * power(10, k),
            -2,
        ),
{
    reveal_with_fuel(power, 3);
    let one = one_in_units();
    let c = power(10, k);
    let q = power(10, (2 - k) as nat);
    let p = digits * one;
    assert(digits * 1 * one == p) by (nonlinear_arith)
        requires
            p == digits * one,
    ;
    assert((digits * c) * 1 * one == p * c) by (nonlinear_arith)
        requires
            p == digits * one,
    ;
    lemma_power_add(10, (2 - k) as nat, k);
    assert(power(10, 2) == 100);
    lemma_power_positive(10, k);
    lemma_power_positive(10, (2 - k) as nat);
    lemma_nearest_cancel(p, q, c);
}

/// The digits of a number and of a fraction with up to two places.
spec fn fraction_text(h: nat) -> Seq<char> {
    if h % 10 != 0 {
        seq!['.', digit_char(h / 10 % 10), digit_char(h % 10)]
    } else if h / 10 % 10 != 0 {
        seq!['.', digit_char(h / 10 % 10)]
    } else {
        Seq::empty()
    }
}

spec fn sign_text(x: Single) -> Seq<char> {
    if x.negative() {
        seq!['-']
    } else {
        Seq::empty()
    }
}

proof fn lemma_digit_char(d: nat)
    requires
        d < 10,
    ensures
        is_digit(digit_char(d)),
        digit_value(digit_char(d)) == d,
        d != 0 ==> digit_char(d) != '0',
        d == 0 ==> digit_char(d) == '0',
{
}

/// The short form is the sign, the whole part, and the fraction without zeros
/// at its end.
proof fn lemma_short_form(x: Single)
    requires
        x.finite(),
    ensures
        short_number(x) == sign_text(x) + decimal_text(hundredths(x.units()) / 100) + fraction_text(
            hundredths(x.units()),
        ),
{
    let h = hundredths(x.units());
    let whole = decimal_text(h / 100);
    let c1 = digit_char(h / 10 % 10);
    let c0 = digit_char(h % 10);
    let lead = sign_text(x) + whole;
    lemma_decimal_text(h / 100);
    lemma_digit_char(h % 10);
    lemma_digit_char(h / 10 % 10);
    let zero = CharClass::Only('0');
    let point = CharClass::Only('.');
    let full = lead + seq!['.', c1, c0];
    assert(two_places(x) =~= full);
    assert(lead.len() > 0);
    assert(lead.last() == whole.last());
    assert(is_digit(whole.last()));
    if h % 10 != 0 {
        assert(full.last() == c0);
        assert(trim_end(full, zero) == full);
        assert(trim_end(full, point) == full);
        assert(full =~= lead + fraction_text(h));
    } else {
        let one_less = lead + seq!['.', c1];
        assert(full.last() == c0);
        assert(full.drop_last() =~= one_less);
        assert(one_less.last() == c1);
        if h / 10 % 10 != 0 {
            assert(trim_end(one_less, zero) == one_less);
            assert(trim_end(full, zero) == one_less);
            assert(trim_end(one_less, point) == one_less);
            assert(one_less =~= lead + fraction_text(h));
        } else {
            let two_less = lead + seq!['.'];
            assert(one_less.drop_last() =~= two_less);
            assert(two_less.last() == '.');
            assert(trim_end(two_less, zero) == two_less);
            assert(trim_end(one_less, zero) == two_less);
            assert(trim_end(full, zero) == two_less);
            assert(two_less.drop_last() =~= lead);
            assert(trim_end(lead, point) == lead);
            assert(trim_end(two_less, point) == lead);
            assert(lead =~= lead + fraction_text(h));
        }
    }
}

/// The characters of a short number are digits, a point and a minus.
pub proof fn lemma_short_chars(x: Single)
    requires
        x.finite(),
    ensures
        short_number(x).len() > 0,
        forall|i: int|
            0 <= i < short_number(x).len() ==> is_digit(#[trigger] short_number(x)[i])
                || short_number(x)[i] == '.' || short_number(x)[i] == '-',
{
    let h = hundredths(x.units());
    let sign = sign_text(x);
    let whole = decimal_text(h / 100);
    let fraction = fraction_text(h);
    lemma_short_form(x);
    lemma_decimal_text(h / 100);
    lemma_digit_char(h % 10);
    lemma_digit_char(h / 10 % 10);
    let s = short_number(x);
    assert forall|i: int| 0 <= i < s.len() implies is_digit(#[trigger] s[i]) || s[i] == '.' || s[i]
        == '-' by {
        if i < sign.len() {
            assert(s[i] == sign[i]);
        } else if i < sign.len() + whole.len() {
            assert(s[i] == whole[i - sign.len()]);
        } else {
            assert(s[i] == fraction[i - sign.len() - whole.len()]);
        }
    }
}

/// Whole part and fraction as one number.
proof fn lemma_decimal_body(negative: bool, h: nat)
    ensures
        ({
            let body = decimal_text(h / 100) + fraction_text(h);
            let k: nat = if h % 10 != 0 {
                0
            } else if h / 10 % 10 != 0 {
                1
            } else {
                2
            };
            decimal_numeral(negative, body) == Some(
                Numeral::Decimal {
                    negative,
                    digits: h / power(10, k),
                    exponent: k as int - 2,
                },
            ) && (h / power(10, k)) * power(10, k) == h
        }),
{
    let whole = decimal_text(h / 100);
    let fraction = fraction_text(h);
    let body = whole + fraction;
    let n = body.len() as int;
    lemma_decimal_text(h / 100);
    lemma_digit_char(h % 10);
    lemma_digit_char(h / 10 % 10);
    reveal_with_fuel(power, 3);
    assert forall|i: int| 0 <= i < n implies ascii_lower(body)[i] != 'e' by {
        if i < whole.len() {
            assert(body[i] == whole[i]);
        } else {
            assert(body[i] == fraction[i - whole.len()]);
        }
    }
    lemma_index_of_is(ascii_lower(body), 'e', n);
    assert(body.take(n) =~= body);
    assert forall|i: int| 0 <= i < whole.len() implies body[i] != '.' by {
        assert(body[i] == whole[i]);
    }
    if fraction.len() > 0 {
        assert(body[whole.len() as int] == fraction[0]);
    }
    lemma_index_of_is(body, '.', whole.len() as int);
    assert(body.take(whole.len() as int) =~= whole);
    let places = if fraction.len() > 0 {
        body.skip(whole.len() as int + 1)
    } else {
        Seq::empty()
    };
    let all = whole + places;
    if h % 10 != 0 {
        let tens = whole.push(digit_char(h / 10 % 10));
        assert(places =~= seq![digit_char(h / 10 % 10), digit_char(h % 10)]);
        assert(all =~= tens.push(digit_char(h % 10)));
        assert(all.drop_last() =~= tens);
        assert(tens.drop_last() =~= whole);
        assert(digits_value(tens) == (h / 100) * 10 + h / 10 % 10);
        assert(digits_value(all) == digits_value(tens) * 10 + h % 10);
    } else if h / 10 % 10 != 0 {
        assert(places =~= seq![digit_char(h / 10 % 10)]);
        assert(all =~= whole.push(digit_char(h / 10 % 10)));
        assert(all.drop_last() =~= whole);
        assert(digits_value(all) == (h / 100) * 10 + h / 10 % 10);
    } else {
        assert(all =~= whole);
    }
    assert(all_digits(places));
    let k: nat = if h % 10 != 0 {
        0
    } else if h / 10 % 10 != 0 {
        1
    } else {
        2
    };
    let w = power(10, k);
    if k == 0 {
        assert(h / w == h) by (nonlinear_arith)
            requires
                w == 1,
        ;
    } else if k == 1 {
        assert(w == 10);
        assert(h / w == h / 10);
    } else {
        assert(w == 100);
        assert(h / w == h / 100);
    }
    assert((h / w) * w == h) by (nonlinear_arith)
        requires
            w > 0,
            h % w == 0,
    ;
    assert(digits_value(all) == h / w);
    assert(places.len() == 2 - k);
}

/// What is written of a finite number with up to two places is read as the
/// number nearest to those places.
pub proof fn law_short_number_reads_back(x: Single)
    requires
        x.finite(),
    ensures
        single_of_text(short_number(x)) == Some(rounded(x)),
{
    let h = hundredths(x.units());
    let s = short_number(x);
    let sign = sign_text(x);
    let whole = decimal_text(h / 100);
    let body = whole + fraction_text(h);
    lemma_short_form(x);
    lemma_decimal_text(h / 100);
    assert(s =~= sign + body);
    assert(body[0] == whole[0]);
    assert(is_digit(body[0]));
    if x.negative() {
        assert(s[0] == '-');
        assert(s.skip(1) =~= body);
    } else {
        assert(s =~= body);
    }
    assert(unsigned_part(s) == body);
    assert(has_minus(s) == x.negative());
    reveal_strlit("inf");
    reveal_strlit("infinity");
    reveal_strlit("nan");
    assert(ascii_lower(body)[0] == body[0]);
    let k: nat = if h % 10 != 0 {
        0
    } else if h / 10 % 10 != 0 {
        1
    } else {
        2
    };
    lemma_decimal_body(x.negative(), h);
    lemma_same_decimal(x.negative(), h / power(10, k), k);
}

proof fn lemma_rounded_parts(x: Single)
    requires
        x.finite(),
    ensures
        rounded(x) == assemble(
            x.negative(),
            nearest_magnitude(hundredths(x.units()) * one_in_units(), 100),
        ),
        rounded(x).negative() == x.negative(),
        rounded(x).magnitude() == nearest_magnitude(hundredths(x.units()) * one_in_units(), 100),
        !rounded(x).nan(),
{
    let h = hundredths(x.units());
    let one = one_in_units();
    reveal_with_fuel(power, 3);
    assert(h * 1 * one == h * one) by (nonlinear_arith);
    lemma_assembled(x.negative(), nearest_magnitude(h * one, 100));
}

/// What a finite number is rounded to is finite.
pub proof fn lemma_rounded_finite(x: Single)
    requires
        x.finite(),
    ensures
        rounded(x).finite(),
{
    let u = x.units();
    let one = one_in_units();
    let h = hundredths(u);
    let p = h * one;
    let inf = INFINITY_MAGNITUDE as nat;
    let top = magnitude_units(inf);
    let last = magnitude_units((inf - 1) as nat);
    lemma_power_positive(2, 149);
    lemma_rounded_parts(x);
    lemma_round_is_nearest(u * 100, one, 0);
    law_nearest_is_nearest(p, 100, x.magnitude());
    if x.magnitude() < inf - 1 {
        lemma_units_increase(x.magnitude(), (inf - 1) as nat);
    }
    let z = power(2, 253);
    assert(power(2, 254) == 2 * z);
    assert(0x7f80_0000nat / 0x80_0000 == 255 && 0x7f80_0000nat % 0x80_0000 == 0);
    assert(0x7f7f_ffffnat / 0x80_0000 == 254 && 0x7f7f_ffffnat % 0x80_0000 == 0x7f_ffff);
    assert(top == 0x80_0000 * (2 * z));
    assert(last == 0xff_ffff * z);
    lemma_power_monotone(2, 149, 253);
    let near = distance((u * 100) as int, p as int);
    assert(2 * near <= one);
    if nearest_magnitude(p, 100) == inf {
        assert(distance((top * 100) as int, p as int) <= near);
        assert(u <= last);
        assert(top - last == z) by (nonlinear_arith)
            requires
                top == 0x80_0000 * (2 * z),
                last == 0xff_ffff * z,
        ;
        assert(false);
    }
}

/// Below 131072 the hundredths of a number survive rounding, so what is
/// written is written again, and rounding twice changes nothing more.
pub proof fn law_hundredths_are_stable(x: Single)
    requires
        x.finite(),
        hundredths(x.units()) < 13_107_200,
    ensures
        hundredths(rounded(x).units()) == hundredths(x.units()),
        short_number(rounded(x)) == short_number(x),
        rounded(rounded(x)) == rounded(x),
{
    let one = one_in_units();
    let h = hundredths(x.units());
    let p = h * one;
    let y = rounded(x);
    lemma_rounded_parts(x);
    lemma_power_add(2, 7, 142);
    lemma_power_add(2, 17, 149);
    lemma_power_positive(2, 142);
    assert(power(2, 7) == 128 && power(2, 17) == 131072) by {
        reveal_with_fuel(power, 18);
    }
    let w = power(2, 142);
    assert(p < 100 * power(2, 166)) by (nonlinear_arith)
        requires
            p == h * one,
            h < 13_107_200,
            one > 0,
            power(2, 166) == 131072 * one,
    ;
    lemma_nearest_error(p, 100, 142);
    assert(y.finite());
    assert(2 * distance((y.units() * 100) as int, p as int) < one);
    assert(distance((h * one) as int, (y.units() * 100) as int) == distance(
        (y.units() * 100) as int,
        p as int,
    ));
    lemma_round_to(y.units() * 100, one, h);
    lemma_short_form(x);
    lemma_short_form(y);
}

} // verus!
