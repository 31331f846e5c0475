//! What rounding to the nearest single-precision number guarantees.

use crate::natural::{lemma_power_add, lemma_power_monotone, lemma_power_positive, power};
use crate::numeral::{lemma_doublings_at_least, lemma_round_cancel};
use crate::single::{
    assemble, doublings, lemma_divided, lemma_units_increase, magnitude_of, magnitude_units,
    nearest, nearest_magnitude, round_half_even, Single, BINADE, INFINITY_MAGNITUDE,
};
use vstd::prelude::*;

verus! {

/// A quotient below 2^(24 + k) needs at most `k` doublings of its divisor.
pub proof fn lemma_doublings_at_most(p: nat, q: nat, k: nat)
    requires
        p < q * power(2, 24 + k),
    ensures
        doublings(p, q) <= k,
    decreases k,
{
    if !(p < q * 0x100_0000) {
        if k == 0 {
            lemma_power_23();
            let t = power(2, 24);
            assert(q * t == q * 0x100_0000) by (nonlinear_arith)
                requires
                    t == 0x100_0000,
            ;
        } else {
            let w = power(2, (23 + k) as nat);
            assert(power(2, 24 + k) == 2 * w);
            assert(q * (2 * w) == (2 * q) * w) by (nonlinear_arith);
            lemma_doublings_at_most(p, 2 * q, (k - 1) as nat);
        }
    }
}

/// A quotient from 2^(23 + k) to 2^(24 + k) needs `k` doublings.
pub proof fn lemma_doublings_exactly(p: nat, q: nat, k: nat)
    requires
        q > 0,
        k > 0 ==> q * power(2, 23 + k) <= p,
        p < q * power(2, 24 + k),
    ensures
        doublings(p, q) == k,
{
    lemma_doublings_at_most(p, q, k);
    lemma_doublings_at_least(p, q, k);
}

proof fn lemma_power_23()
    ensures
        power(2, 23) == 0x80_0000,
        power(2, 24) == 0x100_0000,
{
    reveal_with_fuel(power, 25);
}

/// The magnitude nearest to `(p * 2^k) / q` units, where `p / q` has 24 bits.
pub proof fn lemma_nearest_normal(p: nat, q: nat, k: nat)
    requires
        q * power(2, 23) <= p < q * power(2, 24),
        k < 0xfd,
    ensures
        nearest_magnitude(p * power(2, k), q) == k * (BINADE as nat) + round_half_even(p, q),
{
    let w = power(2, k);
    let a = power(2, 23);
    let b = power(2, 24);
    let r = round_half_even(p, q);
    if q == 0 {
        assert(q * b == 0) by (nonlinear_arith)
            requires
                q == 0,
        ;
    }
    assert(doublings(p * w, q) == k) by {
        lemma_power_positive(2, k);
        lemma_power_add(2, 23, k);
        lemma_power_add(2, 24, k);
        assert(q * (a * w) <= p * w) by (nonlinear_arith)
            requires
                q * a <= p,
        ;
        assert(p * w < q * (b * w)) by (nonlinear_arith)
            requires
                p < q * b,
                w > 0,
        ;
        lemma_doublings_exactly(p * w, q, k);
    }
    assert(round_half_even(p * w, q * w) == r) by {
        lemma_power_positive(2, k);
        lemma_round_cancel(p, q, w);
    }
    assert(r <= 0x100_0000) by {
        lemma_power_23();
        assert(q * 0x80_0000 <= p && p < q * 0x100_0000) by (nonlinear_arith)
            requires
                q * a <= p,
                p < q * b,
                a == 0x80_0000,
                b == 0x100_0000,
        ;
        lemma_round_bounds(p, q, 0x80_0000, 0x100_0000);
    }
    assert(k * 0x80_0000 + r < 0x7f80_0000);
    assert(nearest_magnitude(p * w, q) == k * 0x80_0000 + r);
}

/// Rounding stays between whole bounds.
pub proof fn lemma_round_bounds(p: nat, d: nat, low: nat, high: nat)
    requires
        d > 0,
        d * low <= p <= d * high,
    ensures
        low <= round_half_even(p, d) <= high,
{
    let n = p / d;
    let r = p % d;
    vstd::arithmetic::div_mod::lemma_fundamental_div_mod(p as int, d as int);
    assert(low <= n) by (nonlinear_arith)
        requires
            d * low <= d * n + r,
            r < d,
    ;
    assert(n < high || (n == high && r == 0)) by (nonlinear_arith)
        requires
            d * n + r <= d * high,
            r >= 0,
            d > 0,
    ;
}

/// Rounding gives a number or an infinity with the sign asked for.
pub proof fn lemma_assembled(negative: bool, magnitude: nat)
    requires
        magnitude <= INFINITY_MAGNITUDE,
    ensures
        assemble(negative, magnitude).magnitude() == magnitude,
        assemble(negative, magnitude).negative() == negative,
        !assemble(negative, magnitude).nan(),
{
}

/// What the number of doublings says of a quotient.
pub proof fn lemma_doublings_bounds(p: nat, q: nat)
    requires
        q > 0,
    ensures
        p < q * power(2, 24 + doublings(p, q)),
        doublings(p, q) > 0 ==> q * power(2, 23 + doublings(p, q)) <= p,
    decreases p - q,
{
    lemma_power_23();
    let t = power(2, 24);
    assert(q * t == q * 0x100_0000) by (nonlinear_arith)
        requires
            t == 0x100_0000,
    ;
    if p >= q * 0x100_0000 {
        let k = doublings(p, 2 * q);
        lemma_doublings_bounds(p, 2 * q);
        let u = power(2, 24 + k);
        assert(power(2, 25 + k) == 2 * u);
        assert((2 * q) * u == q * (2 * u)) by (nonlinear_arith);
        if k > 0 {
            let v = power(2, 23 + k);
            assert((2 * q) * v == q * (2 * v)) by (nonlinear_arith);
            assert(power(2, (24 + k) as nat) == 2 * v);
        }
    }
}

/// The units of a magnitude that is put together from a power of two and 24
/// bits.
pub proof fn lemma_units_of_parts(k: nat, r: nat)
    requires
        r <= 2 * BINADE,
        k > 0 ==> r >= BINADE,
    ensures
        magnitude_units(k * (BINADE as nat) + r) == r * power(2, k),
{
    let b = BINADE as nat;
    let m = k * b + r;
    if r < b {
        assert(k == 0);
        assert(m == r) by (nonlinear_arith)
            requires
                m == k * b + r,
                k == 0,
        ;
        assert(r * 1 == r) by (nonlinear_arith);
    } else if r < 2 * b {
        assert(m == (k + 1) * b + (r - b)) by (nonlinear_arith)
            requires
                m == k * b + r,
        ;
        lemma_divided(m, b, k + 1, (r - b) as nat);
    } else {
        assert(m == (k + 2) * b + 0) by (nonlinear_arith)
            requires
                m == k * b + r,
                r == 2 * b,
        ;
        lemma_divided(m, b, k + 2, 0);
        let w = power(2, k);
        assert(power(2, (k + 1) as nat) == 2 * w);
        assert(b * (2 * w) == (2 * b) * w) by (nonlinear_arith);
    }
}

/// The distance of two numbers.
pub open spec fn distance(a: int, b: int) -> int {
    if a >= b {
        a - b
    } else {
        b - a
    }
}

/// No whole number is nearer to a quotient than what it is rounded to.
pub proof fn lemma_round_is_nearest(p: nat, d: nat, n: nat)
    requires
        d > 0,
    ensures
        distance((round_half_even(p, d) * d) as int, p as int) <= distance(
            (n * d) as int,
            p as int,
        ),
        2 * distance((round_half_even(p, d) * d) as int, p as int) <= d,
{
    let t = p / d;
    let r = p % d;
    vstd::arithmetic::div_mod::lemma_fundamental_div_mod(p as int, d as int);
    assert(p == t * d + r) by (nonlinear_arith)
        requires
            p == d * t + r,
    ;
    assert((t + 1) * d == t * d + d) by (nonlinear_arith);
    if n <= t {
        assert(n * d <= t * d) by (nonlinear_arith)
            requires
                n <= t,
        ;
    } else {
        assert(n * d >= (t + 1) * d) by (nonlinear_arith)
            requires
                n >= t + 1,
        ;
    }
}

/// The power of two of a magnitude.
spec fn unit_power(m: nat) -> nat {
    if m < BINADE as nat {
        0
    } else {
        (m / (BINADE as nat) - 1) as nat
    }
}

/// The 24 bits of a magnitude.
spec fn unit_bits(m: nat) -> nat {
    if m < BINADE as nat {
        m
    } else {
        m % (BINADE as nat) + BINADE as nat
    }
}

/// The units of a magnitude are its 24 bits times its power of two.
proof fn lemma_parts_of_units(m: nat)
    ensures
        magnitude_units(m) == unit_bits(m) * power(2, unit_power(m)),
        unit_bits(m) < 2 * BINADE,
{
    if m < BINADE as nat {
        assert(m * 1 == m) by (nonlinear_arith);
    }
}

/// A product of a number and a power of two, with a larger power taken out.
proof fn lemma_multiple(s: nat, j: nat, k: nat, q: nat)
    requires
        k <= j,
    ensures
        (s * power(2, j)) * q == (s * power(2, (j - k) as nat)) * (q * power(2, k)),
{
    lemma_power_add(2, (j - k) as nat, k);
    let u = power(2, (j - k) as nat);
    let w = power(2, k);
    assert((s * (u * w)) * q == (s * u) * (q * w)) by (nonlinear_arith);
}

/// The parts that a quotient is rounded to: 24 bits times a power of two.
proof fn lemma_rounded_shape(p: nat, q: nat)
    requires
        q > 0,
    ensures
        ({
            let k = doublings(p, q);
            let d = q * power(2, k);
            let r = round_half_even(p, d);
            &&& d > 0
            &&& r <= 2 * BINADE
            &&& k > 0 ==> r >= BINADE
            &&& magnitude_units(k * (BINADE as nat) + r) * q == r * d
        }),
{
    let b = BINADE as nat;
    let k = doublings(p, q);
    let w = power(2, k);
    let d = q * w;
    let r = round_half_even(p, d);
    lemma_power_positive(2, k);
    assert(d > 0) by (nonlinear_arith)
        requires
            d == q * w,
            q > 0,
            w > 0,
    ;
    lemma_doublings_bounds(p, q);
    lemma_power_add(2, 24, k);
    lemma_power_add(2, 23, k);
    lemma_power_23();
    assert(q * (0x100_0000 * w) == d * 0x100_0000) by (nonlinear_arith)
        requires
            d == q * w,
    ;
    assert(q * (0x80_0000 * w) == d * 0x80_0000) by (nonlinear_arith)
        requires
            d == q * w,
    ;
    lemma_round_bounds(
        p,
        d,
        if k > 0 {
            b
        } else {
            0
        },
        2 * b,
    );
    lemma_units_of_parts(k, r);
    assert((r * w) * q == r * d) by (nonlinear_arith)
        requires
            d == q * w,
    ;
}

/// No magnitude is nearer to a quotient than the one it is rounded to.
/// Infinity counts as the number one step above the largest.
pub proof fn law_nearest_is_nearest(p: nat, q: nat, m: nat)
    requires
        q > 0,
        m <= INFINITY_MAGNITUDE,
    ensures
        distance((magnitude_units(nearest_magnitude(p, q)) * q) as int, p as int) <= distance(
            (magnitude_units(m) * q) as int,
            p as int,
        ),
{
    let inf = INFINITY_MAGNITUDE as nat;
    let k = doublings(p, q);
    let d = q * power(2, k);
    let full = k * (BINADE as nat) + round_half_even(p, d);
    lemma_rounded_shape(p, q);
    // The distance of the unbounded result is the smallest.
    lemma_unbounded_is_nearest(p, q, m);
    if full > inf {
        // All magnitudes up to infinity lie below the quotient.
        lemma_unbounded_is_nearest(p, q, inf);
        lemma_units_increase(inf, full);
        if m < inf {
            lemma_units_increase(m, inf);
        }
        let top = magnitude_units(inf) * q;
        let here = magnitude_units(m) * q;
        assert(here <= top) by (nonlinear_arith)
            requires
                here == magnitude_units(m) * q,
                top == magnitude_units(inf) * q,
                magnitude_units(m) <= magnitude_units(inf),
        ;
        assert(top <= p) by {
            lemma_top_below(p, q);
        }
    }
}

/// Where the unbounded result lies above infinity, infinity lies below the
/// quotient.
proof fn lemma_top_below(p: nat, q: nat)
    requires
        q > 0,
        doublings(p, q) * (BINADE as nat) + round_half_even(p, q * power(2, doublings(p, q)))
            > INFINITY_MAGNITUDE,
    ensures
        magnitude_units(INFINITY_MAGNITUDE as nat) * q <= p,
{
    let b = BINADE as nat;
    let k = doublings(p, q);
    let w = power(2, k);
    let d = q * w;
    let r = round_half_even(p, d);
    let t = magnitude_units(INFINITY_MAGNITUDE as nat);
    let z = power(2, 254);
    assert(t == b * z) by {
        assert(0x7f80_0000nat / 0x80_0000 == 255);
        assert(0x7f80_0000nat % 0x80_0000 == 0);
    }
    lemma_power_positive(2, k);
    lemma_power_positive(2, 254);
    assert(d > 0) by (nonlinear_arith)
        requires
            d == q * w,
            q > 0,
            w > 0,
    ;
    lemma_doublings_bounds(p, q);
    lemma_power_add(2, 23, k);
    lemma_power_add(2, 24, k);
    lemma_power_23();
    assert(p <= d * 0x100_0000) by (nonlinear_arith)
        requires
            p < q * (0x100_0000 * w),
            d == q * w,
    ;
    lemma_round_bounds(p, d, 0, 2 * b);
    assert(r <= 2 * b);
    assert(k >= 254) by (nonlinear_arith)
        requires
            k * b + r > 255 * b,
            r <= 2 * b,
            b > 0,
    ;
    if k >= 255 || k == 254 {
        lemma_power_monotone(2, 254, k);
        assert(q * (0x80_0000 * w) <= p);
        assert((b * z) * q <= q * (b * w)) by (nonlinear_arith)
            requires
                z <= w,
        ;
    }
}

/// The result of rounding without an upper limit is nearest to the quotient.
proof fn lemma_unbounded_is_nearest(p: nat, q: nat, m: nat)
    requires
        q > 0,
    ensures
        ({
            let d = q * power(2, doublings(p, q));
            distance((round_half_even(p, d) * d) as int, p as int) <= distance(
                (magnitude_units(m) * q) as int,
                p as int,
            )
        }),
{
    let b = BINADE as nat;
    let k = doublings(p, q);
    let w = power(2, k);
    let d = q * w;
    lemma_power_positive(2, k);
    assert(d > 0) by (nonlinear_arith)
        requires
            d == q * w,
            q > 0,
            w > 0,
    ;
    let j = unit_power(m);
    let s = unit_bits(m);
    lemma_parts_of_units(m);
    if k <= j {
        let n = s * power(2, (j - k) as nat);
        lemma_multiple(s, j, k, q);
        lemma_round_is_nearest(p, d, n);
    } else {
        // The magnitude lies below the power of two that the quotient is in.
        lemma_doublings_bounds(p, q);
        lemma_power_add(2, 23, k);
        lemma_power_23();
        assert(q * (0x80_0000 * w) == b * d) by (nonlinear_arith)
            requires
                d == q * w,
                b == 0x80_0000,
        ;
        lemma_round_is_nearest(p, d, b);
        lemma_power_monotone(2, (j + 1) as nat, k);
        let u = power(2, j);
        assert(power(2, (j + 1) as nat) == 2 * u);
        assert((s * u) * q <= b * d) by (nonlinear_arith)
            requires
                s <= 2 * b,
                2 * u <= w,
                d == q * w,
        ;
    }
}

/// A whole number that is less than a half away is what a quotient rounds to.
pub proof fn lemma_round_to(p: nat, d: nat, n: nat)
    requires
        d > 0,
        2 * distance((n * d) as int, p as int) < d,
    ensures
        round_half_even(p, d) == n,
{
    let r = round_half_even(p, d);
    lemma_round_is_nearest(p, d, n);
    if r < n {
        assert(n * d >= r * d + d) by (nonlinear_arith)
            requires
                n >= r + 1,
        ;
    } else if n < r {
        assert(r * d >= n * d + d) by (nonlinear_arith)
            requires
                r >= n + 1,
        ;
    }
}

/// How far a quotient below 2^(24 + k) is from what it is rounded to.
pub proof fn lemma_nearest_error(p: nat, q: nat, k: nat)
    requires
        q > 0,
        k < 0xfd,
        p < q * power(2, 24 + k),
    ensures
        nearest_magnitude(p, q) < INFINITY_MAGNITUDE,
        2 * distance((magnitude_units(nearest_magnitude(p, q)) * q) as int, p as int) <= q * power(
            2,
            k,
        ),
{
    let j = doublings(p, q);
    let w = power(2, j);
    let d = q * w;
    let r = round_half_even(p, d);
    lemma_doublings_at_most(p, q, k);
    lemma_power_monotone(2, j, k);
    assert(d <= q * power(2, k)) by (nonlinear_arith)
        requires
            d == q * w,
            w <= power(2, k),
    ;
    lemma_rounded_shape(p, q);
    let m = j * (BINADE as nat) + r;
    assert(m < 0x7f80_0000) by (nonlinear_arith)
        requires
            m == j * 0x80_0000 + r,
            j < 0xfd,
            r <= 0x100_0000,
    ;
    lemma_round_is_nearest(p, d, 0);
}

/// Rounding a whole number of units does not pass a number.
proof fn lemma_nearest_does_not_pass(p: nat, m: nat)
    requires
        m < INFINITY_MAGNITUDE,
    ensures
        p <= magnitude_units(m) ==> magnitude_units(nearest_magnitude(p, 1)) <= magnitude_units(m),
        p >= magnitude_units(m) ==> magnitude_units(nearest_magnitude(p, 1)) >= magnitude_units(m),
{
    law_nearest_is_nearest(p, 1, m);
    let u = magnitude_units(m);
    let v = magnitude_units(nearest_magnitude(p, 1));
    assert(u * 1 == u && v * 1 == v) by (nonlinear_arith);
}

/// A sum that is at most a finite number is rounded to at most that number,
/// and one that is at least the number to at least it.
pub proof fn lemma_sum_does_not_pass(s: int, negative_zero: bool, x: Single)
    requires
        x.finite(),
    ensures
        ({
            let negative = if s == 0 {
                negative_zero
            } else {
                s < 0
            };
            let r = nearest(negative, magnitude_of(s), 1);
            &&& !r.nan()
            &&& s <= x.scaled() ==> r.scaled() <= x.scaled()
            &&& s >= x.scaled() ==> r.scaled() >= x.scaled()
        }),
{
    let negative = if s == 0 {
        negative_zero
    } else {
        s < 0
    };
    let p = magnitude_of(s);
    let m = nearest_magnitude(p, 1);
    lemma_assembled(negative, m);
    lemma_nearest_does_not_pass(p, x.magnitude());
    if s == 0 {
        lemma_nearest_does_not_pass(p, 0);
    }
}

/// Taking away a finite number that is not negative gives no larger number,
/// and adding it gives no smaller one.
pub proof fn law_sums_do_not_pass(x: Single, d: Single)
    requires
        x.finite(),
        d.finite(),
        !d.negative(),
    ensures
        x.difference(d).at_most(x),
        x.at_most(x.sum(d)),
{
    let minus = d.negated();
    assert(minus.magnitude() == d.magnitude());
    lemma_sum_does_not_pass(
        x.scaled() + minus.scaled(),
        x.negative() && minus.negative(),
        x,
    );
    lemma_sum_does_not_pass(x.scaled() + d.scaled(), x.negative() && d.negative(), x);
}

} // verus!
