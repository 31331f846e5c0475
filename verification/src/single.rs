//! Single-precision numbers (IEEE 754 binary32) with integer arithmetic.
//!
//! A [`Single`] holds the 32 bits of such a number. Its contracts speak of
//! exact integers: every finite value is a whole number of units of 2^-149,
//! and every operation gives the representable number nearest to the exact
//! result, ties going to the even one.

use crate::natural::{
    add_to, copy_digits, less, natural, power, proper, scale_add, shift_left, subtract_from, value,
    LIMB,
};
use vstd::prelude::*;

verus! {

/// The magnitude bits of infinity.
pub const INFINITY_MAGNITUDE: u32 = 0x7f80_0000;

/// The bit that marks negative numbers.
pub const SIGN_BIT: u32 = 0x8000_0000;

/// The number of magnitudes that share one power of two.
pub const BINADE: u32 = 0x80_0000;

/// The bits of a quiet NaN.
pub const NAN_BITS: u32 = 0x7fc0_0000;

/// A single-precision number, by its bits.
#[derive(Clone, Copy, Debug)]
pub struct Single {
    pub bits: u32,
}

/// The number of units of 2^-149 in a number with the given magnitude bits.
/// For the bits of infinity this is 2^277, one step above the largest number.
pub open spec fn magnitude_units(m: nat) -> nat {
    if m < BINADE as nat {
        m
    } else {
        (m % BINADE as nat + BINADE as nat) * power(2, (m / BINADE as nat - 1) as nat)
    }
}

/// One in units of 2^-149.
pub open spec fn one_in_units() -> nat {
    power(2, 149)
}

/// How often `d` has to be doubled until `p / d` is below 2^24.
pub open spec fn doublings(p: nat, d: nat) -> nat
    decreases p - d,
{
    if d == 0 || p < d * 0x100_0000 {
        0
    } else {
        1 + doublings(p, 2 * d)
    }
}

/// `p / d` rounded to a whole number, a tie to the even one.
pub open spec fn round_half_even(p: nat, d: nat) -> nat {
    let n = p / d;
    let r = p % d;
    if 2 * r > d || (2 * r == d && n % 2 == 1) {
        n + 1
    } else {
        n
    }
}

/// The magnitude bits nearest to `p / q` units: 24 significant bits, a tie to
/// the even one, and infinity from half a step above the largest number on.
pub open spec fn nearest_magnitude(p: nat, q: nat) -> nat {
    let k = doublings(p, q);
    let m = k * BINADE as nat + round_half_even(p, q * power(2, k));
    if m < INFINITY_MAGNITUDE as nat {
        m
    } else {
        INFINITY_MAGNITUDE as nat
    }
}

/// The number with the given sign and magnitude bits.
pub open spec fn assemble(negative: bool, magnitude: nat) -> Single {
    Single {
        bits: if negative {
            (magnitude + SIGN_BIT) as u32
        } else {
            magnitude as u32
        },
    }
}

/// The number nearest to `p / q` units, with the given sign.
pub open spec fn nearest(negative: bool, p: nat, q: nat) -> Single {
    assemble(negative, nearest_magnitude(p, q))
}

pub open spec fn nan() -> Single {
    Single { bits: NAN_BITS }
}

pub open spec fn infinity(negative: bool) -> Single {
    assemble(negative, INFINITY_MAGNITUDE as nat)
}

pub open spec fn magnitude_of(n: int) -> nat {
    if n < 0 {
        (-n) as nat
    } else {
        n as nat
    }
}

/// The single-precision number nearest to the integer `n`.
pub open spec fn nearest_integer(n: int) -> Single {
    nearest(n < 0, magnitude_of(n) * one_in_units(), 1)
}

impl Single {
    pub open spec fn magnitude(self) -> nat {
        (self.bits % SIGN_BIT) as nat
    }

    pub open spec fn negative(self) -> bool {
        self.bits >= SIGN_BIT
    }

    pub open spec fn nan(self) -> bool {
        self.magnitude() > INFINITY_MAGNITUDE
    }

    pub open spec fn infinite(self) -> bool {
        self.magnitude() == INFINITY_MAGNITUDE
    }

    pub open spec fn finite(self) -> bool {
        self.magnitude() < INFINITY_MAGNITUDE
    }

    /// The absolute value in units of 2^-149.
    pub open spec fn units(self) -> nat {
        magnitude_units(self.magnitude())
    }

    /// The value in units of 2^-149.
    pub open spec fn scaled(self) -> int {
        if self.negative() {
            -(self.units() as int)
        } else {
            self.units() as int
        }
    }

    /// `self < other` (false where either is not a number).
    pub open spec fn below(self, other: Single) -> bool {
        !self.nan() && !other.nan() && self.scaled() < other.scaled()
    }

    /// `self <= other` (false where either is not a number).
    pub open spec fn at_most(self, other: Single) -> bool {
        !self.nan() && !other.nan() && self.scaled() <= other.scaled()
    }

    /// `self == other`: both zeros are equal, and NaN equals nothing.
    pub open spec fn same_number(self, other: Single) -> bool {
        !self.nan() && !other.nan() && self.scaled() == other.scaled()
    }

    pub open spec fn negated(self) -> Single {
        Single {
            bits: if self.negative() {
                (self.bits - SIGN_BIT) as u32
            } else {
                (self.bits + SIGN_BIT) as u32
            },
        }
    }

    pub open spec fn absolute(self) -> Single {
        Single { bits: self.bits % SIGN_BIT }
    }

    /// The sum of two numbers, rounded to nearest.
    pub open spec fn sum(self, other: Single) -> Single {
        if self.nan() || other.nan() {
            nan()
        } else if self.infinite() {
            if other.infinite() && self.negative() != other.negative() {
                nan()
            } else {
                self
            }
        } else if other.infinite() {
            other
        } else {
            let s = self.scaled() + other.scaled();
            nearest(
                if s == 0 {
                    self.negative() && other.negative()
                } else {
                    s < 0
                },
                magnitude_of(s),
                1,
            )
        }
    }

    /// The difference of two numbers, rounded to nearest.
    pub open spec fn difference(self, other: Single) -> Single {
        self.sum(other.negated())
    }

    /// The product of two numbers, rounded to nearest.
    pub open spec fn product(self, other: Single) -> Single {
        let negative = self.negative() != other.negative();
        if self.nan() || other.nan() {
            nan()
        } else if self.infinite() || other.infinite() {
            if self.units() == 0 || other.units() == 0 {
                nan()
            } else {
                infinity(negative)
            }
        } else {
            nearest(negative, self.units() * other.units(), one_in_units())
        }
    }

    /// The quotient of two numbers, rounded to nearest.
    pub open spec fn quotient(self, other: Single) -> Single {
        let negative = self.negative() != other.negative();
        if self.nan() || other.nan() || (self.infinite() && other.infinite()) || (self.units() == 0
            && other.units() == 0) {
            nan()
        } else if self.infinite() || other.units() == 0 {
            infinity(negative)
        } else if other.infinite() {
            assemble(negative, 0)
        } else {
            nearest(negative, self.units() * one_in_units(), other.units())
        }
    }

    /// The larger of two numbers; a NaN gives way to the other.
    pub open spec fn larger(self, other: Single) -> Single {
        if self.nan() || self.below(other) {
            other
        } else {
            self
        }
    }

    /// The smaller of two numbers; a NaN gives way to the other.
    pub open spec fn smaller(self, other: Single) -> Single {
        if self.nan() || other.below(self) {
            other
        } else {
            self
        }
    }

    /// The number moved into the range from `low` to `high`; NaN stays NaN.
    pub open spec fn clamped(self, low: Single, high: Single) -> Single {
        if self.below(low) {
            low
        } else if high.below(self) {
            high
        } else {
            self
        }
    }
}

// ---------------------------------------------------------------------------
// Facts about magnitudes
// ---------------------------------------------------------------------------

/// Larger magnitude bits stand for more units.
pub proof fn lemma_units_increase(m: nat, n: nat)
    requires
        m < n,
    ensures
        magnitude_units(m) < magnitude_units(n),
{
    let b = BINADE as nat;
    let e = m / b;
    let f = m % b;
    let g = n / b;
    let h = n % b;
    if n >= b {
        crate::natural::lemma_power_positive(2, (g - 1) as nat);
        let pg = power(2, (g - 1) as nat);
        if m < b {
            assert((h + b) * pg >= b) by (nonlinear_arith)
                requires
                    pg >= 1,
            ;
        } else {
            let pe = power(2, (e - 1) as nat);
            crate::natural::lemma_power_positive(2, (e - 1) as nat);
            if e == g {
                assert((f + b) * pe < (h + b) * pe) by (nonlinear_arith)
                    requires
                        f < h,
                        pe > 0,
                        pe == pg,
                ;
            } else {
                crate::natural::lemma_power_monotone(2, e as nat, (g - 1) as nat);
                assert(power(2, e as nat) == 2 * pe);
                assert((f + b) * pe < (2 * b) * pe) by (nonlinear_arith)
                    requires
                        f < b,
                        pe > 0,
                ;
                assert((2 * b) * pe == b * (2 * pe)) by (nonlinear_arith);
                assert(b * (2 * pe) <= b * pg) by (nonlinear_arith)
                    requires
                        2 * pe <= pg,
                ;
                assert(b * pg <= (h + b) * pg) by (nonlinear_arith);
            }
        }
    }
}

/// The order of numbers is the order of their signed magnitude bits.
proof fn lemma_scaled_order(a: Single, b: Single)
    ensures
        (a.scaled() < b.scaled()) == (signed_magnitude(a) < signed_magnitude(b)),
        (a.scaled() == b.scaled()) == (signed_magnitude(a) == signed_magnitude(b)),
{
    let m = a.magnitude();
    let n = b.magnitude();
    if m < n {
        lemma_units_increase(m, n);
    }
    if n < m {
        lemma_units_increase(n, m);
    }
    if m > 0 {
        lemma_units_increase(0, m);
    }
    if n > 0 {
        lemma_units_increase(0, n);
    }
}

spec fn signed_magnitude(a: Single) -> int {
    if a.negative() {
        -(a.magnitude() as int)
    } else {
        a.magnitude() as int
    }
}

// ---------------------------------------------------------------------------
// Rounding
// ---------------------------------------------------------------------------

/// A quotient and remainder that fit are the quotient and remainder.
pub proof fn lemma_divided(p: nat, d: nat, n: nat, r: nat)
    requires
        p == n * d + r,
        r < d,
    ensures
        p / d == n,
        p % d == r,
{
    vstd::arithmetic::div_mod::lemma_fundamental_div_mod_converse(
        p as int,
        d as int,
        n as int,
        r as int,
    );
}

/// The list `q, 2q, 4q, ...` for rounding `p / q`: long enough that its last
/// entry exceeds `p`, and at least 25 entries long.
fn doubling_table(p: &Vec<u32>, q: Vec<u32>) -> (steps: Vec<Vec<u32>>)
    requires
        proper(p@, LIMB as nat),
        proper(q@, LIMB as nat),
        value(q@, LIMB as nat) > 0,
    ensures
        steps@.len() >= 25,
        forall|i: int|
            0 <= i < steps@.len() ==> proper((#[trigger] steps@[i])@, LIMB as nat) && value(
                steps@[i]@,
                LIMB as nat,
            ) == value(q@, LIMB as nat) * power(2, i as nat),
        doublings(value(p@, LIMB as nat), value(q@, LIMB as nat)) == steps@.len() - 25,
        value(p@, LIMB as nat) < value(q@, LIMB as nat) * power(2, (steps@.len() - 1) as nat),
{
    let ghost base = LIMB as nat;
    let ghost pv = value(p@, base);
    let ghost qv = value(q@, base);
    let mut steps: Vec<Vec<u32>> = Vec::new();
    let mut last = copy_digits(&q);
    steps.push(q);
    assert(qv * 1 == qv) by (nonlinear_arith);
    let mut i: usize = 1;
    while i < 25
        invariant
            1 <= i <= 25,
            i == steps@.len(),
            base == LIMB as nat,
            proper(last@, base),
            value(last@, base) == qv * power(2, (i - 1) as nat),
            forall|j: int|
                0 <= j < i ==> proper((#[trigger] steps@[j])@, base) && value(steps@[j]@, base)
                    == qv * power(2, j as nat),
        decreases 25 - i,
    {
        scale_add(&mut last, LIMB, 2, 0);
        assert(power(2, i as nat) == 2 * power(2, (i - 1) as nat));
        assert((qv * power(2, (i - 1) as nat)) * 2 == qv * (2 * power(2, (i - 1) as nat)))
            by (nonlinear_arith);
        steps.push(copy_digits(&last));
        i = i + 1;
    }
    proof {
        lemma_power_24();
    }
    while !less(p, &last)
        invariant
            steps@.len() >= 25,
            base == LIMB as nat,
            qv > 0,
            proper(p@, base),
            pv == value(p@, base),
            proper(last@, base),
            value(last@, base) == qv * power(2, (steps@.len() - 1) as nat),
            forall|j: int|
                0 <= j < steps@.len() ==> proper((#[trigger] steps@[j])@, base) && value(
                    steps@[j]@,
                    base,
                ) == qv * power(2, j as nat),
            doublings(pv, qv) == (steps@.len() - 25) + doublings(
                pv,
                qv * power(2, (steps@.len() - 25) as nat),
            ),
        decreases
                if pv >= value(last@, base) {
                    pv - value(last@, base) + 1
                } else {
                    0
                },
    {
        let ghost n = steps@.len();
        proof {
            let k = (n - 25) as nat;
            let d = qv * power(2, k);
            crate::natural::lemma_power_positive(2, k);
            crate::natural::lemma_power_positive(2, (n - 1) as nat);
            assert(d > 0) by (nonlinear_arith)
                requires
                    qv > 0,
                    power(2, k) > 0,
                    d == qv * power(2, k),
            ;
            lemma_power_24();
            crate::natural::lemma_power_add(2, k, 24);
            assert(d * 0x100_0000 == qv * power(2, (n - 1) as nat)) by (nonlinear_arith)
                requires
                    d == qv * power(2, k),
                    power(2, (n - 1) as nat) == power(2, k) * 0x100_0000,
            ;
            assert(doublings(pv, d) == 1 + doublings(pv, 2 * d));
            assert(power(2, (k + 1) as nat) == 2 * power(2, k));
            assert(2 * d == qv * power(2, (k + 1) as nat)) by (nonlinear_arith)
                requires
                    d == qv * power(2, k),
                    power(2, (k + 1) as nat) == 2 * power(2, k),
            ;
            assert(power(2, n) == 2 * power(2, (n - 1) as nat));
            assert((qv * power(2, (n - 1) as nat)) * 2 == qv * (2 * power(2, (n - 1) as nat)))
                by (nonlinear_arith);
            assert(value(last@, base) > 0) by (nonlinear_arith)
                requires
                    value(last@, base) == qv * power(2, (n - 1) as nat),
                    qv > 0,
                    power(2, (n - 1) as nat) > 0,
            ;
        }
        scale_add(&mut last, LIMB, 2, 0);
        steps.push(copy_digits(&last));
    }
    proof {
        let n = steps@.len();
        let k = (n - 25) as nat;
        let d = qv * power(2, k);
        lemma_power_24();
        crate::natural::lemma_power_add(2, k, 24);
        assert(d * 0x100_0000 == qv * power(2, (n - 1) as nat)) by (nonlinear_arith)
            requires
                d == qv * power(2, k),
                power(2, (n - 1) as nat) == power(2, k) * 0x100_0000,
        ;
        assert(doublings(pv, d) == 0);
    }
    steps
}

proof fn lemma_power_24()
    ensures
        power(2, 24) == 0x100_0000,
        power(2, 23) == 0x80_0000,
{
    reveal_with_fuel(power, 25);
}

/// The number nearest to `p / q` units, with the given sign.
pub fn round_quotient(negative: bool, p: Vec<u32>, q: Vec<u32>) -> (res: Single)
    requires
        proper(p@, LIMB as nat),
        proper(q@, LIMB as nat),
        value(q@, LIMB as nat) > 0,
    ensures
        res == nearest(negative, value(p@, LIMB as nat), value(q@, LIMB as nat)),
{
    let ghost base = LIMB as nat;
    let ghost pv = value(p@, base);
    let ghost qv = value(q@, base);
    let steps = doubling_table(&p, q);
    let k: usize = steps.len() - 25;
    let ghost d = qv * power(2, k as nat);
    if k >= 255 {
        proof {
            assert(k * 0x80_0000 >= 255 * 0x80_0000) by (nonlinear_arith)
                requires
                    k >= 255,
            ;
        }
        return signed_single(negative, INFINITY_MAGNITUDE);
    }
    proof {
        crate::natural::lemma_power_positive(2, k as nat);
        assert(d > 0) by (nonlinear_arith)
            requires
                qv > 0,
                power(2, k as nat) > 0,
                d == qv * power(2, k as nat),
        ;
        lemma_power_24();
        crate::natural::lemma_power_add(2, k as nat, 24);
        assert(d * power(2, 24) == qv * power(2, (k + 24) as nat)) by (nonlinear_arith)
            requires
                d == qv * power(2, k as nat),
                power(2, (k + 24) as nat) == power(2, k as nat) * power(2, 24),
        ;
        assert(0 * d == 0) by (nonlinear_arith);
    }
    let mut r = p;
    let mut n: u32 = 0;
    let mut j: usize = 24;
    let mut bit: u32 = 0x100_0000;
    while j > 0
        invariant
            j <= 24,
            base == LIMB as nat,
            k < 255,
            k + 25 == steps@.len(),
            d == qv * power(2, k as nat),
            d > 0,
            bit == power(2, j as nat),
            bit <= 0x100_0000,
            forall|i: int|
                0 <= i < steps@.len() ==> proper((#[trigger] steps@[i])@, base) && value(
                    steps@[i]@,
                    base,
                ) == qv * power(2, i as nat),
            proper(r@, base),
            pv == n * d + value(r@, base),
            value(r@, base) < d * power(2, j as nat),
            n + bit <= 0x100_0000,
        decreases j,
    {
        proof {
            let h = power(2, (j - 1) as nat);
            assert(power(2, j as nat) == 2 * h);
            crate::natural::lemma_power_add(2, k as nat, (j - 1) as nat);
            assert(d * h == qv * power(2, (k + j - 1) as nat)) by (nonlinear_arith)
                requires
                    d == qv * power(2, k as nat),
                    power(2, (k + j - 1) as nat) == power(2, k as nat) * h,
            ;
            assert(d * (2 * h) == d * h + d * h) by (nonlinear_arith);
            assert((n + h) * d == n * d + d * h) by (nonlinear_arith);
        }
        bit = bit / 2;
        if !less(&r, &steps[k + j - 1]) {
            subtract_from(&mut r, &steps[k + j - 1]);
            n = n + bit;
        }
        j = j - 1;
    }
    let ghost rv = value(r@, base);
    proof {
        assert(d * 1 == d) by (nonlinear_arith);
        lemma_divided(pv, d, n as nat, rv);
    }
    let mut twice = r;
    scale_add(&mut twice, LIMB, 2, 0);
    assert(rv * 2 == 2 * rv) by (nonlinear_arith);
    let up: bool = less(&steps[k], &twice) || (n % 2 == 1 && !less(&twice, &steps[k]));
    let m: u32 = if up {
        n + 1
    } else {
        n
    };
    let magnitude: u32 = (k as u32) * BINADE + m;
    if magnitude < INFINITY_MAGNITUDE {
        signed_single(negative, magnitude)
    } else {
        signed_single(negative, INFINITY_MAGNITUDE)
    }
}

/// The number with the given sign and magnitude bits.
fn signed_single(negative: bool, magnitude: u32) -> (res: Single)
    requires
        magnitude < SIGN_BIT,
    ensures
        res == assemble(negative, magnitude as nat),
{
    if negative {
        Single { bits: magnitude + SIGN_BIT }
    } else {
        Single { bits: magnitude }
    }
}

// ---------------------------------------------------------------------------
// Operations
// ---------------------------------------------------------------------------

impl PartialEq for Single {
    fn eq(&self, other: &Self) -> (res: bool) {
        self.equals(*other)
    }
}

impl vstd::std_specs::cmp::PartialEqSpecImpl for Single {
    open spec fn obeys_eq_spec() -> bool {
        true
    }

    open spec fn eq_spec(&self, other: &Self) -> bool {
        self.same_number(*other)
    }
}

impl Default for Single {
    fn default() -> (res: Self)
        ensures
            res.bits == 0,
    {
        Single { bits: 0 }
    }
}

impl Single {
    /// The number with the given bits.
    pub fn from_bits(bits: u32) -> (res: Single)
        ensures
            res.bits == bits,
    {
        Single { bits }
    }

    /// The bits of the number.
    pub fn to_bits(self) -> (res: u32)
        ensures
            res == self.bits,
    {
        self.bits
    }

    pub fn is_nan(self) -> (res: bool)
        ensures
            res == self.nan(),
    {
        self.bits % SIGN_BIT > INFINITY_MAGNITUDE
    }

    pub fn is_infinite(self) -> (res: bool)
        ensures
            res == self.infinite(),
    {
        self.bits % SIGN_BIT == INFINITY_MAGNITUDE
    }

    pub fn is_finite(self) -> (res: bool)
        ensures
            res == self.finite(),
    {
        self.bits % SIGN_BIT < INFINITY_MAGNITUDE
    }

    fn is_negative(self) -> (res: bool)
        ensures
            res == self.negative(),
    {
        self.bits >= SIGN_BIT
    }

    fn is_zero(self) -> (res: bool)
        ensures
            res == (self.units() == 0),
    {
        let m = self.bits % SIGN_BIT;
        proof {
            if m > 0 {
                lemma_units_increase(0, m as nat);
            }
        }
        m == 0
    }

    fn order_key(self) -> (res: i64)
        ensures
            res == signed_magnitude(self),
    {
        let m: i64 = (self.bits % SIGN_BIT) as i64;
        if self.bits >= SIGN_BIT {
            -m
        } else {
            m
        }
    }

    /// `self < other`.
    pub fn is_below(self, other: Single) -> (res: bool)
        ensures
            res == self.below(other),
    {
        proof {
            lemma_scaled_order(self, other);
        }
        !self.is_nan() && !other.is_nan() && self.order_key() < other.order_key()
    }

    /// `self <= other`.
    pub fn is_at_most(self, other: Single) -> (res: bool)
        ensures
            res == self.at_most(other),
    {
        proof {
            lemma_scaled_order(self, other);
        }
        !self.is_nan() && !other.is_nan() && self.order_key() <= other.order_key()
    }

    /// `self == other`.
    pub fn equals(self, other: Single) -> (res: bool)
        ensures
            res == self.same_number(other),
    {
        proof {
            lemma_scaled_order(self, other);
        }
        !self.is_nan() && !other.is_nan() && self.order_key() == other.order_key()
    }

    /// The significand and the exponent: the number has
    /// `significand * 2^exponent` units.
    pub fn parts(self) -> (res: (u32, u32))
        requires
            !self.nan(),
        ensures
            self.units() == res.0 * power(2, res.1 as nat),
            res.0 < 0x100_0000,
            res.1 <= 254,
    {
        let m = self.bits % SIGN_BIT;
        if m < BINADE {
            assert(m * 1 == m) by (nonlinear_arith);
            assert(power(2, 0) == 1);
            (m, 0)
        } else {
            (m % BINADE + BINADE, m / BINADE - 1)
        }
    }

    /// The absolute value in units, exactly.
    fn exact_units(self) -> (out: Vec<u32>)
        requires
            !self.nan(),
        ensures
            proper(out@, LIMB as nat),
            value(out@, LIMB as nat) == self.units(),
    {
        let (m, e) = self.parts();
        let mut out = natural(m as u64);
        shift_left(&mut out, e);
        out
    }

    /// The number with the opposite sign.
    pub fn negate(self) -> (res: Single)
        ensures
            res == self.negated(),
    {
        if self.bits >= SIGN_BIT {
            Single { bits: self.bits - SIGN_BIT }
        } else {
            Single { bits: self.bits + SIGN_BIT }
        }
    }

    /// The number without its sign.
    pub fn abs(self) -> (res: Single)
        ensures
            res == self.absolute(),
    {
        Single { bits: self.bits % SIGN_BIT }
    }

    /// `self + other`.
    pub fn plus(self, other: Single) -> (res: Single)
        ensures
            res == self.sum(other),
    {
        if self.is_nan() || other.is_nan() {
            return Single { bits: NAN_BITS };
        }
        if self.is_infinite() {
            if other.is_infinite() && self.is_negative() != other.is_negative() {
                return Single { bits: NAN_BITS };
            }
            return self;
        }
        if other.is_infinite() {
            return other;
        }
        let mut a = self.exact_units();
        let mut b = other.exact_units();
        if self.is_negative() == other.is_negative() {
            add_to(&mut a, &b);
            round_quotient(self.is_negative(), a, natural(1))
        } else if less(&a, &b) {
            subtract_from(&mut b, &a);
            round_quotient(other.is_negative(), b, natural(1))
        } else if less(&b, &a) {
            subtract_from(&mut a, &b);
            round_quotient(self.is_negative(), a, natural(1))
        } else {
            subtract_from(&mut a, &b);
            round_quotient(false, a, natural(1))
        }
    }

    /// `self - other`.
    pub fn minus(self, other: Single) -> (res: Single)
        ensures
            res == self.difference(other),
    {
        self.plus(other.negate())
    }

    /// `self * other`.
    pub fn times(self, other: Single) -> (res: Single)
        ensures
            res == self.product(other),
    {
        if self.is_nan() || other.is_nan() {
            return Single { bits: NAN_BITS };
        }
        let negative = self.is_negative() != other.is_negative();
        if self.is_infinite() || other.is_infinite() {
            if self.is_zero() || other.is_zero() {
                return Single { bits: NAN_BITS };
            }
            return signed_single(negative, INFINITY_MAGNITUDE);
        }
        let (m, e) = self.parts();
        let (n, f) = other.parts();
        assert(m * n <= 0x100_0000 * 0x100_0000) by (nonlinear_arith)
            requires
                m <= 0x100_0000,
                n <= 0x100_0000,
        ;
        let mut p = natural((m as u64) * (n as u64));
        shift_left(&mut p, e + f);
        let mut q = natural(1);
        shift_left(&mut q, 149);
        proof {
            let pe = power(2, e as nat);
            let pf = power(2, f as nat);
            crate::natural::lemma_power_add(2, e as nat, f as nat);
            assert((m * n) * (pe * pf) == (m * pe) * (n * pf)) by (nonlinear_arith);
            crate::natural::lemma_power_positive(2, 149);
            assert(1 * power(2, 149) == power(2, 149)) by (nonlinear_arith);
        }
        round_quotient(negative, p, q)
    }

    /// `self / other`.
    pub fn divided_by(self, other: Single) -> (res: Single)
        ensures
            res == self.quotient(other),
    {
        if self.is_nan() || other.is_nan() || (self.is_infinite() && other.is_infinite()) || (
        self.is_zero() && other.is_zero()) {
            return Single { bits: NAN_BITS };
        }
        let negative = self.is_negative() != other.is_negative();
        if self.is_infinite() || other.is_zero() {
            return signed_single(negative, INFINITY_MAGNITUDE);
        }
        if other.is_infinite() {
            return signed_single(negative, 0);
        }
        let mut p = self.exact_units();
        shift_left(&mut p, 149);
        let q = other.exact_units();
        round_quotient(negative, p, q)
    }

    /// The number nearest to an integer.
    pub fn from_integer(n: i64) -> (res: Single)
        ensures
            res == nearest_integer(n as int),
    {
        let m: u64 = if n < 0 {
            if n == i64::MIN {
                0x8000_0000_0000_0000
            } else {
                (-n) as u64
            }
        } else {
            n as u64
        };
        let mut p = natural(m);
        shift_left(&mut p, 149);
        round_quotient(n < 0, p, natural(1))
    }

    /// The larger of two numbers.
    pub fn max(self, other: Single) -> (res: Single)
        ensures
            res == self.larger(other),
    {
        if self.is_nan() || self.is_below(other) {
            other
        } else {
            self
        }
    }

    /// The smaller of two numbers.
    pub fn min(self, other: Single) -> (res: Single)
        ensures
            res == self.smaller(other),
    {
        if self.is_nan() || other.is_below(self) {
            other
        } else {
            self
        }
    }

    /// The number moved into a range.
    pub fn clamp(self, low: Single, high: Single) -> (res: Single)
        ensures
            res == self.clamped(low, high),
    {
        if self.is_below(low) {
            low
        } else if high.is_below(self) {
            high
        } else {
            self
        }
    }
}

} // verus!
