//! What holds of sums, products, quotients and rounded numbers.

use crate::natural::lemma_power_positive;
use crate::numeral::hundredths;
use crate::rounding::{distance, law_nearest_is_nearest, lemma_assembled, lemma_round_is_nearest};
use crate::single::{magnitude_of, magnitude_units, nearest_magnitude, one_in_units, Single};
use vstd::prelude::*;

verus! {

proof fn lemma_exact(p: nat, q: nat, z: Single)
    requires
        q > 0,
        z.finite(),
        z.units() * q == p,
    ensures
        magnitude_units(nearest_magnitude(p, q)) == z.units(),
{
    law_nearest_is_nearest(p, q, z.magnitude());
    let found = magnitude_units(nearest_magnitude(p, q));
    assert(found == z.units()) by (nonlinear_arith)
        requires
            found * q == z.units() * q,
            q > 0,
    ;
}

/// A sum that is a number is that number.
pub proof fn law_exact_sums(x: Single, y: Single, z: Single)
    requires
        x.finite() && y.finite() && z.finite(),
        z.scaled() == x.scaled() + y.scaled(),
    ensures
        x.sum(y).same_number(z),
{
    let s = x.scaled() + y.scaled();
    let negative = if s == 0 {
        x.negative() && y.negative()
    } else {
        s < 0
    };
    let m = nearest_magnitude(magnitude_of(s), 1);
    assert(z.units() * 1 == magnitude_of(s));
    lemma_exact(magnitude_of(s), 1, z);
    lemma_assembled(negative, m);
}

/// A difference that is a number is that number.
pub proof fn law_exact_differences(x: Single, y: Single, z: Single)
    requires
        x.finite() && y.finite() && z.finite(),
        z.scaled() == x.scaled() - y.scaled(),
    ensures
        x.difference(y).same_number(z),
{
    assert(y.negated().magnitude() == y.magnitude());
    assert(y.negated().negative() != y.negative());
    law_exact_sums(x, y.negated(), z);
}

/// A product that is a number is that number.
pub proof fn law_exact_products(x: Single, y: Single, z: Single)
    requires
        x.finite() && y.finite() && z.finite(),
        z.units() * one_in_units() == x.units() * y.units(),
        z.negative() == (x.negative() != y.negative()),
    ensures
        x.product(y).same_number(z),
{
    lemma_power_positive(2, 149);
    lemma_exact(x.units() * y.units(), one_in_units(), z);
    lemma_assembled(z.negative(), nearest_magnitude(x.units() * y.units(), one_in_units()));
}

/// A quotient that is a number is that number.
pub proof fn law_exact_quotients(x: Single, y: Single, z: Single)
    requires
        x.finite() && y.finite() && z.finite(),
        y.units() > 0,
        z.units() * y.units() == x.units() * one_in_units(),
        z.negative() == (x.negative() != y.negative()),
    ensures
        x.quotient(y).same_number(z),
{
    lemma_exact(x.units() * one_in_units(), y.units(), z);
    lemma_assembled(z.negative(), nearest_magnitude(x.units() * one_in_units(), y.units()));
}

/// The order of the summands and of the factors means nothing.
pub proof fn law_order_of_operands(x: Single, y: Single)
    requires
        x.finite() && y.finite(),
    ensures
        x.sum(y) == y.sum(x),
        x.product(y) == y.product(x),
{
    assert(x.units() * y.units() == y.units() * x.units()) by (nonlinear_arith);
}

/// What is no number stays none.
pub proof fn law_no_numbers(x: Single, y: Single)
    requires
        x.nan(),
    ensures
        x.sum(y).nan() && y.sum(x).nan(),
        x.product(y).nan() && y.product(x).nan(),
        x.quotient(y).nan() && y.quotient(x).nan(),
        !x.below(y) && !y.below(x) && !x.at_most(y) && !y.at_most(x) && !x.same_number(y),
{
    assert(crate::single::nan().nan());
}

/// The larger of two numbers is one of them and not below either, and the
/// smaller is one of them and not above either.
pub proof fn law_larger_and_smaller(x: Single, y: Single)
    requires
        !x.nan() && !y.nan(),
    ensures
        x.larger(y) == x || x.larger(y) == y,
        x.at_most(x.larger(y)) && y.at_most(x.larger(y)),
        x.smaller(y) == x || x.smaller(y) == y,
        x.smaller(y).at_most(x) && x.smaller(y).at_most(y),
{
}

/// A number that is moved into a range lies in it, and one that lies in it
/// already stays.
pub proof fn law_moved_into_a_range(x: Single, low: Single, high: Single)
    requires
        !x.nan(),
        low.at_most(high),
    ensures
        low.at_most(x.clamped(low, high)) && x.clamped(low, high).at_most(high),
        low.at_most(x) && x.at_most(high) ==> x.clamped(low, high) == x,
        x.below(low) ==> x.clamped(low, high) == low,
        high.below(x) ==> x.clamped(low, high) == high,
{
}

/// The hundredths of a number are those nearest to it: they are off by half a
/// hundredth at most.
pub proof fn law_nearest_hundredths(units: nat)
    ensures
        2 * distance((hundredths(units) * one_in_units()) as int, (100 * units) as int)
            <= one_in_units(),
{
    lemma_power_positive(2, 149);
    lemma_round_is_nearest(units * 100, one_in_units(), 0);
}

} // verus!
