//! Natural numbers of any size, as digit vectors in a base of choice.
//!
//! A number is a vector of digits, the least significant first. The value of
//! the digits does not depend on leading zeros, so no normal form is kept.

use vstd::prelude::*;

verus! {

/// The base in which exact intermediate results are held.
pub const LIMB: u64 = 0x1_0000_0000;

/// `base` to the power `n`.
pub open spec fn power(base: nat, n: nat) -> nat
    decreases n,
{
    if n == 0 {
        1
    } else {
        base * power(base, (n - 1) as nat)
    }
}

/// The digit at index `i`, with zeros above the last digit held.
pub open spec fn digit_at(l: Seq<u32>, i: int) -> nat {
    if 0 <= i < l.len() {
        l[i] as nat
    } else {
        0
    }
}

/// The value of the lowest `n` digits.
pub open spec fn low_value(l: Seq<u32>, base: nat, n: nat) -> nat
    decreases n,
{
    if n == 0 {
        0
    } else {
        low_value(l, base, (n - 1) as nat) + digit_at(l, n - 1) * power(base, (n - 1) as nat)
    }
}

/// The number that the digits stand for.
pub open spec fn value(l: Seq<u32>, base: nat) -> nat {
    low_value(l, base, l.len())
}

/// Every digit is below the base.
pub open spec fn proper(l: Seq<u32>, base: nat) -> bool {
    forall|i: int| 0 <= i < l.len() ==> (#[trigger] l[i]) < base
}

pub proof fn lemma_power_positive(base: nat, n: nat)
    requires
        base > 0,
    ensures
        power(base, n) > 0,
    decreases n,
{
    if n > 0 {
        lemma_power_positive(base, (n - 1) as nat);
        assert(base * power(base, (n - 1) as nat) > 0) by (nonlinear_arith)
            requires
                base > 0,
                power(base, (n - 1) as nat) > 0,
        ;
    }
}

pub proof fn lemma_power_add(base: nat, m: nat, n: nat)
    ensures
        power(base, m + n) == power(base, m) * power(base, n),
    decreases m,
{
    if m == 0 {
        assert(1 * power(base, n) == power(base, n)) by (nonlinear_arith);
    } else {
        lemma_power_add(base, (m - 1) as nat, n);
        assert(power(base, (m + n - 1) as nat) == power(base, (m - 1) as nat) * power(base, n));
        assert(base * (power(base, (m - 1) as nat) * power(base, n)) == (base * power(
            base,
            (m - 1) as nat,
        )) * power(base, n)) by (nonlinear_arith);
    }
}

pub proof fn lemma_power_monotone(base: nat, m: nat, n: nat)
    requires
        base > 0,
        m <= n,
    ensures
        power(base, m) <= power(base, n),
    decreases n,
{
    if m < n {
        lemma_power_monotone(base, m, (n - 1) as nat);
        lemma_power_positive(base, (n - 1) as nat);
        assert(power(base, (n - 1) as nat) <= base * power(base, (n - 1) as nat))
            by (nonlinear_arith)
            requires
                base > 0,
        ;
    }
}

/// Only the lowest `n` digits matter for the value of the lowest `n` digits.
pub proof fn lemma_low_value_same(a: Seq<u32>, b: Seq<u32>, base: nat, n: nat)
    requires
        forall|i: int| 0 <= i < n ==> digit_at(a, i) == digit_at(b, i),
    ensures
        low_value(a, base, n) == low_value(b, base, n),
    decreases n,
{
    if n > 0 {
        lemma_low_value_same(a, b, base, (n - 1) as nat);
        assert(digit_at(a, n - 1) == digit_at(b, n - 1));
    }
}

/// Zeros above the last digit add nothing.
pub proof fn lemma_low_value_beyond(l: Seq<u32>, base: nat, n: nat)
    requires
        n >= l.len(),
    ensures
        low_value(l, base, n) == value(l, base),
    decreases n,
{
    if n > l.len() {
        lemma_low_value_beyond(l, base, (n - 1) as nat);
        assert(0 * power(base, (n - 1) as nat) == 0) by (nonlinear_arith);
    }
}

pub proof fn lemma_low_value_bound(l: Seq<u32>, base: nat, n: nat)
    requires
        proper(l, base),
        base > 0,
    ensures
        low_value(l, base, n) < power(base, n),
    decreases n,
{
    if n > 0 {
        lemma_low_value_bound(l, base, (n - 1) as nat);
        let p = power(base, (n - 1) as nat);
        let d = digit_at(l, n - 1);
        assert(d + 1 <= base);
        assert((d + 1) * p <= base * p) by (nonlinear_arith)
            requires
                d + 1 <= base,
        ;
        assert((d + 1) * p == d * p + p) by (nonlinear_arith);
    }
}

/// Replaces the number by `number * factor + addend`.
pub fn scale_add(l: &mut Vec<u32>, base: u64, factor: u32, addend: u32)
    requires
        2 <= base <= LIMB,
        proper(old(l)@, base as nat),
    ensures
        proper(final(l)@, base as nat),
        value(final(l)@, base as nat) == value(old(l)@, base as nat) * factor + addend,
{
    let ghost before = l@;
    let ghost b = base as nat;
    let mut carry: u64 = addend as u64;
    let n = l.len();
    let mut i: usize = 0;
    proof {
        assert(0 * factor == 0) by (nonlinear_arith);
        assert(carry * 1 == carry) by (nonlinear_arith);
    }
    while i < n
        invariant
            n == l@.len(),
            n == before.len(),
            i <= n,
            2 <= base <= LIMB,
            b == base as nat,
            carry < LIMB,
            proper(before, b),
            proper(l@, b),
            forall|j: int| i <= j < n ==> l@[j] == before[j],
            low_value(l@, b, i as nat) + carry * power(b, i as nat) == low_value(
                before,
                b,
                i as nat,
            ) * factor + addend,
        decreases n - i,
    {
        let ghost prev = l@;
        let digit: u64 = l[i] as u64;
        assert(digit * factor <= (base - 1) * factor) by (nonlinear_arith)
            requires
                digit <= base - 1,
        ;
        assert((base - 1) * factor <= 0xffff_ffff * 0xffff_ffff) by (nonlinear_arith)
            requires
                1 <= base - 1 <= 0xffff_ffff,
                factor <= 0xffff_ffff,
        ;
        let cur: u64 = digit * (factor as u64) + carry;
        let low: u64 = cur % base;
        let next: u64 = cur / base;
        proof {
            assert(cur == next * base + low) by (nonlinear_arith)
                requires
                    low == cur % base,
                    next == cur / base,
                    base > 0,
            ;
            assert((base - 1) * factor <= (base - 1) * 0xffff_ffff) by (nonlinear_arith)
                requires
                    factor <= 0xffff_ffff,
                    1 <= base - 1,
            ;
            assert(next < LIMB) by (nonlinear_arith)
                requires
                    next * base <= cur,
                    cur <= (base - 1) * 0xffff_ffff + 0xffff_ffff,
                    LIMB == 0x1_0000_0000,
                    base >= 2,
            ;
        }
        l.set(i, low as u32);
        proof {
            let p = power(b, i as nat);
            lemma_low_value_same(l@, prev, b, i as nat);
            assert(power(b, (i + 1) as nat) == b * p);
            assert(digit_at(l@, i as int) == low);
            assert(digit_at(before, i as int) == digit);
            let lv = low_value(before, b, i as nat);
            assert((lv + digit * p) * factor == lv * factor + (digit * factor) * p)
                by (nonlinear_arith);
            assert(low * p + next * (b * p) == (next * b + low) * p) by (nonlinear_arith);
            assert((digit * factor + carry) * p == (digit * factor) * p + carry * p)
                by (nonlinear_arith);
        }
        carry = next;
        i = i + 1;
    }
    while carry > 0
        invariant
            n <= l@.len(),
            2 <= base <= LIMB,
            b == base as nat,
            proper(l@, b),
            value(l@, b) + carry * power(b, l@.len()) == value(before, b) * factor + addend,
        decreases carry,
    {
        let low: u64 = carry % base;
        let next: u64 = carry / base;
        let ghost prev = l@;
        proof {
            assert(carry == next * base + low && next < carry) by (nonlinear_arith)
                requires
                    low == carry % base,
                    next == carry / base,
                    base >= 2,
                    carry > 0,
            ;
        }
        l.push(low as u32);
        proof {
            let p = power(b, prev.len());
            lemma_low_value_same(l@, prev, b, prev.len());
            assert(digit_at(l@, prev.len() as int) == low);
            assert(power(b, l@.len()) == b * p);
            assert(low * p + next * (b * p) == (next * b + low) * p) by (nonlinear_arith);
        }
        carry = next;
    }
    assert(0 * power(b, l@.len()) == 0) by (nonlinear_arith);
}

/// A copy of a digit vector.
pub fn copy_digits(l: &Vec<u32>) -> (out: Vec<u32>)
    ensures
        out@ == l@,
{
    let mut out: Vec<u32> = Vec::new();
    for i in 0..l.len()
        invariant
            out@ == l@.take(i as int),
    {
        out.push(l[i]);
    }
    out
}

/// The digits of `n` in the base `LIMB`.
pub fn natural(n: u64) -> (out: Vec<u32>)
    ensures
        proper(out@, LIMB as nat),
        value(out@, LIMB as nat) == n,
{
    let mut out: Vec<u32> = Vec::new();
    let low: u64 = n % LIMB;
    let high: u64 = n / LIMB;
    out.push(low as u32);
    out.push(high as u32);
    proof {
        let b = LIMB as nat;
        reveal_with_fuel(low_value, 3);
        reveal_with_fuel(power, 3);
        assert(low * 1 + high * (b * 1) == n) by (nonlinear_arith)
            requires
                low == n % LIMB,
                high == n / LIMB,
                b == LIMB,
                LIMB == 0x1_0000_0000,
        ;
    }
    out
}

fn digit_or_zero(l: &Vec<u32>, i: usize) -> (res: u32)
    ensures
        res == digit_at(l@, i as int),
{
    if i < l.len() {
        l[i]
    } else {
        0
    }
}

/// Whether the number `a` is less than the number `b`.
pub fn less(a: &Vec<u32>, b: &Vec<u32>) -> (res: bool)
    requires
        proper(a@, LIMB as nat),
        proper(b@, LIMB as nat),
    ensures
        res == (value(a@, LIMB as nat) < value(b@, LIMB as nat)),
{
    let ghost base = LIMB as nat;
    let n = if a.len() < b.len() {
        b.len()
    } else {
        a.len()
    };
    proof {
        lemma_low_value_beyond(a@, base, n as nat);
        lemma_low_value_beyond(b@, base, n as nat);
    }
    let mut i: usize = n;
    while i > 0
        invariant
            i <= n,
            base == LIMB as nat,
            proper(a@, base),
            proper(b@, base),
            value(a@, base) - low_value(a@, base, i as nat) == value(b@, base) - low_value(
                b@,
                base,
                i as nat,
            ),
        decreases i,
    {
        let x = digit_or_zero(a, i - 1);
        let y = digit_or_zero(b, i - 1);
        proof {
            let p = power(base, (i - 1) as nat);
            lemma_low_value_bound(a@, base, (i - 1) as nat);
            lemma_low_value_bound(b@, base, (i - 1) as nat);
            if x < y {
                assert(x * p + p <= y * p) by (nonlinear_arith)
                    requires
                        x + 1 <= y,
                ;
            } else if y < x {
                assert(y * p + p <= x * p) by (nonlinear_arith)
                    requires
                        y + 1 <= x,
                ;
            }
        }
        if x < y {
            return true;
        }
        if y < x {
            return false;
        }
        i = i - 1;
    }
    false
}

/// Appends zeros until there are at least `n` digits.
fn pad(l: &mut Vec<u32>, n: usize)
    requires
        proper(old(l)@, LIMB as nat),
    ensures
        proper(final(l)@, LIMB as nat),
        value(final(l)@, LIMB as nat) == value(old(l)@, LIMB as nat),
        final(l)@.len() >= n,
        final(l)@.len() >= old(l)@.len(),
{
    let ghost base = LIMB as nat;
    while l.len() < n
        invariant
            base == LIMB as nat,
            proper(l@, base),
            value(l@, base) == value(old(l)@, base),
            l@.len() >= old(l)@.len(),
        decreases n - l@.len(),
    {
        let ghost prev = l@;
        l.push(0);
        proof {
            lemma_low_value_same(l@, prev, base, prev.len());
            assert(digit_at(l@, prev.len() as int) == 0);
            assert(0 * power(base, prev.len()) == 0) by (nonlinear_arith);
        }
    }
}

/// Replaces the number `a` by `a + b`.
pub fn add_to(a: &mut Vec<u32>, b: &Vec<u32>)
    requires
        proper(old(a)@, LIMB as nat),
        proper(b@, LIMB as nat),
    ensures
        proper(final(a)@, LIMB as nat),
        value(final(a)@, LIMB as nat) == value(old(a)@, LIMB as nat) + value(b@, LIMB as nat),
{
    let ghost base = LIMB as nat;
    pad(a, b.len());
    let ghost before = a@;
    let n = a.len();
    proof {
        lemma_low_value_beyond(b@, base, n as nat);
    }
    let mut carry: u64 = 0;
    let mut i: usize = 0;
    while i < n
        invariant
            n == a@.len(),
            n == before.len(),
            i <= n,
            base == LIMB as nat,
            carry <= 1,
            proper(before, base),
            proper(a@, base),
            proper(b@, base),
            forall|j: int| i <= j < n ==> a@[j] == before[j],
            low_value(a@, base, i as nat) + carry * power(base, i as nat) == low_value(
                before,
                base,
                i as nat,
            ) + low_value(b@, base, i as nat),
        decreases n - i,
    {
        let ghost prev = a@;
        let x: u64 = a[i] as u64;
        let y: u64 = digit_or_zero(b, i) as u64;
        let cur: u64 = x + y + carry;
        let next: u64 = if cur >= LIMB {
            1
        } else {
            0
        };
        let low: u64 = cur - next * LIMB;
        a.set(i, low as u32);
        proof {
            let p = power(base, i as nat);
            lemma_low_value_same(a@, prev, base, i as nat);
            assert(digit_at(a@, i as int) == low);
            assert(digit_at(before, i as int) == x);
            assert(power(base, (i + 1) as nat) == base * p);
            assert(low * p + next * (base * p) == x * p + y * p + carry * p) by (nonlinear_arith)
                requires
                    low + next * base == x + y + carry,
            ;
        }
        carry = next;
        i = i + 1;
    }
    let ghost whole = a@;
    if carry > 0 {
        a.push(1);
        proof {
            lemma_low_value_same(a@, whole, base, whole.len());
            assert(digit_at(a@, whole.len() as int) == 1);
        }
    } else {
        assert(0 * power(base, n as nat) == 0) by (nonlinear_arith);
    }
}

/// Replaces the number `a` by `a - b`.
pub fn subtract_from(a: &mut Vec<u32>, b: &Vec<u32>)
    requires
        proper(old(a)@, LIMB as nat),
        proper(b@, LIMB as nat),
        value(b@, LIMB as nat) <= value(old(a)@, LIMB as nat),
    ensures
        proper(final(a)@, LIMB as nat),
        value(final(a)@, LIMB as nat) == value(old(a)@, LIMB as nat) - value(b@, LIMB as nat),
{
    let ghost base = LIMB as nat;
    pad(a, b.len());
    let ghost before = a@;
    let n = a.len();
    proof {
        lemma_low_value_beyond(b@, base, n as nat);
    }
    let mut borrow: u64 = 0;
    let mut i: usize = 0;
    while i < n
        invariant
            n == a@.len(),
            n == before.len(),
            i <= n,
            base == LIMB as nat,
            borrow <= 1,
            proper(before, base),
            proper(a@, base),
            proper(b@, base),
            forall|j: int| i <= j < n ==> a@[j] == before[j],
            low_value(a@, base, i as nat) + low_value(b@, base, i as nat) == low_value(
                before,
                base,
                i as nat,
            ) + borrow * power(base, i as nat),
        decreases n - i,
    {
        let ghost prev = a@;
        let x: u64 = a[i] as u64;
        let y: u64 = digit_or_zero(b, i) as u64 + borrow;
        let next: u64 = if x < y {
            1
        } else {
            0
        };
        let low: u64 = x + next * LIMB - y;
        a.set(i, low as u32);
        proof {
            let p = power(base, i as nat);
            let yd = digit_at(b@, i as int);
            lemma_low_value_same(a@, prev, base, i as nat);
            assert(digit_at(a@, i as int) == low);
            assert(digit_at(before, i as int) == x);
            assert(power(base, (i + 1) as nat) == base * p);
            assert(low * p + yd * p + borrow * p == x * p + next * (base * p)) by (nonlinear_arith)
                requires
                    low + yd + borrow == x + next * base,
            ;
        }
        borrow = next;
        i = i + 1;
    }
    proof {
        lemma_low_value_bound(a@, base, n as nat);
        let p = power(base, n as nat);
        assert(borrow * p == 0) by (nonlinear_arith)
            requires
                borrow <= 1,
                borrow == 1 ==> p == 0,
        {
        }
    }
}

/// Doubles the number `times` times.
pub fn shift_left(l: &mut Vec<u32>, times: u32)
    requires
        proper(old(l)@, LIMB as nat),
    ensures
        proper(final(l)@, LIMB as nat),
        value(final(l)@, LIMB as nat) == value(old(l)@, LIMB as nat) * power(2, times as nat),
{
    let mut i: u32 = 0;
    assert(value(l@, LIMB as nat) * 1 == value(l@, LIMB as nat)) by (nonlinear_arith);
    while i < times
        invariant
            i <= times,
            proper(l@, LIMB as nat),
            value(l@, LIMB as nat) == value(old(l)@, LIMB as nat) * power(2, i as nat),
        decreases times - i,
    {
        scale_add(l, LIMB, 2, 0);
        proof {
            let v = value(old(l)@, LIMB as nat);
            let p = power(2, i as nat);
            assert(power(2, (i + 1) as nat) == 2 * p);
            assert((v * p) * 2 == v * (2 * p)) by (nonlinear_arith);
        }
        i = i + 1;
    }
}

/// Multiplies the number by ten `times` times.
pub fn scale_ten(l: &mut Vec<u32>, times: u128)
    requires
        proper(old(l)@, LIMB as nat),
    ensures
        proper(final(l)@, LIMB as nat),
        value(final(l)@, LIMB as nat) == value(old(l)@, LIMB as nat) * power(10, times as nat),
{
    let mut i: u128 = 0;
    assert(value(l@, LIMB as nat) * 1 == value(l@, LIMB as nat)) by (nonlinear_arith);
    while i < times
        invariant
            i <= times,
            proper(l@, LIMB as nat),
            value(l@, LIMB as nat) == value(old(l)@, LIMB as nat) * power(10, i as nat),
        decreases times - i,
    {
        scale_add(l, LIMB, 10, 0);
        proof {
            let v = value(old(l)@, LIMB as nat);
            let p = power(10, i as nat);
            assert(power(10, (i + 1) as nat) == 10 * p);
            assert((v * p) * 10 == v * (10 * p)) by (nonlinear_arith);
        }
        i = i + 1;
    }
}

} // verus!
