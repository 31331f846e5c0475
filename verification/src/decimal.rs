//! Integers written in decimal digits.

use crate::text::is_digit;
use vstd::prelude::*;

verus! {

/// The value of a decimal digit.
pub open spec fn digit_value(c: char) -> nat {
    (c as u32 - '0' as u32) as nat
}

/// The digit with the given value.
pub open spec fn digit_char(d: nat) -> char {
    ('0' as u32 + d) as char
}

pub open spec fn all_digits(s: Seq<char>) -> bool {
    forall|i: int| 0 <= i < s.len() ==> is_digit(#[trigger] s[i])
}

/// The number written by a sequence of digits.
pub open spec fn digits_value(s: Seq<char>) -> nat
    decreases s.len(),
{
    if s.len() == 0 {
        0
    } else {
        digits_value(s.drop_last()) * 10 + digit_value(s.last())
    }
}

/// The number written by one or more digits.
pub open spec fn plain_number(s: Seq<char>) -> Option<nat> {
    if s.len() > 0 && all_digits(s) {
        Some(digits_value(s))
    } else {
        None
    }
}

/// The text behind a leading plus or minus, if there is one.
pub open spec fn unsigned_part(s: Seq<char>) -> Seq<char> {
    if s.len() > 0 && (s[0] == '+' || s[0] == '-') {
        s.skip(1)
    } else {
        s
    }
}

/// Whether a text begins with a minus.
pub open spec fn has_minus(s: Seq<char>) -> bool {
    s.len() > 0 && s[0] == '-'
}

/// The integer written by digits behind an optional sign.
pub open spec fn integer(s: Seq<char>) -> Option<int> {
    match plain_number(unsigned_part(s)) {
        Some(n) => Some(
            if has_minus(s) {
                -(n as int)
            } else {
                n as int
            },
        ),
        None => None,
    }
}

/// The integer that a text writes, where it lies between two bounds.
pub open spec fn integer_within(s: Seq<char>, low: int, high: int) -> Option<int> {
    match integer(s) {
        Some(n) if low <= n <= high => Some(n),
        _ => None,
    }
}

/// The natural number that a text writes behind an optional plus, where it
/// does not exceed `high`.
pub open spec fn natural_within(s: Seq<char>, high: nat) -> Option<nat> {
    if has_minus(s) {
        None
    } else {
        match plain_number(unsigned_part(s)) {
            Some(n) if n <= high => Some(n),
            _ => None,
        }
    }
}

/// The decimal digits of a number, without leading zeros.
pub open spec fn decimal_text(n: nat) -> Seq<char>
    decreases n,
{
    if n < 10 {
        seq![digit_char(n)]
    } else {
        decimal_text(n / 10).push(digit_char(n % 10))
    }
}

/// Reading the digits of a number gives the number back.
pub proof fn lemma_decimal_text(n: nat)
    ensures
        decimal_text(n).len() > 0,
        all_digits(decimal_text(n)),
        digits_value(decimal_text(n)) == n,
    decreases n,
{
    let s = decimal_text(n);
    if n < 10 {
        assert(s.drop_last() == Seq::<char>::empty());
        assert(digits_value(s.drop_last()) == 0);
    } else {
        lemma_decimal_text(n / 10);
        assert(s.drop_last() == decimal_text(n / 10));
    }
}

/// Digits in front of others count as many tens as there are digits behind.
pub proof fn lemma_digits_value_concat(a: Seq<char>, b: Seq<char>)
    ensures
        digits_value(a + b) == digits_value(a) * crate::natural::power(10, b.len()) + digits_value(
            b,
        ),
    decreases b.len(),
{
    if b.len() == 0 {
        assert(a + b == a);
        assert(digits_value(a) * 1 == digits_value(a)) by (nonlinear_arith);
    } else {
        let c = b.drop_last();
        lemma_digits_value_concat(a, c);
        assert((a + b).drop_last() == a + c);
        assert((a + b).last() == b.last());
        let p = crate::natural::power(10, c.len());
        assert((digits_value(a) * p + digits_value(c)) * 10 == digits_value(a) * (10 * p)
            + digits_value(c) * 10) by (nonlinear_arith);
    }
}

/// Zeros in front do not change a number.
pub proof fn lemma_digits_value_push_front(s: Seq<char>)
    requires
        s.len() > 0,
        s[0] == '0',
    ensures
        digits_value(s) == digits_value(s.skip(1)),
{
    let zero = seq!['0'];
    assert(s == zero + s.skip(1));
    lemma_digits_value_concat(zero, s.skip(1));
    assert(zero.drop_last() == Seq::<char>::empty());
    assert(digits_value(zero.drop_last()) == 0);
    assert(digits_value(zero) == 0);
    assert(0 * crate::natural::power(10, s.skip(1).len()) == 0) by (nonlinear_arith);
}

/// A number with `n` digits is below ten to the power `n`.
pub proof fn lemma_digits_value_bound(s: Seq<char>)
    requires
        all_digits(s),
    ensures
        digits_value(s) < crate::natural::power(10, s.len()),
    decreases s.len(),
{
    if s.len() > 0 {
        let t = s.drop_last();
        assert forall|i: int| 0 <= i < t.len() implies is_digit(#[trigger] t[i]) by {
            assert(t[i] == s[i]);
        }
        lemma_digits_value_bound(t);
        assert(is_digit(s[s.len() - 1]));
    }
}

/// A number whose first digit is not zero is at least ten to the power of the
/// number of digits behind it.
pub proof fn lemma_digits_value_at_least(s: Seq<char>)
    requires
        s.len() > 0,
        all_digits(s),
        s[0] != '0',
    ensures
        digits_value(s) >= crate::natural::power(10, (s.len() - 1) as nat),
    decreases s.len(),
{
    assert(is_digit(s[0]));
    if s.len() == 1 {
        assert(digits_value(s.drop_last()) == 0);
        assert(digit_value(s[0]) >= 1);
    } else {
        let t = s.drop_last();
        assert forall|i: int| 0 <= i < t.len() implies is_digit(#[trigger] t[i]) by {
            assert(t[i] == s[i]);
        }
        lemma_digits_value_at_least(t);
    }
}

/// More digits never make a number smaller.
proof fn lemma_digits_value_prefix(s: Seq<char>, n: int)
    requires
        0 <= n <= s.len(),
    ensures
        digits_value(s.take(n)) <= digits_value(s),
    decreases s.len() - n,
{
    if n == s.len() {
        assert(s.take(n) == s);
    } else {
        lemma_digits_value_prefix(s, n + 1);
        assert(s.take(n + 1).drop_last() == s.take(n));
    }
}

/// Whether a character is an ASCII digit.
pub fn digit(c: char) -> (res: bool)
    ensures
        res == is_digit(c),
{
    '0' <= c && c <= '9'
}

pub fn digits_only(s: &[char]) -> (res: bool)
    ensures
        res == all_digits(s@),
{
    for i in 0..s.len()
        invariant
            forall|j: int| 0 <= j < i ==> is_digit(#[trigger] s@[j]),
    {
        if !digit(s[i]) {
            assert(!is_digit(s@[i as int]));
            return false;
        }
    }
    true
}

/// Reads one or more digits as a number up to `high`.
fn read_plain(s: &[char], high: u64) -> (res: Option<u64>)
    ensures
        match plain_number(s@) {
            Some(n) if n <= high => res == Some(n as u64),
            _ => res is None,
        },
{
    if s.len() == 0 || !digits_only(s) {
        return None;
    }
    let mut n: u64 = 0;
    assert(s@.take(0) == Seq::<char>::empty());
    for i in 0..s.len()
        invariant
            all_digits(s@),
            n == digits_value(s@.take(i as int)),
            n <= high,
    {
        let c = s[i];
        assert(is_digit(s@[i as int]));
        let d: u64 = (c as u32 - '0' as u32) as u64;
        proof {
            assert(s@.take(i + 1).drop_last() == s@.take(i as int));
            assert(s@.take(i + 1).last() == c);
            lemma_digits_value_prefix(s@, i + 1);
        }
        if n > (u64::MAX - d) / 10 || n * 10 + d > high {
            return None;
        }
        n = n * 10 + d;
    }
    assert(s@.take(s@.len() as int) == s@);
    Some(n)
}

pub fn begins_with_minus(s: &[char]) -> (res: bool)
    ensures
        res == has_minus(s@),
{
    s.len() > 0 && s[0] == '-'
}

pub fn unsigned_slice(s: &[char]) -> (out: &[char])
    ensures
        out@ == unsigned_part(s@),
{
    if s.len() > 0 && (s[0] == '+' || s[0] == '-') {
        assert(s@.subrange(1, s@.len() as int) == s@.skip(1));
        &s[1..s.len()]
    } else {
        assert(s@.subrange(0, s@.len() as int) == s@);
        &s[0..s.len()]
    }
}

/// Reads a signed 64-bit integer.
pub fn read_i64(s: &[char]) -> (res: Option<i64>)
    ensures
        match integer_within(s@, i64::MIN as int, i64::MAX as int) {
            Some(n) => res == Some(n as i64),
            None => res is None,
        },
{
    let body = unsigned_slice(s);
    if begins_with_minus(s) {
        match read_plain(body, 0x8000_0000_0000_0000) {
            Some(n) => {
                if n == 0x8000_0000_0000_0000 {
                    Some(i64::MIN)
                } else {
                    Some(-(n as i64))
                }
            },
            None => None,
        }
    } else {
        match read_plain(body, 0x7fff_ffff_ffff_ffff) {
            Some(n) => Some(n as i64),
            None => None,
        }
    }
}

/// Reads a signed 32-bit integer.
pub fn read_i32(s: &[char]) -> (res: Option<i32>)
    ensures
        match integer_within(s@, i32::MIN as int, i32::MAX as int) {
            Some(n) => res == Some(n as i32),
            None => res is None,
        },
{
    match read_i64(s) {
        Some(n) => if -0x8000_0000 <= n && n <= 0x7fff_ffff {
            Some(n as i32)
        } else {
            None
        },
        None => None,
    }
}

/// Reads an unsigned 8-bit integer.
pub fn read_u8(s: &[char]) -> (res: Option<u8>)
    ensures
        match natural_within(s@, u8::MAX as nat) {
            Some(n) => res == Some(n as u8),
            None => res is None,
        },
{
    if begins_with_minus(s) {
        return None;
    }
    match read_plain(unsigned_slice(s), 255) {
        Some(n) => Some(n as u8),
        None => None,
    }
}

/// Writes a number in decimal digits.
pub fn write_decimal(n: usize) -> (res: String)
    ensures
        res@ == decimal_text(n as nat),
    decreases n,
{
    let mut res = if n < 10 {
        String::new()
    } else {
        write_decimal(n / 10)
    };
    let digit: u8 = (n % 10) as u8;
    res.push((48u8 + digit) as char);
    assert(res@ =~= decimal_text(n as nat));
    res
}

} // verus!
