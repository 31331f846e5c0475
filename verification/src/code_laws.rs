//! What holds of escaped, encoded and drawn texts, and of numbers in writing.

use crate::decimal::{all_digits, digits_value};
use crate::encoding::{base64_char, percent_byte, percent_decoded, percent_text};
use crate::numeral::{nearest_decimal, single_of_text};
use crate::query::{bound_tolerance, equality_tolerance, ComparisonOp, ModeFilter};
use crate::random_text::{alphabet_char, fair_chars};
use crate::single::Single;
use crate::text::{ascii_lower, lemma_index_of_is};
use vstd::prelude::*;

verus! {

// ---------------------------------------------------------------------------
// Escapes
// ---------------------------------------------------------------------------

/// The bytes that stay as they are in an address: letters, digits and four
/// signs.
pub proof fn law_unreserved_bytes(b: u8)
    ensures
        (percent_byte(b).len() == 1) == ('0' as u32 <= b <= '9' as u32 || 'A' as u32 <= b <= 'Z' as u32
            || 'a' as u32 <= b <= 'z' as u32 || b == '-' as u32 || b == '_' as u32 || b == '.' as u32
            || b == '~' as u32),
        percent_byte(b).len() == 1 ==> percent_byte(b)[0] as u32 == b,
        percent_byte(b).len() == 1 || percent_byte(b).len() == 3,
{
}

/// Every other byte is written as a percent sign and two of sixteen digits.
pub proof fn law_escaped_bytes(b: u8)
    requires
        percent_byte(b).len() != 1,
    ensures
        percent_byte(b)[0] == '%',
        percent_byte(b)[1] == "0123456789ABCDEF"@[b as int / 16],
        percent_byte(b)[2] == "0123456789ABCDEF"@[b as int % 16],
{
    reveal_strlit("0123456789ABCDEF");
    assert("0123456789ABCDEF"@ =~= seq![
        '0', '1', '2', '3', '4', '5', '6', '7', '8', '9', 'A', 'B', 'C', 'D', 'E', 'F',
    ]);
}

/// A text is escaped byte by byte.
pub proof fn law_escaped_byte_by_byte(a: Seq<u8>, b: Seq<u8>)
    ensures
        percent_text(a + b) == percent_text(a) + percent_text(b),
    decreases a.len(),
{
    if a.len() == 0 {
        assert(a + b =~= b);
        assert(percent_text(a) + percent_text(b) =~= percent_text(b));
    } else {
        law_escaped_byte_by_byte(a.skip(1), b);
        assert((a + b).skip(1) =~= a.skip(1) + b);
        assert((a + b)[0] == a[0]);
        assert(percent_text(a + b) =~= percent_text(a) + percent_text(b));
    }
}

/// The value of a digit of sixteen, in small letters or capitals.
pub open spec fn sixteenth(b: u8) -> int {
    if '0' as u32 <= b <= '9' as u32 {
        b - 48
    } else if 'A' as u32 <= b <= 'F' as u32 {
        b - 55
    } else if 'a' as u32 <= b <= 'f' as u32 {
        b - 87
    } else {
        -1
    }
}

/// A percent sign with two digits of sixteen is the byte that they write, a
/// plus sign is a space, and anything else is itself.
pub proof fn law_escapes_are_read(high: u8, low: u8, byte: u8, rest: Seq<u8>)
    ensures
        sixteenth(high) >= 0 && sixteenth(low) >= 0 ==> percent_decoded(
            seq![0x25u8, high, low] + rest,
        ) == seq![(16 * sixteenth(high) + sixteenth(low)) as u8] + percent_decoded(rest),
        percent_decoded(seq![0x2bu8] + rest) == seq![0x20u8] + percent_decoded(rest),
        byte != 0x25 && byte != 0x2b ==> percent_decoded(seq![byte] + rest) == seq![byte]
            + percent_decoded(rest),
        sixteenth(high) < 0 || sixteenth(low) < 0 ==> percent_decoded(
            seq![0x25u8, high, low] + rest,
        ) == seq![0x25u8] + percent_decoded(seq![high, low] + rest),
{
    let escape = seq![0x25u8, high, low] + rest;
    assert(escape[0] == 0x25 && escape[1] == high && escape[2] == low);
    assert(escape.skip(3) =~= rest);
    assert(escape.skip(1) =~= seq![high, low] + rest);
    let plus = seq![0x2bu8] + rest;
    assert(plus[0] == 0x2b);
    assert(plus.skip(1) =~= rest);
    let plain = seq![byte] + rest;
    assert(plain[0] == byte);
    assert(plain.skip(1) =~= rest);
}

/// The alphabet of base 64 for addresses.
pub proof fn law_alphabet_of_base64(n: nat)
    requires
        n < 64,
    ensures
        base64_char(n)
            == "ABCDEFGHIJKLMNOPQRSTUVWXYZabcdefghijklmnopqrstuvwxyz0123456789-_"@[n as int],
{
    reveal(base64_char);
    reveal_strlit("ABCDEFGHIJKLMNOPQRSTUVWXYZabcdefghijklmnopqrstuvwxyz0123456789-_");
    let all = "ABCDEFGHIJKLMNOPQRSTUVWXYZabcdefghijklmnopqrstuvwxyz0123456789-_"@;
    assert(all.len() == 64);
    assert(all =~= seq![
        'A', 'B', 'C', 'D', 'E', 'F', 'G', 'H', 'I', 'J', 'K', 'L', 'M', 'N', 'O', 'P', 'Q', 'R',
        'S', 'T', 'U', 'V', 'W', 'X', 'Y', 'Z', 'a', 'b', 'c', 'd', 'e', 'f', 'g', 'h', 'i', 'j',
        'k', 'l', 'm', 'n', 'o', 'p', 'q', 'r', 's', 't', 'u', 'v', 'w', 'x', 'y', 'z', '0', '1',
        '2', '3', '4', '5', '6', '7', '8', '9', '-', '_',
    ]);
}

/// The alphabet of the texts that are drawn.
pub proof fn law_alphabet_of_drawn_texts(n: nat)
    requires
        n < 62,
    ensures
        alphabet_char(n)
            == "0123456789abcdefghijklmnopqrstuvwxyzABCDEFGHIJKLMNOPQRSTUVWXYZ"@[n as int],
{
    reveal_strlit("0123456789abcdefghijklmnopqrstuvwxyzABCDEFGHIJKLMNOPQRSTUVWXYZ");
    let all = "0123456789abcdefghijklmnopqrstuvwxyzABCDEFGHIJKLMNOPQRSTUVWXYZ"@;
    assert(all.len() == 62);
    assert(all =~= seq![
        '0', '1', '2', '3', '4', '5', '6', '7', '8', '9', 'a', 'b', 'c', 'd', 'e', 'f', 'g', 'h',
        'i', 'j', 'k', 'l', 'm', 'n', 'o', 'p', 'q', 'r', 's', 't', 'u', 'v', 'w', 'x', 'y', 'z',
        'A', 'B', 'C', 'D', 'E', 'F', 'G', 'H', 'I', 'J', 'K', 'L', 'M', 'N', 'O', 'P', 'Q', 'R',
        'S', 'T', 'U', 'V', 'W', 'X', 'Y', 'Z',
    ]);
}

/// Each byte below four times the size of the alphabet draws a character, and
/// the others, which would make some characters likelier, are passed over.
pub proof fn law_drawn_characters(bytes: Seq<u8>, byte: u8)
    ensures
        fair_chars(Seq::empty()).len() == 0,
        byte < 4 * 62 ==> fair_chars(bytes.push(byte)) == fair_chars(bytes).push(
            alphabet_char(byte as nat % 62),
        ),
        byte >= 4 * 62 ==> fair_chars(bytes.push(byte)) == fair_chars(bytes),
{
    assert(bytes.push(byte).drop_last() =~= bytes);
}

// ---------------------------------------------------------------------------
// Numbers
// ---------------------------------------------------------------------------

proof fn lemma_no_letter(digits: Seq<char>)
    requires
        all_digits(digits),
    ensures
        forall|i: int| 0 <= i < digits.len() ==> '0' <= #[trigger] digits[i] <= '9',
{
}

/// A number is read from its digits before and behind the point: the point
/// divides by ten for each digit behind it, and a sign before it is its sign.
pub proof fn law_decimals_are_read(whole: Seq<char>, fraction: Seq<char>)
    requires
        all_digits(whole) && all_digits(fraction),
        whole.len() > 0,
    ensures
        single_of_text(whole + seq!['.'] + fraction) == Some(
            nearest_decimal(false, digits_value(whole + fraction), -fraction.len()),
        ),
        single_of_text(seq!['-'] + (whole + seq!['.'] + fraction)) == Some(
            nearest_decimal(true, digits_value(whole + fraction), -fraction.len()),
        ),
        single_of_text(seq!['+'] + (whole + seq!['.'] + fraction)) == Some(
            nearest_decimal(false, digits_value(whole + fraction), -fraction.len()),
        ),
{
    let s = whole + seq!['.'] + fraction;
    lemma_no_letter(whole);
    lemma_no_letter(fraction);
    assert(s[0] == whole[0]);
    assert forall|i: int| 0 <= i < s.len() implies ('0' <= #[trigger] s[i] <= '9') || s[i]
        == '.' by {
        if i < whole.len() {
            assert(s[i] == whole[i]);
        } else if i > whole.len() {
            assert(s[i] == fraction[i - whole.len() - 1]);
        }
    }
    let lower = ascii_lower(s);
    assert(lower =~= s);
    lemma_words_are_no_numbers(s);
    assert forall|i: int| 0 <= i < lower.len() implies lower[i] != 'e' by {}
    lemma_index_of_is(lower, 'e', s.len() as int);
    assert(s.take(s.len() as int) =~= s);
    assert forall|i: int| 0 <= i < whole.len() implies s[i] != '.' by {
        assert(s[i] == whole[i]);
    }
    assert(s[whole.len() as int] == '.');
    lemma_index_of_is(s, '.', whole.len() as int);
    assert(s.take(whole.len() as int) =~= whole);
    assert(s.skip(whole.len() as int + 1) =~= fraction);
    assert((seq!['-'] + s).skip(1) =~= s);
    assert((seq!['+'] + s).skip(1) =~= s);
}

proof fn lemma_words_are_no_numbers(s: Seq<char>)
    requires
        s.len() > 0,
        '0' <= s[0] <= '9',
    ensures
        s != "inf"@ && s != "infinity"@ && s != "nan"@,
{
    reveal_strlit("inf");
    reveal_strlit("infinity");
    reveal_strlit("nan");
    assert("inf"@[0] == 'i' && "infinity"@[0] == 'i' && "nan"@[0] == 'n');
}

/// A whole number is read from its digits.
pub proof fn law_whole_numbers_are_read(digits: Seq<char>)
    requires
        all_digits(digits),
        digits.len() > 0,
    ensures
        single_of_text(digits) == Some(nearest_decimal(false, digits_value(digits), 0)),
        single_of_text(seq!['-'] + digits) == Some(
            nearest_decimal(true, digits_value(digits), 0),
        ),
{
    lemma_no_letter(digits);
    let lower = ascii_lower(digits);
    assert(lower =~= digits);
    lemma_words_are_no_numbers(digits);
    lemma_index_of_is(lower, 'e', digits.len() as int);
    assert(digits.take(digits.len() as int) =~= digits);
    lemma_index_of_is(digits, '.', digits.len() as int);
    assert(digits + Seq::<char>::empty() =~= digits);
    assert((seq!['-'] + digits).skip(1) =~= digits);
}

proof fn lemma_near()
    ensures
        single_of_text("0.05"@) == Some(equality_tolerance()),
{
    reveal_strlit("0.05");
    let zero = seq!['0'];
    let five = seq!['0', '5'];
    assert("0.05"@ =~= zero + seq!['.'] + five);
    assert(all_digits(zero) && all_digits(five));
    law_decimals_are_read(zero, five);
    let all = zero + five;
    assert(all =~= seq!['0', '0', '5']);
    assert(digits_value(all) == 5) by {
        reveal_with_fuel(digits_value, 4);
        assert(all.drop_last() =~= seq!['0', '0']);
        assert(all.drop_last().drop_last() =~= seq!['0']);
    }
}

proof fn lemma_slack()
    ensures
        single_of_text("0.001"@) == Some(bound_tolerance()),
{
    reveal_strlit("0.001");
    let zero = seq!['0'];
    let one = seq!['0', '0', '1'];
    assert("0.001"@ =~= zero + seq!['.'] + one);
    assert(all_digits(zero) && all_digits(one));
    law_decimals_are_read(zero, one);
    let all = zero + one;
    assert(all =~= seq!['0', '0', '0', '1']);
    assert(digits_value(all) == 1) by {
        reveal_with_fuel(digits_value, 5);
        assert(all.drop_last() =~= seq!['0', '0', '0']);
        assert(all.drop_last().drop_last() =~= seq!['0', '0']);
        assert(all.drop_last().drop_last().drop_last() =~= seq!['0']);
    }
}

/// Numbers are equal where they are less than 0.05 apart, and `>=` and `<=`
/// allow for 0.001.
pub proof fn law_how_near_is_equal(actual: Single, target: Single)
    ensures
        single_of_text("0.05"@) matches Some(near) && (ComparisonOp::Equal.holds(actual, target)
            == actual.difference(target).absolute().below(near)) && (ComparisonOp::NotEqual.holds(
            actual,
            target,
        ) == near.at_most(actual.difference(target).absolute())),
        single_of_text("0.001"@) matches Some(slack) && (ComparisonOp::GreaterThanOrEqual.holds(
            actual,
            target,
        ) == target.difference(slack).at_most(actual)) && (ComparisonOp::LessThanOrEqual.holds(
            actual,
            target,
        ) == actual.at_most(target.sum(slack))),
{
    lemma_near();
    lemma_slack();
}

/// The words for the modes in the filter panel and in a search.
pub proof fn law_words_for_modes()
    ensures
        ModeFilter::Osu.label_text() == "osu! (standard)"@,
        ModeFilter::Any.label_text() == "Any mode"@,
        ModeFilter::Taiko.label_text() == "taiko"@,
        ModeFilter::Catch.label_text() == "catch"@,
        ModeFilter::Mania.label_text() == "mania"@,
        ModeFilter::Osu.token_text() == Some("osu"@),
        ModeFilter::Any.token_text() is None,
        ModeFilter::Taiko.token_text() == Some("taiko"@),
        ModeFilter::Catch.token_text() == Some("catch"@),
        ModeFilter::Mania.token_text() == Some("mania"@),
{
}

} // verus!
