//! What the operations on texts do, told by texts put together from parts.

use crate::decimal::{
    all_digits, decimal_text, digits_value, integer_within, lemma_decimal_text, natural_within,
};
use crate::text::{
    ascii_lower, contains_text, find, first_at, has_white_space, index_of, is_digit, is_white_space,
    join, lemma_find, lemma_index_of, lemma_split_at, lemma_split_single, lemma_word_len_at,
    occurs_at, second_word, split, split_once, starts_with, text_less, trim, trim_both, trim_end,
    trim_start, CharClass,
};
use vstd::prelude::*;

verus! {

/// The characters of Unicode that are white space.
pub open spec fn white_characters() -> Seq<char> {
    seq![
        '\t', '\n', '\u{b}', '\u{c}', '\r', ' ', '\u{85}', '\u{a0}', '\u{1680}', '\u{2000}',
        '\u{2001}', '\u{2002}', '\u{2003}', '\u{2004}', '\u{2005}', '\u{2006}', '\u{2007}',
        '\u{2008}', '\u{2009}', '\u{200a}', '\u{2028}', '\u{2029}', '\u{202f}', '\u{205f}',
        '\u{3000}',
    ]
}

/// White space is what Unicode calls white space.
pub proof fn law_white_space(c: char)
    ensures
        is_white_space(c) == white_characters().contains(c),
{
    let all = white_characters();
    assert(all.len() == 25);
    assert(all[0] == '\t' && all[1] == '\n' && all[2] == '\u{b}' && all[3] == '\u{c}' && all[4]
        == '\r' && all[5] == ' ' && all[6] == '\u{85}' && all[7] == '\u{a0}' && all[8]
        == '\u{1680}');
    assert(all[9] == '\u{2000}' && all[10] == '\u{2001}' && all[11] == '\u{2002}' && all[12]
        == '\u{2003}' && all[13] == '\u{2004}' && all[14] == '\u{2005}' && all[15] == '\u{2006}'
        && all[16] == '\u{2007}' && all[17] == '\u{2008}' && all[18] == '\u{2009}' && all[19]
        == '\u{200a}');
    assert(all[20] == '\u{2028}' && all[21] == '\u{2029}' && all[22] == '\u{202f}' && all[23]
        == '\u{205f}' && all[24] == '\u{3000}');
    if is_white_space(c) {
        let u = c as u32;
        let i = if u <= 0x0d {
            u - 9
        } else if u == 0x20 {
            5
        } else if u == 0x85 {
            6
        } else if u == 0xa0 {
            7
        } else if u == 0x1680 {
            8
        } else if u <= 0x200a {
            u - 0x2000 + 9
        } else if u == 0x2028 {
            20
        } else if u == 0x2029 {
            21
        } else if u == 0x202f {
            22
        } else if u == 0x205f {
            23
        } else {
            24
        };
        assert(all[i] == c);
    }
}

/// Whether all characters of a text are of a class.
pub open spec fn all_of(s: Seq<char>, class: CharClass) -> bool {
    forall|i: int| 0 <= i < s.len() ==> class.has(#[trigger] s[i])
}

/// Trimming the start takes away the characters of the class, and stops at the
/// first other one.
pub proof fn law_trim_start(a: Seq<char>, s: Seq<char>, class: CharClass)
    requires
        all_of(a, class),
        s.len() == 0 || !class.has(s[0]),
    ensures
        trim_start(a + s, class) == s,
    decreases a.len(),
{
    if a.len() == 0 {
        assert(a + s =~= s);
    } else {
        assert(class.has(a[0]));
        assert((a + s).skip(1) =~= a.skip(1) + s);
        assert forall|i: int| 0 <= i < a.skip(1).len() implies class.has(
            #[trigger] a.skip(1)[i],
        ) by {
            assert(class.has(a[i + 1]));
        }
        law_trim_start(a.skip(1), s, class);
    }
}

/// Trimming the end takes away the characters of the class, and stops at the
/// last other one.
pub proof fn law_trim_end(s: Seq<char>, b: Seq<char>, class: CharClass)
    requires
        all_of(b, class),
        s.len() == 0 || !class.has(s.last()),
    ensures
        trim_end(s + b, class) == s,
    decreases b.len(),
{
    if b.len() == 0 {
        assert(s + b =~= s);
    } else {
        assert(class.has(b[b.len() - 1]));
        assert((s + b).last() == b.last());
        assert((s + b).drop_last() =~= s + b.drop_last());
        assert forall|i: int| 0 <= i < b.drop_last().len() implies class.has(
            #[trigger] b.drop_last()[i],
        ) by {
            assert(class.has(b[i]));
        }
        law_trim_end(s, b.drop_last(), class);
    }
}

/// Trimming gives back what stands between characters of the class.
pub proof fn law_trim_both(a: Seq<char>, s: Seq<char>, b: Seq<char>, class: CharClass)
    requires
        all_of(a, class),
        all_of(b, class),
        s.len() == 0 || (!class.has(s[0]) && !class.has(s.last())),
    ensures
        trim_both(a + s + b, class) == s,
{
    if s.len() == 0 {
        let all = a + b;
        assert(a + s + b =~= all + s);
        assert forall|i: int| 0 <= i < all.len() implies class.has(#[trigger] all[i]) by {
            if i < a.len() {
                assert(class.has(a[i]));
            } else {
                assert(class.has(b[i - a.len()]));
            }
        }
        law_trim_start(all, s, class);
        assert(trim_end(s, class) =~= s);
    } else {
        assert(a + s + b =~= a + (s + b));
        law_trim_start(a, s + b, class);
        law_trim_end(s, b, class);
    }
}

/// White space around a text is taken away, and nothing else.
pub proof fn law_trim(a: Seq<char>, s: Seq<char>, b: Seq<char>)
    requires
        forall|i: int| 0 <= i < a.len() ==> is_white_space(#[trigger] a[i]),
        forall|i: int| 0 <= i < b.len() ==> is_white_space(#[trigger] b[i]),
        s.len() == 0 || (!is_white_space(s[0]) && !is_white_space(s.last())),
    ensures
        trim(a + s + b) == s,
{
    law_trim_both(a, s, b, CharClass::White);
}

/// The classes of characters are what they are named.
pub proof fn law_classes(c: char, only: char)
    ensures
        CharClass::White.has(c) == white_characters().contains(c),
        CharClass::Only(only).has(c) == (c == only),
        CharClass::Slash.has(c) == seq!['/', '\\'].contains(c),
{
    law_white_space(c);
    let slashes = seq!['/', '\\'];
    assert(slashes[0] == '/' && slashes[1] == '\\');
}

proof fn lemma_join_front(parts: Seq<Seq<char>>, sep: Seq<char>)
    requires
        parts.len() > 1,
    ensures
        join(parts, sep) == parts[0] + sep + join(parts.skip(1), sep),
    decreases parts.len(),
{
    let init = parts.drop_last();
    if parts.len() == 2 {
        assert(join(init, sep) == parts[0]);
        assert(join(parts.skip(1), sep) == parts[1]);
    } else {
        lemma_join_front(init, sep);
        assert(init.skip(1) =~= parts.skip(1).drop_last());
        assert(parts.skip(1).last() == parts.last());
        assert(join(parts, sep) =~= parts[0] + sep + join(parts.skip(1), sep));
    }
}

/// Taking texts apart at a separator undoes joining them with it.
pub proof fn law_split_undoes_join(parts: Seq<Seq<char>>, sep: char)
    requires
        parts.len() > 0,
        forall|i: int| 0 <= i < parts.len() ==> !(#[trigger] parts[i]).contains(sep),
    ensures
        split(join(parts, seq![sep]), sep) == parts,
    decreases parts.len(),
{
    assert(!parts[0].contains(sep));
    if parts.len() == 1 {
        lemma_split_single(parts[0], sep);
        assert(parts =~= seq![parts[0]]);
    } else {
        let rest = parts.skip(1);
        lemma_join_front(parts, seq![sep]);
        assert forall|i: int| 0 <= i < rest.len() implies !(#[trigger] rest[i]).contains(sep) by {
            assert(!parts[i + 1].contains(sep));
        }
        law_split_undoes_join(rest, sep);
        lemma_split_at(parts[0], sep, join(rest, seq![sep]));
        assert(seq![parts[0]] + rest =~= parts);
    }
}

/// A text without the separator cannot be taken apart at it.
pub proof fn law_split_once_needs_the_separator(s: Seq<char>, sep: char)
    requires
        !s.contains(sep),
    ensures
        split_once(s, sep) is None,
{
    lemma_split_single(s, sep);
}

/// A text is found in what is put together around it, and what holds a text is
/// put together around it.
pub proof fn law_contains(a: Seq<char>, pat: Seq<char>, b: Seq<char>, s: Seq<char>)
    ensures
        contains_text(a + pat + b, pat),
        contains_text(s, pat) ==> exists|i: int, j: int|
            0 <= i <= j <= s.len() && #[trigger] s.subrange(i, j) == pat,
{
    let all = a + pat + b;
    assert(all.subrange(a.len() as int, (a.len() + pat.len()) as int) =~= pat);
    assert(occurs_at(all, pat, a.len() as int));
    if contains_text(s, pat) {
        let i = choose|i: int| occurs_at(s, pat, i);
        assert(s.subrange(i, i + pat.len()) == pat);
    }
}

/// A text is found where it stands for the first time.
pub proof fn law_find_is_first(s: Seq<char>, pat: Seq<char>, i: int)
    requires
        0 <= i <= i + pat.len() <= s.len(),
        s.subrange(i, i + pat.len()) == pat,
        forall|j: int|
            0 <= j < i && j + pat.len() <= s.len() ==> #[trigger] s.subrange(j, j + pat.len()) != pat,
    ensures
        find(s, pat) == Some(i),
{
    assert(occurs_at(s, pat, i));
    assert(first_at(s, pat, i));
    lemma_find(s, pat, i);
}

/// A text begins with another where it is that one with something behind it.
pub proof fn law_starts_with(prefix: Seq<char>, rest: Seq<char>, s: Seq<char>)
    ensures
        starts_with(prefix + rest, prefix),
        starts_with(s, prefix) ==> s == prefix + s.skip(prefix.len() as int),
{
    assert((prefix + rest).take(prefix.len() as int) =~= prefix);
    if starts_with(s, prefix) {
        assert(s =~= prefix + s.skip(prefix.len() as int));
    }
}

/// Small letters replace the capitals A to Z, each by its own, and nothing else
/// changes.
pub proof fn law_ascii_lower(s: Seq<char>, i: int)
    requires
        0 <= i < s.len(),
    ensures
        ascii_lower(s).len() == s.len(),
        'A' <= s[i] <= 'Z' ==> 'a' <= ascii_lower(s)[i] <= 'z' && ascii_lower(s)[i] as u32 - s[i] as u32
            == 32,
        !('A' <= s[i] <= 'Z') ==> ascii_lower(s)[i] == s[i],
        ascii_lower(ascii_lower(s)) == ascii_lower(s),
{
    assert(ascii_lower(ascii_lower(s)) =~= ascii_lower(s));
}

/// Texts are ordered by the first characters that differ, and a text comes
/// before those that it begins.
pub proof fn law_text_order(start: Seq<char>, c: char, x: Seq<char>, d: char, y: Seq<char>)
    ensures
        text_less(start, start + seq![c] + x),
        !text_less(start + seq![c] + x, start),
        c < d ==> text_less(start + seq![c] + x, start + seq![d] + y),
        c > d ==> !text_less(start + seq![c] + x, start + seq![d] + y),
    decreases start.len(),
{
    let left = start + seq![c] + x;
    let right = start + seq![d] + y;
    if start.len() > 0 {
        law_text_order(start.skip(1), c, x, d, y);
        assert(left.skip(1) =~= start.skip(1) + seq![c] + x);
        assert(right.skip(1) =~= start.skip(1) + seq![d] + y);
    }
}

/// The value of digits grows tenfold with each digit.
pub proof fn law_digits(s: Seq<char>, c: char)
    requires
        '0' <= c <= '9',
    ensures
        digits_value(Seq::empty()) == 0,
        digits_value(s.push(c)) == 10 * digits_value(s) + (c as u32 - '0' as u32),
{
    assert(s.push(c).drop_last() =~= s);
}

/// A number written in digits is read as that number, behind a plus too, and
/// behind a minus as its opposite, as far as it lies between the bounds.
pub proof fn law_integers_are_read(n: nat, low: int, high: int)
    ensures
        integer_within(decimal_text(n), low, high) == (if low <= n <= high {
            Some(n as int)
        } else {
            None
        }),
        integer_within(seq!['+'] + decimal_text(n), low, high) == (if low <= n <= high {
            Some(n as int)
        } else {
            None
        }),
        integer_within(seq!['-'] + decimal_text(n), low, high) == (if low <= -n <= high {
            Some(-n)
        } else {
            None
        }),
        high >= 0 ==> natural_within(decimal_text(n), high as nat) == (if n <= high {
            Some(n)
        } else {
            None
        }),
{
    lemma_decimal_text(n);
    let text = decimal_text(n);
    assert(is_digit(text[0]));
    assert((seq!['+'] + text).skip(1) =~= text);
    assert((seq!['-'] + text).skip(1) =~= text);
}

/// What holds anything but digits behind its sign is no whole number.
pub proof fn law_only_digits_are_read(s: Seq<char>, i: int, low: int, high: int)
    requires
        0 <= i < s.len(),
        !('0' <= s[i] <= '9'),
        i > 0 || (s[0] != '+' && s[0] != '-'),
    ensures
        integer_within(s, low, high) is None,
        high >= 0 ==> natural_within(s, high as nat) is None,
{
    if s[0] == '+' || s[0] == '-' {
        assert(s.skip(1)[i - 1] == s[i]);
        assert(!all_digits(s.skip(1)));
    } else {
        assert(!all_digits(s));
    }
}

/// Texts on both sides of a separator are taken apart each on its own.
pub proof fn law_split_on_both_sides(a: Seq<char>, sep: char, b: Seq<char>)
    ensures
        split(a + seq![sep] + b, sep) == split(a, sep) + split(b, sep),
    decreases a.len(),
{
    if !a.contains(sep) {
        lemma_split_at(a, sep, b);
        lemma_split_single(a, sep);
    } else {
        lemma_index_of(a, sep);
        let i = index_of(a, sep) as int;
        let first = a.take(i);
        let rest = a.skip(i + 1);
        assert(!first.contains(sep));
        assert(a =~= first + seq![sep] + rest);
        assert(a + seq![sep] + b =~= first + seq![sep] + (rest + seq![sep] + b));
        lemma_split_at(first, sep, rest);
        lemma_split_at(first, sep, rest + seq![sep] + b);
        law_split_on_both_sides(rest, sep, b);
        assert(seq![first] + (split(rest, sep) + split(b, sep)) =~= (seq![first] + split(rest, sep))
            + split(b, sep));
    }
}

/// The second word stands behind the first and white space of any kind, and
/// ends at white space or at the end.
pub proof fn law_second_word(
    lead: Seq<char>,
    first: Seq<char>,
    gap: Seq<char>,
    second: Seq<char>,
    rest: Seq<char>,
)
    requires
        all_of(lead, CharClass::White) && all_of(gap, CharClass::White),
        first.len() > 0 && !has_white_space(first),
        gap.len() > 0,
        second.len() > 0 && !has_white_space(second),
        rest.len() == 0 || is_white_space(rest[0]),
    ensures
        second_word(lead + (first + (gap + (second + rest)))) == Some(second),
        second_word(lead + first) is None,
        second_word(lead + (first + gap)) is None,
        second_word(lead) is None,
{
    let none = Seq::<char>::empty();
    let end = second + rest;
    let tail = gap + end;
    let s = first + tail;
    assert(!is_white_space(first[0]));
    assert(!is_white_space(second[0]));
    assert(CharClass::White.has(gap[0]));
    law_trim_start(lead, s, CharClass::White);
    lemma_word_len_at(first, tail);
    assert(s.skip(first.len() as int) =~= tail);
    law_trim_start(gap, end, CharClass::White);
    lemma_word_len_at(second, rest);
    assert(end.take(second.len() as int) =~= second);
    law_trim_start(lead, first, CharClass::White);
    lemma_word_len_at(first, none);
    assert(first + none =~= first);
    assert(first.skip(first.len() as int) =~= none);
    law_trim_start(none, none, CharClass::White);
    assert(none + none =~= none);
    law_trim_start(lead, first + gap, CharClass::White);
    lemma_word_len_at(first, gap);
    assert((first + gap).skip(first.len() as int) =~= gap);
    law_trim_start(gap, none, CharClass::White);
    assert(gap + none =~= gap);
    law_trim_start(lead, none, CharClass::White);
    assert(lead + none =~= lead);
    assert(none.skip(0) =~= none);
}

} // verus!
