//! What holds of every `.osu` file and its name.

use crate::local::{issues_of, missing_file, MapView};
use crate::osu_file::{
    background_event, describes, entries, has_mode, is_osu_name, last_dot,
    law_no_background_event_no_background, lemma_extension_of, mode_in, mode_value,
};
use crate::outside::lossy_text;
use crate::path::PathView;
use crate::single::Single;
use crate::table::first_but_case;
use crate::text::{
    ascii_lower, ascii_lower_char, is_digit, leading_digits, lemma_trim_end, same_but_case, split,
    trim, trim_end, trim_start, CharClass,
};
use vstd::prelude::*;

verus! {

/// Texts that differ in the case of their letters have their dots at the same
/// places.
proof fn lemma_same_dots(a: Seq<char>, b: Seq<char>, i: int)
    requires
        same_but_case(a, b),
        last_dot(a, i),
    ensures
        last_dot(b, i),
{
    assert(ascii_lower(a).len() == a.len() && ascii_lower(b).len() == b.len());
    assert forall|j: int| 0 <= j < a.len() implies (a[j] == '.') == (b[j] == '.') by {
        assert(ascii_lower(a)[j] == ascii_lower_char(a[j]));
        assert(ascii_lower(b)[j] == ascii_lower_char(b[j]));
    }
}

/// Whether a file is a beatmap file does not depend on the case of its name.
pub proof fn law_osu_names_ignore_case(a: Seq<char>, b: Seq<char>)
    requires
        same_but_case(a, b),
    ensures
        is_osu_name(Some(a)) == is_osu_name(Some(b)),
{
    if exists|i: int| last_dot(a, i) {
        let i = choose|i: int| last_dot(a, i);
        lemma_same_dots(a, b, i);
        lemma_extension_of(a, i);
        lemma_extension_of(b, i);
        assert(ascii_lower(a.skip(i + 1)) =~= ascii_lower(a).skip(i + 1));
        assert(ascii_lower(b.skip(i + 1)) =~= ascii_lower(b).skip(i + 1));
    } else if exists|i: int| last_dot(b, i) {
        let i = choose|i: int| last_dot(b, i);
        lemma_same_dots(b, a, i);
    }
}

/// A file without a mode is of no known mode.
pub proof fn law_missing_mode_stays_unknown(values: Map<Seq<char>, Seq<char>>)
    requires
        !has_mode(values),
    ensures
        mode_in(values) is None,
{
    reveal_strlit("Mode");
    reveal_strlit("mode");
    assert(ascii_lower("Mode"@) =~= ascii_lower("mode"@));
    assert(!values.dom().contains("Mode"@));
    assert forall|key: Seq<char>| !first_but_case(values, "mode"@, key) by {}
}

/// However the key of the mode is written, its value gives the mode.
pub proof fn law_mode_key_ignores_case(key: Seq<char>, value: Seq<char>)
    requires
        same_but_case(key, "mode"@),
    ensures
        has_mode(map![key => value]),
        mode_value(map![key => value]) == Some(value),
        mode_in(map![key => value]) == mode_in(map!["Mode"@ => value]),
{
    let values = map![key => value];
    assert(values.dom().contains(key));
    assert(first_but_case(values, "mode"@, key));
    let found = choose|other: Seq<char>| first_but_case(values, "mode"@, other);
    assert(first_but_case(values, "mode"@, found));
    let plain = map!["Mode"@ => value];
    assert(plain.dom().contains("Mode"@));
}

pub proof fn lemma_leading_digits(digits: Seq<char>, rest: Seq<char>)
    requires
        forall|i: int| 0 <= i < digits.len() ==> is_digit(#[trigger] digits[i]),
        rest.len() == 0 || !is_digit(rest[0]),
    ensures
        leading_digits(digits + rest) == digits,
    decreases digits.len(),
{
    if digits.len() == 0 {
        assert(digits + rest =~= rest);
    } else {
        lemma_leading_digits(digits.skip(1), rest);
        assert((digits + rest).skip(1) =~= digits.skip(1) + rest);
        assert(is_digit(digits[0]));
        assert(seq![digits[0]] + digits.skip(1) =~= digits);
    }
}

/// What a trimmed text of digits and other characters begins with.
pub proof fn lemma_digits_of_trimmed(digits: Seq<char>, rest: Seq<char>)
    requires
        digits.len() > 0,
        forall|i: int| 0 <= i < digits.len() ==> is_digit(#[trigger] digits[i]),
        rest.len() == 0 || !is_digit(rest[0]),
    ensures
        leading_digits(trim(digits + rest)) == digits,
{
    let text = digits + rest;
    assert(is_digit(digits[0]));
    assert(trim_start(text, CharClass::White) == text);
    lemma_trim_end(text, CharClass::White);
    let t = trim_end(text, CharClass::White);
    let last = digits.len() - 1;
    assert(is_digit(digits[last]) && text[last] == digits[last]);
    assert(!CharClass::White.has(text[last]));
    assert(t.len() >= digits.len());
    assert(t =~= digits + rest.take(t.len() - digits.len()));
    lemma_leading_digits(digits, rest.take(t.len() - digits.len()));
}

/// What stands behind the number of the mode, such as a comment, does not
/// take the mode away.
pub proof fn law_mode_value_may_go_on(
    values: Map<Seq<char>, Seq<char>>,
    digits: Seq<char>,
    rest: Seq<char>,
)
    requires
        digits.len() > 0,
        forall|i: int| 0 <= i < digits.len() ==> is_digit(#[trigger] digits[i]),
        rest.len() == 0 || !is_digit(rest[0]),
    ensures
        mode_in(values.insert("Mode"@, digits + rest)) == mode_in(values.insert("Mode"@, digits)),
{
    lemma_digits_of_trimmed(digits, rest);
    lemma_digits_of_trimmed(digits, Seq::empty());
    assert(digits + Seq::<char>::empty() =~= digits);
}

/// A file without a background event has no issue about a background, whatever
/// lies in its folder.
pub proof fn law_no_background_event_no_issue(
    path: PathView,
    bytes: Seq<u8>,
    stars: Option<Single>,
    map: MapView,
    folder: Option<Seq<char>>,
    folder_name: Option<Seq<char>>,
    background_name: Option<Seq<char>>,
    audio_exists: bool,
    background_exists: bool,
)
    requires
        describes(path, bytes, stars, map, folder, folder_name, background_name),
        forall|i: int|
            0 <= i < entries(split(lossy_text(bytes), '\n')).len() ==> !((
            #[trigger] entries(split(lossy_text(bytes), '\n'))[i]).section == "Events"@
                && background_event(entries(split(lossy_text(bytes), '\n'))[i].line)),
    ensures
        issues_of(map, audio_exists, background_exists) == missing_file(
            path,
            "Missing audio file: "@,
            map.audio_filename,
            audio_exists,
        ),
{
    law_no_background_event_no_background(entries(split(lossy_text(bytes), '\n')));
    assert(map.background_filename is None);
    assert(issues_of(map, audio_exists, background_exists) =~= missing_file(
        path,
        "Missing audio file: "@,
        map.audio_filename,
        audio_exists,
    ));
}

} // verus!
