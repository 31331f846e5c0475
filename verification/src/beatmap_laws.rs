//! What the lines of an `.osu` file mean for the beatmap that is read from it.

use crate::decimal::{decimal_text, lemma_decimal_text};
use crate::file_laws::lemma_digits_of_trimmed;
use crate::local::LocalBeatmap;
use crate::numeral::single_of_text;
use crate::osu_file::{
    asset_name, background_event, background_value, contents_of_entries, count_flag, describes,
    entries, event_value, fields_from, first_bpm, hex_text, hit_object, hit_objects, image_named,
    is_osu_name, is_repairable, last_dot, latest, lemma_extension_of, metadata, mode_in, mode_value,
    open_section, positive_id, set_id_in, timing_point_bpm, whole_number, Entry,
};
use crate::outside::{lossy_text, md5_digest};
use crate::path::PathView;
use crate::table::{first_but_case, lemma_first_but_case};
use crate::single::{nearest_integer, Single};
use crate::text::{
    ascii_lower, is_digit, is_white_space, join, lemma_split_once_at, lemma_trim_fixed,
    same_but_case, split, split_once, starts_with, trim, CharClass,
};
use crate::text_laws::{all_of, law_integers_are_read, law_split_undoes_join, law_trim_both};
use vstd::prelude::*;

verus! {

// ---------------------------------------------------------------------------
// Lines and sections
// ---------------------------------------------------------------------------

/// Whether a line says nothing of its own: it is blank, a comment, or the
/// header of a section.
pub open spec fn is_silent(line: Seq<char>) -> bool {
    let text = trim(line);
    ||| text.len() == 0
    ||| (text.len() >= 2 && text[0] == '/' && text[1] == '/')
    ||| opens_a_section(line)
}

/// Whether a line is a name in square brackets.
pub open spec fn opens_a_section(line: Seq<char>) -> bool {
    let text = trim(line);
    text.len() >= 2 && text[0] == '[' && text[text.len() - 1] == ']'
}

proof fn lemma_comments(line: Seq<char>)
    ensures
        starts_with(line, "//"@) == (line.len() >= 2 && line[0] == '/' && line[1] == '/'),
{
    reveal_strlit("//");
    if line.len() >= 2 {
        let start = line.take(2);
        if line[0] == '/' && line[1] == '/' {
            assert(start =~= "//"@);
        } else if start == "//"@ {
            assert(start[0] == line[0] && start[1] == line[1]);
        }
    }
}

/// Blank lines, comments and headers hold nothing.
pub proof fn law_silent_lines(lines: Seq<Seq<char>>, line: Seq<char>)
    requires
        is_silent(line),
    ensures
        entries(lines.push(line)) == entries(lines),
{
    lemma_comments(trim(line));
    assert(lines.push(line).drop_last() =~= lines);
}

proof fn lemma_section(lines: Seq<Seq<char>>, name: Seq<char>, middle: Seq<Seq<char>>)
    requires
        lines.len() > 0,
        trim(lines.last()) == seq!['['] + name + seq![']'],
        forall|i: int| 0 <= i < middle.len() ==> !opens_a_section(#[trigger] middle[i]),
    ensures
        open_section(lines + middle) == name,
    decreases middle.len(),
{
    let all = lines + middle;
    if middle.len() == 0 {
        let line = trim(lines.last());
        assert(all =~= lines);
        lemma_comments(line);
        assert(line.subrange(1, line.len() - 1) =~= name);
    } else {
        let init = middle.drop_last();
        assert forall|i: int| 0 <= i < init.len() implies !opens_a_section(#[trigger] init[i]) by {
            assert(!opens_a_section(middle[i]));
        }
        lemma_section(lines, name, init);
        assert(all.drop_last() =~= lines + init);
        assert(!opens_a_section(middle[middle.len() - 1]));
        assert(all.last() == middle.last());
    }
}

/// A line belongs to the section whose header comes last before it, and is
/// taken without the white space around it.
pub proof fn law_line_in_its_section(
    before: Seq<Seq<char>>,
    header: Seq<char>,
    name: Seq<char>,
    middle: Seq<Seq<char>>,
    line: Seq<char>,
)
    requires
        trim(header) == seq!['['] + name + seq![']'],
        forall|i: int| 0 <= i < middle.len() ==> !opens_a_section(#[trigger] middle[i]),
        !is_silent(line),
    ensures
        entries((before.push(header) + middle).push(line)) == entries(
            before.push(header) + middle,
        ).push(Entry { section: name, line: trim(line) }),
{
    let lines = before.push(header) + middle;
    lemma_section(before.push(header), name, middle);
    lemma_comments(trim(line));
    assert(lines.push(line).drop_last() =~= lines);
    assert(lines.push(line).last() == line);
}

/// A line before every header belongs to no section.
pub proof fn law_line_before_all_sections(lines: Seq<Seq<char>>, line: Seq<char>)
    requires
        forall|i: int| 0 <= i < lines.len() ==> !opens_a_section(#[trigger] lines[i]),
        !is_silent(line),
    ensures
        entries(lines.push(line)) == entries(lines).push(
            Entry { section: Seq::empty(), line: trim(line) },
        ),
{
    lemma_no_section(lines);
    lemma_comments(trim(line));
    assert(lines.push(line).drop_last() =~= lines);
}

proof fn lemma_no_section(lines: Seq<Seq<char>>)
    requires
        forall|i: int| 0 <= i < lines.len() ==> !opens_a_section(#[trigger] lines[i]),
    ensures
        open_section(lines) == Seq::<char>::empty(),
    decreases lines.len(),
{
    if lines.len() > 0 {
        assert(!opens_a_section(lines[lines.len() - 1]));
        let init = lines.drop_last();
        assert forall|i: int| 0 <= i < init.len() implies !opens_a_section(#[trigger] init[i]) by {
            assert(!opens_a_section(lines[i]));
        }
        lemma_no_section(init);
    }
}

// ---------------------------------------------------------------------------
// Keys and values
// ---------------------------------------------------------------------------

/// Whether a line of a section stands for a value of a key: the sections of
/// such lines are General, Metadata and Difficulty, and the key stands before
/// the first colon.
pub open spec fn gives_a_value(entry: Entry, key: Seq<char>) -> bool {
    &&& entry.section == "General"@ || entry.section == "Metadata"@ || entry.section
        == "Difficulty"@
    &&& split_once(entry.line, ':') matches Some((before, after)) && trim(before) == key
}

proof fn lemma_last_value(entries: Seq<Entry>, i: int, key: Seq<char>)
    requires
        0 <= i < entries.len(),
        gives_a_value(entries[i], key),
        forall|j: int| i < j < entries.len() ==> !gives_a_value(#[trigger] entries[j], key),
    ensures
        metadata(entries).dom().contains(key),
        split_once(entries[i].line, ':') matches Some((before, after)) && metadata(entries)[key]
            == trim(after),
    decreases entries.len(),
{
    let last = entries.len() - 1;
    if i < last {
        let init = entries.drop_last();
        assert forall|j: int| i < j < init.len() implies !gives_a_value(#[trigger] init[j], key) by {
            assert(!gives_a_value(entries[j], key));
        }
        assert(init[i] == entries[i]);
        lemma_last_value(init, i, key);
        assert(!gives_a_value(entries[last], key));
    }
}

proof fn lemma_no_value(entries: Seq<Entry>, key: Seq<char>)
    requires
        forall|j: int| 0 <= j < entries.len() ==> !gives_a_value(#[trigger] entries[j], key),
    ensures
        !metadata(entries).dom().contains(key),
    decreases entries.len(),
{
    if entries.len() > 0 {
        let init = entries.drop_last();
        assert forall|j: int| 0 <= j < init.len() implies !gives_a_value(#[trigger] init[j], key) by {
            assert(!gives_a_value(entries[j], key));
        }
        lemma_no_value(init, key);
        assert(!gives_a_value(entries[entries.len() - 1], key));
    }
}

/// What a file is read with: the lines of it, each with its section.
pub open spec fn entries_of(bytes: Seq<u8>) -> Seq<Entry> {
    entries(split(lossy_text(bytes), '\n'))
}

/// The last line of a file with a text as its key gives that text of the
/// beatmap, whatever the other keys say.
pub proof fn law_texts_of_a_beatmap(
    path: PathView,
    bytes: Seq<u8>,
    stars: Option<Single>,
    map: LocalBeatmap,
    folder: Option<Seq<char>>,
    folder_name: Option<Seq<char>>,
    background_name: Option<Seq<char>>,
    i: int,
    key: Seq<char>,
    value: Seq<char>,
)
    requires
        describes(path, bytes, stars, map@, folder, folder_name, background_name),
        0 <= i < entries_of(bytes).len(),
        gives_a_value(entries_of(bytes)[i], key),
        entries_of(bytes)[i].line == key + seq![':'] + value,
        !key.contains(':'),
        forall|j: int|
            i < j < entries_of(bytes).len() ==> !gives_a_value(
                #[trigger] entries_of(bytes)[j],
                key,
            ),
    ensures
        key == "Artist"@ ==> map.artist@ == trim(value),
        key == "Title"@ ==> map.title@ == trim(value),
        key == "Source"@ ==> map.source@ == trim(value),
        key == "Creator"@ ==> map.creator@ == trim(value),
        key == "Version"@ ==> map.version@ == trim(value),
        key == "Tags"@ ==> map.tags@ == trim(value),
        key == "AudioFilename"@ ==> (map.audio_filename matches Some(name) && name@ == trim(value)),
        key == "ApproachRate"@ ==> map.ar == single_of_text(trim(value)),
        key == "CircleSize"@ ==> map.cs == single_of_text(trim(value)),
        key == "OverallDifficulty"@ ==> map.od == single_of_text(trim(value)),
        key == "HPDrainRate"@ ==> map.hp == single_of_text(trim(value)),
{
    lemma_split_once_at(key, ':', value);
    lemma_last_value(entries_of(bytes), i, key);
}

/// The last line of a file with the key BeatmapID and a number that is not
/// zero gives the id of the beatmap, whatever BeatmapSetID says; likewise
/// BeatmapSetID and the id of the set, whatever BeatmapID says.
pub proof fn law_ids_of_a_beatmap(
    path: PathView,
    bytes: Seq<u8>,
    stars: Option<Single>,
    map: LocalBeatmap,
    folder: Option<Seq<char>>,
    folder_name: Option<Seq<char>>,
    background_name: Option<Seq<char>>,
    i: int,
    key: Seq<char>,
    value: Seq<char>,
    n: nat,
)
    requires
        describes(path, bytes, stars, map@, folder, folder_name, background_name),
        0 <= i < entries_of(bytes).len(),
        gives_a_value(entries_of(bytes)[i], key),
        entries_of(bytes)[i].line == key + seq![':'] + value,
        !key.contains(':'),
        trim(value) == decimal_text(n),
        0 < n <= i64::MAX,
        forall|j: int|
            i < j < entries_of(bytes).len() ==> !gives_a_value(
                #[trigger] entries_of(bytes)[j],
                key,
            ),
    ensures
        key == "BeatmapID"@ ==> map.beatmap_id == Some(n as i64),
        key == "BeatmapSetID"@ ==> map.beatmapset_id == Some(n as i64),
{
    lemma_split_once_at(key, ':', value);
    lemma_last_value(entries_of(bytes), i, key);
    law_integers_are_read(n, i64::MIN as int, i64::MAX as int);
}

proof fn lemma_earlier_entries(a: Seq<Seq<char>>, b: Seq<Seq<char>>)
    ensures
        entries(a).len() <= entries(a + b).len(),
        entries(a + b).take(entries(a).len() as int) == entries(a),
    decreases b.len(),
{
    let n = entries(a).len() as int;
    if b.len() == 0 {
        assert(a + b =~= a);
        assert(entries(a).take(n) =~= entries(a));
    } else {
        lemma_earlier_entries(a, b.drop_last());
        assert((a + b).drop_last() =~= a + b.drop_last());
        assert(entries(a + b).take(n) =~= entries(a + b.drop_last()).take(n));
    }
}

/// Whether a line stands in a file under a header, with no other header
/// between them.
pub open spec fn stands_under(
    bytes: Seq<u8>,
    before: Seq<Seq<char>>,
    name: Seq<char>,
    middle: Seq<Seq<char>>,
    line: Seq<char>,
    after: Seq<Seq<char>>,
) -> bool {
    &&& split(lossy_text(bytes), '\n') == (before + middle).push(line) + after
    &&& before.len() > 0
    &&& trim(before.last()) == seq!['['] + name + seq![']']
    &&& forall|i: int| 0 <= i < middle.len() ==> !opens_a_section(#[trigger] middle[i])
}

/// A line of a file counts under the header that it stands under.
pub proof fn law_line_of_a_file(
    bytes: Seq<u8>,
    before: Seq<Seq<char>>,
    name: Seq<char>,
    middle: Seq<Seq<char>>,
    line: Seq<char>,
    after: Seq<Seq<char>>,
)
    requires
        stands_under(bytes, before, name, middle, line, after),
        !is_silent(line),
    ensures
        entries(before + middle).len() < entries_of(bytes).len(),
        entries_of(bytes)[entries(before + middle).len() as int] == (Entry {
            section: name,
            line: trim(line),
        }),
{
    let lines = before + middle;
    let header = before.last();
    assert(before.drop_last().push(header) =~= before);
    law_line_in_its_section(before.drop_last(), header, name, middle, line);
    lemma_earlier_entries(lines.push(line), after);
    let n = entries(lines).len() as int;
    let kept = entries_of(bytes).take(entries(lines.push(line)).len() as int);
    assert(kept[n] == entries_of(bytes)[n]);
}

/// A file with a line `BeatmapID:` and a number above zero under the header of
/// its metadata, and no such line behind it, is read as the beatmap of that id,
/// whatever its other lines say.
pub proof fn law_beatmap_id_of_a_file(
    path: PathView,
    bytes: Seq<u8>,
    stars: Option<Single>,
    map: LocalBeatmap,
    folder: Option<Seq<char>>,
    folder_name: Option<Seq<char>>,
    background_name: Option<Seq<char>>,
    before: Seq<Seq<char>>,
    middle: Seq<Seq<char>>,
    line: Seq<char>,
    after: Seq<Seq<char>>,
    n: nat,
)
    requires
        describes(path, bytes, stars, map@, folder, folder_name, background_name),
        stands_under(bytes, before, "Metadata"@, middle, line, after),
        trim(line) == "BeatmapID"@ + seq![':'] + decimal_text(n),
        0 < n <= i64::MAX,
        forall|j: int|
            entries(before + middle).len() < j < entries_of(bytes).len() ==> !gives_a_value(
                #[trigger] entries_of(bytes)[j],
                "BeatmapID"@,
            ),
    ensures
        map.beatmap_id == Some(n as i64),
{
    reveal_strlit("BeatmapID");
    let key = "BeatmapID"@;
    let value = decimal_text(n);
    let text = trim(line);
    let i = entries(before + middle).len() as int;
    assert(text[0] == 'B');
    law_line_of_a_file(bytes, before, "Metadata"@, middle, line, after);
    assert(!key.contains(':'));
    lemma_split_once_at(key, ':', value);
    lemma_trim_fixed(key, CharClass::White);
    lemma_decimal_text(n);
    assert(is_digit(value[0]) && is_digit(value[value.len() - 1]));
    lemma_trim_fixed(value, CharClass::White);
    law_ids_of_a_beatmap(
        path,
        bytes,
        stars,
        map,
        folder,
        folder_name,
        background_name,
        i,
        key,
        value,
        n,
    );
}

/// An id that is zero or less, or that is no whole number, is no id.
pub proof fn law_only_positive_ids(text: Seq<char>, n: nat)
    ensures
        positive_id(text) matches Some(id) ==> id > 0,
        0 < n <= i64::MAX ==> positive_id(decimal_text(n)) == Some(n as i64),
        positive_id(decimal_text(0)) is None,
        positive_id(seq!['-'] + decimal_text(n)) is None,
        n > i64::MAX ==> positive_id(decimal_text(n)) is None,
{
    law_integers_are_read(n, i64::MIN as int, i64::MAX as int);
    law_integers_are_read(0, i64::MIN as int, i64::MAX as int);
}

/// A file without a line of a key leaves what that key gives unknown or empty;
/// without BeatmapSetID the id of the set is taken from the folder's name.
pub proof fn law_missing_keys(
    path: PathView,
    bytes: Seq<u8>,
    stars: Option<Single>,
    map: LocalBeatmap,
    folder: Option<Seq<char>>,
    folder_name: Option<Seq<char>>,
    background_name: Option<Seq<char>>,
    key: Seq<char>,
)
    requires
        describes(path, bytes, stars, map@, folder, folder_name, background_name),
        forall|j: int|
            0 <= j < entries_of(bytes).len() ==> !gives_a_value(
                #[trigger] entries_of(bytes)[j],
                key,
            ),
    ensures
        key == "BeatmapID"@ ==> map.beatmap_id is None,
        key == "BeatmapSetID"@ ==> map.beatmapset_id == set_id_in(folder_name),
        key == "Artist"@ ==> map.artist@.len() == 0,
        key == "Title"@ ==> map.title@.len() == 0,
        key == "Source"@ ==> map.source@.len() == 0,
        key == "Creator"@ ==> map.creator@.len() == 0,
        key == "Version"@ ==> map.version@.len() == 0,
        key == "Tags"@ ==> map.tags@.len() == 0,
        key == "AudioFilename"@ ==> map.audio_filename is None,
        key == "ApproachRate"@ ==> map.ar is None,
        key == "CircleSize"@ ==> map.cs is None,
        key == "OverallDifficulty"@ ==> map.od is None,
        key == "HPDrainRate"@ ==> map.hp is None,
{
    lemma_no_value(entries_of(bytes), key);
}

/// The id of a set in the name of its folder is the number that the name
/// begins with.
pub proof fn law_set_id_of_a_folder(n: nat, rest: Seq<char>)
    requires
        rest.len() == 0 || !is_digit(rest[0]),
        n <= i64::MAX,
    ensures
        set_id_in(Some(decimal_text(n) + rest)) == (if n > 0 {
            Some(n as i64)
        } else {
            None
        }),
        set_id_in(None) is None,
{
    lemma_decimal_text(n);
    let digits = decimal_text(n);
    assert forall|i: int| 0 <= i < digits.len() implies is_digit(#[trigger] digits[i]) by {}
    lemma_digits_of_trimmed(digits, rest);
    law_integers_are_read(n, i64::MIN as int, i64::MAX as int);
}

/// The mode of a file is the number of its line Mode, where it fits a byte.
pub proof fn law_mode_of_a_beatmap(values: Map<Seq<char>, Seq<char>>, n: nat)
    ensures
        mode_in(values.insert("Mode"@, decimal_text(n))) == (if n <= 255 {
            Some(n as u8)
        } else {
            None
        }),
{
    lemma_decimal_text(n);
    let digits = decimal_text(n);
    assert forall|i: int| 0 <= i < digits.len() implies is_digit(#[trigger] digits[i]) by {}
    lemma_digits_of_trimmed(digits, Seq::empty());
    assert(digits + Seq::<char>::empty() =~= digits);
    law_integers_are_read(n, 0, 255);
}

/// What does not come from the lines of a file: its path, its digest and its
/// stars; its status is unknown, and its mode is that of its keys.
pub proof fn law_rest_of_a_beatmap(
    path: PathView,
    bytes: Seq<u8>,
    stars: Option<Single>,
    map: LocalBeatmap,
    folder: Option<Seq<char>>,
    folder_name: Option<Seq<char>>,
    background_name: Option<Seq<char>>,
)
    requires
        describes(path, bytes, stars, map@, folder, folder_name, background_name),
    ensures
        map.path@ == path,
        map.folder@.text == (match folder {
            Some(folder) => folder,
            None => Seq::empty(),
        }),
        map.md5@ == hex_text(md5_digest(bytes)),
        map.stars == stars,
        map.ranked_status is None,
        map.mode == mode_in(metadata(entries_of(bytes))),
        map.has_mode_field == (exists|key: Seq<char>|
            metadata(entries_of(bytes)).dom().contains(key) && same_but_case(key, "mode"@)),
{
}

/// The text of a digest writes each byte as two of the sixteen digits.
pub proof fn law_hex_digits(bytes: Seq<u8>, i: int)
    requires
        0 <= i < bytes.len(),
    ensures
        hex_text(bytes).len() == 2 * bytes.len(),
        hex_text(bytes)[2 * i] == "0123456789abcdef"@[bytes[i] as int / 16],
        hex_text(bytes)[2 * i + 1] == "0123456789abcdef"@[bytes[i] as int % 16],
    decreases bytes.len(),
{
    reveal_strlit("0123456789abcdef");
    let digits = "0123456789abcdef"@;
    assert(digits =~= seq![
        '0', '1', '2', '3', '4', '5', '6', '7', '8', '9', 'a', 'b', 'c', 'd', 'e', 'f',
    ]);
    let init = bytes.drop_last();
    if init.len() == 0 {
        assert(hex_text(init).len() == 0);
    }
    if i < init.len() {
        law_hex_digits(init, i);
    } else if init.len() > 0 {
        law_hex_digits(init, 0);
    }
}

// ---------------------------------------------------------------------------
// Events
// ---------------------------------------------------------------------------

proof fn lemma_fields_run(s: Seq<char>, rest: Seq<char>, current: Seq<char>, in_quotes: bool)
    requires
        !s.contains('"'),
        in_quotes || !s.contains(','),
    ensures
        fields_from(s + rest, current, in_quotes) == fields_from(rest, current + s, in_quotes),
    decreases s.len(),
{
    if s.len() == 0 {
        assert(s + rest =~= rest);
        assert(current + s =~= current);
    } else {
        let all = s + rest;
        let later = s.skip(1);
        assert(all[0] == s[0]);
        assert(s.contains(s[0]));
        assert(all.skip(1) =~= later + rest);
        assert forall|c: char| later.contains(c) implies s.contains(c) by {
            let i = choose|i: int| 0 <= i < later.len() && later[i] == c;
            assert(s[i + 1] == c);
        }
        lemma_fields_run(later, rest, current.push(s[0]), in_quotes);
        assert(current.push(s[0]) + later =~= current + s);
    }
}

proof fn lemma_field_ends(rest: Seq<char>, current: Seq<char>)
    requires
        rest.len() == 0 || rest[0] == ',',
    ensures
        fields_from(rest, current, false).len() > 0,
        fields_from(rest, current, false)[0] == current,
{
}

/// The value of an event is its third field, without quotation marks and the
/// white space around it; a comma between quotation marks divides nothing.
pub proof fn law_value_of_an_event(
    a: Seq<char>,
    b: Seq<char>,
    c: Seq<char>,
    rest: Seq<char>,
)
    requires
        !a.contains(',') && !a.contains('"'),
        !b.contains(',') && !b.contains('"'),
        !c.contains('"'),
        rest.len() == 0 || rest[0] == ',',
    ensures
        event_value(a + seq![','] + b + seq![',', '"'] + c + seq!['"'] + rest) == Some(trim(c)),
        !c.contains(',') ==> event_value(a + seq![','] + b + seq![','] + c + rest) == Some(trim(c)),
        event_value(a) is None,
        event_value(a + seq![','] + b) is None,
{
    let none = Seq::<char>::empty();
    assert(none + a =~= a);
    assert(none + b =~= b);
    assert(none + c =~= c);
    // In quotation marks.
    let quoted = seq!['"'] + c + seq!['"'] + rest;
    let behind_a = seq![','] + b + seq![','] + quoted;
    let behind_b = seq![','] + quoted;
    assert(a + seq![','] + b + seq![',', '"'] + c + seq!['"'] + rest =~= a + behind_a);
    lemma_fields_run(a, behind_a, none, false);
    assert(behind_a.skip(1) =~= b + behind_b);
    lemma_fields_run(b, behind_b, none, false);
    assert(behind_b.skip(1) =~= quoted);
    let inner = seq!['"'] + rest;
    assert(quoted.skip(1) =~= c + inner);
    lemma_fields_run(c, inner, none, true);
    assert(inner.skip(1) =~= rest);
    lemma_field_ends(rest, c);
    assert(fields_from(quoted, none, false) == fields_from(rest, c, false));
    assert(fields_from(behind_b, b, false) == seq![b] + fields_from(quoted, none, false));
    assert(fields_from(behind_a, a, false) == seq![a] + fields_from(behind_b, b, false));
    // Without them.
    if !c.contains(',') {
        let plain = c + rest;
        let after_a = seq![','] + b + seq![','] + plain;
        let after_b = seq![','] + plain;
        assert(a + seq![','] + b + seq![','] + c + rest =~= a + after_a);
        lemma_fields_run(a, after_a, none, false);
        assert(after_a.skip(1) =~= b + after_b);
        lemma_fields_run(b, after_b, none, false);
        assert(after_b.skip(1) =~= plain);
        lemma_fields_run(c, rest, none, false);
        assert(fields_from(after_b, b, false) == seq![b] + fields_from(plain, none, false));
        assert(fields_from(after_a, a, false) == seq![a] + fields_from(after_b, b, false));
    }
    // Too few fields.
    assert(a + none =~= a);
    assert(b + none =~= b);
    lemma_fields_run(a, none, none, false);
    lemma_fields_run(b, none, none, false);
    let short = seq![','] + b;
    assert(a + seq![','] + b =~= a + short);
    lemma_fields_run(a, short, none, false);
    assert(short.skip(1) =~= b);
    assert(fields_from(short, a, false) == seq![a] + fields_from(b, none, false));
}

/// An event is about the background where its first field is 0 or Background,
/// however that is written.
pub proof fn law_background_events(fields: Seq<Seq<char>>)
    requires
        fields.len() > 0,
        forall|i: int| 0 <= i < fields.len() ==> !(#[trigger] fields[i]).contains(','),
    ensures
        background_event(join(fields, seq![','])) == (trim(fields[0]) == "0"@ || same_but_case(
            trim(fields[0]),
            "Background"@,
        )),
{
    law_split_undoes_join(fields, ',');
    reveal_strlit("0");
    reveal_strlit("background");
    reveal_strlit("Background");
    assert(ascii_lower("Background"@) =~= "background"@);
    let first = trim(fields[0]);
    if first == "0"@ {
        assert(ascii_lower(first) =~= "0"@);
    }
    if ascii_lower(first) == "0"@ {
        assert(ascii_lower(first).len() == first.len());
        assert(ascii_lower(first)[0] == '0');
        assert(first =~= "0"@);
    }
}

/// The last event about the background names it.
pub proof fn law_last_background_counts(entries: Seq<Entry>, i: int)
    requires
        0 <= i < entries.len(),
        entries[i].section == "Events"@ && background_event(entries[i].line),
        forall|j: int|
            i < j < entries.len() ==> !((#[trigger] entries[j]).section == "Events"@
                && background_event(entries[j].line)),
    ensures
        background_value(entries) == event_value(entries[i].line),
    decreases entries.len(),
{
    if i < entries.len() - 1 {
        let init = entries.drop_last();
        assert forall|j: int| i < j < init.len() implies !((#[trigger] init[j]).section == "Events"@
            && background_event(init[j].line)) by {
            assert(init[j] == entries[j]);
        }
        assert(init[i] == entries[i]);
        law_last_background_counts(init, i);
        assert(entries.last() == entries[entries.len() - 1]);
    }
}

/// The background of a beatmap is the value of the event, where it names an
/// image.
pub proof fn law_background_of_a_beatmap(
    path: PathView,
    bytes: Seq<u8>,
    stars: Option<Single>,
    map: LocalBeatmap,
    folder: Option<Seq<char>>,
    folder_name: Option<Seq<char>>,
    background_name: Option<Seq<char>>,
)
    requires
        describes(path, bytes, stars, map@, folder, folder_name, background_name),
    ensures
        map.background_filename matches Some(name) ==> background_value(entries_of(bytes)) == Some(
            name@,
        ) && is_repairable(name@, background_name),
        background_value(entries_of(bytes)) matches Some(value) ==> is_repairable(
            value,
            background_name,
        ) ==> map.background_filename is Some,
{
    assert(map@.background_filename == image_named(
        background_value(entries_of(bytes)),
        background_name,
    ));
}

/// The images that can be repaired are those whose names end in one of five
/// extensions, however they are written.
pub proof fn law_names_of_images(value: Seq<char>, stem: Seq<char>, extension: Seq<char>)
    requires
        stem.len() > 0,
        !extension.contains('.'),
        asset_name(value).len() > 0,
        asset_name(value) != "0"@,
    ensures
        is_repairable(value, Some(stem + seq!['.'] + extension)) == seq![
            "jpg"@,
            "jpeg"@,
            "png"@,
            "webp"@,
            "bmp"@,
        ].contains(ascii_lower(extension)),
        !stem.contains('.') ==> !is_repairable(value, Some(stem)),
        !is_repairable(value, None),
{
    lemma_extension_behind_dot(stem, extension);
    let all = seq!["jpg"@, "jpeg"@, "png"@, "webp"@, "bmp"@];
    assert(all[0] == "jpg"@ && all[1] == "jpeg"@ && all[2] == "png"@ && all[3] == "webp"@ && all[4]
        == "bmp"@);
    if !stem.contains('.') {
        assert forall|i: int| !last_dot(stem, i) by {}
    }
}

/// The name of a file is what is left without the white space and the
/// quotation marks around it.
pub proof fn law_name_without_marks(
    a: Seq<char>,
    open: Seq<char>,
    name: Seq<char>,
    close: Seq<char>,
    b: Seq<char>,
)
    requires
        all_of(a, CharClass::White) && all_of(b, CharClass::White),
        all_of(open, CharClass::Only('"')) && all_of(close, CharClass::Only('"')),
        name.len() > 0,
        !is_white_space(name[0]) && name[0] != '"',
        !is_white_space(name.last()) && name.last() != '"',
    ensures
        asset_name(a + (open + name + close) + b) == name,
{
    let marked = open + name + close;
    if open.len() > 0 {
        assert(CharClass::Only('"').has(open[0]));
        assert(marked[0] == '"');
    } else {
        assert(marked[0] == name[0]);
    }
    if close.len() > 0 {
        assert(CharClass::Only('"').has(close[close.len() - 1]));
        assert(marked.last() == '"');
    } else {
        assert(marked.last() == name.last());
    }
    law_trim_both(a, marked, b, CharClass::White);
    law_trim_both(open, name, close, CharClass::Only('"'));
    lemma_trim_fixed(name, CharClass::White);
}

/// What names no file can be repaired by none.
pub proof fn law_no_name_is_no_image(value: Seq<char>, name: Option<Seq<char>>)
    requires
        asset_name(value).len() == 0 || asset_name(value) == "0"@,
    ensures
        !is_repairable(value, name),
{
}

proof fn lemma_extension_behind_dot(stem: Seq<char>, extension: Seq<char>)
    requires
        stem.len() > 0,
        !extension.contains('.'),
    ensures
        crate::osu_file::extension_of(stem + seq!['.'] + extension) == Some(extension),
{
    let name = stem + seq!['.'] + extension;
    let i = stem.len() as int;
    assert forall|j: int| i < j < name.len() implies name[j] != '.' by {
        assert(name[j] == extension[j - i - 1]);
    }
    assert(last_dot(name, i));
    lemma_extension_of(name, i);
    assert(name.skip(i + 1) =~= extension);
}

/// Beatmap files are those whose names end in `.osu`, however it is written.
pub proof fn law_names_of_beatmap_files(stem: Seq<char>, extension: Seq<char>)
    requires
        stem.len() > 0,
        !extension.contains('.'),
    ensures
        is_osu_name(Some(stem + seq!['.'] + extension)) == (ascii_lower(extension) == "osu"@),
        !stem.contains('.') ==> !is_osu_name(Some(stem)),
        !is_osu_name(None),
{
    lemma_extension_behind_dot(stem, extension);
    reveal_strlit("osu");
    assert(ascii_lower("osu"@) =~= "osu"@);
    if !stem.contains('.') {
        assert forall|i: int| !last_dot(stem, i) by {}
    }
}

// ---------------------------------------------------------------------------
// Timing points and hit objects
// ---------------------------------------------------------------------------

/// The second field of a timing point is the length of a beat in milliseconds:
/// a minute has 60000 of them. A length that is not above zero gives no
/// tempo.
pub proof fn law_tempo_of_a_timing_point(fields: Seq<Seq<char>>)
    requires
        fields.len() > 0,
        forall|i: int| 0 <= i < fields.len() ==> !(#[trigger] fields[i]).contains(','),
    ensures
        fields.len() == 1 ==> timing_point_bpm(join(fields, seq![','])) is None,
        fields.len() > 1 ==> (single_of_text(fields[1]) matches Some(x) ==> nearest_integer(
            0,
        ).below(x) ==> timing_point_bpm(join(fields, seq![','])) == Some(
            nearest_integer(60000).quotient(x),
        )),
        fields.len() > 1 ==> (single_of_text(fields[1]) matches Some(x) ==> !nearest_integer(
            0,
        ).below(x) ==> timing_point_bpm(join(fields, seq![','])) is None),
        fields.len() > 1 && single_of_text(fields[1]) is None ==> timing_point_bpm(
            join(fields, seq![',']),
        ) is None,
{
    law_split_undoes_join(fields, ',');
}

/// The first timing point with a tempo gives the tempo.
pub proof fn law_first_tempo_counts(entries: Seq<Entry>, i: int)
    requires
        0 <= i < entries.len(),
        entries[i].section == "TimingPoints"@ && timing_point_bpm(entries[i].line) is Some,
        forall|j: int|
            0 <= j < i ==> !((#[trigger] entries[j]).section == "TimingPoints"@ && timing_point_bpm(
                entries[j].line,
            ) is Some),
    ensures
        first_bpm(entries) == timing_point_bpm(entries[i].line),
    decreases entries.len(),
{
    let init = entries.drop_last();
    if i < entries.len() - 1 {
        assert forall|j: int| 0 <= j < i implies !((#[trigger] init[j]).section == "TimingPoints"@
            && timing_point_bpm(init[j].line) is Some) by {
            assert(init[j] == entries[j]);
        }
        assert(init[i] == entries[i]);
        law_first_tempo_counts(init, i);
    } else {
        assert forall|j: int| 0 <= j < init.len() implies !((
        #[trigger] init[j]).section == "TimingPoints"@ && timing_point_bpm(init[j].line)
            is Some) by {
            assert(init[j] == entries[j]);
        }
        law_no_tempo(init);
    }
}

/// Without a timing point that has a tempo there is none.
pub proof fn law_no_tempo(entries: Seq<Entry>)
    requires
        forall|j: int|
            0 <= j < entries.len() ==> !((#[trigger] entries[j]).section == "TimingPoints"@
                && timing_point_bpm(entries[j].line) is Some),
    ensures
        first_bpm(entries) is None,
    decreases entries.len(),
{
    if entries.len() > 0 {
        let init = entries.drop_last();
        assert forall|j: int| 0 <= j < init.len() implies !((
        #[trigger] init[j]).section == "TimingPoints"@ && timing_point_bpm(init[j].line)
            is Some) by {
            assert(init[j] == entries[j]);
        }
        law_no_tempo(init);
        assert(entries.last() == entries[entries.len() - 1]);
    }
}

/// The third field of a hit object is its time, and the fourth its type.
pub proof fn law_fields_of_a_hit_object(fields: Seq<Seq<char>>, time: nat, kind: nat)
    requires
        fields.len() > 0,
        forall|i: int| 0 <= i < fields.len() ==> !(#[trigger] fields[i]).contains(','),
        time <= i32::MAX,
        kind <= i32::MAX,
    ensures
        fields.len() < 4 ==> hit_object(join(fields, seq![','])) is None,
        fields.len() >= 4 && fields[2] == decimal_text(time) && fields[3] == decimal_text(kind)
            ==> hit_object(join(fields, seq![','])) == Some((time as i32, kind as i32)),
        fields.len() >= 4 && fields[2] == seq!['-'] + decimal_text(time) && fields[3]
            == decimal_text(kind) ==> hit_object(join(fields, seq![','])) == Some(
            ((-time) as i32, kind as i32),
        ),
        fields.len() >= 4 && (whole_number(fields[2]) is None || whole_number(fields[3]) is None)
            ==> hit_object(join(fields, seq![','])) is None,
{
    law_split_undoes_join(fields, ',');
    law_integers_are_read(time, i32::MIN as int, i32::MAX as int);
    law_integers_are_read(kind, i32::MIN as int, i32::MAX as int);
}

/// The lines of the section HitObjects are the hit objects, in their order;
/// what can be read as none is left out.
pub proof fn law_hit_objects(entries: Seq<Entry>, entry: Entry)
    ensures
        hit_objects(Seq::empty()).len() == 0,
        entry.section == "HitObjects"@ && hit_object(entry.line) is Some ==> hit_objects(
            entries.push(entry),
        ) == hit_objects(entries).push(hit_object(entry.line)->0),
        entry.section != "HitObjects"@ || hit_object(entry.line) is None ==> hit_objects(
            entries.push(entry),
        ) == hit_objects(entries),
{
    assert(entries.push(entry).drop_last() =~= entries);
}

/// The latest time is that of a hit object, and no hit object is later.
pub proof fn law_latest_object(objects: Seq<(i32, i32)>)
    ensures
        objects.len() == 0 ==> latest(objects) is None,
        objects.len() > 0 ==> (latest(objects) matches Some(time) && (exists|i: int|
            0 <= i < objects.len() && (#[trigger] objects[i]).0 == time) && (forall|i: int|
            0 <= i < objects.len() ==> (#[trigger] objects[i]).0 <= time)),
    decreases objects.len(),
{
    if objects.len() > 0 {
        let init = objects.drop_last();
        law_latest_object(init);
        let time = latest(objects)->0;
        if time == objects.last().0 {
            assert(objects[objects.len() - 1].0 == time);
        } else {
            let i = choose|i: int| 0 <= i < init.len() && (#[trigger] init[i]).0 == time;
            assert(objects[i].0 == time);
        }
        assert forall|i: int| 0 <= i < objects.len() implies (#[trigger] objects[i]).0 <= time by {
            if i < init.len() {
                assert(init[i].0 <= latest(init)->0);
            }
        }
    }
}

/// The hit objects with the first bit of their type are circles, and those
/// with the second bit are sliders.
pub proof fn law_counts_of_objects(entries: Seq<Entry>)
    ensures
        contents_of_entries(entries).circles == hit_objects(entries).filter(
            |object: (i32, i32)| object.1 & 1 != 0,
        ).len(),
        contents_of_entries(entries).sliders == hit_objects(entries).filter(
            |object: (i32, i32)| object.1 & 2 != 0,
        ).len(),
{
    lemma_count(hit_objects(entries), 1);
    lemma_count(hit_objects(entries), 2);
    assert((|object: (i32, i32)| object.1 & 1 != 0) =~= (|object: (i32, i32)| object.1 & 1i32
        != 0));
}

proof fn lemma_count(objects: Seq<(i32, i32)>, flag: i32)
    ensures
        count_flag(objects, flag) == objects.filter(
            |object: (i32, i32)| object.1 & flag != 0,
        ).len(),
    decreases objects.len(),
{
    reveal(Seq::filter);
    if objects.len() > 0 {
        lemma_count(objects.drop_last(), flag);
    }
}

/// The length of a beatmap is the latest time of its objects in seconds, and
/// its tempo and counts are those of its contents.
pub proof fn law_length_of_a_beatmap(
    path: PathView,
    bytes: Seq<u8>,
    stars: Option<Single>,
    map: LocalBeatmap,
    folder: Option<Seq<char>>,
    folder_name: Option<Seq<char>>,
    background_name: Option<Seq<char>>,
)
    requires
        describes(path, bytes, stars, map@, folder, folder_name, background_name),
    ensures
        latest(hit_objects(entries_of(bytes))) matches Some(time) ==> map.length_seconds == Some(
            nearest_integer(time as int).quotient(nearest_integer(1000)),
        ),
        latest(hit_objects(entries_of(bytes))) is None ==> map.length_seconds is None,
        map.bpm == first_bpm(entries_of(bytes)),
        contents_of_entries(entries_of(bytes)).circles <= u32::MAX ==> map.circles
            == contents_of_entries(entries_of(bytes)).circles,
        contents_of_entries(entries_of(bytes)).sliders <= u32::MAX ==> map.sliders
            == contents_of_entries(entries_of(bytes)).sliders,
{
}

/// Where no key is written exactly as Mode, the first of those that differ from
/// it by case gives the mode.
pub proof fn law_mode_by_another_key(values: Map<Seq<char>, Seq<char>>, key: Seq<char>)
    requires
        !values.dom().contains("Mode"@),
        first_but_case(values, "mode"@, key),
    ensures
        mode_value(values) == Some(values[key]),
{
    let found = choose|other: Seq<char>| first_but_case(values, "mode"@, other);
    lemma_first_but_case(values, "mode"@, key, found);
}

} // verus!
