//! Reading `.osu` files.
//!
//! A file is a list of lines under section headers in square brackets. Some
//! sections hold `Key: Value` lines; events, timing points and hit objects
//! are lists of fields with commas between them.

use crate::decimal::{integer_within, natural_within, read_i32, read_i64, read_u8};
use crate::local::{LocalBeatmap, MapView};
use crate::numeral::{read_single, single_of_text};
use crate::outside::{
    ends_in_name, file_name, fits_file_name, fits_parent, lossy_text, md5_compute, md5_digest,
    optional_text, parent_folder, path_tail, slashes_only, text_of_bytes,
};
use crate::path::{FilePath, PathView};
use crate::query::id_written;
use crate::single::{nearest_integer, Single};
use crate::table::{first_but_case, lemma_first_but_case, TextTable};
use crate::text::{
    ascii_lower, ascii_lower_slice, chars_of, copy_chars, equals_str, leading_digits,
    leading_digits_slice, same_but_case, same_but_case_str, split, split_once, split_once_slice,
    split_slice, starts_with, starts_with_str, string_of, texts, trim, trim_both, trim_both_slice,
    trim_slice, trimmed, CharClass,
};
use vstd::prelude::*;

verus! {

// ---------------------------------------------------------------------------
// File names
// ---------------------------------------------------------------------------

/// The text behind the last dot of a file name, unless the dot is its first
/// character.
pub open spec fn extension_of(name: Seq<char>) -> Option<Seq<char>> {
    if exists|i: int| last_dot(name, i) {
        Some(name.skip(1 + choose|i: int| last_dot(name, i)))
    } else {
        None
    }
}

/// Whether the last dot of a name stands at `i`, behind its first character.
pub open spec fn last_dot(name: Seq<char>, i: int) -> bool {
    &&& 0 < i < name.len()
    &&& name[i] == '.'
    &&& forall|j: int| i < j < name.len() ==> name[j] != '.'
}

/// The extension behind the last dot.
pub proof fn lemma_extension_of(name: Seq<char>, i: int)
    requires
        last_dot(name, i),
    ensures
        extension_of(name) == Some(name.skip(i + 1)),
{
    let k = choose|k: int| last_dot(name, k);
    assert(last_dot(name, k));
    if k < i {
        assert(name[i] != '.');
    } else if i < k {
        assert(name[k] != '.');
    }
}

fn extension_slice(name: &[char]) -> (res: Option<&[char]>)
    ensures
        match res {
            Some(extension) => extension_of(name@) == Some(extension@),
            None => extension_of(name@) is None,
        },
{
    let n = name.len();
    let mut i: usize = n;
    while i > 1
        invariant
            i <= n,
            n == name@.len(),
            forall|j: int| i <= j < n ==> name@[j] != '.',
        decreases i,
    {
        i = i - 1;
        if name[i] == '.' {
            assert(last_dot(name@, i as int));
            proof {
                lemma_extension_of(name@, i as int);
            }
            let extension = &name[i + 1..n];
            assert(extension@ == name@.skip(i + 1));
            return Some(extension);
        }
    }
    None
}

/// Whether the extension of a path is the same on every platform.
pub open spec fn settled_extension(path: Seq<char>) -> bool {
    ends_in_name(path) && (slashes_only(path) || extension_of(path_tail(path)) is Some)
}

/// The extension of a file whose last part is `name`.
pub open spec fn name_extension(name: Option<Seq<char>>) -> Option<Seq<char>> {
    match name {
        Some(name) => extension_of(name),
        None => None,
    }
}

/// Where the extension does not depend on the platform it is that of the text
/// behind the last separator.
pub proof fn lemma_settled_extension(path: Seq<char>, name: Option<Seq<char>>)
    requires
        settled_extension(path),
        fits_file_name(path, name),
    ensures
        name_extension(name) == extension_of(path_tail(path)),
{
    let t = path_tail(path);
    let n = name->0;
    let lead = n.len() - t.len();
    if lead == 0 {
        assert(n.skip(0) == n);
    } else {
        let i = choose|i: int| last_dot(t, i);
        lemma_extension_of(t, i);
        assert forall|j: int| 0 <= j < t.len() implies n[lead + j] == t[j] by {
            assert(n.skip(lead)[j] == t[j]);
        }
        assert forall|j: int| lead + i < j < n.len() implies n[j] != '.' by {
            assert(n[j] == t[j - lead]);
        }
        assert(n[lead + i] == t[i]);
        assert(last_dot(n, lead + i));
        lemma_extension_of(n, lead + i);
        assert(n.skip(lead + i + 1) =~= t.skip(i + 1));
    }
}

/// Whether a file with the given last part is a beatmap file.
pub open spec fn is_osu_name(name: Option<Seq<char>>) -> bool {
    match name_extension(name) {
        Some(extension) => same_but_case(extension, "osu"@),
        None => false,
    }
}

/// Whether a file with the given name is a beatmap file. The extension may be
/// written in small letters or capitals.
pub fn is_osu_file_name(name: Option<&str>) -> (res: bool)
    ensures
        res == is_osu_name(
            match name {
                Some(name) => Some(name@),
                None => None,
            },
        ),
{
    match name {
        Some(name) => match extension_slice(&chars_of(name)) {
            Some(extension) => same_but_case_str(extension, "osu"),
            None => false,
        },
        None => false,
    }
}

/// Whether a path is that of a beatmap file. Only the last part of the path
/// counts, which the platform decides on.
pub fn is_osu_file(path: &str) -> (res: bool)
    ensures
        exists|name: Option<Seq<char>>| #[trigger]
            fits_file_name(path@, name) && res == is_osu_name(name),
        settled_extension(path@) ==> res == is_osu_name(Some(path_tail(path@))),
{
    let name = file_name(path);
    proof {
        if settled_extension(path@) {
            lemma_settled_extension(path@, optional_text(name));
        }
    }
    match &name {
        Some(name) => is_osu_file_name(Some(name.as_str())),
        None => is_osu_file_name(None),
    }
}

/// The file name that a background event means: without quotation marks and
/// white space around it.
pub open spec fn asset_name(value: Seq<char>) -> Seq<char> {
    trim(trim_both(trim(value), CharClass::Only('"')))
}

pub open spec fn is_image_extension(extension: Seq<char>) -> bool {
    ||| extension == "jpg"@
    ||| extension == "jpeg"@
    ||| extension == "png"@
    ||| extension == "webp"@
    ||| extension == "bmp"@
}

/// Whether a value names an image whose absence can be reported, where the
/// last part of the path that it names is `name`.
pub open spec fn is_repairable(value: Seq<char>, name: Option<Seq<char>>) -> bool {
    &&& asset_name(value).len() > 0
    &&& asset_name(value) != "0"@
    &&& name_extension(name) matches Some(extension)
    &&& is_image_extension(ascii_lower(extension))
}

/// Whether a value names an image, given the last part of the path in it.
pub fn is_repairable_asset_named(value: &str, name: Option<&str>) -> (res: bool)
    ensures
        res == is_repairable(
            value@,
            match name {
                Some(name) => Some(name@),
                None => None,
            },
        ),
{
    let chars = chars_of(value);
    let asset = trim_slice(trim_both_slice(trim_slice(&chars), CharClass::Only('"')));
    if asset.len() == 0 || equals_str(asset, "0") {
        return false;
    }
    match name {
        Some(name) => match extension_slice(&chars_of(name)) {
            Some(extension) => {
                let lowered = ascii_lower_slice(extension);
                equals_str(&lowered, "jpg") || equals_str(&lowered, "jpeg") || equals_str(
                    &lowered,
                    "png",
                ) || equals_str(&lowered, "webp") || equals_str(&lowered, "bmp")
            },
            None => false,
        },
        None => false,
    }
}

/// Whether a value names an image whose absence can be reported.
pub fn is_repairable_asset_filename(value: &str) -> (res: bool)
    ensures
        exists|name: Option<Seq<char>>| #[trigger]
            fits_file_name(asset_name(value@), name) && res == is_repairable(value@, name),
        settled_extension(asset_name(value@)) ==> res == is_repairable(
            value@,
            Some(path_tail(asset_name(value@))),
        ),
{
    let chars = chars_of(value);
    let asset = trim_slice(trim_both_slice(trim_slice(&chars), CharClass::Only('"')));
    let name = file_name(string_of(asset).as_str());
    proof {
        assert(fits_file_name(asset_name(value@), optional_text(name)));
        if settled_extension(asset_name(value@)) {
            lemma_settled_extension(asset_name(value@), optional_text(name));
        }
    }
    match &name {
        Some(name) => is_repairable_asset_named(value, Some(name.as_str())),
        None => is_repairable_asset_named(value, None),
    }
}

/// An id that a text writes, where it is above zero.
pub open spec fn positive_id(text: Seq<char>) -> Option<i64> {
    match id_written(text) {
        Some(id) if id > 0 => Some(id),
        _ => None,
    }
}

fn read_positive_id(text: &[char]) -> (res: Option<i64>)
    ensures
        res == positive_id(text@),
{
    match read_i64(text) {
        Some(id) => if id > 0 {
            Some(id)
        } else {
            None
        },
        None => None,
    }
}

/// The set id that a folder name begins with.
pub open spec fn set_id_in(name: Option<Seq<char>>) -> Option<i64> {
    match name {
        Some(name) => positive_id(leading_digits(trim(name))),
        None => None,
    }
}

/// The set id that the name of a folder begins with.
pub fn set_id_of_name(name: Option<&str>) -> (res: Option<i64>)
    ensures
        res == set_id_in(
            match name {
                Some(name) => Some(name@),
                None => None,
            },
        ),
{
    match name {
        Some(name) => {
            let name = trimmed(name);
            read_positive_id(leading_digits_slice(&name))
        },
        None => None,
    }
}

/// The set id that the last part of a folder's path begins with.
pub fn parse_folder_set_id(folder: &str) -> (res: Option<i64>)
    ensures
        exists|name: Option<Seq<char>>| #[trigger]
            fits_file_name(folder@, name) && res == set_id_in(name),
        ends_in_name(folder@) && slashes_only(folder@) ==> res == set_id_in(
            Some(path_tail(folder@)),
        ),
{
    let name = file_name(folder);
    proof {
        if ends_in_name(folder@) && slashes_only(folder@) {
            let n = optional_text(name)->0;
            assert(n.skip(0) == n);
        }
    }
    match &name {
        Some(name) => set_id_of_name(Some(name.as_str())),
        None => set_id_of_name(None),
    }
}

// ---------------------------------------------------------------------------
// Single lines
// ---------------------------------------------------------------------------

/// Whether a line of the events describes the background.
pub open spec fn background_event(line: Seq<char>) -> bool {
    let first = ascii_lower(trim(split(line, ',')[0]));
    first == "0"@ || first == "background"@
}

fn is_background_event(line: &[char]) -> (res: bool)
    ensures
        res == background_event(line@),
{
    let fields = split_slice(line, ',');
    assert(texts(fields@)[0] == fields@[0]@);
    let first = ascii_lower_slice(trim_slice(&fields[0]));
    equals_str(&first, "0") || equals_str(&first, "background")
}

/// The fields of the rest of an event, behind the start of a field. Commas
/// between quotation marks do not separate fields.
pub open spec fn fields_from(rest: Seq<char>, current: Seq<char>, quoted: bool) -> Seq<Seq<char>>
    decreases rest.len(),
{
    if rest.len() == 0 {
        seq![current]
    } else if rest[0] == '"' {
        fields_from(rest.skip(1), current, !quoted)
    } else if rest[0] == ',' && !quoted {
        seq![current] + fields_from(rest.skip(1), Seq::empty(), quoted)
    } else {
        fields_from(rest.skip(1), current.push(rest[0]), quoted)
    }
}

/// The value of the third field of an event.
pub open spec fn event_value(line: Seq<char>) -> Option<Seq<char>> {
    let fields = fields_from(line, Seq::empty(), false);
    if fields.len() > 2 {
        Some(trim(fields[2]))
    } else {
        None
    }
}

fn read_event_value(line: &[char]) -> (res: Option<String>)
    ensures
        optional_text(res) == event_value(line@),
{
    let mut fields: Vec<Vec<char>> = Vec::new();
    let mut current: Vec<char> = Vec::new();
    let mut in_quotes = false;
    let mut i: usize = 0;
    let ghost all = fields_from(line@, Seq::empty(), false);
    assert(line@.skip(0) == line@);
    assert(texts(fields@) + all =~= all);
    while i < line.len()
        invariant
            i <= line@.len(),
            texts(fields@) + fields_from(line@.skip(i as int), current@, in_quotes) == all,
        decreases line@.len() - i,
    {
        let ch = line[i];
        let ghost rest = line@.skip(i as int);
        let ghost before = fields@;
        assert(rest[0] == ch);
        assert(rest.skip(1) == line@.skip(i + 1));
        if ch == '"' {
            in_quotes = !in_quotes;
        } else if ch == ',' && !in_quotes {
            let ghost field = current@;
            fields.push(current);
            current = Vec::new();
            proof {
                let later = fields_from(rest.skip(1), Seq::empty(), false);
                assert(texts(fields@) =~= texts(before).push(field));
                assert(texts(before) + (seq![field] + later) =~= texts(fields@) + later);
            }
        } else {
            current.push(ch);
        }
        i = i + 1;
    }
    let ghost before = fields@;
    let ghost field = current@;
    fields.push(current);
    assert(texts(fields@) =~= texts(before) + seq![field]);
    assert(all == texts(fields@));
    if fields.len() > 2 {
        assert(texts(fields@)[2] == fields@[2]@);
        Some(string_of(trim_slice(&fields[2])))
    } else {
        None
    }
}

/// Whether `name` can be the last part of the path that a value names.
pub open spec fn fits_asset(value: Option<Seq<char>>, name: Option<Seq<char>>) -> bool {
    value matches Some(value) ==> fits_file_name(asset_name(value), name)
}

/// The file name that an event gives, where it names an image.
pub fn parse_event_filename(line: &str) -> (res: Option<String>)
    ensures
        exists|name: Option<Seq<char>>| #[trigger]
            fits_asset(event_value(line@), name) && optional_text(res) == image_named(
                event_value(line@),
                name,
            ),
        event_value(line@) matches Some(value) ==> settled_extension(asset_name(value))
            ==> optional_text(res) == image_named(
            Some(value),
            Some(path_tail(asset_name(value))),
        ),
{
    match read_event_value(&chars_of(line)) {
        Some(value) => {
            let named = is_repairable_asset_filename(value.as_str());
            let ghost name = choose|name: Option<Seq<char>>| #[trigger]
                fits_file_name(asset_name(value@), name) && named == is_repairable(value@, name);
            assert(fits_asset(event_value(line@), name));
            if named {
                Some(value)
            } else {
                None
            }
        },
        None => {
            assert(fits_asset(event_value(line@), None));
            None
        },
    }
}

/// A value where it names an image, given the last part of the path in it.
pub open spec fn image_named(value: Option<Seq<char>>, name: Option<Seq<char>>) -> Option<
    Seq<char>,
> {
    match value {
        Some(value) if is_repairable(value, name) => Some(value),
        _ => None,
    }
}

/// The beats per minute of a timing point: its second field is the length of
/// a beat in milliseconds.
pub open spec fn timing_point_bpm(line: Seq<char>) -> Option<Single> {
    let fields = split(line, ',');
    if fields.len() < 2 {
        None
    } else {
        match single_of_text(fields[1]) {
            Some(beat_length) if nearest_integer(0).below(beat_length) => Some(
                nearest_integer(60_000).quotient(beat_length),
            ),
            _ => None,
        }
    }
}

fn parse_timing_point_bpm(line: &[char]) -> (res: Option<Single>)
    ensures
        res == timing_point_bpm(line@),
{
    let fields = split_slice(line, ',');
    assert(texts(fields@).len() == fields@.len());
    if fields.len() < 2 {
        return None;
    }
    assert(texts(fields@)[1] == fields@[1]@);
    match read_single(&fields[1]) {
        Some(beat_length) => if Single::from_integer(0).is_below(beat_length) {
            Some(Single::from_integer(60_000).divided_by(beat_length))
        } else {
            None
        },
        None => None,
    }
}

/// A whole number of 32 bits that a text writes.
pub open spec fn whole_number(text: Seq<char>) -> Option<i32> {
    match integer_within(text, i32::MIN as int, i32::MAX as int) {
        Some(n) => Some(n as i32),
        None => None,
    }
}

/// Time and type of a hit object: its third and fourth field.
pub open spec fn hit_object(line: Seq<char>) -> Option<(i32, i32)> {
    let fields = split(line, ',');
    if fields.len() < 4 {
        None
    } else {
        match (whole_number(fields[2]), whole_number(fields[3])) {
            (Some(time), Some(object_type)) => Some((time, object_type)),
            _ => None,
        }
    }
}

fn parse_hit_object(line: &[char]) -> (res: Option<(i32, i32)>)
    ensures
        res == hit_object(line@),
{
    let fields = split_slice(line, ',');
    assert(texts(fields@).len() == fields@.len());
    if fields.len() < 4 {
        return None;
    }
    assert(texts(fields@)[2] == fields@[2]@);
    assert(texts(fields@)[3] == fields@[3]@);
    match (read_i32(&fields[2]), read_i32(&fields[3])) {
        (Some(time), Some(object_type)) => Some((time, object_type)),
        _ => None,
    }
}

// ---------------------------------------------------------------------------
// Sections
// ---------------------------------------------------------------------------

/// A line with content, and the section that it stands in.
#[verifier::ext_equal]
pub struct Entry {
    pub section: Seq<char>,
    pub line: Seq<char>,
}

/// Whether a line says nothing: it is blank or a comment.
pub open spec fn says_nothing(line: Seq<char>) -> bool {
    line.len() == 0 || starts_with(line, "//"@)
}

/// Whether a line is the header of a section.
pub open spec fn is_header(line: Seq<char>) -> bool {
    line.len() >= 2 && line[0] == '[' && line.last() == ']'
}

/// The section that is open behind some lines; none at first.
pub open spec fn open_section(lines: Seq<Seq<char>>) -> Seq<char>
    decreases lines.len(),
{
    if lines.len() == 0 {
        Seq::empty()
    } else {
        let line = trim(lines.last());
        if !says_nothing(line) && is_header(line) {
            line.subrange(1, line.len() - 1)
        } else {
            open_section(lines.drop_last())
        }
    }
}

/// The lines with content.
pub open spec fn entries(lines: Seq<Seq<char>>) -> Seq<Entry>
    decreases lines.len(),
{
    if lines.len() == 0 {
        Seq::empty()
    } else {
        let earlier = entries(lines.drop_last());
        let line = trim(lines.last());
        if says_nothing(line) || is_header(line) {
            earlier
        } else {
            earlier.push(Entry { section: open_section(lines.drop_last()), line })
        }
    }
}

/// The value of the last background event.
pub open spec fn background_value(entries: Seq<Entry>) -> Option<Seq<char>>
    decreases entries.len(),
{
    if entries.len() == 0 {
        None
    } else {
        let entry = entries.last();
        if entry.section == "Events"@ && background_event(entry.line) {
            event_value(entry.line)
        } else {
            background_value(entries.drop_last())
        }
    }
}

/// The beats per minute of the first timing point that has them.
pub open spec fn first_bpm(entries: Seq<Entry>) -> Option<Single>
    decreases entries.len(),
{
    if entries.len() == 0 {
        None
    } else {
        let entry = entries.last();
        match first_bpm(entries.drop_last()) {
            Some(bpm) => Some(bpm),
            None => if entry.section == "TimingPoints"@ {
                timing_point_bpm(entry.line)
            } else {
                None
            },
        }
    }
}

/// Time and type of the hit objects, in the order of the file.
pub open spec fn hit_objects(entries: Seq<Entry>) -> Seq<(i32, i32)>
    decreases entries.len(),
{
    if entries.len() == 0 {
        Seq::empty()
    } else {
        let earlier = hit_objects(entries.drop_last());
        let entry = entries.last();
        match hit_object(entry.line) {
            Some(object) if entry.section == "HitObjects"@ => earlier.push(object),
            _ => earlier,
        }
    }
}

/// The time of the last hit object: the latest of all times.
pub open spec fn latest(objects: Seq<(i32, i32)>) -> Option<i32>
    decreases objects.len(),
{
    if objects.len() == 0 {
        None
    } else {
        match latest(objects.drop_last()) {
            Some(time) if time >= objects.last().0 => Some(time),
            _ => Some(objects.last().0),
        }
    }
}

/// The number of hit objects whose type has a flag.
pub open spec fn count_flag(objects: Seq<(i32, i32)>, flag: i32) -> nat
    decreases objects.len(),
{
    if objects.len() == 0 {
        0
    } else {
        count_flag(objects.drop_last(), flag) + if objects.last().1 & flag != 0 {
            1nat
        } else {
            0nat
        }
    }
}

/// Whether the lines of a section are `Key: Value` lines.
pub open spec fn holds_metadata(section: Seq<char>) -> bool {
    section == "General"@ || section == "Metadata"@ || section == "Difficulty"@
}

/// The keys and values of the file; a later line counts more.
pub open spec fn metadata(entries: Seq<Entry>) -> Map<Seq<char>, Seq<char>>
    decreases entries.len(),
{
    if entries.len() == 0 {
        Map::empty()
    } else {
        let earlier = metadata(entries.drop_last());
        let entry = entries.last();
        match split_once(entry.line, ':') {
            Some((key, value)) if holds_metadata(entry.section) => earlier.insert(
                trim(key),
                trim(value),
            ),
            _ => earlier,
        }
    }
}

/// What is read of a `.osu` file.
#[derive(Debug)]
pub struct FileContents {
    pub values: TextTable<String>,
    pub background: Option<String>,
    pub bpm: Option<Single>,
    pub last_object_time: Option<i32>,
    pub circles: u64,
    pub sliders: u64,
}

/// The texts of a table.
pub open spec fn value_texts(values: Map<Seq<char>, String>) -> Map<Seq<char>, Seq<char>> {
    values.map_values(|value: String| value@)
}

/// What a `.osu` file says.
#[verifier::ext_equal]
pub struct ContentsView {
    pub values: Map<Seq<char>, Seq<char>>,
    pub background: Option<Seq<char>>,
    pub bpm: Option<Single>,
    pub last_object_time: Option<i32>,
    pub circles: nat,
    pub sliders: nat,
}

impl View for FileContents {
    type V = ContentsView;

    open spec fn view(&self) -> ContentsView {
        ContentsView {
            values: value_texts(self.values@),
            background: optional_text(self.background),
            bpm: self.bpm,
            last_object_time: self.last_object_time,
            circles: self.circles as nat,
            sliders: self.sliders as nat,
        }
    }
}

/// What lines with content say.
pub open spec fn contents_of_entries(entries: Seq<Entry>) -> ContentsView {
    let objects = hit_objects(entries);
    ContentsView {
        values: metadata(entries),
        background: background_value(entries),
        bpm: first_bpm(entries),
        last_object_time: latest(objects),
        circles: count_flag(objects, 1),
        sliders: count_flag(objects, 2),
    }
}

/// What the text of a `.osu` file says.
pub open spec fn contents_of(text: Seq<char>) -> ContentsView {
    contents_of_entries(entries(split(text, '\n')))
}

impl FileContents {
    fn new() -> (res: Self)
        ensures
            res.values.wf(),
            res@ == contents_of_entries(Seq::empty()),
            res.circles == 0,
            res.sliders == 0,
    {
        let res = FileContents {
            values: TextTable::new(),
            background: None,
            bpm: None,
            last_object_time: None,
            circles: 0,
            sliders: 0,
        };
        assert(value_texts(res.values@) =~= Map::empty());
        res
    }

    /// Takes in one more line with content.
    fn add_line(&mut self, section: &[char], line: &[char], Ghost(earlier): Ghost<Seq<Entry>>)
        requires
            old(self).values.wf(),
            old(self)@ == contents_of_entries(earlier),
            old(self).circles < u64::MAX,
            old(self).sliders < u64::MAX,
        ensures
            final(self).values.wf(),
            final(self)@ == contents_of_entries(
                earlier.push(Entry { section: section@, line: line@ }),
            ),
            final(self).circles <= old(self).circles + 1,
            final(self).sliders <= old(self).sliders + 1,
    {
        let ghost now = earlier.push(Entry { section: section@, line: line@ });
        assert(now.drop_last() == earlier);
        if equals_str(section, "Events") && is_background_event(line) {
            self.background = read_event_value(line);
        }
        if equals_str(section, "TimingPoints") && self.bpm.is_none() {
            self.bpm = parse_timing_point_bpm(line);
        }
        if equals_str(section, "HitObjects") {
            if let Some((time, object_type)) = parse_hit_object(line) {
                proof {
                    let objects = hit_objects(now);
                    assert(objects.drop_last() == hit_objects(earlier));
                    assert(objects.last() == (time, object_type));
                }
                self.last_object_time = match self.last_object_time {
                    Some(current) => if current >= time {
                        Some(current)
                    } else {
                        Some(time)
                    },
                    None => Some(time),
                };
                if object_type & 1 != 0 {
                    self.circles = self.circles + 1;
                }
                if object_type & 2 != 0 {
                    self.sliders = self.sliders + 1;
                }
            }
        }
        if equals_str(section, "General") || equals_str(section, "Metadata") || equals_str(
            section,
            "Difficulty",
        ) {
            if let Some((key, value)) = split_once_slice(line, ':') {
                let key = string_of(trim_slice(key));
                let value = string_of(trim_slice(value));
                let ghost values = self.values@;
                self.values.insert(key, value);
                assert(value_texts(self.values@) =~= value_texts(values).insert(key@, value@));
            }
        }
        assert(self@.values == metadata(now));
        assert(self@ =~= contents_of_entries(now));
    }
}

/// Reads the text of a `.osu` file.
pub fn read_contents(text: &str) -> (res: FileContents)
    ensures
        res.values.wf(),
        res@ == contents_of(text@),
{
    let lines = split_slice(&chars_of(text), '\n');
    let ghost all = split(text@, '\n');
    let mut contents = FileContents::new();
    let mut section: Vec<char> = Vec::new();
    let mut i: usize = 0;
    assert(all.take(0) =~= Seq::empty());
    while i < lines.len()
        invariant
            i <= lines@.len(),
            all == texts(lines@),
            contents.values.wf(),
            contents@ == contents_of_entries(entries(all.take(i as int))),
            section@ == open_section(all.take(i as int)),
            contents.circles <= i,
            contents.sliders <= i,
        decreases lines@.len() - i,
    {
        assert(all[i as int] == lines@[i as int]@);
        assert(all.take(i + 1).drop_last() == all.take(i as int));
        assert(all.take(i + 1).last() == all[i as int]);
        let line = trim_slice(&lines[i]);
        let n = line.len();
        if n == 0 || starts_with_str(line, "//") {
        } else if n >= 2 && line[0] == '[' && line[n - 1] == ']' {
            section = copy_chars(&line[1..n - 1]);
        } else {
            let ghost earlier = entries(all.take(i as int));
            contents.add_line(&section, line, Ghost(earlier));
        }
        i = i + 1;
    }
    assert(all.take(all.len() as int) == all);
    contents
}

// ---------------------------------------------------------------------------
// The beatmap of a file
// ---------------------------------------------------------------------------

/// The value that gives the mode: that of `Mode`, else that of the first key
/// that is `mode` but for the case of its letters.
pub open spec fn mode_value(values: Map<Seq<char>, Seq<char>>) -> Option<Seq<char>> {
    if values.dom().contains("Mode"@) {
        Some(values["Mode"@])
    } else if exists|key: Seq<char>| first_but_case(values, "mode"@, key) {
        Some(values[choose|key: Seq<char>| first_but_case(values, "mode"@, key)])
    } else {
        None
    }
}

/// The game mode: the number that the value begins with. A missing mode means
/// osu!standard and stays unknown.
pub open spec fn mode_in(values: Map<Seq<char>, Seq<char>>) -> Option<u8> {
    match mode_value(values) {
        Some(value) => match natural_within(leading_digits(trim(value)), u8::MAX as nat) {
            Some(mode) => Some(mode as u8),
            None => None,
        },
        None => None,
    }
}

/// Whether any key is `mode` but for the case of its letters.
pub open spec fn has_mode(values: Map<Seq<char>, Seq<char>>) -> bool {
    exists|key: Seq<char>| values.dom().contains(key) && same_but_case(key, "mode"@)
}

fn mode_field(values: &TextTable<String>) -> (res: Option<&String>)
    requires
        values.wf(),
    ensures
        match res {
            Some(value) => mode_value(value_texts(values@)) == Some(value@),
            None => mode_value(value_texts(values@)) is None,
        },
{
    let ghost table = value_texts(values@);
    let found = values.first_ignoring_case("mode");
    proof {
        match found {
            Some((key, value)) => {
                assert(first_but_case(table, "mode"@, key@));
                let other = choose|other: Seq<char>| first_but_case(table, "mode"@, other);
                lemma_first_but_case(table, "mode"@, key@, other);
            },
            None => {
                assert forall|key: Seq<char>| !first_but_case(table, "mode"@, key) by {
                    if table.dom().contains(key) {
                        assert(values@.dom().contains(key));
                    }
                }
            },
        }
    }
    match values.get("Mode") {
        Some(value) => Some(value),
        None => match found {
            Some((_, value)) => Some(value),
            None => None,
        },
    }
}

/// Reads the game mode tolerantly: the case of the key does not matter, and
/// the value may go on behind its number.
pub fn parse_mode(values: &TextTable<String>) -> (res: Option<u8>)
    requires
        values.wf(),
    ensures
        res == mode_in(value_texts(values@)),
{
    match mode_field(values) {
        Some(value) => {
            let value = trimmed(value.as_str());
            read_u8(leading_digits_slice(&value))
        },
        None => None,
    }
}

fn mode_declared(values: &TextTable<String>) -> (res: bool)
    requires
        values.wf(),
    ensures
        res == has_mode(value_texts(values@)),
{
    let found = values.first_ignoring_case("mode");
    let ghost table = value_texts(values@);
    match found {
        Some((key, _)) => {
            assert(table.dom().contains(key@));
            true
        },
        None => {
            assert forall|key: Seq<char>| table.dom().contains(key) implies !same_but_case(
                key,
                "mode"@,
            ) by {
                assert(values@.dom().contains(key));
            }
            false
        },
    }
}

/// The value of a key, if it is there.
pub open spec fn value_of(values: Map<Seq<char>, Seq<char>>, key: Seq<char>) -> Option<Seq<char>> {
    if values.dom().contains(key) {
        Some(values[key])
    } else {
        None
    }
}

/// The value of a key, or an empty text.
pub open spec fn text_of(values: Map<Seq<char>, Seq<char>>, key: Seq<char>) -> Seq<char> {
    match value_of(values, key) {
        Some(value) => value,
        None => Seq::empty(),
    }
}

/// The id under a key.
pub open spec fn id_of(values: Map<Seq<char>, Seq<char>>, key: Seq<char>) -> Option<i64> {
    match value_of(values, key) {
        Some(value) => positive_id(value),
        None => None,
    }
}

/// The number under a key.
pub open spec fn number_of(values: Map<Seq<char>, Seq<char>>, key: Seq<char>) -> Option<Single> {
    match value_of(values, key) {
        Some(value) => single_of_text(value),
        None => None,
    }
}

/// A number of milliseconds in seconds.
pub open spec fn seconds(milliseconds: int) -> Single {
    nearest_integer(milliseconds).quotient(nearest_integer(1000))
}

fn optional_value(values: &TextTable<String>, key: &str) -> (res: Option<String>)
    requires
        values.wf(),
    ensures
        optional_text(res) == value_of(value_texts(values@), key@),
{
    match values.get(key) {
        Some(value) => Some(value.clone()),
        None => None,
    }
}

fn value_or_empty(values: &TextTable<String>, key: &str) -> (res: String)
    requires
        values.wf(),
    ensures
        res@ == text_of(value_texts(values@), key@),
{
    match values.get(key) {
        Some(value) => value.clone(),
        None => String::new(),
    }
}

fn parse_i64(values: &TextTable<String>, key: &str) -> (res: Option<i64>)
    requires
        values.wf(),
    ensures
        res == id_of(value_texts(values@), key@),
{
    match values.get(key) {
        Some(value) => read_positive_id(&chars_of(value.as_str())),
        None => None,
    }
}

fn parse_f32(values: &TextTable<String>, key: &str) -> (res: Option<Single>)
    requires
        values.wf(),
    ensures
        res == number_of(value_texts(values@), key@),
{
    match values.get(key) {
        Some(value) => read_single(&chars_of(value.as_str())),
        None => None,
    }
}

/// The beatmap that a file describes: `folder` is where it lies,
/// `folder_name` the last part of that path, `background_name` the last part
/// of the path that the background event names, and `stars` the difficulty
/// where it was calculated.
pub open spec fn beatmap_of(
    path: PathView,
    folder: PathView,
    folder_name: Option<Seq<char>>,
    md5: Seq<char>,
    contents: ContentsView,
    background_name: Option<Seq<char>>,
    stars: Option<Single>,
) -> MapView {
    let values = contents.values;
    MapView {
        path,
        folder,
        md5,
        beatmap_id: id_of(values, "BeatmapID"@),
        beatmapset_id: match id_of(values, "BeatmapSetID"@) {
            Some(id) => Some(id),
            None => set_id_in(folder_name),
        },
        artist: text_of(values, "Artist"@),
        title: text_of(values, "Title"@),
        source: text_of(values, "Source"@),
        creator: text_of(values, "Creator"@),
        version: text_of(values, "Version"@),
        tags: text_of(values, "Tags"@),
        audio_filename: value_of(values, "AudioFilename"@),
        background_filename: image_named(contents.background, background_name),
        mode: mode_in(values),
        has_mode_field: has_mode(values),
        ar: number_of(values, "ApproachRate"@),
        cs: number_of(values, "CircleSize"@),
        od: number_of(values, "OverallDifficulty"@),
        hp: number_of(values, "HPDrainRate"@),
        stars,
        bpm: contents.bpm,
        length_seconds: match contents.last_object_time {
            Some(time) => Some(seconds(time as int)),
            None => None,
        },
        circles: contents.circles as u32,
        sliders: contents.sliders as u32,
        ranked_status: None,
    }
}

/// A reference to an optional string as a string slice.
fn as_slice(s: &Option<String>) -> (res: Option<&str>)
    ensures
        match res {
            Some(res) => optional_text(*s) == Some(res@),
            None => optional_text(*s) is None,
        },
{
    match s {
        Some(s) => Some(s.as_str()),
        None => None,
    }
}

/// Puts together the beatmap that a file describes.
pub fn build_beatmap(
    path: &FilePath,
    folder: FilePath,
    folder_name: Option<String>,
    md5: String,
    contents: FileContents,
    background_name: Option<String>,
    stars: Option<Single>,
) -> (res: LocalBeatmap)
    requires
        contents.values.wf(),
        contents.circles <= u32::MAX,
        contents.sliders <= u32::MAX,
    ensures
        res@ == beatmap_of(
            path@,
            folder@,
            optional_text(folder_name),
            md5@,
            contents@,
            optional_text(background_name),
            stars,
        ),
{
    let values = &contents.values;
    let beatmapset_id = match parse_i64(values, "BeatmapSetID") {
        Some(id) => Some(id),
        None => set_id_of_name(as_slice(&folder_name)),
    };
    let background_filename = match contents.background {
        Some(value) => if is_repairable_asset_named(value.as_str(), as_slice(&background_name)) {
            Some(value)
        } else {
            None
        },
        None => None,
    };
    let length_seconds = match contents.last_object_time {
        Some(time) => Some(
            Single::from_integer(time as i64).divided_by(Single::from_integer(1000)),
        ),
        None => None,
    };
    let res = LocalBeatmap {
        path: path.clone(),
        folder,
        md5,
        beatmap_id: parse_i64(values, "BeatmapID"),
        beatmapset_id,
        artist: value_or_empty(values, "Artist"),
        title: value_or_empty(values, "Title"),
        source: value_or_empty(values, "Source"),
        creator: value_or_empty(values, "Creator"),
        version: value_or_empty(values, "Version"),
        tags: value_or_empty(values, "Tags"),
        audio_filename: optional_value(values, "AudioFilename"),
        background_filename,
        mode: parse_mode(values),
        has_mode_field: mode_declared(values),
        ar: parse_f32(values, "ApproachRate"),
        cs: parse_f32(values, "CircleSize"),
        od: parse_f32(values, "OverallDifficulty"),
        hp: parse_f32(values, "HPDrainRate"),
        stars,
        bpm: contents.bpm,
        length_seconds,
        circles: contents.circles as u32,
        sliders: contents.sliders as u32,
        ranked_status: None,
    };
    res
}

/// The digit of a number below sixteen.
pub open spec fn hex_digit(n: nat) -> char {
    if n < 10 {
        ('0' as u32 + n) as char
    } else {
        ('a' as u32 + (n - 10)) as char
    }
}

/// Bytes as pairs of hexadecimal digits.
pub open spec fn hex_text(bytes: Seq<u8>) -> Seq<char>
    decreases bytes.len(),
{
    if bytes.len() == 0 {
        Seq::empty()
    } else {
        hex_text(bytes.drop_last()) + seq![
            hex_digit(bytes.last() as nat / 16),
            hex_digit(bytes.last() as nat % 16),
        ]
    }
}

fn write_hex_digit(n: u8) -> (res: char)
    requires
        n < 16,
    ensures
        res == hex_digit(n as nat),
{
    if n < 10 {
        (48u8 + n) as char
    } else {
        (87u8 + n) as char
    }
}

fn write_hex(bytes: &[u8]) -> (res: String)
    ensures
        res@ == hex_text(bytes@),
{
    let mut res = String::new();
    let mut i: usize = 0;
    assert(bytes@.take(0) =~= Seq::empty());
    while i < bytes.len()
        invariant
            i <= bytes@.len(),
            res@ == hex_text(bytes@.take(i as int)),
        decreases bytes@.len() - i,
    {
        assert(bytes@.take(i + 1).drop_last() == bytes@.take(i as int));
        let ghost before = res@;
        res.push(write_hex_digit(bytes[i] / 16));
        res.push(write_hex_digit(bytes[i] % 16));
        assert(res@ =~= hex_text(bytes@.take(i + 1)));
        i = i + 1;
    }
    assert(bytes@.take(bytes@.len() as int) == bytes@);
    res
}

/// A hexadecimal text has two digits for each byte, and nothing but digits.
pub proof fn law_hex_text(bytes: Seq<u8>)
    ensures
        hex_text(bytes).len() == 2 * bytes.len(),
        forall|i: int|
            0 <= i < hex_text(bytes).len() ==> {
                let c = #[trigger] hex_text(bytes)[i];
                '0' <= c <= '9' || 'a' <= c <= 'f'
            },
    decreases bytes.len(),
{
    if bytes.len() > 0 {
        law_hex_text(bytes.drop_last());
    }
}

/// Whether the counts of a file fit into the fields of a beatmap.
pub open spec fn counts_fit(contents: ContentsView) -> bool {
    contents.circles <= u32::MAX && contents.sliders <= u32::MAX
}

/// A folder, or the empty path.
pub open spec fn or_nowhere(folder: Option<Seq<char>>) -> Seq<char> {
    match folder {
        Some(folder) => folder,
        None => Seq::empty(),
    }
}

/// Whether a beatmap is what the bytes of a file under a path describe, for
/// some reading of the paths that the platform can give.
pub open spec fn describes(
    path: PathView,
    bytes: Seq<u8>,
    stars: Option<Single>,
    map: MapView,
    folder: Option<Seq<char>>,
    folder_name: Option<Seq<char>>,
    background_name: Option<Seq<char>>,
) -> bool {
    let contents = contents_of(lossy_text(bytes));
    &&& fits_parent(path.text, folder)
    &&& map.folder.text == or_nowhere(folder)
    &&& map.folder.fits()
    &&& fits_file_name(map.folder.text, folder_name)
    &&& fits_asset(contents.background, background_name)
    &&& map == beatmap_of(
        path,
        map.folder,
        folder_name,
        hex_text(md5_digest(bytes)),
        contents,
        background_name,
        stars,
    )
}

/// Reads the bytes of a `.osu` file. Nothing is given for a file with more
/// circles or sliders than can be counted.
pub fn parse_osu_bytes(path: &FilePath, bytes: &[u8], stars: Option<Single>) -> (res: Option<
    LocalBeatmap,
>)
    ensures
        match res {
            Some(map) => {
                &&& counts_fit(contents_of(lossy_text(bytes@)))
                &&& map.md5@.len() == 32
                &&& exists|
                    folder: Option<Seq<char>>,
                    folder_name: Option<Seq<char>>,
                    background_name: Option<Seq<char>>,
                |
                    describes(path@, bytes@, stars, map@, folder, folder_name, background_name)
            },
            None => !counts_fit(contents_of(lossy_text(bytes@))),
        },
{
    let text = text_of_bytes(bytes);
    let contents = read_contents(text.as_str());
    if contents.circles > u32::MAX as u64 || contents.sliders > u32::MAX as u64 {
        return None;
    }
    let digest = md5_compute(bytes);
    let md5 = write_hex(&digest);
    proof {
        law_hex_text(digest@);
    }
    let parent = parent_folder(path.text());
    let folder = match &parent {
        Some(folder) => FilePath::new(folder.as_str()),
        None => FilePath::new(""),
    };
    proof {
        reveal_strlit("");
        assert(folder@.text =~= or_nowhere(optional_text(parent)));
    }
    let folder_name = file_name(folder.text());
    let background_name = match &contents.background {
        Some(value) => {
            let chars = chars_of(value.as_str());
            let asset = trim_slice(trim_both_slice(trim_slice(&chars), CharClass::Only('"')));
            file_name(string_of(asset).as_str())
        },
        None => None,
    };
    let ghost names = (optional_text(folder_name), optional_text(background_name));
    let map = build_beatmap(path, folder, folder_name, md5, contents, background_name, stars);
    assert(describes(path@, bytes@, stars, map@, optional_text(parent), names.0, names.1));
    Some(map)
}

// ---------------------------------------------------------------------------
// Laws
// ---------------------------------------------------------------------------

/// Only the sections that hold metadata add keys and values: the colons of
/// events, timing points and hit objects mean nothing.
pub proof fn law_only_metadata_sections_count(lines: Seq<Entry>, entry: Entry)
    requires
        !holds_metadata(entry.section),
    ensures
        metadata(lines.push(entry)) == metadata(lines),
{
    assert(lines.push(entry).drop_last() == lines);
}

/// Blank lines and comments mean nothing, wherever they stand.
pub proof fn law_blank_lines_and_comments_mean_nothing(
    before: Seq<Seq<char>>,
    line: Seq<char>,
    after: Seq<Seq<char>>,
)
    requires
        says_nothing(trim(line)),
    ensures
        entries(before + seq![line] + after) == entries(before + after),
        open_section(before + seq![line] + after) == open_section(before + after),
    decreases after.len(),
{
    let with = before + seq![line] + after;
    let without = before + after;
    if after.len() == 0 {
        assert(with =~= before.push(line));
        assert(with.drop_last() =~= before);
        assert(without =~= before);
    } else {
        assert(with.drop_last() =~= before + seq![line] + after.drop_last());
        assert(without.drop_last() =~= before + after.drop_last());
        law_blank_lines_and_comments_mean_nothing(before, line, after.drop_last());
    }
}

/// A file without a background event has no background, so that none can be
/// missed.
pub proof fn law_no_background_event_no_background(lines: Seq<Entry>)
    requires
        forall|i: int|
            0 <= i < lines.len() ==> !((#[trigger] lines[i]).section == "Events"@
                && background_event(lines[i].line)),
    ensures
        background_value(lines) is None,
        image_named(background_value(lines), None) is None,
    decreases lines.len(),
{
    if lines.len() > 0 {
        assert(!(lines[lines.len() - 1].section == "Events"@ && background_event(
            lines[lines.len() - 1].line,
        )));
        assert forall|i: int| 0 <= i < lines.drop_last().len() implies !((
        #[trigger] lines.drop_last()[i]).section == "Events"@ && background_event(
            lines.drop_last()[i].line,
        )) by {
            assert(lines.drop_last()[i] == lines[i]);
        }
        law_no_background_event_no_background(lines.drop_last());
    }
}

/// The length of a map is the time of its last object: no object comes later,
/// and one comes then.
pub proof fn law_latest_time(objects: Seq<(i32, i32)>)
    requires
        objects.len() > 0,
    ensures
        latest(objects) matches Some(time) && (forall|i: int|
            0 <= i < objects.len() ==> (#[trigger] objects[i]).0 <= time) && (exists|i: int|
            0 <= i < objects.len() && (#[trigger] objects[i]).0 == time),
    decreases objects.len(),
{
    let init = objects.drop_last();
    assert(objects[objects.len() - 1] == objects.last());
    if init.len() > 0 {
        law_latest_time(init);
        let time = latest(init)->0;
        let k = choose|k: int| 0 <= k < init.len() && (#[trigger] init[k]).0 == time;
        assert(objects[k] == init[k]);
        assert forall|i: int| 0 <= i < objects.len() implies (#[trigger] objects[i]).0
            <= latest(objects)->0 by {
            if i < init.len() {
                assert(init[i] == objects[i]);
            }
        }
    }
}

} // verus!
