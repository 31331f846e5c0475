//! Collection filters with one control per idea: text boxes for words,
//! minimum and maximum for numbers, text boxes for the song length and a
//! choice of the game mode. Filters can be written as a search and set from
//! one.

use crate::local::LocalBeatmap;
use crate::numeral::{read_single, short_number, single_of_text, trim_number};
use crate::outside::{lowercase, to_lowercase};
use crate::query::{
    all_admit, clause_views, clauses_of, contains_lowered, has_lowered, parse_osu_query, ClauseView,
    ComparisonOp, ModeFilter, NumericField, ParsedOsuQuery, QueryClause, TextField,
};
use crate::single::{nearest_integer, Single};
use crate::text::{
    chars_of, contains_char, is_blank, join, join_strings, string_of, string_texts, trim, trimmed,
};
use vstd::prelude::*;

verus! {

/// The full range of each number, in whole numbers.
pub const STARS_RANGE: (i64, i64) = (0, 12);

pub const AR_RANGE: (i64, i64) = (0, 11);

pub const CS_RANGE: (i64, i64) = (0, 10);

pub const OD_RANGE: (i64, i64) = (0, 11);

pub const HP_RANGE: (i64, i64) = (0, 10);

pub const BPM_RANGE: (i64, i64) = (0, 350);

/// A range of whole numbers as single-precision numbers.
pub open spec fn bounds(full: (i64, i64)) -> (Single, Single) {
    (nearest_integer(full.0 as int), nearest_integer(full.1 as int))
}

/// A range of whole numbers as single-precision numbers.
pub fn full_bounds(full: (i64, i64)) -> (res: (Single, Single))
    ensures
        res == bounds(full),
{
    (Single::from_integer(full.0), Single::from_integer(full.1))
}

// ---------------------------------------------------------------------------
// Ranges
// ---------------------------------------------------------------------------

/// A closed range of numbers. A range that is not enabled asks for nothing.
#[derive(Debug, Clone, Copy, PartialEq)]
pub struct RangeFilter {
    pub enabled: bool,
    pub min: Single,
    pub max: Single,
}

impl Default for RangeFilter {
    fn default() -> (res: Self)
        ensures
            res == (RangeFilter { enabled: false, min: Single { bits: 0 }, max: Single { bits: 0 } }),
    {
        RangeFilter { enabled: false, min: Single { bits: 0 }, max: Single { bits: 0 } }
    }
}

/// A condition on one side of a range, as a token.
pub open spec fn bound_token(key: Seq<char>, op: Seq<char>, bound: Single) -> Seq<char> {
    key + op + short_number(bound)
}

impl RangeFilter {
    pub fn new(min: Single, max: Single) -> (res: Self)
        ensures
            res == (RangeFilter { enabled: false, min, max }),
    {
        RangeFilter { enabled: false, min, max }
    }

    /// Whether a number is asked for. An enabled range asks for known
    /// numbers between its bounds.
    pub open spec fn admits(self, value: Option<Single>) -> bool {
        !self.enabled || match value {
            Some(value) => self.min.at_most(value) && value.at_most(self.max),
            None => false,
        }
    }

    pub fn matches(&self, value: Option<Single>) -> (res: bool)
        ensures
            res == self.admits(value),
    {
        if !self.enabled {
            return true;
        }
        match value {
            Some(value) => self.min.is_at_most(value) && value.is_at_most(self.max),
            None => false,
        }
    }

    /// Whether the range asks for less than the full range.
    pub open spec fn narrowed_from(self, full: (Single, Single)) -> bool {
        self.enabled && !(self.min.at_most(full.0) && full.1.at_most(self.max))
    }

    /// The tokens of the range: one for each bound that lies inside the full
    /// range.
    pub open spec fn token_texts(self, key: Seq<char>, full: (Single, Single)) -> Seq<Seq<char>> {
        if !self.narrowed_from(full) {
            Seq::empty()
        } else {
            (if full.0.below(self.min) {
                seq![bound_token(key, ">="@, self.min)]
            } else {
                Seq::empty()
            }) + (if self.max.below(full.1) {
                seq![bound_token(key, "<="@, self.max)]
            } else {
                Seq::empty()
            })
        }
    }

    /// Appends the tokens of the range.
    fn push_tokens(&self, tokens: &mut Vec<String>, key: &str, full: (i64, i64))
        ensures
            string_texts(final(tokens)@) == string_texts(old(tokens)@) + self.token_texts(
                key@,
                bounds(full),
            ),
    {
        let ghost start = string_texts(tokens@);
        let full = full_bounds(full);
        assert(start + Seq::<Seq<char>>::empty() =~= start);
        if !self.enabled {
            return;
        }
        if self.min.is_at_most(full.0) && full.1.is_at_most(self.max) {
            return;
        }
        if full.0.is_below(self.min) {
            push_bound_token(tokens, key, ">=", self.min);
        }
        if self.max.is_below(full.1) {
            push_bound_token(tokens, key, "<=", self.max);
        }
        assert(string_texts(tokens@) =~= start + self.token_texts(key@, full));
    }
}

fn push_token(tokens: &mut Vec<String>, token: String)
    ensures
        string_texts(final(tokens)@) == string_texts(old(tokens)@) + seq![token@],
{
    let ghost before = tokens@;
    tokens.push(token);
    assert(string_texts(tokens@) =~= string_texts(before) + seq![token@]);
}

fn push_bound_token(tokens: &mut Vec<String>, key: &str, op: &str, bound: Single)
    ensures
        string_texts(final(tokens)@) == string_texts(old(tokens)@) + seq![
            bound_token(key@, op@, bound),
        ],
{
    let mut token = key.to_owned();
    token.append(op);
    token.append(trim_number(bound).as_str());
    push_token(tokens, token);
}

// ---------------------------------------------------------------------------
// Words and lengths
// ---------------------------------------------------------------------------

/// What is looked for when a text box holds `needle`.
pub open spec fn needle_of(needle: Seq<char>) -> Seq<char> {
    lowercase(trim(needle))
}

fn lowered_needle(needle: &str) -> (res: String)
    ensures
        res@ == needle_of(needle@),
{
    to_lowercase(string_of(&trimmed(needle)).as_str())
}

/// The bound that a length box holds: a finite number of seconds.
pub open spec fn bound_of(text: Seq<char>) -> Option<Single> {
    match single_of_text(trim(text)) {
        Some(value) if trim(text).len() > 0 && value.finite() => Some(value),
        _ => None,
    }
}

fn parse_bound(text: &str) -> (res: Option<Single>)
    ensures
        res == bound_of(text@),
{
    let text = trimmed(text);
    if text.len() == 0 {
        return None;
    }
    match read_single(&text) {
        Some(value) => if value.is_finite() {
            Some(value)
        } else {
            None
        },
        None => None,
    }
}

/// Whether a song length is between the bounds of two length boxes. A box
/// without a number bounds nothing, and an unknown length is within no bound.
pub open spec fn length_within(
    length: Option<Single>,
    min_text: Seq<char>,
    max_text: Seq<char>,
) -> bool {
    &&& bound_of(min_text) matches Some(min) ==> (length matches Some(length) && min.at_most(length))
    &&& bound_of(max_text) matches Some(max) ==> (length matches Some(length) && length.at_most(max))
}

fn within_length(length_seconds: Option<Single>, min_text: &str, max_text: &str) -> (res: bool)
    ensures
        res == length_within(length_seconds, min_text@, max_text@),
{
    let min = parse_bound(min_text);
    let max = parse_bound(max_text);
    if min.is_none() && max.is_none() {
        return true;
    }
    let length = match length_seconds {
        Some(length) => length,
        None => {
            return false;
        },
    };
    let above = match min {
        Some(min) => min.is_at_most(length),
        None => true,
    };
    let below = match max {
        Some(max) => length.is_at_most(max),
        None => true,
    };
    above && below
}

/// A text with a backslash before every quotation mark.
pub open spec fn escaped(value: Seq<char>) -> Seq<char>
    decreases value.len(),
{
    if value.len() == 0 {
        Seq::empty()
    } else if value.last() == '"' {
        escaped(value.drop_last()) + seq!['\\', '"']
    } else {
        escaped(value.drop_last()).push(value.last())
    }
}

/// Whether a text is written between quotation marks.
pub open spec fn needs_quotes(value: Seq<char>) -> bool {
    value.contains(' ') || value.contains('/') || value.contains('"')
}

/// A text as the value of a condition.
pub open spec fn quoted(value: Seq<char>) -> Seq<char> {
    if needs_quotes(value) {
        seq!['"'] + escaped(value) + seq!['"']
    } else {
        value
    }
}

fn quote_if_needed(value: &[char]) -> (res: String)
    ensures
        res@ == quoted(value@),
{
    if contains_char(value, ' ') || contains_char(value, '/') || contains_char(value, '"') {
        let mut out = String::new();
        out.push('"');
        let mut i: usize = 0;
        assert(value@.take(0).len() == 0);
        assert(out@ =~= seq!['"'] + escaped(value@.take(0)));
        while i < value.len()
            invariant
                i <= value@.len(),
                out@ == seq!['"'] + escaped(value@.take(i as int)),
            decreases value@.len() - i,
        {
            assert(value@.take(i + 1).drop_last() == value@.take(i as int));
            assert(value@.take(i + 1).last() == value@[i as int]);
            if value[i] == '"' {
                out.push('\\');
            }
            out.push(value[i]);
            assert(out@ =~= seq!['"'] + escaped(value@.take(i + 1)));
            i = i + 1;
        }
        out.push('"');
        assert(value@.take(value@.len() as int) == value@);
        assert(out@ =~= seq!['"'] + escaped(value@) + seq!['"']);
        out
    } else {
        string_of(value)
    }
}

/// The token that a text box gives: none where it is blank.
pub open spec fn text_token(key: Seq<char>, value: Seq<char>) -> Seq<Seq<char>> {
    if trim(value).len() == 0 {
        Seq::empty()
    } else {
        seq![key + "="@ + quoted(trim(value))]
    }
}

fn push_text_token(tokens: &mut Vec<String>, key: &str, value: &str)
    ensures
        string_texts(final(tokens)@) == string_texts(old(tokens)@) + text_token(key@, value@),
{
    let value = trimmed(value);
    if value.len() == 0 {
        assert(string_texts(tokens@) + Seq::<Seq<char>>::empty() =~= string_texts(tokens@));
        return;
    }
    let mut token = key.to_owned();
    token.append("=");
    token.append(quote_if_needed(&value).as_str());
    push_token(tokens, token);
}

/// The token that a length box gives: none where it holds no number.
pub open spec fn length_token(op: Seq<char>, text: Seq<char>) -> Seq<Seq<char>> {
    match bound_of(text) {
        Some(bound) => seq![bound_token("length"@, op, bound)],
        None => Seq::empty(),
    }
}

fn push_length_token(tokens: &mut Vec<String>, op: &str, text: &str)
    ensures
        string_texts(final(tokens)@) == string_texts(old(tokens)@) + length_token(op@, text@),
{
    match parse_bound(text) {
        Some(bound) => push_bound_token(tokens, "length", op, bound),
        None => {
            assert(string_texts(tokens@) + Seq::<Seq<char>>::empty() =~= string_texts(tokens@));
        },
    }
}

/// The token that a choice of the mode gives.
pub open spec fn mode_token(mode: ModeFilter) -> Seq<Seq<char>> {
    match mode.token_text() {
        Some(name) => seq!["mode="@ + name],
        None => Seq::empty(),
    }
}

// ---------------------------------------------------------------------------
// Filters
// ---------------------------------------------------------------------------

/// All filters. Texts are compared by their small letters where a box is not
/// blank, and the length boxes hold seconds.
#[derive(Debug)]
pub struct BeatmapFilters {
    pub artist: String,
    pub title: String,
    pub mapper: String,
    pub difficulty: String,
    pub tag: String,
    pub length_min: String,
    pub length_max: String,
    pub stars: RangeFilter,
    pub ar: RangeFilter,
    pub cs: RangeFilter,
    pub od: RangeFilter,
    pub hp: RangeFilter,
    pub bpm: RangeFilter,
    pub mode: ModeFilter,
    pub query_text: String,
    pub parsed_query: Option<ParsedOsuQuery>,
}

/// A typed search: its text and its conditions.
#[verifier::ext_equal]
pub struct SearchView {
    pub raw: Seq<char>,
    pub conditions: Seq<ClauseView>,
}

/// The state of the filters, with texts as sequences of characters.
#[verifier::ext_equal]
pub struct FiltersView {
    pub artist: Seq<char>,
    pub title: Seq<char>,
    pub mapper: Seq<char>,
    pub difficulty: Seq<char>,
    pub tag: Seq<char>,
    pub length_min: Seq<char>,
    pub length_max: Seq<char>,
    pub stars: RangeFilter,
    pub ar: RangeFilter,
    pub cs: RangeFilter,
    pub od: RangeFilter,
    pub hp: RangeFilter,
    pub bpm: RangeFilter,
    pub mode: ModeFilter,
    pub query_text: Seq<char>,
    pub search: Option<SearchView>,
}

impl View for BeatmapFilters {
    type V = FiltersView;

    open spec fn view(&self) -> FiltersView {
        FiltersView {
            artist: self.artist@,
            title: self.title@,
            mapper: self.mapper@,
            difficulty: self.difficulty@,
            tag: self.tag@,
            length_min: self.length_min@,
            length_max: self.length_max@,
            stars: self.stars,
            ar: self.ar,
            cs: self.cs,
            od: self.od,
            hp: self.hp,
            bpm: self.bpm,
            mode: self.mode,
            query_text: self.query_text@,
            search: match self.parsed_query {
                Some(parsed) => Some(
                    SearchView { raw: parsed.raw@, conditions: parsed.conditions() },
                ),
                None => None,
            },
        }
    }
}

/// The small letters of the text boxes, made once for a whole library.
#[derive(Debug)]
pub struct LoweredTextQueries {
    pub artist: String,
    pub title: String,
    pub mapper: String,
    pub difficulty: String,
    pub tag: String,
}

/// What [`LoweredTextQueries`] hold.
#[verifier::ext_equal]
pub struct NeedlesView {
    pub artist: Seq<char>,
    pub title: Seq<char>,
    pub mapper: Seq<char>,
    pub difficulty: Seq<char>,
    pub tag: Seq<char>,
}

impl View for LoweredTextQueries {
    type V = NeedlesView;

    open spec fn view(&self) -> NeedlesView {
        NeedlesView {
            artist: self.artist@,
            title: self.title@,
            mapper: self.mapper@,
            difficulty: self.difficulty@,
            tag: self.tag@,
        }
    }
}

impl Default for LoweredTextQueries {
    fn default() -> (res: Self)
        ensures
            res.artist@ == Seq::<char>::empty(),
            res.title@ == Seq::<char>::empty(),
            res.mapper@ == Seq::<char>::empty(),
            res.difficulty@ == Seq::<char>::empty(),
            res.tag@ == Seq::<char>::empty(),
    {
        LoweredTextQueries {
            artist: String::new(),
            title: String::new(),
            mapper: String::new(),
            difficulty: String::new(),
            tag: String::new(),
        }
    }
}

impl Clone for LoweredTextQueries {
    fn clone(&self) -> (res: Self)
        ensures
            res == *self,
    {
        LoweredTextQueries {
            artist: self.artist.clone(),
            title: self.title.clone(),
            mapper: self.mapper.clone(),
            difficulty: self.difficulty.clone(),
            tag: self.tag.clone(),
        }
    }
}

/// One where a condition holds, else zero.
pub open spec fn one_if(b: bool) -> nat {
    if b {
        1
    } else {
        0
    }
}

/// A range that is enabled or not and covers all whole numbers of `full`.
pub open spec fn whole_range(enabled: bool, full: (i64, i64)) -> RangeFilter {
    RangeFilter { enabled, min: bounds(full).0, max: bounds(full).1 }
}

impl FiltersView {
    /// No text and no bounds.
    pub open spec fn blank() -> FiltersView {
        let off = RangeFilter { enabled: false, min: Single { bits: 0 }, max: Single { bits: 0 } };
        FiltersView {
            artist: Seq::empty(),
            title: Seq::empty(),
            mapper: Seq::empty(),
            difficulty: Seq::empty(),
            tag: Seq::empty(),
            length_min: Seq::empty(),
            length_max: Seq::empty(),
            stars: off,
            ar: off,
            cs: off,
            od: off,
            hp: off,
            bpm: off,
            mode: ModeFilter::Osu,
            query_text: Seq::empty(),
            search: None,
        }
    }

    /// The filters to begin with: full ranges, those of stars, AR and CS
    /// enabled, and osu!standard.
    pub open spec fn full() -> FiltersView {
        FiltersView {
            stars: whole_range(true, STARS_RANGE),
            ar: whole_range(true, AR_RANGE),
            cs: whole_range(true, CS_RANGE),
            od: whole_range(false, OD_RANGE),
            hp: whole_range(false, HP_RANGE),
            bpm: whole_range(false, BPM_RANGE),
            query_text: "mode=osu"@,
            ..FiltersView::blank()
        }
    }

    /// What the text boxes look for.
    pub open spec fn needles(self) -> NeedlesView {
        NeedlesView {
            artist: needle_of(self.artist),
            title: needle_of(self.title),
            mapper: needle_of(self.mapper),
            difficulty: needle_of(self.difficulty),
            tag: needle_of(self.tag),
        }
    }

    /// Whether a map meets the controls, with `needles` for the text boxes.
    pub open spec fn controls_admit(self, map: LocalBeatmap, needles: NeedlesView) -> bool {
        &&& has_lowered(map.artist@, needles.artist)
        &&& has_lowered(map.title@, needles.title)
        &&& has_lowered(map.creator@, needles.mapper)
        &&& has_lowered(map.version@, needles.difficulty)
        &&& has_lowered(map.tags@, needles.tag)
        &&& length_within(map.length_seconds, self.length_min, self.length_max)
        &&& self.stars.admits(map.stars)
        &&& self.ar.admits(map.ar)
        &&& self.cs.admits(map.cs)
        &&& self.od.admits(map.od)
        &&& self.hp.admits(map.hp)
        &&& self.bpm.admits(map.bpm)
        &&& self.mode.admits(map.mode)
    }

    /// Whether a map is let through: by the typed search where there is one,
    /// else by the controls.
    pub open spec fn admits(self, map: LocalBeatmap, needles: NeedlesView) -> bool {
        match self.search {
            Some(search) => all_admit(search.conditions, map),
            None => self.controls_admit(map, needles),
        }
    }

    /// The number of text boxes that are not blank.
    pub open spec fn active_words(self) -> nat {
        one_if(trim(self.artist).len() > 0) + one_if(trim(self.title).len() > 0) + one_if(
            trim(self.mapper).len() > 0,
        ) + one_if(trim(self.difficulty).len() > 0) + one_if(trim(self.tag).len() > 0)
    }

    /// The number of enabled ranges.
    pub open spec fn active_ranges(self) -> nat {
        one_if(self.stars.enabled) + one_if(self.ar.enabled) + one_if(self.cs.enabled) + one_if(
            self.od.enabled,
        ) + one_if(self.hp.enabled) + one_if(self.bpm.enabled)
    }

    /// Whether a length box holds a number.
    pub open spec fn active_length(self) -> bool {
        bound_of(self.length_min) is Some || bound_of(self.length_max) is Some
    }

    /// The number of active filters: the conditions of the typed search, or
    /// the controls that ask for something.
    pub open spec fn active(self) -> nat {
        match self.search {
            Some(search) => search.conditions.len(),
            None => self.active_words() + self.active_ranges() + one_if(self.active_length())
                + one_if(self.mode != ModeFilter::Any),
        }
    }

    /// The tokens of the controls that ask for something.
    pub open spec fn search_tokens(self) -> Seq<Seq<char>> {
        text_token("artist"@, self.artist) + text_token("title"@, self.title) + text_token(
            "creator"@,
            self.mapper,
        ) + text_token("difficulty"@, self.difficulty) + text_token("tag"@, self.tag)
            + length_token(">="@, self.length_min) + length_token("<="@, self.length_max)
            + self.stars.token_texts("stars"@, bounds(STARS_RANGE)) + self.ar.token_texts(
            "ar"@,
            bounds(AR_RANGE),
        ) + self.cs.token_texts("cs"@, bounds(CS_RANGE)) + self.od.token_texts(
            "od"@,
            bounds(OD_RANGE),
        ) + self.hp.token_texts("hp"@, bounds(HP_RANGE)) + self.bpm.token_texts(
            "bpm"@,
            bounds(BPM_RANGE),
        ) + mode_token(self.mode)
    }

    /// The controls written as a search.
    pub open spec fn search_text(self) -> Seq<char> {
        join(self.search_tokens(), " "@)
    }
}

impl FiltersView {
    /// The filters with a search text: where they have none, the one that the
    /// controls give.
    pub open spec fn with_search_text(self) -> FiltersView {
        if self.query_text.len() == 0 {
            FiltersView { query_text: self.search_text(), ..self }
        } else {
            self
        }
    }
}

impl Default for BeatmapFilters {
    fn default() -> (res: Self)
        ensures
            res@ == FiltersView::blank(),
    {
        let res = BeatmapFilters {
            artist: String::new(),
            title: String::new(),
            mapper: String::new(),
            difficulty: String::new(),
            tag: String::new(),
            length_min: String::new(),
            length_max: String::new(),
            stars: RangeFilter::default(),
            ar: RangeFilter::default(),
            cs: RangeFilter::default(),
            od: RangeFilter::default(),
            hp: RangeFilter::default(),
            bpm: RangeFilter::default(),
            mode: ModeFilter::default(),
            query_text: String::new(),
            parsed_query: None,
        };
        assert(res@ =~= FiltersView::blank());
        res
    }
}

impl Clone for BeatmapFilters {
    fn clone(&self) -> (res: Self)
        ensures
            res@ == self@,
    {
        let res = BeatmapFilters {
            artist: self.artist.clone(),
            title: self.title.clone(),
            mapper: self.mapper.clone(),
            difficulty: self.difficulty.clone(),
            tag: self.tag.clone(),
            length_min: self.length_min.clone(),
            length_max: self.length_max.clone(),
            stars: self.stars,
            ar: self.ar,
            cs: self.cs,
            od: self.od,
            hp: self.hp,
            bpm: self.bpm,
            mode: self.mode,
            query_text: self.query_text.clone(),
            parsed_query: match &self.parsed_query {
                Some(parsed) => Some(parsed.clone()),
                None => None,
            },
        };
        assert(res@ =~= self@);
        res
    }
}

fn count_if(b: bool) -> (res: usize)
    ensures
        res == one_if(b),
        res <= 1,
{
    if b {
        1
    } else {
        0
    }
}

fn count_text(text: &str) -> (res: usize)
    ensures
        res == one_if(trim(text@).len() > 0),
        res <= 1,
{
    count_if(!is_blank(text))
}

impl BeatmapFilters {
    /// Whether a map is let through.
    pub fn matches_local(&self, map: &LocalBeatmap) -> (res: bool)
        ensures
            res == self@.admits(*map, self@.needles()),
    {
        self.matches_local_lowered(map, &self.lowered_text())
    }

    /// The small letters of the text boxes, to match many maps with.
    pub fn lowered_text(&self) -> (res: LoweredTextQueries)
        ensures
            res@ == self@.needles(),
    {
        LoweredTextQueries {
            artist: lowered_needle(self.artist.as_str()),
            title: lowered_needle(self.title.as_str()),
            mapper: lowered_needle(self.mapper.as_str()),
            difficulty: lowered_needle(self.difficulty.as_str()),
            tag: lowered_needle(self.tag.as_str()),
        }
    }

    /// Whether a map is let through, with `text` for the text boxes.
    pub fn matches_local_lowered(&self, map: &LocalBeatmap, text: &LoweredTextQueries) -> (res:
        bool)
        ensures
            res == self@.admits(*map, text@),
    {
        if let Some(parsed) = &self.parsed_query {
            return parsed.matches(map);
        }
        contains_lowered(map.artist.as_str(), text.artist.as_str()) && contains_lowered(
            map.title.as_str(),
            text.title.as_str(),
        ) && contains_lowered(map.creator.as_str(), text.mapper.as_str()) && contains_lowered(
            map.version.as_str(),
            text.difficulty.as_str(),
        ) && contains_lowered(map.tags.as_str(), text.tag.as_str()) && within_length(
            map.length_seconds,
            self.length_min.as_str(),
            self.length_max.as_str(),
        ) && self.stars.matches(map.stars) && self.ar.matches(map.ar) && self.cs.matches(map.cs)
            && self.od.matches(map.od) && self.hp.matches(map.hp) && self.bpm.matches(map.bpm)
            && self.mode.matches(map.mode)
    }

    /// The number of active filters.
    pub fn active_count(&self) -> (res: usize)
        ensures
            res == self@.active(),
    {
        if let Some(parsed) = &self.parsed_query {
            return parsed.clauses.len();
        }
        self.count_words() + self.count_ranges() + self.count_length() + self.count_mode()
    }

    fn count_words(&self) -> (res: usize)
        ensures
            res == self@.active_words(),
            res <= 5,
    {
        count_text(self.artist.as_str()) + count_text(self.title.as_str()) + count_text(
            self.mapper.as_str(),
        ) + count_text(self.difficulty.as_str()) + count_text(self.tag.as_str())
    }

    fn count_ranges(&self) -> (res: usize)
        ensures
            res == self@.active_ranges(),
            res <= 6,
    {
        count_if(self.stars.enabled) + count_if(self.ar.enabled) + count_if(self.cs.enabled)
            + count_if(self.od.enabled) + count_if(self.hp.enabled) + count_if(self.bpm.enabled)
    }

    fn count_length(&self) -> (res: usize)
        ensures
            res == one_if(self@.active_length()),
            res <= 1,
    {
        count_if(
            parse_bound(self.length_min.as_str()).is_some() || parse_bound(
                self.length_max.as_str(),
            ).is_some(),
        )
    }

    fn count_mode(&self) -> (res: usize)
        ensures
            res == one_if(self@.mode != ModeFilter::Any),
            res <= 1,
    {
        count_if(self.mode != ModeFilter::Any)
    }

    /// Whether the length boxes are blank or hold numbers.
    pub fn length_valid(&self) -> (res: bool)
        ensures
            res == ((trim(self@.length_min).len() == 0 || bound_of(self@.length_min) is Some) && (
            trim(self@.length_max).len() == 0 || bound_of(self@.length_max) is Some)),
    {
        let min_ok = is_blank(self.length_min.as_str()) || parse_bound(
            self.length_min.as_str(),
        ).is_some();
        let max_ok = is_blank(self.length_max.as_str()) || parse_bound(
            self.length_max.as_str(),
        ).is_some();
        min_ok && max_ok
    }

    /// The controls written as a search.
    pub fn to_osu_search(&self) -> (res: String)
        ensures
            res@ == self@.search_text(),
    {
        let mut tokens: Vec<String> = Vec::new();
        push_text_token(&mut tokens, "artist", self.artist.as_str());
        assert(string_texts(tokens@) =~= text_token("artist"@, self@.artist));
        push_text_token(&mut tokens, "title", self.title.as_str());
        push_text_token(&mut tokens, "creator", self.mapper.as_str());
        push_text_token(&mut tokens, "difficulty", self.difficulty.as_str());
        push_text_token(&mut tokens, "tag", self.tag.as_str());
        push_length_token(&mut tokens, ">=", self.length_min.as_str());
        push_length_token(&mut tokens, "<=", self.length_max.as_str());
        self.stars.push_tokens(&mut tokens, "stars", STARS_RANGE);
        self.ar.push_tokens(&mut tokens, "ar", AR_RANGE);
        self.cs.push_tokens(&mut tokens, "cs", CS_RANGE);
        self.od.push_tokens(&mut tokens, "od", OD_RANGE);
        self.hp.push_tokens(&mut tokens, "hp", HP_RANGE);
        self.bpm.push_tokens(&mut tokens, "bpm", BPM_RANGE);
        let ghost before = string_texts(tokens@);
        match self.mode.token() {
            Some(mode) => {
                let mut token = "mode=".to_owned();
                token.append(mode);
                push_token(&mut tokens, token);
            },
            None => {
                assert(before + Seq::<Seq<char>>::empty() =~= before);
            },
        }
        assert(string_texts(tokens@) == self@.search_tokens());
        join_strings(&tokens, " ")
    }
}

/// The bounds of a full range are numbers, and a range that holds all of it
/// gives no tokens.
proof fn lemma_whole_range_tokens(enabled: bool, full: (i64, i64), key: Seq<char>)
    ensures
        whole_range(enabled, full).token_texts(key, bounds(full)) == Seq::<Seq<char>>::empty(),
{
    crate::rounding::lemma_assembled(
        full.0 < 0,
        crate::single::nearest_magnitude(
            crate::single::magnitude_of(full.0 as int) * crate::single::one_in_units(),
            1,
        ),
    );
    crate::rounding::lemma_assembled(
        full.1 < 0,
        crate::single::nearest_magnitude(
            crate::single::magnitude_of(full.1 as int) * crate::single::one_in_units(),
            1,
        ),
    );
}

/// The search text of the filters to begin with.
proof fn lemma_full_search_text(v: FiltersView)
    requires
        v == (FiltersView { query_text: v.query_text, search: v.search, ..FiltersView::full() }),
    ensures
        v.search_text() == "mode=osu"@,
{
    lemma_whole_range_tokens(true, STARS_RANGE, "stars"@);
    lemma_whole_range_tokens(true, AR_RANGE, "ar"@);
    lemma_whole_range_tokens(true, CS_RANGE, "cs"@);
    lemma_whole_range_tokens(false, OD_RANGE, "od"@);
    lemma_whole_range_tokens(false, HP_RANGE, "hp"@);
    lemma_whole_range_tokens(false, BPM_RANGE, "bpm"@);
    assert(trim(Seq::<char>::empty()).len() == 0) by {
        crate::text::lemma_trim_both_ends(Seq::<char>::empty(), crate::text::CharClass::White);
    }
    assert(bound_of(Seq::<char>::empty()) is None);
    reveal_strlit("mode=");
    reveal_strlit("osu");
    reveal_strlit("mode=osu");
    assert("mode="@ + "osu"@ =~= "mode=osu"@);
    assert(v.search_tokens() =~= seq!["mode=osu"@]);
    reveal_with_fuel(join, 3);
    assert(v.search_tokens().drop_last() =~= Seq::<Seq<char>>::empty());
    assert(v.search_text() =~= "mode=osu"@);
}

impl BeatmapFilters {
    /// The filters to begin with.
    pub fn with_full_ranges() -> (res: Self)
        ensures
            res@ == FiltersView::full(),
    {
        let mut filters = BeatmapFilters::default();
        let stars = full_bounds(STARS_RANGE);
        let ar = full_bounds(AR_RANGE);
        let cs = full_bounds(CS_RANGE);
        let od = full_bounds(OD_RANGE);
        let hp = full_bounds(HP_RANGE);
        let bpm = full_bounds(BPM_RANGE);
        filters.stars = RangeFilter::new(stars.0, stars.1);
        filters.ar = RangeFilter::new(ar.0, ar.1);
        filters.cs = RangeFilter::new(cs.0, cs.1);
        filters.od = RangeFilter::new(od.0, od.1);
        filters.hp = RangeFilter::new(hp.0, hp.1);
        filters.bpm = RangeFilter::new(bpm.0, bpm.1);
        filters.stars.enabled = true;
        filters.ar.enabled = true;
        filters.cs.enabled = true;
        proof {
            lemma_full_search_text(filters@);
        }
        filters.query_text = filters.to_osu_search();
        assert(filters@ =~= FiltersView::full());
        filters
    }

    /// Goes back to the filters to begin with.
    pub fn clear_all(&mut self)
        ensures
            final(self)@ == FiltersView::full(),
    {
        let fresh = BeatmapFilters::with_full_ranges();
        self.artist = String::new();
        self.title = String::new();
        self.mapper = String::new();
        self.difficulty = String::new();
        self.tag = String::new();
        self.length_min = String::new();
        self.length_max = String::new();
        self.stars = fresh.stars;
        self.ar = fresh.ar;
        self.cs = fresh.cs;
        self.od = fresh.od;
        self.hp = fresh.hp;
        self.bpm = fresh.bpm;
        self.mode = fresh.mode;
        proof {
            assert(fresh@.stars == fresh.stars);
            lemma_full_search_text(self@);
        }
        self.query_text = self.to_osu_search();
        self.parsed_query = None;
        assert(self@ =~= FiltersView::full());
    }

    /// Writes the controls as a search where no search text is there yet.
    pub fn init_query_text(&mut self)
        ensures
            final(self)@ == (if old(self)@.query_text.len() == 0 {
                FiltersView { query_text: old(self)@.search_text(), ..old(self)@ }
            } else {
                old(self)@
            }),
            final(self)@ == old(self)@.with_search_text(),
    {
        let length = chars_of(self.query_text.as_str()).len();
        if length == 0 {
            self.query_text = self.to_osu_search();
            assert(self@ =~= (FiltersView { query_text: old(self)@.search_text(), ..old(self)@ }));
        }
    }

    /// Writes the search text anew from the controls and drops the typed
    /// search.
    pub fn update_query_text_from_ui(&mut self)
        ensures
            final(self)@ == old(self)@.written(),
    {
        self.query_text = self.to_osu_search();
        self.parsed_query = None;
        assert(self@ =~= old(self)@.written());
    }

    /// The state of the controls, to see whether they were changed.
    pub fn ui_snapshot(&self) -> (res: (
        (RangeFilter, RangeFilter, RangeFilter, RangeFilter),
        (RangeFilter, RangeFilter, ModeFilter),
        (String, String, String),
        (String, String, String, String),
    ))
        ensures
            res.0 == (self.stars, self.ar, self.cs, self.od),
            res.1 == (self.hp, self.bpm, self.mode),
            res.2 == (self.artist, self.title, self.mapper),
            res.3 == (self.difficulty, self.tag, self.length_min, self.length_max),
    {
        (
            (self.stars, self.ar, self.cs, self.od),
            (self.hp, self.bpm, self.mode),
            (self.artist.clone(), self.title.clone(), self.mapper.clone()),
            (
                self.difficulty.clone(),
                self.tag.clone(),
                self.length_min.clone(),
                self.length_max.clone(),
            ),
        )
    }
}

// ---------------------------------------------------------------------------
// Controls from a search
// ---------------------------------------------------------------------------

/// The bounds after one more condition on the same number.
pub open spec fn bounded(bounds: (Single, Single), op: ComparisonOp, value: Single) -> (
    Single,
    Single,
) {
    match op {
        ComparisonOp::GreaterThan | ComparisonOp::GreaterThanOrEqual => (
            bounds.0.larger(value),
            bounds.1,
        ),
        ComparisonOp::LessThan | ComparisonOp::LessThanOrEqual => (
            bounds.0,
            bounds.1.smaller(value),
        ),
        ComparisonOp::Equal => (value, value),
        ComparisonOp::NotEqual => bounds,
    }
}

/// The bounds that conditions set on a number, from `start` on.
pub open spec fn bounds_asked(
    clauses: Seq<ClauseView>,
    field: NumericField,
    start: (Single, Single),
) -> (Single, Single)
    decreases clauses.len(),
{
    if clauses.len() == 0 {
        start
    } else {
        let earlier = bounds_asked(clauses.drop_last(), field, start);
        match clauses.last() {
            ClauseView::Numeric { field: f, op, value } if f == field => bounded(
                earlier,
                op,
                value,
            ),
            _ => earlier,
        }
    }
}

/// Whether a condition is about a number.
pub open spec fn about(clause: ClauseView, field: NumericField) -> bool {
    clause matches ClauseView::Numeric { field: f, .. } && f == field
}

/// Whether a condition on a number is among the conditions.
pub open spec fn mentions(clauses: Seq<ClauseView>, field: NumericField) -> bool {
    exists|i: int| 0 <= i < clauses.len() && about(#[trigger] clauses[i], field)
}

/// A range set from the conditions: enabled where one is about its number,
/// with the bounds moved into the full range.
pub open spec fn range_asked(
    clauses: Seq<ClauseView>,
    field: NumericField,
    full: (Single, Single),
    before: RangeFilter,
) -> RangeFilter {
    if mentions(clauses, field) {
        let found = bounds_asked(clauses, field, full);
        RangeFilter {
            enabled: true,
            min: found.0.clamped(full.0, full.1),
            max: found.1.clamped(full.0, full.1),
        }
    } else {
        RangeFilter { enabled: false, ..before }
    }
}

/// The bounds of the song length after one more condition on it.
pub open spec fn length_bounded(
    bounds: (Option<Single>, Option<Single>),
    op: ComparisonOp,
    value: Single,
) -> (Option<Single>, Option<Single>) {
    match op {
        ComparisonOp::GreaterThan | ComparisonOp::GreaterThanOrEqual => (
            match bounds.0 {
                Some(min) => Some(min.larger(value)),
                None => Some(value),
            },
            bounds.1,
        ),
        ComparisonOp::LessThan | ComparisonOp::LessThanOrEqual => (
            bounds.0,
            match bounds.1 {
                Some(max) => Some(max.smaller(value)),
                None => Some(value),
            },
        ),
        ComparisonOp::Equal => (Some(value), Some(value)),
        ComparisonOp::NotEqual => bounds,
    }
}

/// The bounds that conditions set on the song length, from `start` on.
pub open spec fn length_asked(
    clauses: Seq<ClauseView>,
    start: (Option<Single>, Option<Single>),
) -> (Option<Single>, Option<Single>)
    decreases clauses.len(),
{
    if clauses.len() == 0 {
        start
    } else {
        let earlier = length_asked(clauses.drop_last(), start);
        match clauses.last() {
            ClauseView::Numeric { field: NumericField::Length, op, value } => length_bounded(
                earlier,
                op,
                value,
            ),
            _ => earlier,
        }
    }
}

/// A bound in a length box.
pub open spec fn bound_text(bound: Option<Single>) -> Seq<char> {
    match bound {
        Some(bound) => short_number(bound),
        None => Seq::empty(),
    }
}

/// The text that the last `=` condition on it asks for, else `start`.
pub open spec fn text_asked(
    clauses: Seq<ClauseView>,
    field: TextField,
    start: Seq<char>,
) -> Seq<char>
    decreases clauses.len(),
{
    if clauses.len() == 0 {
        start
    } else {
        match clauses.last() {
            ClauseView::Text { field: f, op: ComparisonOp::Equal, value } if f == field => value,
            _ => text_asked(clauses.drop_last(), field, start),
        }
    }
}

/// The choice for the number of a mode.
pub open spec fn mode_choice(mode: u8) -> ModeFilter {
    if mode == 0 {
        ModeFilter::Osu
    } else if mode == 1 {
        ModeFilter::Taiko
    } else if mode == 2 {
        ModeFilter::Catch
    } else if mode == 3 {
        ModeFilter::Mania
    } else {
        ModeFilter::Any
    }
}

/// The mode that the last `=` condition on it asks for, else `start`.
pub open spec fn mode_asked(clauses: Seq<ClauseView>, start: ModeFilter) -> ModeFilter
    decreases clauses.len(),
{
    if clauses.len() == 0 {
        start
    } else {
        match clauses.last() {
            ClauseView::Mode { op: ComparisonOp::Equal, target_mode } => mode_choice(target_mode),
            _ => mode_asked(clauses.drop_last(), start),
        }
    }
}

impl FiltersView {
    /// The state after the search text was written from the controls.
    pub open spec fn written(self) -> FiltersView {
        FiltersView { query_text: self.search_text(), search: None, ..self }
    }

    /// The state with the controls set from conditions.
    pub open spec fn set_from(self, clauses: Seq<ClauseView>) -> FiltersView {
        let length = length_asked(clauses, (None, None));
        FiltersView {
            artist: text_asked(clauses, TextField::Artist, Seq::empty()),
            title: text_asked(clauses, TextField::Title, Seq::empty()),
            mapper: text_asked(clauses, TextField::Creator, Seq::empty()),
            difficulty: text_asked(clauses, TextField::Difficulty, Seq::empty()),
            tag: text_asked(clauses, TextField::Tag, Seq::empty()),
            length_min: bound_text(length.0),
            length_max: bound_text(length.1),
            stars: range_asked(clauses, NumericField::Stars, bounds(STARS_RANGE), self.stars),
            ar: range_asked(clauses, NumericField::Ar, bounds(AR_RANGE), self.ar),
            cs: range_asked(clauses, NumericField::Cs, bounds(CS_RANGE), self.cs),
            od: range_asked(clauses, NumericField::Od, bounds(OD_RANGE), self.od),
            hp: range_asked(clauses, NumericField::Hp, bounds(HP_RANGE), self.hp),
            bpm: range_asked(clauses, NumericField::Bpm, bounds(BPM_RANGE), self.bpm),
            mode: mode_asked(clauses, ModeFilter::Any),
            query_text: self.query_text,
            search: self.search,
        }
    }

    /// The state after the controls were set from the search text. A blank
    /// text goes back to the filters to begin with.
    pub open spec fn synchronized(self) -> FiltersView {
        let text = trim(self.query_text);
        if text.len() == 0 {
            FiltersView { query_text: Seq::empty(), ..FiltersView::full() }
        } else {
            FiltersView {
                search: Some(SearchView { raw: text, conditions: clauses_of(text) }),
                ..self.set_from(clauses_of(text))
            }
        }
    }
}

fn find_bounds(clauses: &Vec<QueryClause>, field: NumericField, full: (Single, Single)) -> (res: (
    Option<(Single, Single)>
))
    ensures
        match res {
            Some(found) => mentions(clause_views(clauses@), field) && found == bounds_asked(
                clause_views(clauses@),
                field,
                full,
            ),
            None => !mentions(clause_views(clauses@), field),
        },
{
    let ghost all = clause_views(clauses@);
    let mut min = full.0;
    let mut max = full.1;
    let mut found = false;
    let mut i: usize = 0;
    while i < clauses.len()
        invariant
            i <= clauses@.len(),
            all == clause_views(clauses@),
            (min, max) == bounds_asked(all.take(i as int), field, full),
            found == (exists|j: int| 0 <= j < i && about(#[trigger] all[j], field)),
        decreases clauses@.len() - i,
    {
        assert(all[i as int] == clauses@[i as int]@);
        assert(all.take(i + 1).drop_last() == all.take(i as int));
        assert(all.take(i + 1).last() == all[i as int]);
        if let QueryClause::Numeric { field: f, op, value } = &clauses[i] {
            if *f == field {
                assert(about(all[i as int], field));
                found = true;
                match op {
                    ComparisonOp::GreaterThan | ComparisonOp::GreaterThanOrEqual => {
                        min = min.max(*value);
                    },
                    ComparisonOp::LessThan | ComparisonOp::LessThanOrEqual => {
                        max = max.min(*value);
                    },
                    ComparisonOp::Equal => {
                        min = *value;
                        max = *value;
                    },
                    ComparisonOp::NotEqual => {},
                }
            }
        }
        i = i + 1;
    }
    assert(all.take(all.len() as int) == all);
    if found {
        Some((min, max))
    } else {
        None
    }
}

fn read_range(
    clauses: &Vec<QueryClause>,
    field: NumericField,
    full: (i64, i64),
    before: RangeFilter,
) -> (res: RangeFilter)
    ensures
        res == range_asked(clause_views(clauses@), field, bounds(full), before),
{
    let full = full_bounds(full);
    match find_bounds(clauses, field, full) {
        Some((min, max)) => RangeFilter {
            enabled: true,
            min: min.clamp(full.0, full.1),
            max: max.clamp(full.0, full.1),
        },
        None => RangeFilter { enabled: false, min: before.min, max: before.max },
    }
}

fn read_length(clauses: &Vec<QueryClause>) -> (res: (Option<Single>, Option<Single>))
    ensures
        res == length_asked(clause_views(clauses@), (None, None)),
{
    let ghost all = clause_views(clauses@);
    let mut min: Option<Single> = None;
    let mut max: Option<Single> = None;
    let mut i: usize = 0;
    while i < clauses.len()
        invariant
            i <= clauses@.len(),
            all == clause_views(clauses@),
            (min, max) == length_asked(all.take(i as int), (None, None)),
        decreases clauses@.len() - i,
    {
        assert(all[i as int] == clauses@[i as int]@);
        assert(all.take(i + 1).drop_last() == all.take(i as int));
        assert(all.take(i + 1).last() == all[i as int]);
        if let QueryClause::Numeric { field: NumericField::Length, op, value } = &clauses[i] {
            match op {
                ComparisonOp::GreaterThan | ComparisonOp::GreaterThanOrEqual => {
                    min = match min {
                        Some(min) => Some(min.max(*value)),
                        None => Some(*value),
                    };
                },
                ComparisonOp::LessThan | ComparisonOp::LessThanOrEqual => {
                    max = match max {
                        Some(max) => Some(max.min(*value)),
                        None => Some(*value),
                    };
                },
                ComparisonOp::Equal => {
                    min = Some(*value);
                    max = Some(*value);
                },
                ComparisonOp::NotEqual => {},
            }
        }
        i = i + 1;
    }
    assert(all.take(all.len() as int) == all);
    (min, max)
}

fn write_bound(bound: Option<Single>) -> (res: String)
    ensures
        res@ == bound_text(bound),
{
    match bound {
        Some(bound) => trim_number(bound),
        None => String::new(),
    }
}

fn read_text(clauses: &Vec<QueryClause>, field: TextField) -> (res: String)
    ensures
        res@ == text_asked(clause_views(clauses@), field, Seq::empty()),
{
    let ghost all = clause_views(clauses@);
    let mut text = String::new();
    let mut i: usize = 0;
    while i < clauses.len()
        invariant
            i <= clauses@.len(),
            all == clause_views(clauses@),
            text@ == text_asked(all.take(i as int), field, Seq::empty()),
        decreases clauses@.len() - i,
    {
        assert(all[i as int] == clauses@[i as int]@);
        assert(all.take(i + 1).drop_last() == all.take(i as int));
        assert(all.take(i + 1).last() == all[i as int]);
        if let QueryClause::Text { field: f, op, value } = &clauses[i] {
            if *op == ComparisonOp::Equal && *f == field {
                text = value.clone();
            }
        }
        i = i + 1;
    }
    assert(all.take(all.len() as int) == all);
    text
}

fn read_mode_choice(clauses: &Vec<QueryClause>) -> (res: ModeFilter)
    ensures
        res == mode_asked(clause_views(clauses@), ModeFilter::Any),
{
    let ghost all = clause_views(clauses@);
    let mut mode = ModeFilter::Any;
    let mut i: usize = 0;
    while i < clauses.len()
        invariant
            i <= clauses@.len(),
            all == clause_views(clauses@),
            mode == mode_asked(all.take(i as int), ModeFilter::Any),
        decreases clauses@.len() - i,
    {
        assert(all[i as int] == clauses@[i as int]@);
        assert(all.take(i + 1).drop_last() == all.take(i as int));
        assert(all.take(i + 1).last() == all[i as int]);
        if let QueryClause::Mode { op, target_mode } = &clauses[i] {
            if *op == ComparisonOp::Equal {
                mode = match *target_mode {
                    0 => ModeFilter::Osu,
                    1 => ModeFilter::Taiko,
                    2 => ModeFilter::Catch,
                    3 => ModeFilter::Mania,
                    _ => ModeFilter::Any,
                };
            }
        }
        i = i + 1;
    }
    assert(all.take(all.len() as int) == all);
    mode
}

impl BeatmapFilters {
    /// Sets the controls from the typed search text.
    pub fn sync_ui_from_query_text(&mut self)
        ensures
            final(self)@ == old(self)@.synchronized(),
    {
        let typed = trimmed(self.query_text.as_str());
        if typed.len() == 0 {
            self.clear_all();
            self.query_text = String::new();
            assert(self@ =~= old(self)@.synchronized());
            return;
        }
        let parsed = parse_osu_query(string_of(&typed).as_str());
        let clauses = &parsed.clauses;
        self.artist = read_text(clauses, TextField::Artist);
        self.title = read_text(clauses, TextField::Title);
        self.mapper = read_text(clauses, TextField::Creator);
        self.difficulty = read_text(clauses, TextField::Difficulty);
        self.tag = read_text(clauses, TextField::Tag);
        self.stars = read_range(clauses, NumericField::Stars, STARS_RANGE, self.stars);
        self.ar = read_range(clauses, NumericField::Ar, AR_RANGE, self.ar);
        self.cs = read_range(clauses, NumericField::Cs, CS_RANGE, self.cs);
        self.od = read_range(clauses, NumericField::Od, OD_RANGE, self.od);
        self.hp = read_range(clauses, NumericField::Hp, HP_RANGE, self.hp);
        self.bpm = read_range(clauses, NumericField::Bpm, BPM_RANGE, self.bpm);
        let (min, max) = read_length(clauses);
        self.length_min = write_bound(min);
        self.length_max = write_bound(max);
        self.mode = read_mode_choice(clauses);
        self.parsed_query = Some(parsed);
        assert(self@ =~= old(self)@.synchronized());
    }
}

} // verus!
