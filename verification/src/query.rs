//! The search syntax of osu!: words, quoted texts and `key<operator>value`
//! conditions such as
//! `artist="LiSA" stars>=5.5 length<=2:30 mode=osu status=ranked`.

use crate::decimal::{integer_within, natural_within, read_i64, read_u8};
use crate::local::LocalBeatmap;
use crate::numeral::{nearest_decimal, read_single, single_of_text};
use crate::outside::{lowercase, to_lowercase};
use crate::single::{nearest_integer, Single};
use crate::text::{
    ascii_lower, ascii_lower_slice, chars_of, contains_char, contains_slice, contains_text,
    equals_str, find, find_slice, first_at, is_alphanumeric, is_white_space, split, split_slice,
    string_of, string_texts, texts, trim, trim_both, trim_both_slice, trim_slice, white_space,
    CharClass,
};
use vstd::prelude::*;

pub use crate::filters::{
    BeatmapFilters, LoweredTextQueries, RangeFilter, AR_RANGE, BPM_RANGE, CS_RANGE, HP_RANGE,
    OD_RANGE, STARS_RANGE,
};

verus! {

// ---------------------------------------------------------------------------
// Conditions
// ---------------------------------------------------------------------------

/// The game mode that a filter asks for.
#[derive(Debug, Clone, Copy, PartialEq, Eq, Structural)]
pub enum ModeFilter {
    /// osu!standard, the default.
    Osu,
    Any,
    Taiko,
    Catch,
    Mania,
}

/// The comparisons of the search syntax.
#[derive(Debug, Clone, Copy, PartialEq, Eq, Structural)]
pub enum ComparisonOp {
    /// `=`, `==` or `:`
    Equal,
    /// `!=`
    NotEqual,
    /// `>`
    GreaterThan,
    /// `>=`
    GreaterThanOrEqual,
    /// `<`
    LessThan,
    /// `<=`
    LessThanOrEqual,
}

/// The numbers of a map that can be searched for.
#[derive(Debug, Clone, Copy, PartialEq, Eq, Structural)]
pub enum NumericField {
    Stars,
    Ar,
    Cs,
    Od,
    Hp,
    Bpm,
    Length,
    Circles,
    Sliders,
    Keys,
}

/// The texts of a map that can be searched for.
#[derive(Debug, Clone, Copy, PartialEq, Eq, Structural)]
pub enum TextField {
    Artist,
    Title,
    Creator,
    Difficulty,
    Source,
    Tag,
}

/// The ranked statuses that can be searched for.
#[derive(Debug, Clone, Copy, PartialEq, Eq, Structural)]
pub enum StatusTarget {
    Ranked,
    Approved,
    Qualified,
    Loved,
    Pending,
    Graveyard,
    Specific(u8),
}

/// Texts are compared by their small letters: whether those of `haystack`
/// hold `needle`.
pub open spec fn has_lowered(haystack: Seq<char>, needle: Seq<char>) -> bool {
    needle.len() == 0 || contains_text(lowercase(haystack), needle)
}

/// Whether the small letters of `haystack` hold `needle_lower`.
pub fn contains_lowered(haystack: &str, needle_lower: &str) -> (res: bool)
    ensures
        res == has_lowered(haystack@, needle_lower@),
{
    let needle = chars_of(needle_lower);
    if needle.len() == 0 {
        return true;
    }
    let lowered = to_lowercase(haystack);
    contains_slice(&chars_of(lowered.as_str()), &needle)
}

impl ModeFilter {
    /// All choices, in the order in which they are offered.
    pub const ALL: [ModeFilter; 5] = [
        ModeFilter::Osu,
        ModeFilter::Any,
        ModeFilter::Taiko,
        ModeFilter::Catch,
        ModeFilter::Mania,
    ];

    pub open spec fn label_text(self) -> Seq<char> {
        match self {
            ModeFilter::Osu => "osu! (standard)"@,
            ModeFilter::Any => "Any mode"@,
            ModeFilter::Taiko => "taiko"@,
            ModeFilter::Catch => "catch"@,
            ModeFilter::Mania => "mania"@,
        }
    }

    /// The name under which the choice is offered.
    pub fn label(self) -> (res: &'static str)
        ensures
            res@ == self.label_text(),
    {
        match self {
            ModeFilter::Osu => "osu! (standard)",
            ModeFilter::Any => "Any mode",
            ModeFilter::Taiko => "taiko",
            ModeFilter::Catch => "catch",
            ModeFilter::Mania => "mania",
        }
    }

    pub open spec fn token_text(self) -> Option<Seq<char>> {
        match self {
            ModeFilter::Osu => Some("osu"@),
            ModeFilter::Any => None,
            ModeFilter::Taiko => Some("taiko"@),
            ModeFilter::Catch => Some("catch"@),
            ModeFilter::Mania => Some("mania"@),
        }
    }

    /// The name of the mode in the search syntax; none for any mode.
    pub fn token(self) -> (res: Option<&'static str>)
        ensures
            match res {
                Some(token) => self.token_text() == Some(token@),
                None => self.token_text() is None,
            },
    {
        match self {
            ModeFilter::Osu => Some("osu"),
            ModeFilter::Any => None,
            ModeFilter::Taiko => Some("taiko"),
            ModeFilter::Catch => Some("catch"),
            ModeFilter::Mania => Some("mania"),
        }
    }

    /// Whether a map of the given mode is asked for. A map without a mode is
    /// an osu!standard map.
    pub open spec fn admits(self, mode: Option<u8>) -> bool {
        match self {
            ModeFilter::Any => true,
            ModeFilter::Osu => mode is None || mode == Some(0u8),
            ModeFilter::Taiko => mode == Some(1u8),
            ModeFilter::Catch => mode == Some(2u8),
            ModeFilter::Mania => mode == Some(3u8),
        }
    }

    pub fn matches(self, mode: Option<u8>) -> (res: bool)
        ensures
            res == self.admits(mode),
    {
        match self {
            ModeFilter::Any => true,
            ModeFilter::Osu => match mode {
                Some(mode) => mode == 0,
                None => true,
            },
            ModeFilter::Taiko => mode == Some(1),
            ModeFilter::Catch => mode == Some(2),
            ModeFilter::Mania => mode == Some(3),
        }
    }
}

impl Default for ModeFilter {
    fn default() -> (res: Self)
        ensures
            res == ModeFilter::Osu,
    {
        ModeFilter::Osu
    }
}

/// Numbers closer than 0.05 count as equal.
pub open spec fn equality_tolerance() -> Single {
    nearest_decimal(false, 5, -2)
}

/// The inclusive bounds are widened by 0.001.
pub open spec fn bound_tolerance() -> Single {
    nearest_decimal(false, 1, -3)
}

/// The bits of the two tolerances.
pub proof fn lemma_tolerances()
    ensures
        equality_tolerance().bits == 0x3d4c_cccd,
        bound_tolerance().bits == 0x3a83_126f,
{
    reveal_with_fuel(crate::natural::power, 34);
    let one = crate::natural::power(2, 149);
    crate::natural::lemma_power_add(2, 28, 121);
    crate::natural::lemma_power_add(2, 33, 116);
    let a = crate::natural::power(2, 121);
    let b = crate::natural::power(2, 116);
    assert(5 * 1 * one == 1342177280 * a) by (nonlinear_arith)
        requires
            one == 0x1000_0000 * a,
    ;
    assert(1 * 1 * one == 0x2_0000_0000 * b) by (nonlinear_arith)
        requires
            one == 0x2_0000_0000 * b,
    ;
    crate::rounding::lemma_nearest_normal(1342177280, 100, 121);
    crate::rounding::lemma_nearest_normal(0x2_0000_0000, 1000, 116);
}

impl ComparisonOp {
    /// What the comparison says of two numbers.
    pub open spec fn holds(self, actual: Single, target: Single) -> bool {
        match self {
            ComparisonOp::Equal => actual.difference(target).absolute().below(equality_tolerance()),
            ComparisonOp::NotEqual => equality_tolerance().at_most(
                actual.difference(target).absolute(),
            ),
            ComparisonOp::GreaterThan => target.below(actual),
            ComparisonOp::GreaterThanOrEqual => target.difference(bound_tolerance()).at_most(actual),
            ComparisonOp::LessThan => actual.below(target),
            ComparisonOp::LessThanOrEqual => actual.at_most(target.sum(bound_tolerance())),
        }
    }

    /// Compares two numbers, allowing for rounding.
    pub fn compare_f32(self, actual: Single, target: Single) -> (res: bool)
        ensures
            res == self.holds(actual, target),
    {
        proof {
            lemma_tolerances();
        }
        let tolerance = Single { bits: 0x3d4c_cccd };
        let slack = Single { bits: 0x3a83_126f };
        assert(tolerance == equality_tolerance());
        assert(slack == bound_tolerance());
        match self {
            ComparisonOp::Equal => actual.minus(target).abs().is_below(tolerance),
            ComparisonOp::NotEqual => tolerance.is_at_most(actual.minus(target).abs()),
            ComparisonOp::GreaterThan => target.is_below(actual),
            ComparisonOp::GreaterThanOrEqual => target.minus(slack).is_at_most(actual),
            ComparisonOp::LessThan => actual.is_below(target),
            ComparisonOp::LessThanOrEqual => actual.is_at_most(target.plus(slack)),
        }
    }

    /// What the comparison says of a text and small letters to look for:
    /// `!=` asks that they do not occur, any other comparison that they do.
    pub open spec fn holds_of_text(self, haystack: Seq<char>, needle: Seq<char>) -> bool {
        (self is NotEqual) != has_lowered(haystack, needle)
    }

    pub fn compare_str(self, haystack: &str, needle_lower: &str) -> (res: bool)
        ensures
            res == self.holds_of_text(haystack@, needle_lower@),
    {
        let contains = contains_lowered(haystack, needle_lower);
        match self {
            ComparisonOp::NotEqual => !contains,
            _ => contains,
        }
    }
}

impl StatusTarget {
    /// Whether the target stands for a status number of the game.
    pub open spec fn covers(self, actual: u8) -> bool {
        match self {
            StatusTarget::Ranked => actual == 4 || actual == 5,
            StatusTarget::Approved => actual == 5,
            StatusTarget::Qualified => actual == 6,
            StatusTarget::Loved => actual == 7,
            StatusTarget::Pending => actual == 2,
            StatusTarget::Graveyard => actual == 2,
            StatusTarget::Specific(s) => actual == s,
        }
    }

    pub fn matches(&self, actual: u8) -> (res: bool)
        ensures
            res == self.covers(actual),
    {
        match self {
            StatusTarget::Ranked => actual == 4 || actual == 5,
            StatusTarget::Approved => actual == 5,
            StatusTarget::Qualified => actual == 6,
            StatusTarget::Loved => actual == 7,
            StatusTarget::Pending => actual == 2,
            StatusTarget::Graveyard => actual == 2,
            StatusTarget::Specific(s) => actual == *s,
        }
    }
}

impl NumericField {
    /// The number of a map, where it is known. Only mania maps have keys.
    pub open spec fn of(self, map: LocalBeatmap) -> Option<Single> {
        match self {
            NumericField::Stars => map.stars,
            NumericField::Ar => map.ar,
            NumericField::Cs => map.cs,
            NumericField::Od => map.od,
            NumericField::Hp => map.hp,
            NumericField::Bpm => map.bpm,
            NumericField::Length => map.length_seconds,
            NumericField::Circles => Some(nearest_integer(map.circles as int)),
            NumericField::Sliders => Some(nearest_integer(map.sliders as int)),
            NumericField::Keys => if map.mode == Some(3u8) {
                map.cs
            } else {
                None
            },
        }
    }

    fn read(self, map: &LocalBeatmap) -> (res: Option<Single>)
        ensures
            res == self.of(*map),
    {
        match self {
            NumericField::Stars => map.stars,
            NumericField::Ar => map.ar,
            NumericField::Cs => map.cs,
            NumericField::Od => map.od,
            NumericField::Hp => map.hp,
            NumericField::Bpm => map.bpm,
            NumericField::Length => map.length_seconds,
            NumericField::Circles => Some(Single::from_integer(map.circles as i64)),
            NumericField::Sliders => Some(Single::from_integer(map.sliders as i64)),
            NumericField::Keys => {
                if map.mode == Some(3) {
                    map.cs
                } else {
                    None
                }
            },
        }
    }
}

impl TextField {
    /// The text of a map.
    pub open spec fn of(self, map: LocalBeatmap) -> Seq<char> {
        match self {
            TextField::Artist => map.artist@,
            TextField::Title => map.title@,
            TextField::Creator => map.creator@,
            TextField::Difficulty => map.version@,
            TextField::Source => map.source@,
            TextField::Tag => map.tags@,
        }
    }

    fn read(self, map: &LocalBeatmap) -> (res: &str)
        ensures
            res@ == self.of(*map),
    {
        match self {
            TextField::Artist => map.artist.as_str(),
            TextField::Title => map.title.as_str(),
            TextField::Creator => map.creator.as_str(),
            TextField::Difficulty => map.version.as_str(),
            TextField::Source => map.source.as_str(),
            TextField::Tag => map.tags.as_str(),
        }
    }
}

// ---------------------------------------------------------------------------
// Clauses
// ---------------------------------------------------------------------------

/// One condition of a search.
#[derive(Debug, PartialEq)]
#[allow(inconsistent_fields)]
pub enum QueryClause {
    Numeric { field: NumericField, op: ComparisonOp, value: Single },
    Text { field: TextField, op: ComparisonOp, value: String },
    Mode { op: ComparisonOp, target_mode: u8 },
    Status { op: ComparisonOp, target: StatusTarget },
    Unkeyed { negated: bool, text: String, numeric_id: Option<i64> },
}

/// What a clause says, with its texts as sequences of characters.
#[verifier::ext_equal]
#[allow(inconsistent_fields)]
pub enum ClauseView {
    Numeric { field: NumericField, op: ComparisonOp, value: Single },
    Text { field: TextField, op: ComparisonOp, value: Seq<char> },
    Mode { op: ComparisonOp, target_mode: u8 },
    Status { op: ComparisonOp, target: StatusTarget },
    Unkeyed { negated: bool, text: Seq<char>, numeric_id: Option<i64> },
}

impl View for QueryClause {
    type V = ClauseView;

    open spec fn view(&self) -> ClauseView {
        match *self {
            QueryClause::Numeric { field, op, value } => ClauseView::Numeric { field, op, value },
            QueryClause::Text { field, op, value } => ClauseView::Text { field, op, value: value@ },
            QueryClause::Mode { op, target_mode } => ClauseView::Mode { op, target_mode },
            QueryClause::Status { op, target } => ClauseView::Status { op, target },
            QueryClause::Unkeyed { negated, text, numeric_id } => ClauseView::Unkeyed {
                negated,
                text: text@,
                numeric_id,
            },
        }
    }
}

/// Whether small letters occur in any text of a map.
pub open spec fn some_text_has(map: LocalBeatmap, needle: Seq<char>) -> bool {
    ||| has_lowered(map.artist@, needle)
    ||| has_lowered(map.title@, needle)
    ||| has_lowered(map.creator@, needle)
    ||| has_lowered(map.version@, needle)
    ||| has_lowered(map.source@, needle)
    ||| has_lowered(map.tags@, needle)
}

/// Whether a number is the id of a map or of its set.
pub open spec fn has_id(map: LocalBeatmap, id: Option<i64>) -> bool {
    id is Some && (map.beatmap_id == id || map.beatmapset_id == id)
}

/// The mode of a map; a map without one is an osu!standard map.
pub open spec fn mode_of(map: LocalBeatmap) -> u8 {
    match map.mode {
        Some(mode) => mode,
        None => 0,
    }
}

impl ClauseView {
    /// Whether a map meets the condition. An unknown number or status meets
    /// none.
    pub open spec fn admits(self, map: LocalBeatmap) -> bool {
        match self {
            ClauseView::Numeric { field, op, value } => match field.of(map) {
                Some(actual) => op.holds(actual, value),
                None => false,
            },
            ClauseView::Text { field, op, value } => op.holds_of_text(field.of(map), value),
            ClauseView::Mode { op, target_mode } => (op is NotEqual) != (mode_of(map)
                == target_mode),
            ClauseView::Status { op, target } => match map.ranked_status {
                Some(actual) => (op is NotEqual) != target.covers(actual),
                None => false,
            },
            ClauseView::Unkeyed { negated, text, numeric_id } => negated != (some_text_has(map, text)
                || has_id(map, numeric_id)),
        }
    }
}

impl Clone for QueryClause {
    fn clone(&self) -> (res: Self)
        ensures
            res == *self,
    {
        match self {
            QueryClause::Numeric { field, op, value } => QueryClause::Numeric {
                field: *field,
                op: *op,
                value: *value,
            },
            QueryClause::Text { field, op, value } => QueryClause::Text {
                field: *field,
                op: *op,
                value: value.clone(),
            },
            QueryClause::Mode { op, target_mode } => QueryClause::Mode {
                op: *op,
                target_mode: *target_mode,
            },
            QueryClause::Status { op, target } => QueryClause::Status { op: *op, target: *target },
            QueryClause::Unkeyed { negated, text, numeric_id } => QueryClause::Unkeyed {
                negated: *negated,
                text: text.clone(),
                numeric_id: *numeric_id,
            },
        }
    }
}

impl QueryClause {
    /// Whether a map meets the condition.
    pub fn matches(&self, map: &LocalBeatmap) -> (res: bool)
        ensures
            res == self@.admits(*map),
    {
        match self {
            QueryClause::Numeric { field, op, value } => {
                let actual = match field.read(map) {
                    Some(actual) => actual,
                    None => {
                        return false;
                    },
                };
                op.compare_f32(actual, *value)
            },
            QueryClause::Text { field, op, value } => {
                op.compare_str(field.read(map), value.as_str())
            },
            QueryClause::Mode { op, target_mode } => {
                let actual: u8 = match map.mode {
                    Some(mode) => mode,
                    None => 0,
                };
                match op {
                    ComparisonOp::NotEqual => actual != *target_mode,
                    _ => actual == *target_mode,
                }
            },
            QueryClause::Status { op, target } => {
                let actual: u8 = match map.ranked_status {
                    Some(actual) => actual,
                    None => {
                        return false;
                    },
                };
                let matches = target.matches(actual);
                match op {
                    ComparisonOp::NotEqual => !matches,
                    _ => matches,
                }
            },
            QueryClause::Unkeyed { negated, text, numeric_id } => {
                let needle = text.as_str();
                let text_match = contains_lowered(map.artist.as_str(), needle) || contains_lowered(
                    map.title.as_str(),
                    needle,
                ) || contains_lowered(map.creator.as_str(), needle) || contains_lowered(
                    map.version.as_str(),
                    needle,
                ) || contains_lowered(map.source.as_str(), needle) || contains_lowered(
                    map.tags.as_str(),
                    needle,
                );
                let id_match = match numeric_id {
                    Some(id) => map.beatmap_id == Some(*id) || map.beatmapset_id == Some(*id),
                    None => false,
                };
                let positive_match = text_match || id_match;
                if *negated {
                    !positive_match
                } else {
                    positive_match
                }
            },
        }
    }
}

/// What the clauses of a search say.
pub open spec fn clause_views(clauses: Seq<QueryClause>) -> Seq<ClauseView> {
    clauses.map_values(|clause: QueryClause| clause@)
}

/// Whether a map meets every condition.
pub open spec fn all_admit(clauses: Seq<ClauseView>, map: LocalBeatmap) -> bool {
    forall|i: int| 0 <= i < clauses.len() ==> (#[trigger] clauses[i]).admits(map)
}

/// A search with all its conditions.
#[derive(Debug, PartialEq)]
pub struct ParsedOsuQuery {
    pub raw: String,
    pub clauses: Vec<QueryClause>,
}

impl Default for ParsedOsuQuery {
    fn default() -> (res: Self)
        ensures
            res.raw@ == Seq::<char>::empty(),
            res.clauses@ == Seq::<QueryClause>::empty(),
    {
        ParsedOsuQuery { raw: String::new(), clauses: Vec::new() }
    }
}

impl Clone for ParsedOsuQuery {
    fn clone(&self) -> (res: Self)
        ensures
            res.raw == self.raw,
            res.clauses@ == self.clauses@,
    {
        let mut clauses: Vec<QueryClause> = Vec::new();
        let mut i: usize = 0;
        while i < self.clauses.len()
            invariant
                i <= self.clauses@.len(),
                clauses@ == self.clauses@.take(i as int),
            decreases self.clauses@.len() - i,
        {
            clauses.push(self.clauses[i].clone());
            i = i + 1;
        }
        ParsedOsuQuery { raw: self.raw.clone(), clauses }
    }
}

impl ParsedOsuQuery {
    /// What the conditions of the search say.
    pub open spec fn conditions(self) -> Seq<ClauseView> {
        clause_views(self.clauses@)
    }

    pub fn is_empty(&self) -> (res: bool)
        ensures
            res == (self.conditions().len() == 0),
    {
        self.clauses.len() == 0
    }

    /// Whether a map meets every condition of the search.
    pub fn matches(&self, map: &LocalBeatmap) -> (res: bool)
        ensures
            res == all_admit(self.conditions(), *map),
    {
        let mut i: usize = 0;
        while i < self.clauses.len()
            invariant
                i <= self.clauses@.len(),
                forall|j: int| 0 <= j < i ==> (#[trigger] self.conditions()[j]).admits(*map),
            decreases self.clauses@.len() - i,
        {
            assert(self.conditions()[i as int] == self.clauses@[i as int]@);
            if !self.clauses[i].matches(map) {
                return false;
            }
            i = i + 1;
        }
        true
    }
}

// ---------------------------------------------------------------------------
// Tokens
// ---------------------------------------------------------------------------

/// The token that a piece of text ends with: the piece without white space
/// around it, or nothing where no more than white space is left.
pub open spec fn flushed(current: Seq<char>) -> Seq<Seq<char>> {
    if trim(current).len() > 0 {
        seq![trim(current)]
    } else {
        Seq::empty()
    }
}

/// The tokens of the rest of a search, behind the start of a token. White
/// space separates tokens outside quotation marks; inside them a backslash
/// takes away the meaning of a quotation mark or of another backslash.
pub open spec fn tokens_from(rest: Seq<char>, current: Seq<char>, quoted: bool) -> Seq<Seq<char>>
    decreases rest.len(),
{
    if rest.len() == 0 {
        flushed(current)
    } else if rest[0] == '\\' && quoted {
        if rest.len() > 1 && (rest[1] == '"' || rest[1] == '\\') {
            tokens_from(rest.skip(2), current.push(rest[1]), quoted)
        } else {
            tokens_from(rest.skip(1), current.push('\\'), quoted)
        }
    } else if rest[0] == '"' {
        tokens_from(rest.skip(1), current, !quoted)
    } else if is_white_space(rest[0]) && !quoted {
        flushed(current) + tokens_from(rest.skip(1), Seq::empty(), quoted)
    } else {
        tokens_from(rest.skip(1), current.push(rest[0]), quoted)
    }
}

/// The tokens of a search.
pub open spec fn tokens_of(input: Seq<char>) -> Seq<Seq<char>> {
    tokens_from(input, Seq::empty(), false)
}

fn flush_token(tokens: &mut Vec<String>, current: &Vec<char>)
    ensures
        string_texts(final(tokens)@) == string_texts(old(tokens)@) + flushed(current@),
{
    let token = trim_slice(current.as_slice());
    if token.len() > 0 {
        let ghost before = tokens@;
        tokens.push(string_of(token));
        assert(string_texts(tokens@) =~= string_texts(before) + flushed(current@));
    }
}

/// Takes a search apart into tokens, keeping quoted parts together.
pub fn tokenize_query(input: &str) -> (res: Vec<String>)
    ensures
        string_texts(res@) == tokens_of(input@),
{
    let chars = chars_of(input);
    let mut tokens: Vec<String> = Vec::new();
    let mut current: Vec<char> = Vec::new();
    let mut in_quotes = false;
    let mut i: usize = 0;
    assert(chars@.skip(0) == chars@);
    assert(string_texts(tokens@) + tokens_of(chars@) =~= tokens_of(chars@));
    while i < chars.len()
        invariant
            i <= chars@.len(),
            string_texts(tokens@) + tokens_from(chars@.skip(i as int), current@, in_quotes)
                == tokens_of(chars@),
        decreases chars@.len() - i,
    {
        let ch = chars[i];
        let ghost rest = chars@.skip(i as int);
        let ghost before = string_texts(tokens@);
        assert(rest[0] == ch);
        assert(rest.skip(1) == chars@.skip(i + 1));
        if ch == '\\' && in_quotes {
            if i + 1 < chars.len() && (chars[i + 1] == '"' || chars[i + 1] == '\\') {
                assert(rest[1] == chars@[i + 1]);
                assert(rest.skip(2) == chars@.skip(i + 2));
                current.push(chars[i + 1]);
                i = i + 2;
            } else {
                current.push('\\');
                i = i + 1;
            }
        } else if ch == '"' {
            in_quotes = !in_quotes;
            i = i + 1;
        } else if white_space(ch) && !in_quotes {
            flush_token(&mut tokens, &current);
            proof {
                let later = tokens_from(rest.skip(1), Seq::empty(), false);
                assert(before + (flushed(current@) + later) =~= before + flushed(current@) + later);
            }
            current = Vec::new();
            i = i + 1;
        } else {
            current.push(ch);
            i = i + 1;
        }
    }
    flush_token(&mut tokens, &current);
    tokens
}

// ---------------------------------------------------------------------------
// Reading clauses
// ---------------------------------------------------------------------------

/// Whether a text can be the key of a condition.
pub open spec fn is_key(s: Seq<char>) -> bool {
    s.len() > 0 && forall|i: int| 0 <= i < s.len() ==> is_alphanumeric(#[trigger] s[i]) || s[i] == '_'
}

/// A token taken apart at the first place of an operator, where a key stands
/// before it.
pub open spec fn split_at_operator(token: Seq<char>, symbol: Seq<char>, op: ComparisonOp) -> Option<
    (Seq<char>, ComparisonOp, Seq<char>),
> {
    match find(token, symbol) {
        Some(pos) if is_key(token.take(pos)) => Some(
            (token.take(pos), op, token.skip(pos + symbol.len())),
        ),
        _ => None,
    }
}

/// The operators in the order in which they are looked for: a longer one
/// before those that it holds.
pub open spec fn operators() -> Seq<(Seq<char>, ComparisonOp)> {
    seq![
        (">="@, ComparisonOp::GreaterThanOrEqual),
        ("<="@, ComparisonOp::LessThanOrEqual),
        ("!="@, ComparisonOp::NotEqual),
        ("=="@, ComparisonOp::Equal),
        (">"@, ComparisonOp::GreaterThan),
        ("<"@, ComparisonOp::LessThan),
        ("="@, ComparisonOp::Equal),
        (":"@, ComparisonOp::Equal),
    ]
}

/// A token taken apart at the first of the operators from index `n` on that
/// divides it.
pub open spec fn key_op_val_from(token: Seq<char>, n: int) -> Option<
    (Seq<char>, ComparisonOp, Seq<char>),
>
    decreases operators().len() - n,
{
    if n < 0 || n >= operators().len() {
        None
    } else {
        let (symbol, op) = operators()[n];
        match split_at_operator(token, symbol, op) {
            Some(parts) => Some(parts),
            None => key_op_val_from(token, n + 1),
        }
    }
}

/// Key, operator and value of a token, where it is a condition.
pub open spec fn key_op_val(token: Seq<char>) -> Option<(Seq<char>, ComparisonOp, Seq<char>)> {
    key_op_val_from(token, 0)
}

fn key_slice(s: &[char]) -> (res: bool)
    ensures
        res == is_key(s@),
{
    let mut i: usize = 0;
    while i < s.len()
        invariant
            i <= s@.len(),
            forall|j: int| 0 <= j < i ==> is_alphanumeric(#[trigger] s@[j]) || s@[j] == '_',
        decreases s@.len() - i,
    {
        let c = s[i];
        let alphanumeric = (c >= '0' && c <= '9') || (c >= 'a' && c <= 'z') || (c >= 'A' && c
            <= 'Z');
        if !alphanumeric && c != '_' {
            assert(!(is_alphanumeric(s@[i as int]) || s@[i as int] == '_'));
            return false;
        }
        i = i + 1;
    }
    s.len() > 0
}

fn split_token<'a>(token: &'a [char], symbol: &str, op: ComparisonOp) -> (res: Option<
    (&'a [char], ComparisonOp, &'a [char]),
>)
    ensures
        match res {
            Some((key, op2, val)) => split_at_operator(token@, symbol@, op) == Some(
                (key@, op2, val@),
            ),
            None => split_at_operator(token@, symbol@, op) is None,
        },
{
    let symbol_chars = chars_of(symbol);
    match find_slice(token, &symbol_chars) {
        Some(pos) => {
            let key = &token[0..pos];
            assert(key@ == token@.take(pos as int));
            if key_slice(key) {
                let end = token.len();
                assert(first_at(token@, symbol_chars@, pos as int));
                let from = pos + symbol_chars.len();
                let val = &token[from..end];
                assert(val@ == token@.skip(from as int));
                Some((key, op, val))
            } else {
                None
            }
        },
        None => None,
    }
}

fn split_key_op_val(token: &[char]) -> (res: Option<(&[char], ComparisonOp, &[char])>)
    ensures
        match res {
            Some((key, op, val)) => key_op_val(token@) == Some((key@, op, val@)),
            None => key_op_val(token@) is None,
        },
{
    reveal_with_fuel(key_op_val_from, 9);
    if let Some(parts) = split_token(token, ">=", ComparisonOp::GreaterThanOrEqual) {
        return Some(parts);
    }
    if let Some(parts) = split_token(token, "<=", ComparisonOp::LessThanOrEqual) {
        return Some(parts);
    }
    if let Some(parts) = split_token(token, "!=", ComparisonOp::NotEqual) {
        return Some(parts);
    }
    if let Some(parts) = split_token(token, "==", ComparisonOp::Equal) {
        return Some(parts);
    }
    if let Some(parts) = split_token(token, ">", ComparisonOp::GreaterThan) {
        return Some(parts);
    }
    if let Some(parts) = split_token(token, "<", ComparisonOp::LessThan) {
        return Some(parts);
    }
    if let Some(parts) = split_token(token, "=", ComparisonOp::Equal) {
        return Some(parts);
    }
    split_token(token, ":", ComparisonOp::Equal)
}

/// A text without quotation marks around it.
pub open spec fn unquoted(s: Seq<char>) -> Seq<char> {
    trim_both(s, CharClass::Only('"'))
}

/// The number of seconds that minutes and seconds make.
pub open spec fn seconds_of(minutes: Single, seconds: Single) -> Single {
    minutes.product(nearest_integer(60)).sum(seconds)
}

/// The number that a text stands for: minutes and seconds around a colon, in
/// seconds, or a finite number.
pub open spec fn time_or_number(s: Seq<char>) -> Option<Single> {
    let t = unquoted(trim(s));
    if t.contains(':') {
        let parts = split(t, ':');
        match (single_of_text(parts[0]), single_of_text(parts[1])) {
            (Some(minutes), Some(seconds)) if parts.len() == 2 => Some(
                seconds_of(minutes, seconds),
            ),
            _ => None,
        }
    } else {
        match single_of_text(t) {
            Some(value) if value.finite() => Some(value),
            _ => None,
        }
    }
}

fn read_time_or_number(s: &[char]) -> (res: Option<Single>)
    ensures
        res == time_or_number(s@),
{
    let t = trim_both_slice(trim_slice(s), CharClass::Only('"'));
    if contains_char(t, ':') {
        let parts = split_slice(t, ':');
        proof {
            crate::text::lemma_split_nonempty(t@, ':');
            assert(texts(parts@).len() == parts@.len());
        }
        if parts.len() != 2 {
            return None;
        }
        assert(texts(parts@)[0] == parts@[0]@);
        assert(texts(parts@)[1] == parts@[1]@);
        match (read_single(&parts[0]), read_single(&parts[1])) {
            (Some(minutes), Some(seconds)) => Some(
                minutes.times(Single::from_integer(60)).plus(seconds),
            ),
            _ => None,
        }
    } else {
        match read_single(t) {
            Some(value) => if value.is_finite() {
                Some(value)
            } else {
                None
            },
            None => None,
        }
    }
}

/// Reads a number, or a time in minutes and seconds, into seconds.
pub fn parse_time_or_number(s: &str) -> (res: Option<Single>)
    ensures
        res == time_or_number(s@),
{
    read_time_or_number(&chars_of(s))
}

/// The number that a key asks for.
pub open spec fn numeric_field(key: Seq<char>) -> Option<NumericField> {
    if key == "stars"@ || key == "sr"@ || key == "star"@ {
        Some(NumericField::Stars)
    } else if key == "ar"@ {
        Some(NumericField::Ar)
    } else if key == "cs"@ {
        Some(NumericField::Cs)
    } else if key == "od"@ {
        Some(NumericField::Od)
    } else if key == "hp"@ || key == "dr"@ {
        Some(NumericField::Hp)
    } else if key == "bpm"@ {
        Some(NumericField::Bpm)
    } else if key == "length"@ || key == "drain"@ || key == "len"@ || key == "time"@ {
        Some(NumericField::Length)
    } else if key == "circles"@ || key == "circle"@ {
        Some(NumericField::Circles)
    } else if key == "sliders"@ || key == "slider"@ {
        Some(NumericField::Sliders)
    } else if key == "keys"@ || key == "key"@ {
        Some(NumericField::Keys)
    } else {
        None
    }
}

fn read_numeric_field(key: &[char]) -> (res: Option<NumericField>)
    ensures
        res == numeric_field(key@),
{
    if equals_str(key, "stars") || equals_str(key, "sr") || equals_str(key, "star") {
        Some(NumericField::Stars)
    } else if equals_str(key, "ar") {
        Some(NumericField::Ar)
    } else if equals_str(key, "cs") {
        Some(NumericField::Cs)
    } else if equals_str(key, "od") {
        Some(NumericField::Od)
    } else if equals_str(key, "hp") || equals_str(key, "dr") {
        Some(NumericField::Hp)
    } else if equals_str(key, "bpm") {
        Some(NumericField::Bpm)
    } else if equals_str(key, "length") || equals_str(key, "drain") || equals_str(key, "len")
        || equals_str(key, "time") {
        Some(NumericField::Length)
    } else if equals_str(key, "circles") || equals_str(key, "circle") {
        Some(NumericField::Circles)
    } else if equals_str(key, "sliders") || equals_str(key, "slider") {
        Some(NumericField::Sliders)
    } else if equals_str(key, "keys") || equals_str(key, "key") {
        Some(NumericField::Keys)
    } else {
        None
    }
}

/// The text that a key asks for.
pub open spec fn text_field(key: Seq<char>) -> Option<TextField> {
    if key == "artist"@ {
        Some(TextField::Artist)
    } else if key == "title"@ {
        Some(TextField::Title)
    } else if key == "creator"@ || key == "mapper"@ || key == "author"@ {
        Some(TextField::Creator)
    } else if key == "diff"@ || key == "difficulty"@ || key == "version"@ {
        Some(TextField::Difficulty)
    } else if key == "source"@ {
        Some(TextField::Source)
    } else if key == "tag"@ || key == "tags"@ {
        Some(TextField::Tag)
    } else {
        None
    }
}

fn read_text_field(key: &[char]) -> (res: Option<TextField>)
    ensures
        res == text_field(key@),
{
    if equals_str(key, "artist") {
        Some(TextField::Artist)
    } else if equals_str(key, "title") {
        Some(TextField::Title)
    } else if equals_str(key, "creator") || equals_str(key, "mapper") || equals_str(key, "author") {
        Some(TextField::Creator)
    } else if equals_str(key, "diff") || equals_str(key, "difficulty") || equals_str(
        key,
        "version",
    ) {
        Some(TextField::Difficulty)
    } else if equals_str(key, "source") {
        Some(TextField::Source)
    } else if equals_str(key, "tag") || equals_str(key, "tags") {
        Some(TextField::Tag)
    } else {
        None
    }
}

/// The number of the mode with the given name.
pub open spec fn mode_named(name: Seq<char>) -> Option<u8> {
    if name == "osu"@ || name == "std"@ || name == "standard"@ || name == "o"@ || name == "0"@ {
        Some(0)
    } else if name == "taiko"@ || name == "t"@ || name == "1"@ {
        Some(1)
    } else if name == "catch"@ || name == "ctb"@ || name == "fruits"@ || name == "c"@ || name
        == "2"@ {
        Some(2)
    } else if name == "mania"@ || name == "m"@ || name == "3"@ {
        Some(3)
    } else {
        None
    }
}

fn read_mode(name: &[char]) -> (res: Option<u8>)
    ensures
        res == mode_named(name@),
{
    if equals_str(name, "osu") || equals_str(name, "std") || equals_str(name, "standard")
        || equals_str(name, "o") || equals_str(name, "0") {
        Some(0)
    } else if equals_str(name, "taiko") || equals_str(name, "t") || equals_str(name, "1") {
        Some(1)
    } else if equals_str(name, "catch") || equals_str(name, "ctb") || equals_str(name, "fruits")
        || equals_str(name, "c") || equals_str(name, "2") {
        Some(2)
    } else if equals_str(name, "mania") || equals_str(name, "m") || equals_str(name, "3") {
        Some(3)
    } else {
        None
    }
}

/// The status with the given name or number.
pub open spec fn status_named(name: Seq<char>) -> Option<StatusTarget> {
    if name == "ranked"@ || name == "r"@ {
        Some(StatusTarget::Ranked)
    } else if name == "approved"@ || name == "a"@ {
        Some(StatusTarget::Approved)
    } else if name == "qualified"@ || name == "q"@ {
        Some(StatusTarget::Qualified)
    } else if name == "loved"@ || name == "l"@ {
        Some(StatusTarget::Loved)
    } else if name == "pending"@ || name == "w"@ || name == "wip"@ {
        Some(StatusTarget::Pending)
    } else if name == "graveyard"@ || name == "g"@ {
        Some(StatusTarget::Graveyard)
    } else {
        match natural_within(name, u8::MAX as nat) {
            Some(n) => Some(StatusTarget::Specific(n as u8)),
            None => None,
        }
    }
}

fn read_status(name: &[char]) -> (res: Option<StatusTarget>)
    ensures
        res == status_named(name@),
{
    if equals_str(name, "ranked") || equals_str(name, "r") {
        Some(StatusTarget::Ranked)
    } else if equals_str(name, "approved") || equals_str(name, "a") {
        Some(StatusTarget::Approved)
    } else if equals_str(name, "qualified") || equals_str(name, "q") {
        Some(StatusTarget::Qualified)
    } else if equals_str(name, "loved") || equals_str(name, "l") {
        Some(StatusTarget::Loved)
    } else if equals_str(name, "pending") || equals_str(name, "w") || equals_str(name, "wip") {
        Some(StatusTarget::Pending)
    } else if equals_str(name, "graveyard") || equals_str(name, "g") {
        Some(StatusTarget::Graveyard)
    } else {
        match read_u8(name) {
            Some(n) => Some(StatusTarget::Specific(n)),
            None => None,
        }
    }
}

/// The id that a text writes, if it does.
pub open spec fn id_written(s: Seq<char>) -> Option<i64> {
    match integer_within(s, i64::MIN as int, i64::MAX as int) {
        Some(n) => Some(n as i64),
        None => None,
    }
}

/// The condition of a token without a known key: its text occurs somewhere in
/// the map, or it is an id of the map. A minus before it turns this round.
pub open spec fn unkeyed(token: Seq<char>) -> ClauseView {
    let negated = token.len() > 1 && token[0] == '-';
    let text = unquoted(
        if negated {
            token.skip(1)
        } else {
            token
        },
    );
    ClauseView::Unkeyed { negated, text: lowercase(text), numeric_id: id_written(text) }
}

/// The condition that a token states; none where the key is known but the
/// value cannot be read.
pub open spec fn token_clause(token: Seq<char>) -> Option<ClauseView> {
    match key_op_val(token) {
        None => Some(unkeyed(token)),
        Some((written_key, op, quoted_value)) => {
            let key = ascii_lower(written_key);
            let val = unquoted(quoted_value);
            if let Some(field) = numeric_field(key) {
                match time_or_number(val) {
                    Some(value) => Some(ClauseView::Numeric { field, op, value }),
                    None => None,
                }
            } else if let Some(field) = text_field(key) {
                Some(ClauseView::Text { field, op, value: lowercase(val) })
            } else if key == "mode"@ || key == "m"@ {
                match mode_named(lowercase(val)) {
                    Some(target_mode) => Some(ClauseView::Mode { op, target_mode }),
                    None => None,
                }
            } else if key == "status"@ {
                match status_named(lowercase(val)) {
                    Some(target) => Some(ClauseView::Status { op, target }),
                    None => None,
                }
            } else {
                Some(unkeyed(token))
            }
        },
    }
}

/// The conditions of a list of tokens, in their order.
pub open spec fn token_clauses(tokens: Seq<Seq<char>>) -> Seq<ClauseView>
    decreases tokens.len(),
{
    if tokens.len() == 0 {
        Seq::empty()
    } else {
        let earlier = token_clauses(tokens.drop_last());
        match token_clause(tokens.last()) {
            Some(clause) => earlier.push(clause),
            None => earlier,
        }
    }
}

/// The conditions of a search.
pub open spec fn clauses_of(input: Seq<char>) -> Seq<ClauseView> {
    token_clauses(tokens_of(input))
}

fn read_unkeyed(token: &[char]) -> (res: QueryClause)
    ensures
        res@ == unkeyed(token@),
{
    let negated = token.len() > 1 && token[0] == '-';
    let body = if negated {
        let tail = &token[1..token.len()];
        assert(tail@ == token@.skip(1));
        tail
    } else {
        token
    };
    let text = trim_both_slice(body, CharClass::Only('"'));
    let numeric_id = read_i64(text);
    QueryClause::Unkeyed { negated, text: to_lowercase(string_of(text).as_str()), numeric_id }
}

fn read_clause(token: &[char]) -> (res: Option<QueryClause>)
    ensures
        match res {
            Some(clause) => token_clause(token@) == Some(clause@),
            None => token_clause(token@) is None,
        },
{
    let (written_key, op, quoted_value) = match split_key_op_val(token) {
        Some(parts) => parts,
        None => {
            return Some(read_unkeyed(token));
        },
    };
    let key = ascii_lower_slice(written_key);
    let val = trim_both_slice(quoted_value, CharClass::Only('"'));
    if let Some(field) = read_numeric_field(&key) {
        match read_time_or_number(val) {
            Some(value) => Some(QueryClause::Numeric { field, op, value }),
            None => None,
        }
    } else if let Some(field) = read_text_field(&key) {
        Some(QueryClause::Text { field, op, value: to_lowercase(string_of(val).as_str()) })
    } else if equals_str(&key, "mode") || equals_str(&key, "m") {
        let name = to_lowercase(string_of(val).as_str());
        match read_mode(&chars_of(name.as_str())) {
            Some(target_mode) => Some(QueryClause::Mode { op, target_mode }),
            None => None,
        }
    } else if equals_str(&key, "status") {
        let name = to_lowercase(string_of(val).as_str());
        match read_status(&chars_of(name.as_str())) {
            Some(target) => Some(QueryClause::Status { op, target }),
            None => None,
        }
    } else {
        Some(read_unkeyed(token))
    }
}

/// Reads a search: every token is a condition, but for those whose value
/// cannot be read.
pub fn parse_osu_query(input: &str) -> (res: ParsedOsuQuery)
    ensures
        res.raw@ == input@,
        res.conditions() == clauses_of(input@),
{
    let tokens = tokenize_query(input);
    let ghost all = tokens_of(input@);
    let mut clauses: Vec<QueryClause> = Vec::new();
    let mut i: usize = 0;
    assert(clause_views(clauses@) =~= token_clauses(all.take(0)));
    while i < tokens.len()
        invariant
            i <= tokens@.len(),
            all == string_texts(tokens@),
            clause_views(clauses@) == token_clauses(all.take(i as int)),
        decreases tokens@.len() - i,
    {
        let ghost before = clauses@;
        assert(all[i as int] == tokens@[i as int]@);
        assert(all.take(i + 1).drop_last() == all.take(i as int));
        assert(all.take(i + 1).last() == all[i as int]);
        if let Some(clause) = read_clause(&chars_of(tokens[i].as_str())) {
            clauses.push(clause);
            assert(clause_views(clauses@) =~= clause_views(before).push(clause@));
        }
        i = i + 1;
    }
    assert(all.take(all.len() as int) == all);
    ParsedOsuQuery { raw: input.to_owned(), clauses }
}

} // verus!
