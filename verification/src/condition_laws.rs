//! Which maps a condition lets through, told by the map's own fields, and
//! which condition a typed token asks for.

use crate::decimal::{decimal_text, lemma_decimal_text};
use crate::local::LocalBeatmap;
use crate::numeral::short_number;
use crate::outside::lowercase;
use crate::query::{
    all_admit, bound_tolerance, clauses_of, id_written, is_key, key_op_val, key_op_val_from,
    lemma_tolerances, numeric_field, operators, split_at_operator, token_clause, tokens_of,
    ClauseView, ComparisonOp, ModeFilter, NumericField, StatusTarget, TextField,
};
use crate::round_trip::{
    is_plain_word, is_small_key, lemma_key_at_least, lemma_key_at_most, lemma_key_equals,
    lemma_no_split, lemma_number_value, lemma_occurs_first, lemma_one_token, lemma_operators,
    lemma_plain_reads, lemma_split, tokens_after,
};
use crate::rounding::law_sums_do_not_pass;
use crate::short_numbers::{lemma_short_chars, rounded};
use crate::single::{nearest_integer, Single};
use crate::text::{
    contains_text, find, is_alphanumeric, is_digit, is_white_space, lemma_find_is_first,
    lemma_trim_fixed, occurs_at, CharClass,
};
use crate::text_laws::law_integers_are_read;
use vstd::prelude::*;

verus! {

// ---------------------------------------------------------------------------
// Words
// ---------------------------------------------------------------------------

/// A bare word lets a map through where any one of its six texts holds the word
/// in its small letters.
pub proof fn law_word_in_any_text(word: Seq<char>, id: Option<i64>, map: LocalBeatmap)
    ensures
        ({
            let clause = ClauseView::Unkeyed { negated: false, text: word, numeric_id: id };
            &&& contains_text(lowercase(map.artist@), word) ==> clause.admits(map)
            &&& contains_text(lowercase(map.title@), word) ==> clause.admits(map)
            &&& contains_text(lowercase(map.creator@), word) ==> clause.admits(map)
            &&& contains_text(lowercase(map.version@), word) ==> clause.admits(map)
            &&& contains_text(lowercase(map.source@), word) ==> clause.admits(map)
            &&& contains_text(lowercase(map.tags@), word) ==> clause.admits(map)
        }),
{
}

/// A bare number lets a map through whose id it is, or whose set's id.
pub proof fn law_word_is_an_id(word: Seq<char>, id: i64, map: LocalBeatmap)
    ensures
        ({
            let clause = ClauseView::Unkeyed { negated: false, text: word, numeric_id: Some(id) };
            &&& map.beatmap_id == Some(id) ==> clause.admits(map)
            &&& map.beatmapset_id == Some(id) ==> clause.admits(map)
        }),
{
}

/// A bare word lets no map through that holds it nowhere and has no id that is
/// written so.
pub proof fn law_word_nowhere(word: Seq<char>, id: Option<i64>, map: LocalBeatmap)
    requires
        word.len() > 0,
        !contains_text(lowercase(map.artist@), word),
        !contains_text(lowercase(map.title@), word),
        !contains_text(lowercase(map.creator@), word),
        !contains_text(lowercase(map.version@), word),
        !contains_text(lowercase(map.source@), word),
        !contains_text(lowercase(map.tags@), word),
        id is Some ==> map.beatmap_id != id && map.beatmapset_id != id,
    ensures
        !(ClauseView::Unkeyed { negated: false, text: word, numeric_id: id }).admits(map),
{
}

/// A bare word that is not wanted lets through what the wanted one keeps out.
pub proof fn law_unwanted_word(word: Seq<char>, id: Option<i64>, map: LocalBeatmap)
    ensures
        (ClauseView::Unkeyed { negated: true, text: word, numeric_id: id }).admits(map)
            != (ClauseView::Unkeyed { negated: false, text: word, numeric_id: id }).admits(map),
{
}

/// A condition on one text looks into the text of its name and no other:
/// `!=` lets through the maps that do not hold the words there, and every
/// other comparison those that do.
pub proof fn law_text_conditions(op: ComparisonOp, words: Seq<char>, map: LocalBeatmap)
    requires
        words.len() > 0,
    ensures
        (ClauseView::Text { field: TextField::Artist, op, value: words }).admits(map) == (
        contains_text(lowercase(map.artist@), words) != (op == ComparisonOp::NotEqual)),
        (ClauseView::Text { field: TextField::Title, op, value: words }).admits(map) == (
        contains_text(lowercase(map.title@), words) != (op == ComparisonOp::NotEqual)),
        (ClauseView::Text { field: TextField::Creator, op, value: words }).admits(map) == (
        contains_text(lowercase(map.creator@), words) != (op == ComparisonOp::NotEqual)),
        (ClauseView::Text { field: TextField::Difficulty, op, value: words }).admits(map) == (
        contains_text(lowercase(map.version@), words) != (op == ComparisonOp::NotEqual)),
        (ClauseView::Text { field: TextField::Source, op, value: words }).admits(map) == (
        contains_text(lowercase(map.source@), words) != (op == ComparisonOp::NotEqual)),
        (ClauseView::Text { field: TextField::Tag, op, value: words }).admits(map) == (
        contains_text(lowercase(map.tags@), words) != (op == ComparisonOp::NotEqual)),
{
}

/// No words at all are in every text.
pub proof fn law_empty_text_conditions(field: TextField, op: ComparisonOp, map: LocalBeatmap)
    ensures
        (ClauseView::Text { field, op, value: Seq::empty() }).admits(map) == (op
            != ComparisonOp::NotEqual),
{
}

// ---------------------------------------------------------------------------
// Numbers
// ---------------------------------------------------------------------------

/// A condition on one number looks at the number of its name and no other,
/// and is not met where that number is unknown.
pub proof fn law_number_conditions(op: ComparisonOp, value: Single, map: LocalBeatmap)
    ensures
        (ClauseView::Numeric { field: NumericField::Stars, op, value }).admits(map) == (map.stars
            is Some && op.holds(map.stars->0, value)),
        (ClauseView::Numeric { field: NumericField::Ar, op, value }).admits(map) == (map.ar is Some
            && op.holds(map.ar->0, value)),
        (ClauseView::Numeric { field: NumericField::Cs, op, value }).admits(map) == (map.cs is Some
            && op.holds(map.cs->0, value)),
        (ClauseView::Numeric { field: NumericField::Od, op, value }).admits(map) == (map.od is Some
            && op.holds(map.od->0, value)),
        (ClauseView::Numeric { field: NumericField::Hp, op, value }).admits(map) == (map.hp is Some
            && op.holds(map.hp->0, value)),
        (ClauseView::Numeric { field: NumericField::Bpm, op, value }).admits(map) == (map.bpm
            is Some && op.holds(map.bpm->0, value)),
        (ClauseView::Numeric { field: NumericField::Length, op, value }).admits(map) == (
        map.length_seconds is Some && op.holds(map.length_seconds->0, value)),
{
}

/// Circles and sliders are counted, and the keys of a map are the circle size
/// of a mania map; maps of other modes have none.
pub proof fn law_count_conditions(op: ComparisonOp, value: Single, map: LocalBeatmap)
    ensures
        (ClauseView::Numeric { field: NumericField::Circles, op, value }).admits(map) == op.holds(
            nearest_integer(map.circles as int),
            value,
        ),
        (ClauseView::Numeric { field: NumericField::Sliders, op, value }).admits(map) == op.holds(
            nearest_integer(map.sliders as int),
            value,
        ),
        (ClauseView::Numeric { field: NumericField::Keys, op, value }).admits(map) == (map.mode
            == Some(3u8) && map.cs is Some && op.holds(map.cs->0, value)),
{
}

/// A condition on one number does not change its mind when another number of
/// the map changes.
pub proof fn law_number_conditions_are_apart(
    op: ComparisonOp,
    value: Single,
    map: LocalBeatmap,
    other: Option<Single>,
)
    ensures
        ({
            let od = ClauseView::Numeric { field: NumericField::Od, op, value };
            let hp = ClauseView::Numeric { field: NumericField::Hp, op, value };
            let ar = ClauseView::Numeric { field: NumericField::Ar, op, value };
            let cs = ClauseView::Numeric { field: NumericField::Cs, op, value };
            let stars = ClauseView::Numeric { field: NumericField::Stars, op, value };
            let bpm = ClauseView::Numeric { field: NumericField::Bpm, op, value };
            let length = ClauseView::Numeric { field: NumericField::Length, op, value };
            &&& od.admits(LocalBeatmap { hp: other, ar: other, cs: other, stars: other, bpm: other,
                length_seconds: other, ..map }) == od.admits(map)
            &&& hp.admits(LocalBeatmap { od: other, ar: other, cs: other, stars: other, bpm: other,
                length_seconds: other, ..map }) == hp.admits(map)
            &&& ar.admits(LocalBeatmap { od: other, hp: other, cs: other, stars: other, bpm: other,
                length_seconds: other, ..map }) == ar.admits(map)
            &&& cs.admits(LocalBeatmap { od: other, hp: other, ar: other, stars: other, bpm: other,
                length_seconds: other, ..map }) == cs.admits(map)
            &&& stars.admits(LocalBeatmap { od: other, hp: other, ar: other, cs: other, bpm: other,
                length_seconds: other, ..map }) == stars.admits(map)
            &&& bpm.admits(LocalBeatmap { od: other, hp: other, ar: other, cs: other, stars: other,
                length_seconds: other, ..map }) == bpm.admits(map)
            &&& length.admits(LocalBeatmap { od: other, hp: other, ar: other, cs: other,
                stars: other, bpm: other, ..map }) == length.admits(map)
        }),
{
}

/// `>` and `<` compare the numbers as they are.
pub proof fn law_strict_comparisons(actual: Single, target: Single)
    requires
        !actual.nan(),
        !target.nan(),
    ensures
        ComparisonOp::GreaterThan.holds(actual, target) == (actual.scaled() > target.scaled()),
        ComparisonOp::LessThan.holds(actual, target) == (actual.scaled() < target.scaled()),
{
}

/// `>=` lets through every number that is not smaller, and `<=` every number
/// that is not larger; what `>` or `<` lets through they let through too.
pub proof fn law_loose_comparisons(actual: Single, target: Single)
    requires
        !actual.nan(),
        target.finite(),
    ensures
        actual.scaled() >= target.scaled() ==> ComparisonOp::GreaterThanOrEqual.holds(
            actual,
            target,
        ),
        actual.scaled() <= target.scaled() ==> ComparisonOp::LessThanOrEqual.holds(actual, target),
        ComparisonOp::GreaterThan.holds(actual, target) ==> ComparisonOp::GreaterThanOrEqual.holds(
            actual,
            target,
        ),
        ComparisonOp::LessThan.holds(actual, target) ==> ComparisonOp::LessThanOrEqual.holds(
            actual,
            target,
        ),
{
    lemma_tolerances();
    law_sums_do_not_pass(target, bound_tolerance());
}

/// A number that is not one is neither larger, smaller nor equal to anything.
pub proof fn law_no_number_compares(op: ComparisonOp, actual: Single, target: Single)
    requires
        actual.nan(),
    ensures
        !op.holds(actual, target),
{
    lemma_tolerances();
    assert(actual.difference(target).nan());
    assert(actual.difference(target).absolute().nan());
}

// ---------------------------------------------------------------------------
// Mode and status
// ---------------------------------------------------------------------------

/// A map without a mode is a map of osu!standard; `!=` lets the maps of all
/// other modes through.
pub proof fn law_mode_conditions(op: ComparisonOp, target_mode: u8, map: LocalBeatmap)
    ensures
        ({
            let clause = ClauseView::Mode { op, target_mode };
            &&& map.mode == Some(target_mode) ==> clause.admits(map) == (op
                != ComparisonOp::NotEqual)
            &&& map.mode is None && target_mode == 0 ==> clause.admits(map) == (op
                != ComparisonOp::NotEqual)
            &&& map.mode is None && target_mode != 0 ==> clause.admits(map) == (op
                == ComparisonOp::NotEqual)
            &&& map.mode is Some && map.mode != Some(target_mode) ==> clause.admits(map) == (op
                == ComparisonOp::NotEqual)
        }),
{
}

/// The numbers of the ranked statuses: approved maps count as ranked, and
/// pending maps are those in the graveyard.
pub proof fn law_status_conditions(op: ComparisonOp, status: u8, n: u8, map: LocalBeatmap)
    requires
        map.ranked_status == Some(status),
    ensures
        (ClauseView::Status { op, target: StatusTarget::Ranked }).admits(map) == (seq![
            4u8,
            5u8,
        ].contains(status) != (op == ComparisonOp::NotEqual)),
        (ClauseView::Status { op, target: StatusTarget::Approved }).admits(map) == ((status == 5)
            != (op == ComparisonOp::NotEqual)),
        (ClauseView::Status { op, target: StatusTarget::Qualified }).admits(map) == ((status == 6)
            != (op == ComparisonOp::NotEqual)),
        (ClauseView::Status { op, target: StatusTarget::Loved }).admits(map) == ((status == 7) != (
        op == ComparisonOp::NotEqual)),
        (ClauseView::Status { op, target: StatusTarget::Pending }).admits(map) == ((status == 2)
            != (op == ComparisonOp::NotEqual)),
        (ClauseView::Status { op, target: StatusTarget::Graveyard }).admits(map) == ((status == 2)
            != (op == ComparisonOp::NotEqual)),
        (ClauseView::Status { op, target: StatusTarget::Specific(n) }).admits(map) == ((status == n)
            != (op == ComparisonOp::NotEqual)),
{
    let both = seq![4u8, 5u8];
    assert(both[0] == 4 && both[1] == 5);
}

/// The choice of a mode: "any" lets every map through, osu!standard those
/// without a mode too, and each of the others the maps of its number.
pub proof fn law_mode_choices(mode: u8)
    ensures
        ModeFilter::Any.admits(Some(mode)) && ModeFilter::Any.admits(None),
        ModeFilter::Osu.admits(Some(mode)) == (mode == 0) && ModeFilter::Osu.admits(None),
        ModeFilter::Taiko.admits(Some(mode)) == (mode == 1) && !ModeFilter::Taiko.admits(None),
        ModeFilter::Catch.admits(Some(mode)) == (mode == 2) && !ModeFilter::Catch.admits(None),
        ModeFilter::Mania.admits(Some(mode)) == (mode == 3) && !ModeFilter::Mania.admits(None),
{
}

// ---------------------------------------------------------------------------
// Tokens
// ---------------------------------------------------------------------------

/// How a comparison is written.
pub open spec fn symbol_of(op: ComparisonOp) -> Seq<char> {
    match op {
        ComparisonOp::Equal => "="@,
        ComparisonOp::NotEqual => "!="@,
        ComparisonOp::GreaterThan => ">"@,
        ComparisonOp::GreaterThanOrEqual => ">="@,
        ComparisonOp::LessThan => "<"@,
        ComparisonOp::LessThanOrEqual => "<="@,
    }
}

proof fn lemma_divided_behind_key(key: Seq<char>, symbol: Seq<char>, t: Seq<char>)
    requires
        is_key(key),
        symbol.len() > 0,
        !is_alphanumeric(symbol[0]) && symbol[0] != '_',
    ensures
        ({
            let token = key + symbol + t;
            let n = key.len() as int;
            &&& token.take(n) == key
            &&& token[n] == symbol[0]
            &&& token.skip(n + symbol.len()) == t
            &&& occurs_at(token, symbol, n)
            &&& symbol.len() == 1 && t.len() > 0 ==> token[n + 1] == t[0]
            &&& symbol.len() == 1 && t.len() == 0 ==> token.len() == n + 1
            &&& forall|other: Seq<char>, op: ComparisonOp|
                other.len() > 0 && !is_alphanumeric(other[0]) && other[0] != '_' && (other[0]
                    != symbol[0] || (symbol.len() == 1 && other.len() == 2 && (t.len() == 0
                    || t[0] != other[1]))) ==> #[trigger] split_at_operator(token, other, op)
                    is None
        }),
{
    let token = key + symbol + t;
    let n = key.len() as int;
    assert(token.take(n) =~= key);
    assert(token.skip(n + symbol.len()) =~= t);
    assert(token.subrange(n, n + symbol.len()) =~= symbol);
    assert forall|other: Seq<char>, op: ComparisonOp|
        other.len() > 0 && !is_alphanumeric(other[0]) && other[0] != '_' && (other[0] != symbol[0]
            || (symbol.len() == 1 && other.len() == 2 && (t.len() == 0 || t[0]
            != other[1]))) implies #[trigger] split_at_operator(token, other, op) is None by {
        if occurs_at(token, other, n) {
            lemma_occurs_first(token, other, n);
        }
        lemma_no_split(token, n, other, op);
    }
}

proof fn lemma_key_not_equal(key: Seq<char>, t: Seq<char>)
    requires
        is_key(key),
    ensures
        key_op_val(key + "!="@ + t) == Some((key, ComparisonOp::NotEqual, t)),
{
    let token = key + "!="@ + t;
    lemma_operators();
    lemma_divided_behind_key(key, "!="@, t);
    lemma_split(token, key.len() as int, "!="@, ComparisonOp::NotEqual);
    assert(split_at_operator(token, ">="@, ComparisonOp::GreaterThanOrEqual) is None);
    assert(split_at_operator(token, "<="@, ComparisonOp::LessThanOrEqual) is None);
    assert(key_op_val_from(token, 2) == Some((key, ComparisonOp::NotEqual, t)));
    assert(key_op_val_from(token, 1) == key_op_val_from(token, 2));
    assert(key_op_val_from(token, 0) == key_op_val_from(token, 1));
}

proof fn lemma_key_greater(key: Seq<char>, t: Seq<char>)
    requires
        is_key(key),
        t.len() > 0 ==> t[0] != '=',
    ensures
        key_op_val(key + ">"@ + t) == Some((key, ComparisonOp::GreaterThan, t)),
{
    let token = key + ">"@ + t;
    let n = key.len() as int;
    lemma_operators();
    assert(token.take(n) =~= key);
    assert(token[n] == '>');
    if t.len() > 0 {
        assert(token[n + 1] == t[0]);
    }
    assert forall|symbol: Seq<char>|
        symbol.len() > 0 && (symbol[0] != '>' || (symbol.len() > 1 && symbol[1]
            == '=')) implies !(#[trigger] occurs_at(token, symbol, n)) by {
        if occurs_at(token, symbol, n) {
            lemma_occurs_first(token, symbol, n);
        }
    }
    lemma_no_split(token, n, ">="@, ComparisonOp::GreaterThanOrEqual);
    lemma_no_split(token, n, "<="@, ComparisonOp::LessThanOrEqual);
    lemma_no_split(token, n, "!="@, ComparisonOp::NotEqual);
    lemma_no_split(token, n, "=="@, ComparisonOp::Equal);
    assert(token.subrange(n, n + 1) =~= ">"@);
    lemma_split(token, n, ">"@, ComparisonOp::GreaterThan);
    assert(token.skip(n + 1) =~= t);
    reveal_with_fuel(key_op_val_from, 5);
}

proof fn lemma_key_less(key: Seq<char>, t: Seq<char>)
    requires
        is_key(key),
        t.len() > 0 ==> t[0] != '=',
    ensures
        key_op_val(key + "<"@ + t) == Some((key, ComparisonOp::LessThan, t)),
{
    let token = key + "<"@ + t;
    let n = key.len() as int;
    lemma_operators();
    assert(token.take(n) =~= key);
    assert(token[n] == '<');
    if t.len() > 0 {
        assert(token[n + 1] == t[0]);
    }
    assert forall|symbol: Seq<char>|
        symbol.len() > 0 && (symbol[0] != '<' || (symbol.len() > 1 && symbol[1]
            == '=')) implies !(#[trigger] occurs_at(token, symbol, n)) by {
        if occurs_at(token, symbol, n) {
            lemma_occurs_first(token, symbol, n);
        }
    }
    lemma_no_split(token, n, ">="@, ComparisonOp::GreaterThanOrEqual);
    lemma_no_split(token, n, "<="@, ComparisonOp::LessThanOrEqual);
    lemma_no_split(token, n, "!="@, ComparisonOp::NotEqual);
    lemma_no_split(token, n, "=="@, ComparisonOp::Equal);
    lemma_no_split(token, n, ">"@, ComparisonOp::GreaterThan);
    assert(token.subrange(n, n + 1) =~= "<"@);
    lemma_split(token, n, "<"@, ComparisonOp::LessThan);
    assert(token.skip(n + 1) =~= t);
    reveal_with_fuel(key_op_val_from, 6);
}

/// A key, a comparison and a value stand for themselves: each comparison is
/// told by its own sign, and the longer signs are not mistaken for the
/// shorter ones that they begin with.
pub proof fn law_key_and_comparison(key: Seq<char>, op: ComparisonOp, t: Seq<char>)
    requires
        is_key(key),
        t.len() > 0 ==> t[0] != '=',
    ensures
        key_op_val(key + symbol_of(op) + t) == Some((key, op, t)),
{
    match op {
        ComparisonOp::Equal => lemma_key_equals(key, t),
        ComparisonOp::NotEqual => lemma_key_not_equal(key, t),
        ComparisonOp::GreaterThan => lemma_key_greater(key, t),
        ComparisonOp::GreaterThanOrEqual => lemma_key_at_least(key, t),
        ComparisonOp::LessThan => lemma_key_less(key, t),
        ComparisonOp::LessThanOrEqual => lemma_key_at_most(key, t),
    }
}

/// Two equals signs and a colon mean what one equals sign means.
pub proof fn law_other_signs_of_equality(key: Seq<char>, t: Seq<char>)
    requires
        is_key(key),
    ensures
        key_op_val(key + "=="@ + t) == Some((key, ComparisonOp::Equal, t)),
        key_op_val(key + ":"@ + t) == Some((key, ComparisonOp::Equal, t)),
{
    lemma_operators();
    reveal_strlit(":");
    assert(":"@ =~= seq![':']);
    lemma_divided_behind_key(key, "=="@, t);
    lemma_split(key + "=="@ + t, key.len() as int, "=="@, ComparisonOp::Equal);
    lemma_divided_behind_key(key, ":"@, t);
    lemma_split(key + ":"@ + t, key.len() as int, ":"@, ComparisonOp::Equal);
    assert(operators()[7] == (":"@, ComparisonOp::Equal));
    reveal_with_fuel(key_op_val_from, 9);
}

/// A token without any sign of comparison is no condition with a key.
pub proof fn law_no_comparison_no_key(token: Seq<char>)
    requires
        !token.contains('>') && !token.contains('<') && !token.contains('=') && !token.contains(
            ':',
        ),
    ensures
        key_op_val(token) is None,
{
    lemma_operators();
    reveal_strlit(":");
    assert(operators()[7] == (":"@, ComparisonOp::Equal));
    assert forall|symbol: Seq<char>, op: ComparisonOp|
        symbol.len() > 0 && (symbol[symbol.len() - 1] == '>' || symbol[symbol.len() - 1] == '<'
            || symbol[symbol.len() - 1] == '=' || symbol[symbol.len() - 1]
            == ':') implies #[trigger] split_at_operator(token, symbol, op) is None by {
        lemma_find_is_first(token, symbol);
        if let Some(pos) = find(token, symbol) {
            let piece = token.subrange(pos, pos + symbol.len());
            assert(piece[symbol.len() - 1] == token[pos + symbol.len() - 1]);
            assert(token.contains(token[pos + symbol.len() - 1]));
        }
    }
    reveal_with_fuel(key_op_val_from, 9);
}

/// A word that is typed alone is looked for in all texts by its small letters,
/// and is an id where it is a number.
pub proof fn law_typed_word(word: Seq<char>)
    requires
        word.len() > 0,
        is_plain_word(word),
        word[0] != '-',
        !word.contains('>') && !word.contains('<') && !word.contains('=') && !word.contains(':'),
    ensures
        clauses_of(word) == seq![
            ClauseView::Unkeyed {
                negated: false,
                text: lowercase(word),
                numeric_id: id_written(word),
            },
        ],
        clauses_of(seq!['-'] + word) == seq![
            ClauseView::Unkeyed {
                negated: true,
                text: lowercase(word),
                numeric_id: id_written(word),
            },
        ],
{
    law_no_comparison_no_key(word);
    lemma_trim_fixed(word, CharClass::Only('"'));
    lemma_plain_is_one_token(word);
    let token = seq!['-'] + word;
    assert(token.skip(1) =~= word);
    assert forall|c: char| c != '-' && !word.contains(c) implies !token.contains(c) by {
        if token.contains(c) {
            let i = choose|i: int| 0 <= i < token.len() && token[i] == c;
            assert(i > 0 && word[i - 1] == c);
        }
    }
    law_no_comparison_no_key(token);
    assert forall|i: int| 0 <= i < token.len() implies !is_white_space(#[trigger] token[i])
        && token[i] != '"' by {
        if i > 0 {
            assert(token[i] == word[i - 1]);
        }
    }
    lemma_plain_is_one_token(token);
}

proof fn lemma_plain_is_one_token(token: Seq<char>)
    requires
        token.len() > 0,
        is_plain_word(token),
    ensures
        clauses_of(token) == (match token_clause(token) {
            Some(clause) => seq![clause],
            None => Seq::empty(),
        }),
{
    lemma_plain_reads(token);
    let rest = Seq::<char>::empty();
    assert(token + rest =~= token);
    assert(seq![token] + tokens_after(rest) =~= seq![token]);
    assert(tokens_of(token) == seq![token]);
    lemma_one_token(token);
}

/// A number that is typed alone finds the map and the set of that id.
pub proof fn law_typed_id(n: nat, map: LocalBeatmap)
    requires
        n <= i64::MAX,
        map.beatmap_id == Some(n as i64) || map.beatmapset_id == Some(n as i64),
    ensures
        all_admit(clauses_of(decimal_text(n)), map),
{
    let word = decimal_text(n);
    lemma_decimal_text(n);
    assert(is_digit(word[0]));
    assert forall|i: int| 0 <= i < word.len() implies !is_white_space(#[trigger] word[i]) && word[i]
        != '"' && word[i] != '>' && word[i] != '<' && word[i] != '=' && word[i] != ':' by {
        assert(is_digit(word[i]));
    }
    law_typed_word(word);
    law_integers_are_read(n, i64::MIN as int, i64::MAX as int);
    assert(clauses_of(word)[0].admits(map));
}

/// A typed condition on a number asks for the number that is written, whatever
/// the comparison.
pub proof fn law_typed_number(key: Seq<char>, field: NumericField, op: ComparisonOp, x: Single)
    requires
        is_small_key(key),
        numeric_field(key) == Some(field),
        x.finite(),
    ensures
        clauses_of(key + symbol_of(op) + short_number(x)) == seq![
            ClauseView::Numeric { field, op, value: rounded(x) },
        ],
{
    let symbol = symbol_of(op);
    let s = short_number(x);
    let token = key + symbol + s;
    lemma_operators();
    lemma_short_chars(x);
    lemma_number_value(x);
    law_key_and_comparison(key, op, s);
    assert forall|i: int| 0 <= i < token.len() implies !is_white_space(#[trigger] token[i])
        && token[i] != '"' by {
        if i < key.len() {
            assert(token[i] == key[i]);
            assert(is_alphanumeric(key[i]) || key[i] == '_');
        } else if i < key.len() + symbol.len() {
            assert(token[i] == symbol[i - key.len()]);
        } else {
            assert(token[i] == s[i - key.len() - symbol.len()]);
        }
    }
    lemma_plain_is_one_token(token);
}

} // verus!
