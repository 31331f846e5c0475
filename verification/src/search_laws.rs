//! What holds of the conditions of a search, whatever maps they meet.

use crate::filters::{bound_of, length_within, needle_of, FiltersView, NeedlesView, RangeFilter};
use crate::local::LocalBeatmap;
use crate::query::{
    all_admit, clauses_of, has_lowered, is_key, key_op_val, key_op_val_from, operators,
    split_at_operator, token_clause, ClauseView, ComparisonOp,
};
use crate::single::Single;
use crate::text::{
    ascii_lower, find, is_alphanumeric, lemma_find_is_first, lemma_trim_both_ends, same_but_case,
    trim, CharClass,
};
use vstd::prelude::*;
use vstd::utf8::is_ascii_chars;

verus! {

/// A search without conditions lets every map through.
pub proof fn law_no_conditions_admit_all(map: LocalBeatmap)
    ensures
        all_admit(Seq::empty(), map),
{
}

/// A search is met where each of two halves of it is met: more conditions let
/// fewer maps through.
pub proof fn law_conditions_add_up(a: Seq<ClauseView>, b: Seq<ClauseView>, map: LocalBeatmap)
    ensures
        all_admit(a + b, map) == (all_admit(a, map) && all_admit(b, map)),
{
    if all_admit(a + b, map) {
        assert forall|i: int| 0 <= i < a.len() implies (#[trigger] a[i]).admits(map) by {
            assert((a + b)[i] == a[i]);
        }
        assert forall|i: int| 0 <= i < b.len() implies (#[trigger] b[i]).admits(map) by {
            assert((a + b)[a.len() + i] == b[i]);
        }
    }
    if all_admit(a, map) && all_admit(b, map) {
        assert forall|i: int| 0 <= i < (a + b).len() implies (#[trigger] (a + b)[i]).admits(map) by {
            if i < a.len() {
                assert((a + b)[i] == a[i]);
            } else {
                assert((a + b)[i] == b[i - a.len()]);
            }
        }
    }
}

/// Conditions on unknown numbers and on an unknown status are never met,
/// whatever they compare with.
pub proof fn law_unknown_values_are_never_admitted(clause: ClauseView, map: LocalBeatmap)
    requires
        match clause {
            ClauseView::Numeric { field, .. } => field.of(map) is None,
            ClauseView::Status { .. } => map.ranked_status is None,
            _ => false,
        },
    ensures
        !clause.admits(map),
{
}

/// `!=` on words, on the mode and on a known status is met where `=` is not.
pub proof fn law_not_equal_is_the_opposite(map: LocalBeatmap, clause: ClauseView, other: ClauseView)
    requires
        match (clause, other) {
            (
                ClauseView::Text { field, op, value },
                ClauseView::Text { field: f, op: o, value: v },
            ) => op is Equal && o is NotEqual && f == field && v == value,
            (
                ClauseView::Mode { op, target_mode },
                ClauseView::Mode { op: o, target_mode: t },
            ) => op is Equal && o is NotEqual && t == target_mode,
            (ClauseView::Status { op, target }, ClauseView::Status { op: o, target: t }) => op
                is Equal && o is NotEqual && t == target && map.ranked_status is Some,
            _ => false,
        },
    ensures
        clause.admits(map) != other.admits(map),
{
}

/// A number equals another or differs from it, unless their difference is not
/// a number.
pub proof fn law_numbers_are_equal_or_not(actual: Single, target: Single)
    requires
        !actual.difference(target).nan(),
    ensures
        ComparisonOp::Equal.holds(actual, target) != ComparisonOp::NotEqual.holds(actual, target),
{
    let tolerance = crate::query::equality_tolerance();
    let gap = actual.difference(target).absolute();
    assert(gap.magnitude() == actual.difference(target).magnitude());
    crate::rounding::lemma_assembled(
        false,
        crate::single::nearest_magnitude(
            5 * crate::natural::power(10, 0) * crate::single::one_in_units(),
            crate::natural::power(10, 2),
        ),
    );
}

/// A minus before a word turns its condition round.
pub proof fn law_minus_turns_a_word_round(word: Seq<char>, map: LocalBeatmap)
    requires
        word.len() > 0,
        !(word.len() > 1 && word[0] == '-'),
        key_op_val(word) is None,
    ensures
        token_clause(word) matches Some(clause) && token_clause(seq!['-'] + word) matches Some(
            opposite,
        ) && clause.admits(map) != opposite.admits(map),
{
    let token = seq!['-'] + word;
    assert(token.skip(1) =~= word);
    assert(key_op_val(token) is None) by {
        assert forall|symbol: Seq<char>, op: ComparisonOp|
            #[trigger] split_at_operator(token, symbol, op) is None by {
            lemma_find_is_first(token, symbol);
            if let Some(pos) = find(token, symbol) {
                let key = token.take(pos);
                if is_key(key) {
                    assert(key[0] == '-');
                    assert(is_alphanumeric(key[0]) || key[0] == '_');
                }
            }
        }
        lemma_no_operator(token, 0);
    }
}

/// A token that no operator divides is no condition with a key.
proof fn lemma_no_operator(token: Seq<char>, n: int)
    requires
        0 <= n <= operators().len(),
        forall|symbol: Seq<char>, op: ComparisonOp|
            #[trigger] split_at_operator(token, symbol, op) is None,
    ensures
        key_op_val_from(token, n) is None,
    decreases operators().len() - n,
{
    if n < operators().len() {
        lemma_no_operator(token, n + 1);
    }
}

/// An enabled range lets no unknown number through, and a range that is not
/// enabled lets everything through.
pub proof fn law_ranges_and_unknown_numbers(range: RangeFilter, value: Option<Single>)
    ensures
        range.enabled ==> !range.admits(None),
        !range.enabled ==> range.admits(value),
{
}

// ---------------------------------------------------------------------------
// Filters
// ---------------------------------------------------------------------------

/// A blank text box lets every text through, and length boxes without numbers
/// every length, known or not.
pub proof fn law_blank_boxes_ask_for_nothing(
    haystack: Seq<char>,
    text: Seq<char>,
    length: Option<Single>,
    min_text: Seq<char>,
    max_text: Seq<char>,
)
    ensures
        trim(text).len() == 0 ==> has_lowered(haystack, needle_of(text)),
        bound_of(min_text) is None && bound_of(max_text) is None ==> length_within(
            length,
            min_text,
            max_text,
        ),
{
    if trim(text).len() == 0 {
        assert(is_ascii_chars(trim(text)));
        assert(ascii_lower(trim(text)).len() == 0);
    }
}

/// The case of ASCII texts means nothing, neither in a text box nor in a map.
pub proof fn law_words_ignore_case(
    haystack: Seq<char>,
    other_haystack: Seq<char>,
    text: Seq<char>,
    other_text: Seq<char>,
)
    requires
        is_ascii_chars(haystack) && is_ascii_chars(other_haystack),
        is_ascii_chars(trim(text)) && is_ascii_chars(trim(other_text)),
        same_but_case(haystack, other_haystack),
        same_but_case(trim(text), trim(other_text)),
    ensures
        has_lowered(haystack, needle_of(text)) == has_lowered(
            other_haystack,
            needle_of(other_text),
        ),
{
}

/// Once the controls were set from a search text, that search decides which
/// maps are let through, until the text is written from the controls again.
pub proof fn law_typed_search_decides(v: FiltersView, map: LocalBeatmap, needles: NeedlesView)
    requires
        trim(v.query_text).len() > 0,
    ensures
        v.synchronized().admits(map, needles) == all_admit(clauses_of(trim(v.query_text)), map),
        v.synchronized().written().admits(map, needles) == v.synchronized().controls_admit(
            map,
            needles,
        ),
{
}

/// Setting the controls from the same search text again changes nothing.
pub proof fn law_setting_the_controls_is_stable(v: FiltersView)
    ensures
        v.synchronized().synchronized() == v.synchronized(),
{
    if trim(v.query_text).len() == 0 {
        lemma_trim_both_ends(Seq::<char>::empty(), CharClass::White);
    }
    assert(v.synchronized().synchronized() =~= v.synchronized());
}

/// Writing the search text again changes nothing.
pub proof fn law_writing_the_search_is_stable(v: FiltersView)
    ensures
        v.written().written() == v.written(),
{
    assert(v.written().search_tokens() == v.search_tokens());
}

} // verus!
