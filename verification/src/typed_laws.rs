//! What a typed search is taken apart into, and what its tokens ask for.

use crate::condition_laws::{law_key_and_comparison, law_no_comparison_no_key, symbol_of};
use crate::decimal::{decimal_text, lemma_decimal_text};
use crate::filters::FiltersView;
use crate::numeral::single_of_text;
use crate::outside::lowercase;
use crate::query::{
    clauses_of, flushed, id_written, is_key, key_op_val, mode_named, numeric_field, status_named,
    text_field, time_or_number, token_clause, tokens_from, tokens_of, unkeyed, unquoted, ClauseView,
    ComparisonOp, NumericField, QueryClause, StatusTarget, TextField,
};
use crate::round_trip::{
    is_plain_word, is_small_key, lemma_one_token, lemma_operators, lemma_plain_reads,
    lemma_plain_run, lemma_token_clauses_concat, tokens_after,
};
use crate::single::{nearest_integer, Single};
use crate::text::{
    ascii_lower, is_alphanumeric, is_digit, is_white_space, lemma_split_at, lemma_split_nonempty,
    lemma_split_single, lemma_trim_fixed, split, trim, CharClass,
};
use crate::text_laws::{all_of, law_integers_are_read, law_split_on_both_sides, law_trim_both};
use vstd::prelude::*;


verus! {

// ---------------------------------------------------------------------------
// Tokens
// ---------------------------------------------------------------------------

/// White space of any kind divides a search: the word before it is a token,
/// and the rest is read on its own.
pub proof fn law_white_space_divides(word: Seq<char>, space: char, rest: Seq<char>)
    requires
        word.len() > 0,
        is_plain_word(word),
        is_white_space(space),
    ensures
        tokens_of(word + seq![space] + rest) == seq![word] + tokens_of(rest),
        tokens_of(seq![space] + rest) == tokens_of(rest),
        tokens_of(word) == seq![word],
        tokens_of(Seq::empty()).len() == 0,
{
    let none = Seq::<char>::empty();
    let behind = seq![space] + rest;
    assert(word + seq![space] + rest =~= word + behind);
    assert(space != '"' && space != '\\');
    lemma_plain_run(word, behind, none);
    assert(none + word =~= word);
    assert(behind[0] == space);
    assert(behind.skip(1) =~= rest);
    lemma_trim_fixed(word, CharClass::White);
    assert(flushed(word) == seq![word]);
    crate::text::lemma_trim_both_ends(none, CharClass::White);
    assert(flushed(none) =~= Seq::<Seq<char>>::empty());
    assert(tokens_from(behind, none, false) == flushed(none) + tokens_of(rest));
    assert(flushed(none) + tokens_of(rest) =~= tokens_of(rest));
    lemma_plain_run(word, none, none);
    assert(word + none =~= word);
}

/// A search asks for what its words ask for, one after the other.
pub proof fn law_words_ask_one_by_one(word: Seq<char>, space: char, rest: Seq<char>)
    requires
        word.len() > 0,
        is_plain_word(word),
        is_white_space(space),
    ensures
        clauses_of(word + seq![space] + rest) == clauses_of(word) + clauses_of(rest),
{
    law_white_space_divides(word, space, rest);
    lemma_token_clauses_concat(seq![word], tokens_of(rest));
}

proof fn lemma_inside_quotes(inner: Seq<char>, rest: Seq<char>, current: Seq<char>)
    requires
        !inner.contains('"') && !inner.contains('\\'),
    ensures
        tokens_from(inner + rest, current, true) == tokens_from(rest, current + inner, true),
    decreases inner.len(),
{
    if inner.len() == 0 {
        assert(inner + rest =~= rest);
        assert(current + inner =~= current);
    } else {
        let all = inner + rest;
        let later = inner.skip(1);
        assert(all[0] == inner[0]);
        assert(inner.contains(inner[0]));
        assert(all.skip(1) =~= later + rest);
        assert forall|c: char| later.contains(c) implies inner.contains(c) by {
            let i = choose|i: int| 0 <= i < later.len() && later[i] == c;
            assert(inner[i + 1] == c);
        }
        lemma_inside_quotes(later, rest, current.push(inner[0]));
        assert(current.push(inner[0]) + later =~= current + inner);
    }
}

/// White space between quotation marks divides nothing: the text between them
/// belongs to the token that they stand in, without the marks. A mark that is
/// not closed goes on to the end, and a blank text is no token.
pub proof fn law_quotation_marks(lead: Seq<char>, inner: Seq<char>)
    requires
        is_plain_word(lead),
        !inner.contains('"') && !inner.contains('\\'),
    ensures
        trim(lead + inner).len() > 0 ==> tokens_of(lead + seq!['"'] + inner + seq!['"']) == seq![
            trim(lead + inner),
        ],
        trim(lead + inner).len() == 0 ==> tokens_of(
            lead + seq!['"'] + inner + seq!['"'],
        ).len() == 0,
        tokens_of(lead + seq!['"'] + inner) == tokens_of(lead + seq!['"'] + inner + seq!['"']),
{
    let none = Seq::<char>::empty();
    let closing = seq!['"'];
    let opened = seq!['"'] + inner + closing;
    assert(lead + seq!['"'] + inner + seq!['"'] =~= lead + opened);
    lemma_plain_run(lead, opened, none);
    assert(none + lead =~= lead);
    assert(opened.skip(1) =~= inner + closing);
    lemma_inside_quotes(inner, closing, lead);
    assert(closing.skip(1) =~= none);
    reveal_with_fuel(tokens_from, 3);
    let ended = seq!['"'] + inner;
    assert(lead + seq!['"'] + inner =~= lead + ended);
    lemma_plain_run(lead, ended, none);
    assert(ended.skip(1) =~= inner + none);
    lemma_inside_quotes(inner, none, lead);
}

/// The characters of a key are the letters, digits and underscores of ASCII.
pub proof fn law_characters_of_keys(c: char)
    ensures
        is_key(seq![c]) == ('0' <= c <= '9' || 'a' <= c <= 'z' || 'A' <= c <= 'Z' || c == '_'),
        !is_key(Seq::empty()),
{
    let key = seq![c];
    assert(key[0] == c);
    if is_key(key) {
        assert(is_alphanumeric(key[0]) || key[0] == '_');
    }
}

// ---------------------------------------------------------------------------
// Conditions
// ---------------------------------------------------------------------------

/// Whether a text is read as one token of a key, a comparison and a value.
proof fn lemma_condition_token(key: Seq<char>, op: ComparisonOp, value: Seq<char>)
    requires
        is_key(key),
        is_plain_word(value),
        value.len() > 0 ==> value[0] != '=',
    ensures
        key_op_val(key + symbol_of(op) + value) == Some((key, op, value)),
        unquoted(value) == value,
        clauses_of(key + symbol_of(op) + value) == (match token_clause(
            key + symbol_of(op) + value,
        ) {
            Some(clause) => seq![clause],
            None => Seq::empty(),
        }),
{
    let symbol = symbol_of(op);
    let token = key + symbol + value;
    lemma_operators();
    law_key_and_comparison(key, op, value);
    lemma_trim_fixed(value, CharClass::Only('"'));
    assert forall|i: int| 0 <= i < token.len() implies !is_white_space(#[trigger] token[i])
        && token[i] != '"' by {
        if i < key.len() {
            assert(token[i] == key[i]);
            assert(is_alphanumeric(key[i]) || key[i] == '_');
        } else if i < key.len() + symbol.len() {
            assert(token[i] == symbol[i - key.len()]);
        } else {
            assert(token[i] == value[i - key.len() - symbol.len()]);
        }
    }
    lemma_plain_reads(token);
    let rest = Seq::<char>::empty();
    assert(token + rest =~= token);
    assert(seq![token] + tokens_after(rest) =~= seq![token]);
    assert(tokens_of(token) == seq![token]);
    lemma_one_token(token);
}

/// A typed condition on a text asks for the small letters of its words in the
/// text of its key, by the comparison that was typed.
pub proof fn law_typed_text(key: Seq<char>, field: TextField, op: ComparisonOp, words: Seq<char>)
    requires
        is_small_key(key),
        numeric_field(key) is None,
        text_field(key) == Some(field),
        is_plain_word(words),
        words.len() > 0 ==> words[0] != '=',
    ensures
        clauses_of(key + symbol_of(op) + words) == seq![
            ClauseView::Text { field, op, value: lowercase(words) },
        ],
{
    lemma_condition_token(key, op, words);
}

/// A typed condition on the mode asks for the mode of that name, by the
/// comparison that was typed; a name of no mode asks for nothing.
pub proof fn law_typed_mode(op: ComparisonOp, name: Seq<char>)
    requires
        is_plain_word(name),
        name.len() > 0 ==> name[0] != '=',
    ensures
        clauses_of("mode"@ + symbol_of(op) + name) == (match mode_named(lowercase(name)) {
            Some(target_mode) => seq![ClauseView::Mode { op, target_mode }],
            None => Seq::empty(),
        }),
        clauses_of("m"@ + symbol_of(op) + name) == clauses_of("mode"@ + symbol_of(op) + name),
{
    lemma_plain_keys();
    crate::name_laws::law_other_keys();
    lemma_condition_token("mode"@, op, name);
    lemma_condition_token("m"@, op, name);
}

/// A typed condition on the status asks for the status of that name or number.
pub proof fn law_typed_status(op: ComparisonOp, name: Seq<char>)
    requires
        is_plain_word(name),
        name.len() > 0 ==> name[0] != '=',
    ensures
        clauses_of("status"@ + symbol_of(op) + name) == (match status_named(lowercase(name)) {
            Some(target) => seq![ClauseView::Status { op, target }],
            None => Seq::empty(),
        }),
{
    lemma_plain_keys();
    crate::name_laws::law_other_keys();
    lemma_condition_token("status"@, op, name);
}

proof fn lemma_plain_keys()
    ensures
        is_small_key("mode"@) && is_small_key("m"@) && is_small_key("status"@),
        "status"@ != "mode"@ && "status"@ != "m"@,
{
    reveal_strlit("mode");
    reveal_strlit("m");
    reveal_strlit("status");
    assert(ascii_lower("mode"@) =~= "mode"@);
    assert(ascii_lower("m"@) =~= "m"@);
    assert(ascii_lower("status"@) =~= "status"@);
    assert("status"@.len() == 6 && "mode"@.len() == 4 && "m"@.len() == 1);
}

/// The status of a number is that number, where it fits a byte.
pub proof fn law_status_numbers(n: nat)
    requires
        n <= 255,
    ensures
        status_named(decimal_text(n)) == Some(StatusTarget::Specific(n as u8)),
{
    let name = decimal_text(n);
    lemma_decimal_text(n);
    assert(is_digit(name[0]));
    law_integers_are_read(n, 0, 255);
    reveal_strlit("ranked");
    reveal_strlit("r");
    reveal_strlit("approved");
    reveal_strlit("a");
    reveal_strlit("qualified");
    reveal_strlit("q");
    reveal_strlit("loved");
    reveal_strlit("l");
    reveal_strlit("pending");
    reveal_strlit("w");
    reveal_strlit("wip");
    reveal_strlit("graveyard");
    reveal_strlit("g");
    assert("ranked"@[0] == 'r' && "r"@[0] == 'r' && "approved"@[0] == 'a' && "a"@[0] == 'a'
        && "qualified"@[0] == 'q' && "q"@[0] == 'q' && "loved"@[0] == 'l' && "l"@[0] == 'l'
        && "pending"@[0] == 'p' && "w"@[0] == 'w' && "wip"@[0] == 'w' && "graveyard"@[0] == 'g'
        && "g"@[0] == 'g');
}

/// A condition with a key that means nothing is a word like any other.
pub proof fn law_unknown_keys(key: Seq<char>, op: ComparisonOp, value: Seq<char>)
    requires
        is_small_key(key),
        numeric_field(key) is None,
        text_field(key) is None,
        key != "mode"@ && key != "m"@ && key != "status"@,
        is_plain_word(value),
        value.len() > 0 ==> value[0] != '=',
    ensures
        clauses_of(key + symbol_of(op) + value) == seq![unkeyed(key + symbol_of(op) + value)],
{
    lemma_condition_token(key, op, value);
}

/// A condition on a number with a value that is no number asks for nothing.
pub proof fn law_conditions_without_a_number(
    key: Seq<char>,
    op: ComparisonOp,
    value: Seq<char>,
)
    requires
        is_small_key(key),
        numeric_field(key) is Some,
        is_plain_word(value),
        value.len() > 0 ==> value[0] != '=',
        time_or_number(value) is None,
    ensures
        clauses_of(key + symbol_of(op) + value).len() == 0,
{
    lemma_condition_token(key, op, value);
}

/// A colon divides minutes from seconds.
pub proof fn law_minutes_and_seconds(
    minutes: Seq<char>,
    seconds: Seq<char>,
    m: Single,
    s: Single,
)
    requires
        is_plain_word(minutes) && is_plain_word(seconds),
        !minutes.contains(':') && !seconds.contains(':'),
        single_of_text(minutes) == Some(m),
        single_of_text(seconds) == Some(s),
    ensures
        time_or_number(minutes + seq![':'] + seconds) == Some(
            m.product(nearest_integer(60)).sum(s),
        ),
{
    let t = minutes + seq![':'] + seconds;
    assert forall|i: int| 0 <= i < t.len() implies !is_white_space(#[trigger] t[i]) && t[i]
        != '"' by {
        if i < minutes.len() {
            assert(t[i] == minutes[i]);
        } else if i > minutes.len() {
            assert(t[i] == seconds[i - minutes.len() - 1]);
        }
    }
    lemma_trim_fixed(t, CharClass::White);
    lemma_trim_fixed(t, CharClass::Only('"'));
    assert(t[minutes.len() as int] == ':');
    lemma_split_at(minutes, ':', seconds);
    lemma_split_single(seconds, ':');
    assert(split(t, ':') =~= seq![minutes, seconds]);
}

/// A number without a colon is itself, where it is finite.
pub proof fn law_plain_numbers(text: Seq<char>)
    requires
        is_plain_word(text),
        !text.contains(':'),
    ensures
        single_of_text(text) matches Some(x) ==> time_or_number(text) == (if x.finite() {
            Some(x)
        } else {
            None
        }),
        single_of_text(text) is None ==> time_or_number(text) is None,
{
    lemma_trim_fixed(text, CharClass::White);
    lemma_trim_fixed(text, CharClass::Only('"'));
}

// ---------------------------------------------------------------------------
// The search of the filters
// ---------------------------------------------------------------------------

/// Setting the controls from a search leaves the search as it was typed and
/// keeps its conditions; without a search everything is as at the start.
pub proof fn law_search_is_kept(v: FiltersView)
    ensures
        trim(v.query_text).len() > 0 ==> (v.synchronized().search matches Some(search)
            && search.raw == trim(v.query_text) && search.conditions == clauses_of(
            trim(v.query_text),
        )),
        trim(v.query_text).len() > 0 ==> v.synchronized().query_text == v.query_text,
        trim(v.query_text).len() == 0 ==> v.synchronized().search is None
            && v.synchronized().query_text.len() == 0 && v.synchronized().artist.len() == 0
            && v.synchronized().mode == FiltersView::full().mode && v.synchronized().stars
            == FiltersView::full().stars && v.synchronized().bpm == FiltersView::full().bpm,
{
}

/// Writing the search from the controls changes no control.
pub proof fn law_writing_changes_no_control(v: FiltersView)
    ensures
        v.written().query_text == v.search_text(),
        v.written().search is None,
        v.written().artist == v.artist && v.written().title == v.title && v.written().mapper
            == v.mapper && v.written().difficulty == v.difficulty && v.written().tag == v.tag,
        v.written().length_min == v.length_min && v.written().length_max == v.length_max,
        v.written().stars == v.stars && v.written().ar == v.ar && v.written().cs == v.cs
            && v.written().od == v.od && v.written().hp == v.hp && v.written().bpm == v.bpm,
        v.written().mode == v.mode,
{
}

/// A condition means what its parts say.
pub proof fn law_views_of_conditions(
    field: NumericField,
    place: TextField,
    op: ComparisonOp,
    value: Single,
    words: String,
    mode: u8,
    target: StatusTarget,
    negated: bool,
    numeric_id: Option<i64>,
)
    ensures
        (QueryClause::Numeric { field, op, value })@ == (ClauseView::Numeric { field, op, value }),
        (QueryClause::Text { field: place, op, value: words })@ == (ClauseView::Text {
            field: place,
            op,
            value: words@,
        }),
        (QueryClause::Mode { op, target_mode: mode })@ == (ClauseView::Mode {
            op,
            target_mode: mode,
        }),
        (QueryClause::Status { op, target })@ == (ClauseView::Status { op, target }),
        (QueryClause::Unkeyed { negated, text: words, numeric_id })@ == (ClauseView::Unkeyed {
            negated,
            text: words@,
            numeric_id,
        }),
{
}

// ---------------------------------------------------------------------------
// Marks
// ---------------------------------------------------------------------------

/// Between quotation marks a backslash takes the meaning from a quotation mark
/// or a backslash behind it; before anything else it is itself, and so it is
/// outside quotation marks.
pub proof fn law_backslashes(current: Seq<char>, c: char, rest: Seq<char>)
    ensures
        tokens_from(seq!['\\', '"'] + rest, current, true) == tokens_from(
            rest,
            current.push('"'),
            true,
        ),
        tokens_from(seq!['\\', '\\'] + rest, current, true) == tokens_from(
            rest,
            current.push('\\'),
            true,
        ),
        c != '"' && c != '\\' ==> tokens_from(seq!['\\', c] + rest, current, true) == tokens_from(
            rest,
            current.push('\\').push(c),
            true,
        ),
        tokens_from(seq!['\\'] + rest, current, false) == tokens_from(
            rest,
            current.push('\\'),
            false,
        ),
{
    let mark = seq!['\\', '"'] + rest;
    let slash = seq!['\\', '\\'] + rest;
    let other = seq!['\\', c] + rest;
    let alone = seq!['\\'] + rest;
    assert(mark.skip(2) =~= rest);
    assert(slash.skip(2) =~= rest);
    let behind = seq![c] + rest;
    assert(other.skip(1) =~= behind);
    assert(behind.skip(1) =~= rest);
    assert(alone.skip(1) =~= rest);
    if c != '"' && c != '\\' {
        assert(tokens_from(other, current, true) == tokens_from(
            behind,
            current.push('\\'),
            true,
        ));
        assert(behind[0] == c);
    }
}

/// A single character is a word that is looked for, a minus like any other.
pub proof fn law_one_character(c: char)
    requires
        !is_white_space(c) && c != '"',
        c != '>' && c != '<' && c != '=' && c != ':',
    ensures
        clauses_of(seq![c]) == seq![
            ClauseView::Unkeyed {
                negated: false,
                text: lowercase(seq![c]),
                numeric_id: id_written(seq![c]),
            },
        ],
{
    let token = seq![c];
    assert(token[0] == c);
    law_no_comparison_no_key(token);
    lemma_trim_fixed(token, CharClass::Only('"'));
    law_white_space_divides(token, ' ', Seq::empty());
    lemma_one_token(token);
}

/// Quotation marks around a value are left out.
pub proof fn law_marks_around_values(open: Seq<char>, t: Seq<char>, close: Seq<char>)
    requires
        all_of(open, CharClass::Only('"')) && all_of(close, CharClass::Only('"')),
        t.len() > 0 ==> t[0] != '"' && t.last() != '"',
    ensures
        unquoted(open + t + close) == t,
{
    law_trim_both(open, t, close, CharClass::Only('"'));
}

/// More than one colon gives no time.
pub proof fn law_one_colon_at_most(a: Seq<char>, b: Seq<char>, c: Seq<char>)
    requires
        is_plain_word(a) && is_plain_word(b) && is_plain_word(c),
    ensures
        time_or_number(a + seq![':'] + b + seq![':'] + c) is None,
{
    let t = a + seq![':'] + b + seq![':'] + c;
    assert forall|i: int| 0 <= i < t.len() implies !is_white_space(#[trigger] t[i]) && t[i]
        != '"' by {
        if i < a.len() {
            assert(t[i] == a[i]);
        } else if a.len() < i < a.len() + 1 + b.len() {
            assert(t[i] == b[i - a.len() - 1]);
        } else if i > a.len() + 1 + b.len() {
            assert(t[i] == c[i - a.len() - b.len() - 2]);
        }
    }
    lemma_trim_fixed(t, CharClass::White);
    lemma_trim_fixed(t, CharClass::Only('"'));
    assert(t[a.len() as int] == ':');
    assert(t =~= a + seq![':'] + (b + seq![':'] + c));
    law_split_on_both_sides(a, ':', b + seq![':'] + c);
    law_split_on_both_sides(b, ':', c);
    lemma_split_nonempty(a, ':');
    lemma_split_nonempty(b, ':');
    lemma_split_nonempty(c, ':');
}

/// A search text is written only where there is none.
pub proof fn law_first_search_text(v: FiltersView)
    ensures
        v.query_text.len() > 0 ==> v.with_search_text() == v,
        v.query_text.len() == 0 ==> v.with_search_text().query_text == v.search_text(),
        v.with_search_text() == (FiltersView {
            query_text: v.with_search_text().query_text,
            ..v
        }),
{
}

} // verus!
