//! Controls written as a search are set from it as they were.

use crate::filters::{
    about, bound_of, bound_text, bound_token, bounds, bounds_asked, escaped, length_asked,
    length_token, length_within, mentions, mode_asked, mode_choice, mode_token, needle_of,
    needs_quotes, quoted, range_asked, text_asked, text_token, FiltersView, RangeFilter, SearchView,
    AR_RANGE, BPM_RANGE, CS_RANGE, HP_RANGE, OD_RANGE, STARS_RANGE,
};
use crate::local::LocalBeatmap;
use crate::numeral::short_number;
use crate::outside::lowercase;
use crate::query::{
    all_admit, bound_tolerance, clauses_of, flushed, has_lowered, is_key, key_op_val,
    key_op_val_from, lemma_tolerances, numeric_field, operators, split_at_operator, text_field,
    time_or_number, token_clause, token_clauses, tokens_from, tokens_of, unquoted, ClauseView,
    ComparisonOp, ModeFilter, NumericField, TextField,
};
use crate::rounding::law_sums_do_not_pass;
use crate::search_laws::{law_blank_boxes_ask_for_nothing, law_conditions_add_up};
use crate::short_numbers::{
    law_short_number_reads_back, lemma_rounded_finite, lemma_short_chars, rounded,
};
use crate::single::Single;
use crate::text::{
    ascii_lower, find, first_at, has_white_space, is_alphanumeric, is_digit, is_white_space, join,
    lemma_find, lemma_find_is_first, lemma_trim_both_ends, lemma_trim_fixed, occurs_at, trim,
    CharClass,
};
use vstd::prelude::*;

verus! {

// ---------------------------------------------------------------------------
// Tokens
// ---------------------------------------------------------------------------

/// The tokens behind a token: nothing at the end of a search, and those of
/// the rest behind a space.
pub open spec fn tokens_after(rest: Seq<char>) -> Seq<Seq<char>> {
    if rest.len() == 0 {
        Seq::empty()
    } else {
        tokens_from(rest.skip(1), Seq::empty(), false)
    }
}

/// Whether `written` is read as the token `read` where it stands between
/// spaces.
pub open spec fn reads_as(written: Seq<char>, read: Seq<char>) -> bool {
    &&& written.len() > 0
    &&& !is_white_space(written[0])
    &&& !is_white_space(written.last())
    &&& forall|rest: Seq<char>|
        rest.len() == 0 || rest[0] == ' ' ==> #[trigger] tokens_from(
            written + rest,
            Seq::empty(),
            false,
        ) == seq![read] + tokens_after(rest)
}

/// Whether a text goes into a token as it is.
pub open spec fn is_plain_word(s: Seq<char>) -> bool {
    forall|i: int| 0 <= i < s.len() ==> !is_white_space(#[trigger] s[i]) && s[i] != '"'
}

pub proof fn lemma_plain_run(word: Seq<char>, rest: Seq<char>, current: Seq<char>)
    requires
        is_plain_word(word),
    ensures
        tokens_from(word + rest, current, false) == tokens_from(rest, current + word, false),
    decreases word.len(),
{
    if word.len() == 0 {
        assert(word + rest =~= rest);
        assert(current + word =~= current);
    } else {
        let all = word + rest;
        assert(all[0] == word[0]);
        assert(all.skip(1) =~= word.skip(1) + rest);
        assert forall|i: int| 0 <= i < word.skip(1).len() implies !is_white_space(
            #[trigger] word.skip(1)[i],
        ) && word.skip(1)[i] != '"' by {
            assert(word.skip(1)[i] == word[i + 1]);
        }
        lemma_plain_run(word.skip(1), rest, current.push(word[0]));
        assert(current.push(word[0]) + word.skip(1) =~= current + word);
    }
}

/// Whether a text can stand between quotation marks: no backslash in it takes
/// away the meaning of what is written behind it.
pub open spec fn backslashes_stay(t: Seq<char>) -> bool {
    forall|i: int|
        0 <= i < t.len() && #[trigger] t[i] == '\\' ==> i + 1 < t.len() && t[i + 1] != '\\' && t[i
            + 1] != '"'
}

/// A character between quotation marks.
spec fn escaped_char(c: char) -> Seq<char> {
    if c == '"' {
        seq!['\\', '"']
    } else {
        seq![c]
    }
}

proof fn lemma_escaped_front(t: Seq<char>)
    requires
        t.len() > 0,
    ensures
        escaped(t) == escaped_char(t[0]) + escaped(t.skip(1)),
    decreases t.len(),
{
    if t.len() == 1 {
        assert(t.drop_last() =~= Seq::empty());
        assert(t.skip(1) =~= Seq::empty());
        assert(escaped(t) =~= escaped_char(t[0]) + escaped(t.skip(1)));
    } else {
        let init = t.drop_last();
        lemma_escaped_front(init);
        assert(init.skip(1) =~= t.skip(1).drop_last());
        assert(t.skip(1).last() == t.last());
        assert(escaped(t) =~= escaped_char(t[0]) + escaped(t.skip(1)));
    }
}

proof fn lemma_quoted_run(t: Seq<char>, rest: Seq<char>, current: Seq<char>)
    requires
        backslashes_stay(t),
    ensures
        tokens_from(escaped(t) + rest, current, true) == tokens_from(rest, current + t, true),
    decreases t.len(),
{
    if t.len() == 0 {
        assert(escaped(t) + rest =~= rest);
        assert(current + t =~= current);
    } else {
        let later = t.skip(1);
        let all = escaped(t) + rest;
        lemma_escaped_front(t);
        assert forall|i: int| 0 <= i < later.len() && #[trigger] later[i] == '\\' implies i + 1
            < later.len() && later[i + 1] != '\\' && later[i + 1] != '"' by {
            assert(later[i] == t[i + 1]);
        }
        if t[0] == '"' {
            assert(all[0] == '\\');
            assert(all[1] == '"');
            assert(all.skip(2) =~= escaped(later) + rest);
        } else {
            assert(all[0] == t[0]);
            assert(all.skip(1) =~= escaped(later) + rest);
            if t[0] == '\\' {
                lemma_escaped_front(later);
                assert(later[0] == t[1]);
                assert(all[1] == t[1]);
            }
        }
        lemma_quoted_run(later, rest, current.push(t[0]));
        assert(current.push(t[0]) + later =~= current + t);
    }
}

/// What a token ends with, behind the text of it.
proof fn lemma_token_end(token: Seq<char>, rest: Seq<char>)
    requires
        token.len() > 0,
        !is_white_space(token[0]),
        !is_white_space(token.last()),
        rest.len() == 0 || rest[0] == ' ',
    ensures
        tokens_from(rest, token, false) == seq![token] + tokens_after(rest),
{
    lemma_trim_fixed(token, CharClass::White);
    assert(flushed(token) == seq![token]);
    if rest.len() == 0 {
        assert(seq![token] + tokens_after(rest) =~= seq![token]);
    }
}

pub proof fn lemma_plain_reads(word: Seq<char>)
    requires
        word.len() > 0,
        is_plain_word(word),
    ensures
        reads_as(word, word),
{
    assert forall|rest: Seq<char>| rest.len() == 0 || rest[0] == ' ' implies #[trigger] tokens_from(
        word + rest,
        Seq::empty(),
        false,
    ) == seq![word] + tokens_after(rest) by {
        lemma_plain_run(word, rest, Seq::empty());
        assert(Seq::empty() + word =~= word);
        lemma_token_end(word, rest);
    }
}

/// A text that comes back as it was when it is written as the value of a
/// condition and read again.
pub open spec fn survives(t: Seq<char>) -> bool {
    t.len() > 0 ==> {
        &&& t[0] != '='
        &&& t[0] != '"'
        &&& t.last() != '"'
        &&& if needs_quotes(t) {
            backslashes_stay(t)
        } else {
            !has_white_space(t)
        }
    }
}

pub proof fn lemma_value_reads(key: Seq<char>, t: Seq<char>)
    requires
        is_key(key),
        t.len() > 0,
        !is_white_space(t[0]),
        !is_white_space(t.last()),
        survives(t),
    ensures
        reads_as(key + "="@ + quoted(t), key + "="@ + t),
{
    reveal_strlit("=");
    let lead = key + "="@;
    let token = lead + t;
    assert(lead[0] == key[0]);
    assert(is_alphanumeric(key[0]) || key[0] == '_');
    assert forall|i: int| 0 <= i < lead.len() implies !is_white_space(#[trigger] lead[i])
        && lead[i] != '"' by {
        if i < key.len() {
            assert(lead[i] == key[i]);
        }
    }
    assert(token[0] == lead[0]);
    assert(token.last() == t.last());
    if needs_quotes(t) {
        let inner = escaped(t) + seq!['"'];
        let written = lead + quoted(t);
        assert(written =~= lead + (seq!['"'] + inner));
        assert(written.last() == '"');
        assert forall|rest: Seq<char>|
            rest.len() == 0 || rest[0] == ' ' implies #[trigger] tokens_from(
            written + rest,
            Seq::empty(),
            false,
        ) == seq![token] + tokens_after(rest) by {
            let opened = seq!['"'] + inner + rest;
            let closing = seq!['"'] + rest;
            assert(written + rest =~= lead + opened);
            lemma_plain_run(lead, opened, Seq::empty());
            assert(Seq::empty() + lead =~= lead);
            assert(opened[0] == '"');
            assert(opened.skip(1) =~= escaped(t) + closing);
            lemma_quoted_run(t, closing, lead);
            assert(closing[0] == '"');
            assert(closing.skip(1) =~= rest);
            lemma_token_end(token, rest);
        }
    } else {
        assert forall|i: int| 0 <= i < token.len() implies !is_white_space(#[trigger] token[i])
            && token[i] != '"' by {
            if i < lead.len() {
                assert(token[i] == lead[i]);
            } else {
                assert(token[i] == t[i - lead.len()]);
                assert(t.contains(t[i - lead.len()]));
            }
        }
        lemma_plain_reads(token);
    }
}

/// Whether each written token is read as the token of the same index.
pub open spec fn all_read(written: Seq<Seq<char>>, read: Seq<Seq<char>>) -> bool {
    &&& written.len() == read.len()
    &&& forall|i: int| 0 <= i < written.len() ==> #[trigger] reads_as(written[i], read[i])
}

proof fn lemma_join_reads(written: Seq<Seq<char>>, read: Seq<Seq<char>>, rest: Seq<char>)
    requires
        written.len() > 0,
        all_read(written, read),
        rest.len() == 0 || rest[0] == ' ',
    ensures
        tokens_from(join(written, " "@) + rest, Seq::empty(), false) == read + tokens_after(rest),
        join(written, " "@).len() > 0,
        join(written, " "@)[0] == written[0][0],
        join(written, " "@).last() == written.last().last(),
    decreases written.len(),
{
    reveal_strlit(" ");
    if written.len() == 1 {
        assert(reads_as(written[0], read[0]));
        assert(read =~= seq![read[0]]);
    } else {
        let w = written.drop_last();
        let r = read.drop_last();
        let last = written.last();
        assert forall|i: int| 0 <= i < w.len() implies #[trigger] reads_as(w[i], r[i]) by {
            assert(reads_as(written[i], read[i]));
        }
        let behind = " "@ + last + rest;
        assert(behind[0] == ' ');
        assert(behind.skip(1) =~= last + rest);
        lemma_join_reads(w, r, behind);
        assert(join(written, " "@) + rest =~= join(w, " "@) + behind);
        assert(reads_as(written[written.len() - 1], read[read.len() - 1]));
        assert(tokens_after(behind) == tokens_from(last + rest, Seq::empty(), false));
        assert(r + (seq![read.last()] + tokens_after(rest)) =~= read + tokens_after(rest));
    }
}

/// A search of written tokens is read as those tokens.
pub proof fn lemma_search_reads(written: Seq<Seq<char>>, read: Seq<Seq<char>>)
    requires
        written.len() > 0,
        all_read(written, read),
    ensures
        tokens_of(join(written, " "@)) == read,
        trim(join(written, " "@)) == join(written, " "@),
        join(written, " "@).len() > 0,
{
    let text = join(written, " "@);
    lemma_join_reads(written, read, Seq::empty());
    assert(text + Seq::empty() =~= text);
    assert(read + tokens_after(Seq::empty()) =~= read);
    assert(reads_as(written[0], read[0]));
    assert(reads_as(written[written.len() - 1], read[read.len() - 1]));
    lemma_trim_fixed(text, CharClass::White);
}

// ---------------------------------------------------------------------------
// Conditions
// ---------------------------------------------------------------------------

/// An operator does not divide a token at its first place, where that place
/// lies behind a character that no key holds.
pub proof fn lemma_no_split(token: Seq<char>, n: int, symbol: Seq<char>, op: ComparisonOp)
    requires
        0 <= n < token.len(),
        is_key(token.take(n)),
        !is_alphanumeric(token[n]) && token[n] != '_',
        symbol.len() > 0,
        !is_alphanumeric(symbol[0]) && symbol[0] != '_',
        !occurs_at(token, symbol, n),
    ensures
        split_at_operator(token, symbol, op) is None,
{
    lemma_find_is_first(token, symbol);
    if let Some(pos) = find(token, symbol) {
        let piece = token.subrange(pos, pos + symbol.len());
        assert(piece[0] == token[pos]);
        if pos < n {
            assert(token.take(n)[pos] == token[pos]);
        } else {
            let key = token.take(pos);
            assert(key[n] == token[n]);
        }
    }
}

/// An operator divides a token behind its key.
pub proof fn lemma_split(token: Seq<char>, n: int, symbol: Seq<char>, op: ComparisonOp)
    requires
        0 <= n < token.len(),
        is_key(token.take(n)),
        symbol.len() > 0,
        !is_alphanumeric(symbol[0]) && symbol[0] != '_',
        occurs_at(token, symbol, n),
    ensures
        split_at_operator(token, symbol, op) == Some(
            (token.take(n), op, token.skip(n + symbol.len())),
        ),
{
    assert forall|j: int| 0 <= j < n implies !occurs_at(token, symbol, j) by {
        if occurs_at(token, symbol, j) {
            let piece = token.subrange(j, j + symbol.len());
            assert(piece[0] == token[j]);
            assert(token.take(n)[j] == token[j]);
        }
    }
    assert(first_at(token, symbol, n));
    lemma_find(token, symbol, n);
}

pub proof fn lemma_operators()
    ensures
        operators().len() == 8,
        operators()[0] == (">="@, ComparisonOp::GreaterThanOrEqual),
        operators()[1] == ("<="@, ComparisonOp::LessThanOrEqual),
        operators()[2] == ("!="@, ComparisonOp::NotEqual),
        operators()[3] == ("=="@, ComparisonOp::Equal),
        operators()[4] == (">"@, ComparisonOp::GreaterThan),
        operators()[5] == ("<"@, ComparisonOp::LessThan),
        operators()[6] == ("="@, ComparisonOp::Equal),
        ">="@ == seq!['>', '='],
        "<="@ == seq!['<', '='],
        "!="@ == seq!['!', '='],
        "=="@ == seq!['=', '='],
        ">"@ == seq!['>'],
        "<"@ == seq!['<'],
        "="@ == seq!['='],
{
    reveal_strlit(">=");
    reveal_strlit("<=");
    reveal_strlit("!=");
    reveal_strlit("==");
    reveal_strlit(">");
    reveal_strlit("<");
    reveal_strlit("=");
    assert(">="@ =~= seq!['>', '=']);
    assert("<="@ =~= seq!['<', '=']);
    assert("!="@ =~= seq!['!', '=']);
    assert("=="@ =~= seq!['=', '=']);
    assert(">"@ =~= seq!['>']);
    assert("<"@ =~= seq!['<']);
    assert("="@ =~= seq!['=']);
}

/// The first character of a symbol that occurs somewhere.
pub proof fn lemma_occurs_first(token: Seq<char>, symbol: Seq<char>, n: int)
    requires
        occurs_at(token, symbol, n),
        symbol.len() > 0,
    ensures
        token[n] == symbol[0],
        symbol.len() > 1 ==> n + 1 < token.len() && token[n + 1] == symbol[1],
{
    let piece = token.subrange(n, n + symbol.len());
    assert(piece[0] == token[n]);
    if symbol.len() > 1 {
        assert(piece[1] == token[n + 1]);
    }
}

/// Key, operator and value of a token with an equals sign behind its key.
pub proof fn lemma_key_equals(key: Seq<char>, t: Seq<char>)
    requires
        is_key(key),
        t.len() > 0 ==> t[0] != '=',
    ensures
        key_op_val(key + "="@ + t) == Some((key, ComparisonOp::Equal, t)),
{
    lemma_operators();
    let token = key + "="@ + t;
    let n = key.len() as int;
    assert(token.take(n) =~= key);
    assert(token[n] == '=');
    if t.len() > 0 {
        assert(token[n + 1] == t[0]);
    }
    assert forall|symbol: Seq<char>|
        symbol.len() > 0 && (symbol[0] != '=' || (symbol.len() > 1 && symbol[1]
            == '=')) implies !(#[trigger] occurs_at(token, symbol, n)) by {
        if occurs_at(token, symbol, n) {
            lemma_occurs_first(token, symbol, n);
        }
    }
    lemma_no_split(token, n, ">="@, ComparisonOp::GreaterThanOrEqual);
    lemma_no_split(token, n, "<="@, ComparisonOp::LessThanOrEqual);
    lemma_no_split(token, n, "!="@, ComparisonOp::NotEqual);
    lemma_no_split(token, n, "=="@, ComparisonOp::Equal);
    lemma_no_split(token, n, ">"@, ComparisonOp::GreaterThan);
    lemma_no_split(token, n, "<"@, ComparisonOp::LessThan);
    assert(token.subrange(n, n + 1) =~= "="@);
    lemma_split(token, n, "="@, ComparisonOp::Equal);
    assert(token.skip(n + 1) =~= t);
    reveal_with_fuel(key_op_val_from, 8);
}

/// Key, operator and value of a token with `>=` behind its key.
pub proof fn lemma_key_at_least(key: Seq<char>, t: Seq<char>)
    requires
        is_key(key),
    ensures
        key_op_val(key + ">="@ + t) == Some((key, ComparisonOp::GreaterThanOrEqual, t)),
{
    lemma_operators();
    let token = key + ">="@ + t;
    let n = key.len() as int;
    assert(token.take(n) =~= key);
    assert(token.subrange(n, n + 2) =~= ">="@);
    lemma_split(token, n, ">="@, ComparisonOp::GreaterThanOrEqual);
    assert(token.skip(n + 2) =~= t);
    reveal_with_fuel(key_op_val_from, 2);
}

/// Key, operator and value of a token with `<=` behind its key.
pub proof fn lemma_key_at_most(key: Seq<char>, t: Seq<char>)
    requires
        is_key(key),
    ensures
        key_op_val(key + "<="@ + t) == Some((key, ComparisonOp::LessThanOrEqual, t)),
{
    lemma_operators();
    let token = key + "<="@ + t;
    let n = key.len() as int;
    assert(token.take(n) =~= key);
    assert(token[n] == '<');
    if occurs_at(token, ">="@, n) {
        lemma_occurs_first(token, ">="@, n);
    }
    lemma_no_split(token, n, ">="@, ComparisonOp::GreaterThanOrEqual);
    assert(token.subrange(n, n + 2) =~= "<="@);
    lemma_split(token, n, "<="@, ComparisonOp::LessThanOrEqual);
    assert(token.skip(n + 2) =~= t);
    reveal_with_fuel(key_op_val_from, 3);
}

/// Whether a text is a key in small letters.
pub open spec fn is_small_key(key: Seq<char>) -> bool {
    is_key(key) && ascii_lower(key) == key
}

pub proof fn lemma_number_keys()
    ensures
        is_small_key("length"@) && numeric_field("length"@) == Some(NumericField::Length),
        is_small_key("stars"@) && numeric_field("stars"@) == Some(NumericField::Stars),
        is_small_key("ar"@) && numeric_field("ar"@) == Some(NumericField::Ar),
        is_small_key("cs"@) && numeric_field("cs"@) == Some(NumericField::Cs),
        is_small_key("od"@) && numeric_field("od"@) == Some(NumericField::Od),
        is_small_key("hp"@) && numeric_field("hp"@) == Some(NumericField::Hp),
        is_small_key("bpm"@) && numeric_field("bpm"@) == Some(NumericField::Bpm),
{
    reveal_strlit("stars");
    reveal_strlit("sr");
    reveal_strlit("star");
    reveal_strlit("ar");
    reveal_strlit("cs");
    reveal_strlit("od");
    reveal_strlit("hp");
    reveal_strlit("dr");
    reveal_strlit("bpm");
    reveal_strlit("length");
    reveal_strlit("drain");
    reveal_strlit("len");
    reveal_strlit("time");
    reveal_strlit("circles");
    reveal_strlit("circle");
    reveal_strlit("sliders");
    reveal_strlit("slider");
    reveal_strlit("keys");
    reveal_strlit("key");
    assert("length"@[0] != "circle"@[0]);
    assert("length"@[0] != "slider"@[0]);
    assert("stars"@[0] != "drain"@[0]);
    assert("ar"@[0] != "sr"@[0]);
    assert("ar"@[0] != "cs"@[0]);
    assert("ar"@[0] != "od"@[0]);
    assert("ar"@[0] != "hp"@[0]);
    assert("ar"@[0] != "dr"@[0]);
    assert("cs"@[0] != "sr"@[0]);
    assert("cs"@[0] != "od"@[0]);
    assert("cs"@[0] != "hp"@[0]);
    assert("cs"@[0] != "dr"@[0]);
    assert("od"@[0] != "sr"@[0]);
    assert("od"@[0] != "hp"@[0]);
    assert("od"@[0] != "dr"@[0]);
    assert("hp"@[0] != "sr"@[0]);
    assert("hp"@[0] != "dr"@[0]);
    assert("bpm"@[0] != "len"@[0]);
    assert("bpm"@[0] != "key"@[0]);
    assert(ascii_lower("length"@) =~= "length"@);
    assert(ascii_lower("stars"@) =~= "stars"@);
    assert(ascii_lower("ar"@) =~= "ar"@);
    assert(ascii_lower("cs"@) =~= "cs"@);
    assert(ascii_lower("od"@) =~= "od"@);
    assert(ascii_lower("hp"@) =~= "hp"@);
    assert(ascii_lower("bpm"@) =~= "bpm"@);
}

pub proof fn lemma_text_keys()
    ensures
        is_small_key("artist"@) && numeric_field("artist"@) is None && text_field("artist"@) == Some(
            TextField::Artist,
        ),
        is_small_key("title"@) && numeric_field("title"@) is None && text_field("title"@) == Some(
            TextField::Title,
        ),
        is_small_key("creator"@) && numeric_field("creator"@) is None && text_field("creator"@) == Some(
            TextField::Creator,
        ),
        is_small_key("difficulty"@) && numeric_field("difficulty"@) is None && text_field("difficulty"@) == Some(
            TextField::Difficulty,
        ),
        is_small_key("tag"@) && numeric_field("tag"@) is None && text_field("tag"@) == Some(
            TextField::Tag,
        ),
        is_small_key("mode"@) && numeric_field("mode"@) is None && text_field("mode"@) is None,
{
    reveal_strlit("stars");
    reveal_strlit("sr");
    reveal_strlit("star");
    reveal_strlit("ar");
    reveal_strlit("cs");
    reveal_strlit("od");
    reveal_strlit("hp");
    reveal_strlit("dr");
    reveal_strlit("bpm");
    reveal_strlit("length");
    reveal_strlit("drain");
    reveal_strlit("len");
    reveal_strlit("time");
    reveal_strlit("circles");
    reveal_strlit("circle");
    reveal_strlit("sliders");
    reveal_strlit("slider");
    reveal_strlit("keys");
    reveal_strlit("key");
    reveal_strlit("artist");
    reveal_strlit("title");
    reveal_strlit("creator");
    reveal_strlit("mapper");
    reveal_strlit("author");
    reveal_strlit("diff");
    reveal_strlit("difficulty");
    reveal_strlit("version");
    reveal_strlit("source");
    reveal_strlit("tag");
    reveal_strlit("tags");
    reveal_strlit("mode");
    reveal_strlit("m");
    reveal_strlit("status");
    assert("artist"@[0] != "length"@[0]);
    assert("artist"@[0] != "circle"@[0]);
    assert("artist"@[0] != "slider"@[0]);
    assert("artist"@[0] != "mapper"@[0]);
    assert("artist"@[1] != "author"@[1]);
    assert("artist"@[0] != "source"@[0]);
    assert("artist"@[0] != "status"@[0]);
    assert("title"@[0] != "stars"@[0]);
    assert("title"@[0] != "drain"@[0]);
    assert("creator"@[1] != "circles"@[1]);
    assert("creator"@[0] != "sliders"@[0]);
    assert("creator"@[0] != "version"@[0]);
    assert("tag"@[0] != "bpm"@[0]);
    assert("tag"@[0] != "len"@[0]);
    assert("tag"@[0] != "key"@[0]);
    assert("mode"@[0] != "star"@[0]);
    assert("mode"@[0] != "time"@[0]);
    assert("mode"@[0] != "keys"@[0]);
    assert("mode"@[0] != "diff"@[0]);
    assert("mode"@[0] != "tags"@[0]);
    assert(ascii_lower("artist"@) =~= "artist"@);
    assert(ascii_lower("title"@) =~= "title"@);
    assert(ascii_lower("creator"@) =~= "creator"@);
    assert(ascii_lower("difficulty"@) =~= "difficulty"@);
    assert(ascii_lower("tag"@) =~= "tag"@);
    assert(ascii_lower("mode"@) =~= "mode"@);
}

/// The condition of a token that a text box gives.
proof fn lemma_text_clause(key: Seq<char>, field: TextField, t: Seq<char>)
    requires
        is_small_key(key),
        numeric_field(key) is None,
        text_field(key) == Some(field),
        t.len() > 0,
        survives(t),
    ensures
        token_clause(key + "="@ + t) == Some(
            ClauseView::Text { field, op: ComparisonOp::Equal, value: lowercase(t) },
        ),
{
    lemma_key_equals(key, t);
    lemma_trim_fixed(t, CharClass::Only('"'));
}

/// A written number is read as the number it was rounded to.
pub proof fn lemma_number_value(x: Single)
    requires
        x.finite(),
    ensures
        unquoted(short_number(x)) == short_number(x),
        time_or_number(short_number(x)) == Some(rounded(x)),
{
    let s = short_number(x);
    lemma_short_chars(x);
    assert(is_digit(s[0]) || s[0] == '.' || s[0] == '-');
    assert(is_digit(s[s.len() - 1]) || s[s.len() - 1] == '.' || s[s.len() - 1] == '-');
    lemma_trim_fixed(s, CharClass::White);
    lemma_trim_fixed(s, CharClass::Only('"'));
    assert(!s.contains(':')) by {
        assert forall|i: int| 0 <= i < s.len() implies s[i] != ':' by {
            assert(is_digit(s[i]) || s[i] == '.' || s[i] == '-');
        }
    }
    law_short_number_reads_back(x);
    lemma_rounded_finite(x);
}

/// The condition of a lower bound.
proof fn lemma_at_least_clause(key: Seq<char>, field: NumericField, x: Single)
    requires
        is_small_key(key),
        numeric_field(key) == Some(field),
        x.finite(),
    ensures
        token_clause(bound_token(key, ">="@, x)) == Some(
            ClauseView::Numeric {
                field,
                op: ComparisonOp::GreaterThanOrEqual,
                value: rounded(x),
            },
        ),
        reads_as(bound_token(key, ">="@, x), bound_token(key, ">="@, x)),
{
    lemma_key_at_least(key, short_number(x));
    lemma_number_value(x);
    lemma_operators();
    lemma_bound_is_plain(key, ">="@, x);
}

/// The condition of an upper bound.
proof fn lemma_at_most_clause(key: Seq<char>, field: NumericField, x: Single)
    requires
        is_small_key(key),
        numeric_field(key) == Some(field),
        x.finite(),
    ensures
        token_clause(bound_token(key, "<="@, x)) == Some(
            ClauseView::Numeric { field, op: ComparisonOp::LessThanOrEqual, value: rounded(x) },
        ),
        reads_as(bound_token(key, "<="@, x), bound_token(key, "<="@, x)),
{
    lemma_key_at_most(key, short_number(x));
    lemma_number_value(x);
    lemma_operators();
    lemma_bound_is_plain(key, "<="@, x);
}

pub proof fn lemma_bound_is_plain(key: Seq<char>, op: Seq<char>, x: Single)
    requires
        is_key(key),
        is_plain_word(op),
        x.finite(),
    ensures
        reads_as(bound_token(key, op, x), bound_token(key, op, x)),
{
    let token = bound_token(key, op, x);
    let s = short_number(x);
    lemma_short_chars(x);
    assert forall|i: int| 0 <= i < token.len() implies !is_white_space(#[trigger] token[i])
        && token[i] != '"' by {
        if i < key.len() {
            assert(token[i] == key[i]);
        } else if i < key.len() + op.len() {
            assert(token[i] == op[i - key.len()]);
        } else {
            assert(token[i] == s[i - key.len() - op.len()]);
        }
    }
    lemma_plain_reads(token);
}

proof fn lemma_mode_clause(mode: ModeFilter, name: Seq<char>)
    requires
        mode.token_text() == Some(name),
    ensures
        reads_as("mode="@ + name, "mode="@ + name),
        token_clause("mode="@ + name) matches Some(
            ClauseView::Mode { op: ComparisonOp::Equal, target_mode },
        ) && mode_choice(target_mode) == mode,
{
    reveal_strlit("mode=");
    reveal_strlit("mode");
    reveal_strlit("=");
    reveal_strlit("osu");
    reveal_strlit("taiko");
    reveal_strlit("catch");
    reveal_strlit("mania");
    reveal_strlit("std");
    reveal_strlit("standard");
    reveal_strlit("o");
    reveal_strlit("0");
    reveal_strlit("t");
    reveal_strlit("1");
    reveal_strlit("ctb");
    reveal_strlit("fruits");
    reveal_strlit("c");
    reveal_strlit("2");
    reveal_strlit("m");
    reveal_strlit("3");
    let token = "mode="@ + name;
    lemma_text_keys();
    assert(token =~= "mode"@ + "="@ + name);
    lemma_key_equals("mode"@, name);
    lemma_trim_fixed(name, CharClass::Only('"'));
    assert(vstd::utf8::is_ascii_chars(name));
    assert(ascii_lower(name) =~= name);
    assert forall|i: int| 0 <= i < token.len() implies !is_white_space(#[trigger] token[i])
        && token[i] != '"' by {
        if i >= 5 {
            assert(token[i] == name[i - 5]);
        }
    }
    lemma_plain_reads(token);
}

// ---------------------------------------------------------------------------
// Pieces
// ---------------------------------------------------------------------------

/// What a condition is about.
enum Topic {
    Words(TextField),
    Number(NumericField),
    Mode,
    Other,
}

spec fn topic_of(clause: ClauseView) -> Topic {
    match clause {
        ClauseView::Text { field, .. } => Topic::Words(field),
        ClauseView::Numeric { field, .. } => Topic::Number(field),
        ClauseView::Mode { .. } => Topic::Mode,
        _ => Topic::Other,
    }
}

/// Lists one after the other.
spec fn flat<A>(pieces: Seq<Seq<A>>) -> Seq<A>
    decreases pieces.len(),
{
    if pieces.len() == 0 {
        Seq::empty()
    } else {
        flat(pieces.drop_last()) + pieces.last()
    }
}

/// The conditions about a topic.
spec fn on_topic(clauses: Seq<ClauseView>, topic: Topic) -> Seq<ClauseView>
    decreases clauses.len(),
{
    if clauses.len() == 0 {
        Seq::empty()
    } else {
        let earlier = on_topic(clauses.drop_last(), topic);
        if topic_of(clauses.last()) == topic {
            earlier.push(clauses.last())
        } else {
            earlier
        }
    }
}

spec fn only_about(clauses: Seq<ClauseView>, topic: Topic) -> bool {
    forall|i: int| 0 <= i < clauses.len() ==> topic_of(#[trigger] clauses[i]) == topic
}

proof fn lemma_on_topic_concat(a: Seq<ClauseView>, b: Seq<ClauseView>, topic: Topic)
    ensures
        on_topic(a + b, topic) == on_topic(a, topic) + on_topic(b, topic),
    decreases b.len(),
{
    if b.len() == 0 {
        assert(a + b =~= a);
        assert(on_topic(a, topic) + on_topic(b, topic) =~= on_topic(a, topic));
    } else {
        lemma_on_topic_concat(a, b.drop_last(), topic);
        assert((a + b).drop_last() =~= a + b.drop_last());
        assert((a + b).last() == b.last());
        assert(on_topic(a + b, topic) =~= on_topic(a, topic) + on_topic(b, topic));
    }
}

proof fn lemma_on_topic_piece(piece: Seq<ClauseView>, about: Topic, topic: Topic)
    requires
        only_about(piece, about),
    ensures
        on_topic(piece, topic) == (if about == topic {
            piece
        } else {
            Seq::empty()
        }),
    decreases piece.len(),
{
    if piece.len() > 0 {
        assert(topic_of(piece[piece.len() - 1]) == about);
        lemma_on_topic_piece(piece.drop_last(), about, topic);
        assert(piece.drop_last().push(piece.last()) =~= piece);
    } else {
        assert(on_topic(piece, topic) =~= Seq::empty());
        assert(piece =~= Seq::empty());
    }
}

/// Among pieces about different topics, one holds what is said of its topic.
proof fn lemma_one_piece(pieces: Seq<Seq<ClauseView>>, topics: Seq<Topic>, i: int)
    requires
        pieces.len() == topics.len(),
        0 <= i < pieces.len(),
        forall|j: int| 0 <= j < pieces.len() ==> #[trigger] only_about(pieces[j], topics[j]),
        forall|j: int| 0 <= j < pieces.len() && j != i ==> #[trigger] topics[j] != topics[i],
    ensures
        on_topic(flat(pieces), topics[i]) == pieces[i],
    decreases pieces.len(),
{
    let n = pieces.len() - 1;
    let topic = topics[i];
    lemma_on_topic_concat(flat(pieces.drop_last()), pieces.last(), topic);
    assert(only_about(pieces[n], topics[n]));
    lemma_on_topic_piece(pieces.last(), topics[n], topic);
    if i == n {
        lemma_no_piece(pieces.drop_last(), topics.drop_last(), topic);
        assert(Seq::empty() + pieces[i] =~= pieces[i]);
    } else {
        lemma_one_piece(pieces.drop_last(), topics.drop_last(), i);
        assert(pieces[i] + Seq::empty() =~= pieces[i]);
    }
}

proof fn lemma_no_piece(pieces: Seq<Seq<ClauseView>>, topics: Seq<Topic>, topic: Topic)
    requires
        pieces.len() == topics.len(),
        forall|j: int| 0 <= j < pieces.len() ==> #[trigger] only_about(pieces[j], topics[j]),
        forall|j: int| 0 <= j < pieces.len() ==> #[trigger] topics[j] != topic,
    ensures
        on_topic(flat(pieces), topic) == Seq::<ClauseView>::empty(),
    decreases pieces.len(),
{
    if pieces.len() > 0 {
        let n = pieces.len() - 1;
        lemma_on_topic_concat(flat(pieces.drop_last()), pieces.last(), topic);
        assert(only_about(pieces[n], topics[n]));
        lemma_on_topic_piece(pieces.last(), topics[n], topic);
        lemma_no_piece(pieces.drop_last(), topics.drop_last(), topic);
        assert(Seq::<ClauseView>::empty() + Seq::empty() =~= Seq::empty());
    }
}

// Each control looks at the conditions about its topic alone.

proof fn lemma_text_on_topic(clauses: Seq<ClauseView>, field: TextField, start: Seq<char>)
    ensures
        text_asked(clauses, field, start) == text_asked(
            on_topic(clauses, Topic::Words(field)),
            field,
            start,
        ),
    decreases clauses.len(),
{
    if clauses.len() > 0 {
        lemma_text_on_topic(clauses.drop_last(), field, start);
        let picked = on_topic(clauses, Topic::Words(field));
        let earlier = on_topic(clauses.drop_last(), Topic::Words(field));
        if topic_of(clauses.last()) == Topic::Words(field) {
            assert(picked.drop_last() =~= earlier);
        }
    }
}

proof fn lemma_mode_on_topic(clauses: Seq<ClauseView>, start: ModeFilter)
    ensures
        mode_asked(clauses, start) == mode_asked(on_topic(clauses, Topic::Mode), start),
    decreases clauses.len(),
{
    if clauses.len() > 0 {
        lemma_mode_on_topic(clauses.drop_last(), start);
        let picked = on_topic(clauses, Topic::Mode);
        let earlier = on_topic(clauses.drop_last(), Topic::Mode);
        if topic_of(clauses.last()) == Topic::Mode {
            assert(picked.drop_last() =~= earlier);
        }
    }
}

proof fn lemma_bounds_on_topic(
    clauses: Seq<ClauseView>,
    field: NumericField,
    start: (Single, Single),
)
    ensures
        bounds_asked(clauses, field, start) == bounds_asked(
            on_topic(clauses, Topic::Number(field)),
            field,
            start,
        ),
        mentions(clauses, field) == (on_topic(clauses, Topic::Number(field)).len() > 0),
    decreases clauses.len(),
{
    let topic = Topic::Number(field);
    if clauses.len() > 0 {
        let init = clauses.drop_last();
        lemma_bounds_on_topic(init, field, start);
        let picked = on_topic(clauses, topic);
        let earlier = on_topic(init, topic);
        if topic_of(clauses.last()) == topic {
            assert(picked.drop_last() =~= earlier);
            assert(about(clauses[clauses.len() - 1], field));
        } else {
            if mentions(clauses, field) {
                let i = choose|i: int|
                    0 <= i < clauses.len() && about(#[trigger] clauses[i], field);
                assert(about(init[i], field));
            }
            if mentions(init, field) {
                let i = choose|i: int| 0 <= i < init.len() && about(#[trigger] init[i], field);
                assert(about(clauses[i], field));
            }
        }
    }
}

proof fn lemma_length_on_topic(
    clauses: Seq<ClauseView>,
    start: (Option<Single>, Option<Single>),
)
    ensures
        length_asked(clauses, start) == length_asked(
            on_topic(clauses, Topic::Number(NumericField::Length)),
            start,
        ),
    decreases clauses.len(),
{
    let topic = Topic::Number(NumericField::Length);
    if clauses.len() > 0 {
        lemma_length_on_topic(clauses.drop_last(), start);
        let picked = on_topic(clauses, topic);
        let earlier = on_topic(clauses.drop_last(), topic);
        if topic_of(clauses.last()) == topic {
            assert(picked.drop_last() =~= earlier);
        }
    }
}

pub proof fn lemma_token_clauses_concat(a: Seq<Seq<char>>, b: Seq<Seq<char>>)
    ensures
        token_clauses(a + b) == token_clauses(a) + token_clauses(b),
    decreases b.len(),
{
    if b.len() == 0 {
        assert(a + b =~= a);
        assert(token_clauses(a) + token_clauses(b) =~= token_clauses(a));
    } else {
        lemma_token_clauses_concat(a, b.drop_last());
        assert((a + b).drop_last() =~= a + b.drop_last());
        assert((a + b).last() == b.last());
        assert(token_clauses(a + b) =~= token_clauses(a) + token_clauses(b));
    }
}

/// A control as it is written, read, and understood.
struct Piece {
    written: Seq<Seq<char>>,
    read: Seq<Seq<char>>,
    clauses: Seq<ClauseView>,
    topic: Topic,
}

impl Piece {
    #[verifier::opaque]
    spec fn wf(self) -> bool {
        &&& all_read(self.written, self.read)
        &&& token_clauses(self.read) == self.clauses
        &&& only_about(self.clauses, self.topic)
    }
}

spec fn all_written(pieces: Seq<Piece>) -> Seq<Seq<Seq<char>>> {
    pieces.map_values(|piece: Piece| piece.written)
}

spec fn all_clauses(pieces: Seq<Piece>) -> Seq<Seq<ClauseView>> {
    pieces.map_values(|piece: Piece| piece.clauses)
}

spec fn all_topics(pieces: Seq<Piece>) -> Seq<Topic> {
    pieces.map_values(|piece: Piece| piece.topic)
}

/// The tokens of all pieces are read one by one, and understood one by one.
proof fn lemma_pieces_read(pieces: Seq<Piece>) -> (read: Seq<Seq<char>>)
    requires
        forall|i: int| 0 <= i < pieces.len() ==> (#[trigger] pieces[i]).wf(),
    ensures
        all_read(flat(all_written(pieces)), read),
        token_clauses(read) == flat(all_clauses(pieces)),
    decreases pieces.len(),
{
    reveal(Piece::wf);
    if pieces.len() == 0 {
        assert(all_written(pieces) =~= Seq::empty());
        assert(all_clauses(pieces) =~= Seq::empty());
        Seq::empty()
    } else {
        let init = pieces.drop_last();
        let last = pieces.last();
        let earlier = lemma_pieces_read(init);
        assert(pieces[pieces.len() - 1].wf());
        let written = flat(all_written(init));
        assert(all_written(pieces).drop_last() =~= all_written(init));
        assert(all_clauses(pieces).drop_last() =~= all_clauses(init));
        assert(all_written(pieces).last() == last.written);
        assert(all_clauses(pieces).last() == last.clauses);
        let read = earlier + last.read;
        let all = written + last.written;
        assert forall|i: int| 0 <= i < all.len() implies #[trigger] reads_as(all[i], read[i]) by {
            if i < written.len() {
                assert(reads_as(written[i], earlier[i]));
            } else {
                assert(reads_as(last.written[i - written.len()], last.read[i - written.len()]));
            }
        }
        lemma_token_clauses_concat(earlier, last.read);
        read
    }
}

// ---------------------------------------------------------------------------
// The pieces of the controls
// ---------------------------------------------------------------------------

/// The conditions that a text box gives.
spec fn word_clauses(field: TextField, value: Seq<char>) -> Seq<ClauseView> {
    if trim(value).len() == 0 {
        Seq::empty()
    } else {
        seq![
            ClauseView::Text { field, op: ComparisonOp::Equal, value: lowercase(trim(value)) },
        ]
    }
}

#[verifier::opaque]
spec fn word_piece(key: Seq<char>, field: TextField, value: Seq<char>) -> Piece {
    Piece {
        written: text_token(key, value),
        read: if trim(value).len() == 0 {
            Seq::empty()
        } else {
            seq![key + "="@ + trim(value)]
        },
        clauses: word_clauses(field, value),
        topic: Topic::Words(field),
    }
}

pub proof fn lemma_one_token(token: Seq<char>)
    ensures
        token_clauses(seq![token]) == (match token_clause(token) {
            Some(clause) => seq![clause],
            None => Seq::empty(),
        }),
{
    assert(seq![token].drop_last() =~= Seq::empty());
    reveal_with_fuel(token_clauses, 2);
    assert(token_clauses(seq![token]) =~= (match token_clause(token) {
        Some(clause) => seq![clause],
        None => Seq::empty(),
    }));
}

proof fn lemma_word_piece(key: Seq<char>, field: TextField, value: Seq<char>)
    requires
        is_small_key(key),
        numeric_field(key) is None,
        text_field(key) == Some(field),
        survives(trim(value)),
    ensures
        word_piece(key, field, value).wf(),
        word_piece(key, field, value).written == text_token(key, value),
        word_piece(key, field, value).topic == Topic::Words(field),
        text_asked(word_piece(key, field, value).clauses, field, Seq::empty()) == needle_of(value),
{
    reveal(word_piece);
    reveal(Piece::wf);
    let t = trim(value);
    let piece = word_piece(key, field, value);
    lemma_trim_both_ends(value, CharClass::White);
    if t.len() == 0 {
        assert(piece.written =~= Seq::empty());
        assert(t =~= Seq::empty());
        assert(vstd::utf8::is_ascii_chars(t));
        assert(ascii_lower(t) =~= t);
    } else {
        lemma_value_reads(key, t);
        lemma_text_clause(key, field, t);
        lemma_one_token(key + "="@ + t);
        reveal_with_fuel(text_asked, 2);
    }
}

/// The conditions that a pair of bounds gives.
spec fn bound_clauses(field: NumericField, min: Option<Single>, max: Option<Single>) -> Seq<
    ClauseView,
> {
    (match min {
        Some(min) => seq![
            ClauseView::Numeric {
                field,
                op: ComparisonOp::GreaterThanOrEqual,
                value: rounded(min),
            },
        ],
        None => Seq::empty(),
    }) + (match max {
        Some(max) => seq![
            ClauseView::Numeric { field, op: ComparisonOp::LessThanOrEqual, value: rounded(max) },
        ],
        None => Seq::empty(),
    })
}

/// The tokens that a pair of bounds gives.
spec fn bound_tokens(key: Seq<char>, min: Option<Single>, max: Option<Single>) -> Seq<Seq<char>> {
    (match min {
        Some(min) => seq![bound_token(key, ">="@, min)],
        None => Seq::empty(),
    }) + (match max {
        Some(max) => seq![bound_token(key, "<="@, max)],
        None => Seq::empty(),
    })
}

spec fn bound_piece(
    key: Seq<char>,
    field: NumericField,
    min: Option<Single>,
    max: Option<Single>,
) -> Piece {
    Piece {
        written: bound_tokens(key, min, max),
        read: bound_tokens(key, min, max),
        clauses: bound_clauses(field, min, max),
        topic: Topic::Number(field),
    }
}

proof fn lemma_bound_piece(
    key: Seq<char>,
    field: NumericField,
    min: Option<Single>,
    max: Option<Single>,
)
    requires
        is_small_key(key),
        numeric_field(key) == Some(field),
        min matches Some(min) ==> min.finite(),
        max matches Some(max) ==> max.finite(),
    ensures
        bound_piece(key, field, min, max).wf(),
{
    reveal(Piece::wf);
    let low = match min {
        Some(min) => seq![bound_token(key, ">="@, min)],
        None => Seq::empty(),
    };
    let high = match max {
        Some(max) => seq![bound_token(key, "<="@, max)],
        None => Seq::empty(),
    };
    if let Some(min) = min {
        lemma_at_least_clause(key, field, min);
        lemma_one_token(bound_token(key, ">="@, min));
    }
    if let Some(max) = max {
        lemma_at_most_clause(key, field, max);
        lemma_one_token(bound_token(key, "<="@, max));
    }
    lemma_token_clauses_concat(low, high);
    let piece = bound_piece(key, field, min, max);
    assert(token_clauses(piece.read) =~= piece.clauses);
    assert forall|i: int| 0 <= i < piece.written.len() implies #[trigger] reads_as(
        piece.written[i],
        piece.read[i],
    ) by {}
}

/// The bounds of a range that are written.
spec fn written_min(range: RangeFilter, full: (Single, Single)) -> Option<Single> {
    if range.narrowed_from(full) && full.0.below(range.min) {
        Some(range.min)
    } else {
        None
    }
}

spec fn written_max(range: RangeFilter, full: (Single, Single)) -> Option<Single> {
    if range.narrowed_from(full) && range.max.below(full.1) {
        Some(range.max)
    } else {
        None
    }
}

/// Whether the bounds of a range that are written are finite: an infinite
/// bound cannot be read again.
pub open spec fn can_be_written(range: RangeFilter, full: (Single, Single)) -> bool {
    &&& range.enabled && full.0.below(range.min) ==> range.min.finite()
    &&& range.enabled && range.max.below(full.1) ==> range.max.finite()
}

/// A range after it was written and read again: enabled where it asks for
/// less than the full range, with bounds of two decimal places.
pub open spec fn range_after(range: RangeFilter, full: (Single, Single)) -> RangeFilter {
    let low = full.0.below(range.min);
    let high = range.max.below(full.1);
    if range.enabled && (low || high) {
        RangeFilter {
            enabled: true,
            min: (if low {
                full.0.larger(rounded(range.min))
            } else {
                full.0
            }).clamped(full.0, full.1),
            max: (if high {
                full.1.smaller(rounded(range.max))
            } else {
                full.1
            }).clamped(full.0, full.1),
        }
    } else {
        RangeFilter { enabled: false, ..range }
    }
}

#[verifier::opaque]
spec fn range_piece(
    key: Seq<char>,
    field: NumericField,
    range: RangeFilter,
    full: (Single, Single),
) -> Piece {
    bound_piece(key, field, written_min(range, full), written_max(range, full))
}

proof fn lemma_range_piece(
    key: Seq<char>,
    field: NumericField,
    range: RangeFilter,
    full: (Single, Single),
)
    requires
        is_small_key(key),
        numeric_field(key) == Some(field),
        can_be_written(range, full),
    ensures
        range_piece(key, field, range, full).wf(),
        range_piece(key, field, range, full).written == range.token_texts(key, full),
        range_piece(key, field, range, full).topic == Topic::Number(field),
        ({
            let clauses = range_piece(key, field, range, full).clauses;
            let found = bounds_asked(clauses, field, full);
            (if clauses.len() > 0 {
                RangeFilter {
                    enabled: true,
                    min: found.0.clamped(full.0, full.1),
                    max: found.1.clamped(full.0, full.1),
                }
            } else {
                RangeFilter { enabled: false, ..range }
            }) == range_after(range, full)
        }),
{
    reveal(range_piece);
    let min = written_min(range, full);
    let max = written_max(range, full);
    let clauses = bound_clauses(field, min, max);
    lemma_bound_piece(key, field, min, max);
    assert(range_piece(key, field, range, full).written =~= range.token_texts(key, full));
    // Without NaN a bound inside the full range narrows it.
    assert(range.enabled && (full.0.below(range.min) || range.max.below(full.1))
        ==> range.narrowed_from(full));
    reveal_with_fuel(bounds_asked, 3);
    let low = match min {
        Some(min) => seq![
            ClauseView::Numeric {
                field,
                op: ComparisonOp::GreaterThanOrEqual,
                value: rounded(min),
            },
        ],
        None => Seq::empty(),
    };
    if max is Some {
        assert(clauses.drop_last() =~= low);
    } else {
        assert(clauses =~= low);
    }
    if min is Some {
        assert(low.drop_last() =~= Seq::empty());
    }
}

#[verifier::opaque]
spec fn length_piece(min_text: Seq<char>, max_text: Seq<char>) -> Piece {
    bound_piece("length"@, NumericField::Length, bound_of(min_text), bound_of(max_text))
}

/// A length box after it was written and read again.
pub open spec fn length_after(text: Seq<char>) -> Seq<char> {
    match bound_of(text) {
        Some(bound) => short_number(rounded(bound)),
        None => Seq::empty(),
    }
}

proof fn lemma_length_piece(min_text: Seq<char>, max_text: Seq<char>)
    ensures
        length_piece(min_text, max_text).wf(),
        length_piece(min_text, max_text).written == length_token(">="@, min_text) + length_token(
            "<="@,
            max_text,
        ),
        length_piece(min_text, max_text).topic == Topic::Number(NumericField::Length),
        ({
            let found = length_asked(length_piece(min_text, max_text).clauses, (None, None));
            bound_text(found.0) == length_after(min_text) && bound_text(found.1) == length_after(
                max_text,
            )
        }),
{
    reveal(length_piece);
    let min = bound_of(min_text);
    let max = bound_of(max_text);
    let clauses = bound_clauses(NumericField::Length, min, max);
    lemma_number_keys();
    lemma_bound_piece("length"@, NumericField::Length, min, max);
    assert(length_piece(min_text, max_text).written =~= length_token(">="@, min_text)
        + length_token("<="@, max_text));
    reveal_with_fuel(length_asked, 3);
    let low = match min {
        Some(min) => seq![
            ClauseView::Numeric {
                field: NumericField::Length,
                op: ComparisonOp::GreaterThanOrEqual,
                value: rounded(min),
            },
        ],
        None => Seq::empty(),
    };
    if max is Some {
        assert(clauses.drop_last() =~= low);
    } else {
        assert(clauses =~= low);
    }
    if min is Some {
        assert(low.drop_last() =~= Seq::empty());
    }
}

#[verifier::opaque]
spec fn mode_piece(mode: ModeFilter) -> Piece {
    Piece {
        written: mode_token(mode),
        read: mode_token(mode),
        clauses: token_clauses(mode_token(mode)),
        topic: Topic::Mode,
    }
}

proof fn lemma_mode_piece(mode: ModeFilter)
    ensures
        mode_piece(mode).wf(),
        mode_piece(mode).written == mode_token(mode),
        mode_piece(mode).topic == Topic::Mode,
        mode_asked(mode_piece(mode).clauses, ModeFilter::Any) == mode,
{
    reveal(mode_piece);
    reveal(Piece::wf);
    match mode.token_text() {
        Some(name) => {
            lemma_mode_clause(mode, name);
            lemma_one_token("mode="@ + name);
            reveal_with_fuel(mode_asked, 2);
        },
        None => {
            assert(mode_token(mode) =~= Seq::empty());
        },
    }
}

// ---------------------------------------------------------------------------
// The law
// ---------------------------------------------------------------------------

impl FiltersView {
    /// Whether the controls can be written as a search and read again: every
    /// text comes back as it was, and no bound that is written is infinite.
    pub open spec fn can_be_searched(self) -> bool {
        &&& survives(trim(self.artist))
        &&& survives(trim(self.title))
        &&& survives(trim(self.mapper))
        &&& survives(trim(self.difficulty))
        &&& survives(trim(self.tag))
        &&& can_be_written(self.stars, bounds(STARS_RANGE))
        &&& can_be_written(self.ar, bounds(AR_RANGE))
        &&& can_be_written(self.cs, bounds(CS_RANGE))
        &&& can_be_written(self.od, bounds(OD_RANGE))
        &&& can_be_written(self.hp, bounds(HP_RANGE))
        &&& can_be_written(self.bpm, bounds(BPM_RANGE))
        &&& self.search_tokens().len() > 0
    }
}

#[verifier::opaque]
spec fn pieces_of(v: FiltersView) -> Seq<Piece> {
    seq![
        word_piece("artist"@, TextField::Artist, v.artist),
        word_piece("title"@, TextField::Title, v.title),
        word_piece("creator"@, TextField::Creator, v.mapper),
        word_piece("difficulty"@, TextField::Difficulty, v.difficulty),
        word_piece("tag"@, TextField::Tag, v.tag),
        length_piece(v.length_min, v.length_max),
        range_piece("stars"@, NumericField::Stars, v.stars, bounds(STARS_RANGE)),
        range_piece("ar"@, NumericField::Ar, v.ar, bounds(AR_RANGE)),
        range_piece("cs"@, NumericField::Cs, v.cs, bounds(CS_RANGE)),
        range_piece("od"@, NumericField::Od, v.od, bounds(OD_RANGE)),
        range_piece("hp"@, NumericField::Hp, v.hp, bounds(HP_RANGE)),
        range_piece("bpm"@, NumericField::Bpm, v.bpm, bounds(BPM_RANGE)),
        mode_piece(v.mode),
    ]
}

proof fn lemma_pieces(v: FiltersView)
    ensures
        pieces_of(v).len() == 13,
        pieces_of(v)[0] == word_piece("artist"@, TextField::Artist, v.artist),
        pieces_of(v)[1] == word_piece("title"@, TextField::Title, v.title),
        pieces_of(v)[2] == word_piece("creator"@, TextField::Creator, v.mapper),
        pieces_of(v)[3] == word_piece("difficulty"@, TextField::Difficulty, v.difficulty),
        pieces_of(v)[4] == word_piece("tag"@, TextField::Tag, v.tag),
        pieces_of(v)[5] == length_piece(v.length_min, v.length_max),
        pieces_of(v)[6] == range_piece(
            "stars"@,
            NumericField::Stars,
            v.stars,
            bounds(STARS_RANGE),
        ),
        pieces_of(v)[7] == range_piece("ar"@, NumericField::Ar, v.ar, bounds(AR_RANGE)),
        pieces_of(v)[8] == range_piece("cs"@, NumericField::Cs, v.cs, bounds(CS_RANGE)),
        pieces_of(v)[9] == range_piece("od"@, NumericField::Od, v.od, bounds(OD_RANGE)),
        pieces_of(v)[10] == range_piece("hp"@, NumericField::Hp, v.hp, bounds(HP_RANGE)),
        pieces_of(v)[11] == range_piece("bpm"@, NumericField::Bpm, v.bpm, bounds(BPM_RANGE)),
        pieces_of(v)[12] == mode_piece(v.mode),
{
    reveal(pieces_of);
}

proof fn lemma_word_pieces(v: FiltersView)
    requires
        v.can_be_searched(),
    ensures
        forall|i: int| 0 <= i < 5 ==> (#[trigger] pieces_of(v)[i]).wf(),
        pieces_of(v)[0].written == text_token("artist"@, v.artist),
        pieces_of(v)[1].written == text_token("title"@, v.title),
        pieces_of(v)[2].written == text_token("creator"@, v.mapper),
        pieces_of(v)[3].written == text_token("difficulty"@, v.difficulty),
        pieces_of(v)[4].written == text_token("tag"@, v.tag),
        pieces_of(v)[0].topic == Topic::Words(TextField::Artist),
        pieces_of(v)[1].topic == Topic::Words(TextField::Title),
        pieces_of(v)[2].topic == Topic::Words(TextField::Creator),
        pieces_of(v)[3].topic == Topic::Words(TextField::Difficulty),
        pieces_of(v)[4].topic == Topic::Words(TextField::Tag),
{
    lemma_pieces(v);
    lemma_text_keys();
    lemma_word_piece("artist"@, TextField::Artist, v.artist);
    lemma_word_piece("title"@, TextField::Title, v.title);
    lemma_word_piece("creator"@, TextField::Creator, v.mapper);
    lemma_word_piece("difficulty"@, TextField::Difficulty, v.difficulty);
    lemma_word_piece("tag"@, TextField::Tag, v.tag);
}

proof fn lemma_range_pieces(v: FiltersView)
    requires
        v.can_be_searched(),
    ensures
        forall|i: int| 6 <= i < 12 ==> (#[trigger] pieces_of(v)[i]).wf(),
        pieces_of(v)[6].written == v.stars.token_texts("stars"@, bounds(STARS_RANGE)),
        pieces_of(v)[7].written == v.ar.token_texts("ar"@, bounds(AR_RANGE)),
        pieces_of(v)[8].written == v.cs.token_texts("cs"@, bounds(CS_RANGE)),
        pieces_of(v)[9].written == v.od.token_texts("od"@, bounds(OD_RANGE)),
        pieces_of(v)[10].written == v.hp.token_texts("hp"@, bounds(HP_RANGE)),
        pieces_of(v)[11].written == v.bpm.token_texts("bpm"@, bounds(BPM_RANGE)),
        pieces_of(v)[6].topic == Topic::Number(NumericField::Stars),
        pieces_of(v)[7].topic == Topic::Number(NumericField::Ar),
        pieces_of(v)[8].topic == Topic::Number(NumericField::Cs),
        pieces_of(v)[9].topic == Topic::Number(NumericField::Od),
        pieces_of(v)[10].topic == Topic::Number(NumericField::Hp),
        pieces_of(v)[11].topic == Topic::Number(NumericField::Bpm),
{
    lemma_pieces(v);
    lemma_number_keys();
    lemma_range_piece("stars"@, NumericField::Stars, v.stars, bounds(STARS_RANGE));
    lemma_range_piece("ar"@, NumericField::Ar, v.ar, bounds(AR_RANGE));
    lemma_range_piece("cs"@, NumericField::Cs, v.cs, bounds(CS_RANGE));
    lemma_range_piece("od"@, NumericField::Od, v.od, bounds(OD_RANGE));
    lemma_range_piece("hp"@, NumericField::Hp, v.hp, bounds(HP_RANGE));
    lemma_range_piece("bpm"@, NumericField::Bpm, v.bpm, bounds(BPM_RANGE));
}

proof fn lemma_pieces_wf(v: FiltersView)
    requires
        v.can_be_searched(),
    ensures
        forall|i: int| 0 <= i < 13 ==> (#[trigger] pieces_of(v)[i]).wf(),
{
    lemma_pieces(v);
    lemma_word_pieces(v);
    lemma_range_pieces(v);
    lemma_length_piece(v.length_min, v.length_max);
    lemma_mode_piece(v.mode);
}

/// The topics of the pieces.
#[verifier::opaque]
spec fn topic_names() -> Seq<Topic> {
    seq![
        Topic::Words(TextField::Artist),
        Topic::Words(TextField::Title),
        Topic::Words(TextField::Creator),
        Topic::Words(TextField::Difficulty),
        Topic::Words(TextField::Tag),
        Topic::Number(NumericField::Length),
        Topic::Number(NumericField::Stars),
        Topic::Number(NumericField::Ar),
        Topic::Number(NumericField::Cs),
        Topic::Number(NumericField::Od),
        Topic::Number(NumericField::Hp),
        Topic::Number(NumericField::Bpm),
        Topic::Mode,
    ]
}

proof fn lemma_topics(v: FiltersView)
    requires
        v.can_be_searched(),
    ensures
        all_topics(pieces_of(v)) == topic_names(),
{
    lemma_pieces(v);
    lemma_word_pieces(v);
    lemma_range_pieces(v);
    lemma_length_piece(v.length_min, v.length_max);
    lemma_mode_piece(v.mode);
    reveal(topic_names);
    assert(all_topics(pieces_of(v)) =~= topic_names());
}

proof fn lemma_topics_differ(i: int)
    requires
        0 <= i < 13,
    ensures
        forall|j: int| 0 <= j < 13 && j != i ==> #[trigger] topic_names()[j] != topic_names()[i],
{
    reveal(topic_names);
}

proof fn lemma_written_push(pieces: Seq<Piece>, piece: Piece)
    ensures
        flat(all_written(pieces.push(piece))) == flat(all_written(pieces)) + piece.written,
{
    let all = all_written(pieces.push(piece));
    assert(all.drop_last() =~= all_written(pieces));
    assert(all.last() == piece.written);
}

/// The tokens of the pieces are the tokens of the controls.
proof fn lemma_written_pieces(v: FiltersView)
    requires
        v.can_be_searched(),
    ensures
        flat(all_written(pieces_of(v))) == v.search_tokens(),
{
    let p = pieces_of(v);
    lemma_pieces(v);
    let q0 = Seq::<Piece>::empty();
    let q1 = q0.push(p[0]);
    let q2 = q1.push(p[1]);
    let q3 = q2.push(p[2]);
    let q4 = q3.push(p[3]);
    let q5 = q4.push(p[4]);
    let q6 = q5.push(p[5]);
    let q7 = q6.push(p[6]);
    let q8 = q7.push(p[7]);
    let q9 = q8.push(p[8]);
    let q10 = q9.push(p[9]);
    let q11 = q10.push(p[10]);
    let q12 = q11.push(p[11]);
    let q13 = q12.push(p[12]);
    assert(q13 =~= p);
    lemma_written_push(q0, p[0]);
    lemma_written_push(q1, p[1]);
    lemma_written_push(q2, p[2]);
    lemma_written_push(q3, p[3]);
    lemma_written_push(q4, p[4]);
    lemma_written_push(q5, p[5]);
    lemma_written_push(q6, p[6]);
    lemma_written_push(q7, p[7]);
    lemma_written_push(q8, p[8]);
    lemma_written_push(q9, p[9]);
    lemma_written_push(q10, p[10]);
    lemma_written_push(q11, p[11]);
    lemma_written_push(q12, p[12]);
    assert(all_written(q0) =~= Seq::empty());
    lemma_word_pieces(v);
    lemma_range_pieces(v);
    lemma_length_piece(v.length_min, v.length_max);
    lemma_mode_piece(v.mode);
    let words = text_token("artist"@, v.artist) + text_token("title"@, v.title) + text_token(
        "creator"@,
        v.mapper,
    ) + text_token("difficulty"@, v.difficulty) + text_token("tag"@, v.tag);
    assert(flat(all_written(q1)) =~= text_token("artist"@, v.artist));
    assert(flat(all_written(q5)) == words);
    let low = length_token(">="@, v.length_min);
    let high = length_token("<="@, v.length_max);
    assert(words + (low + high) =~= words + low + high);
}

/// The conditions of the written search are those of the pieces.
proof fn lemma_search_clauses(v: FiltersView)
    requires
        v.can_be_searched(),
    ensures
        clauses_of(v.search_text()) == flat(all_clauses(pieces_of(v))),
        trim(v.search_text()) == v.search_text(),
        v.search_text().len() > 0,
{
    lemma_pieces(v);
    lemma_pieces_wf(v);
    lemma_written_pieces(v);
    let read = lemma_pieces_read(pieces_of(v));
    lemma_search_reads(v.search_tokens(), read);
}

/// The conditions about the topic of a piece are those of the piece.
proof fn lemma_piece_on_topic(v: FiltersView, i: int)
    requires
        v.can_be_searched(),
        0 <= i < 13,
    ensures
        on_topic(clauses_of(v.search_text()), pieces_of(v)[i].topic) == pieces_of(v)[i].clauses,
{
    let pieces = pieces_of(v);
    let topics = all_topics(pieces);
    let clauses = all_clauses(pieces);
    lemma_pieces(v);
    lemma_search_clauses(v);
    lemma_pieces_wf(v);
    assert forall|j: int| 0 <= j < 13 implies #[trigger] only_about(clauses[j], topics[j]) by {
        assert(pieces[j].wf());
        reveal(Piece::wf);
    }
    lemma_topics(v);
    lemma_topics_differ(i);
    lemma_one_piece(clauses, topics, i);
}

/// A text box after it was written and read again.
proof fn lemma_word_back(v: FiltersView, i: int, key: Seq<char>, field: TextField, value: Seq<char>)
    requires
        v.can_be_searched(),
        0 <= i < 13,
        pieces_of(v)[i] == word_piece(key, field, value),
        is_small_key(key),
        numeric_field(key) is None,
        text_field(key) == Some(field),
        survives(trim(value)),
    ensures
        text_asked(clauses_of(v.search_text()), field, Seq::empty()) == needle_of(value),
{
    lemma_piece_on_topic(v, i);
    lemma_text_on_topic(clauses_of(v.search_text()), field, Seq::empty());
    lemma_word_piece(key, field, value);
}

/// A range after it was written and read again.
proof fn lemma_range_back(
    v: FiltersView,
    i: int,
    key: Seq<char>,
    field: NumericField,
    range: RangeFilter,
    full: (Single, Single),
)
    requires
        v.can_be_searched(),
        0 <= i < 13,
        pieces_of(v)[i] == range_piece(key, field, range, full),
        is_small_key(key),
        numeric_field(key) == Some(field),
        can_be_written(range, full),
    ensures
        range_asked(clauses_of(v.search_text()), field, full, range) == range_after(range, full),
{
    lemma_piece_on_topic(v, i);
    lemma_bounds_on_topic(clauses_of(v.search_text()), field, full);
    lemma_range_piece(key, field, range, full);
}

impl FiltersView {
    /// The controls after they were written as a search and set from it:
    /// texts in small letters without white space around them, and numbers
    /// with two decimal places.
    pub open spec fn read_back(self) -> FiltersView {
        let text = self.search_text();
        FiltersView {
            artist: needle_of(self.artist),
            title: needle_of(self.title),
            mapper: needle_of(self.mapper),
            difficulty: needle_of(self.difficulty),
            tag: needle_of(self.tag),
            length_min: length_after(self.length_min),
            length_max: length_after(self.length_max),
            stars: range_after(self.stars, bounds(STARS_RANGE)),
            ar: range_after(self.ar, bounds(AR_RANGE)),
            cs: range_after(self.cs, bounds(CS_RANGE)),
            od: range_after(self.od, bounds(OD_RANGE)),
            hp: range_after(self.hp, bounds(HP_RANGE)),
            bpm: range_after(self.bpm, bounds(BPM_RANGE)),
            mode: self.mode,
            query_text: text,
            search: Some(SearchView { raw: text, conditions: clauses_of(text) }),
        }
    }
}

proof fn lemma_words_back(v: FiltersView)
    requires
        v.can_be_searched(),
    ensures
        ({
            let clauses = clauses_of(v.search_text());
            &&& text_asked(clauses, TextField::Artist, Seq::empty()) == needle_of(v.artist)
            &&& text_asked(clauses, TextField::Title, Seq::empty()) == needle_of(v.title)
            &&& text_asked(clauses, TextField::Creator, Seq::empty()) == needle_of(v.mapper)
            &&& text_asked(clauses, TextField::Difficulty, Seq::empty()) == needle_of(v.difficulty)
            &&& text_asked(clauses, TextField::Tag, Seq::empty()) == needle_of(v.tag)
        }),
{
    lemma_pieces(v);
    lemma_text_keys();
    lemma_word_back(v, 0, "artist"@, TextField::Artist, v.artist);
    lemma_word_back(v, 1, "title"@, TextField::Title, v.title);
    lemma_word_back(v, 2, "creator"@, TextField::Creator, v.mapper);
    lemma_word_back(v, 3, "difficulty"@, TextField::Difficulty, v.difficulty);
    lemma_word_back(v, 4, "tag"@, TextField::Tag, v.tag);
}

proof fn lemma_ranges_back(v: FiltersView)
    requires
        v.can_be_searched(),
    ensures
        ({
            let clauses = clauses_of(v.search_text());
            &&& range_asked(clauses, NumericField::Stars, bounds(STARS_RANGE), v.stars)
                == range_after(v.stars, bounds(STARS_RANGE))
            &&& range_asked(clauses, NumericField::Ar, bounds(AR_RANGE), v.ar) == range_after(
                v.ar,
                bounds(AR_RANGE),
            )
            &&& range_asked(clauses, NumericField::Cs, bounds(CS_RANGE), v.cs) == range_after(
                v.cs,
                bounds(CS_RANGE),
            )
            &&& range_asked(clauses, NumericField::Od, bounds(OD_RANGE), v.od) == range_after(
                v.od,
                bounds(OD_RANGE),
            )
            &&& range_asked(clauses, NumericField::Hp, bounds(HP_RANGE), v.hp) == range_after(
                v.hp,
                bounds(HP_RANGE),
            )
            &&& range_asked(clauses, NumericField::Bpm, bounds(BPM_RANGE), v.bpm) == range_after(
                v.bpm,
                bounds(BPM_RANGE),
            )
        }),
{
    lemma_pieces(v);
    lemma_number_keys();
    lemma_range_back(v, 6, "stars"@, NumericField::Stars, v.stars, bounds(STARS_RANGE));
    lemma_range_back(v, 7, "ar"@, NumericField::Ar, v.ar, bounds(AR_RANGE));
    lemma_range_back(v, 8, "cs"@, NumericField::Cs, v.cs, bounds(CS_RANGE));
    lemma_range_back(v, 9, "od"@, NumericField::Od, v.od, bounds(OD_RANGE));
    lemma_range_back(v, 10, "hp"@, NumericField::Hp, v.hp, bounds(HP_RANGE));
    lemma_range_back(v, 11, "bpm"@, NumericField::Bpm, v.bpm, bounds(BPM_RANGE));
}

/// Controls that are written as a search and set from it come back: texts by
/// their small letters, ranges and lengths to two decimal places, and the
/// mode as it was.
pub proof fn law_controls_come_back(v: FiltersView)
    requires
        v.can_be_searched(),
    ensures
        v.written().synchronized() == v.read_back(),
{
    lemma_pieces(v);
    let text = v.search_text();
    let clauses = clauses_of(text);
    lemma_search_clauses(v);
    lemma_words_back(v);
    lemma_ranges_back(v);
    lemma_piece_on_topic(v, 5);
    lemma_length_on_topic(clauses, (None, None));
    lemma_length_piece(v.length_min, v.length_max);
    lemma_piece_on_topic(v, 12);
    lemma_mode_on_topic(clauses, ModeFilter::Any);
    lemma_mode_piece(v.mode);
    assert(v.written().synchronized() =~= v.read_back());
}

/// Bounds with two decimal places come back as they were, where one of them
/// lies inside the full range and the other does too or is that of the full
/// range.
pub proof fn law_slider_values_come_back(range: RangeFilter, full: (Single, Single))
    requires
        range.narrowed_from(full),
        range.min == full.0 || full.0.below(range.min) && rounded(range.min) == range.min,
        range.max == full.1 || range.max.below(full.1) && rounded(range.max) == range.max,
        range.min.at_most(full.1),
        full.0.at_most(range.max),
    ensures
        range_after(range, full) == range,
{
}

// ---------------------------------------------------------------------------
// What the written search lets through
// ---------------------------------------------------------------------------

/// Whether a minimum still lets itself through after it was written with two
/// decimal places: it was rounded down, or up by no more than the search
/// allows for.
pub open spec fn minimum_holds(bound: Single) -> bool {
    ComparisonOp::GreaterThanOrEqual.holds(bound, rounded(bound))
}

/// Whether a maximum still lets itself through.
pub open spec fn maximum_holds(bound: Single) -> bool {
    ComparisonOp::LessThanOrEqual.holds(bound, rounded(bound))
}

/// Whether the bounds of a range that are written let themselves through.
pub open spec fn bounds_hold(range: RangeFilter, full: (Single, Single)) -> bool {
    &&& range.enabled && full.0.below(range.min) ==> minimum_holds(range.min)
    &&& range.enabled && range.max.below(full.1) ==> maximum_holds(range.max)
}

/// Whether the numbers in the length boxes let themselves through.
pub open spec fn lengths_hold(min_text: Seq<char>, max_text: Seq<char>) -> bool {
    &&& bound_of(min_text) matches Some(min) ==> minimum_holds(min)
    &&& bound_of(max_text) matches Some(max) ==> maximum_holds(max)
}

impl FiltersView {
    /// Whether every number that is written lets itself through.
    pub open spec fn numbers_hold(self) -> bool {
        &&& bounds_hold(self.stars, bounds(STARS_RANGE))
        &&& bounds_hold(self.ar, bounds(AR_RANGE))
        &&& bounds_hold(self.cs, bounds(CS_RANGE))
        &&& bounds_hold(self.od, bounds(OD_RANGE))
        &&& bounds_hold(self.hp, bounds(HP_RANGE))
        &&& bounds_hold(self.bpm, bounds(BPM_RANGE))
        &&& lengths_hold(self.length_min, self.length_max)
    }
}

/// A number with two decimal places lets itself through on both sides.
pub proof fn law_two_places_hold(bound: Single)
    requires
        bound.finite(),
        rounded(bound) == bound,
    ensures
        minimum_holds(bound),
        maximum_holds(bound),
{
    lemma_tolerances();
    law_sums_do_not_pass(bound, bound_tolerance());
}

proof fn lemma_flat_admits(pieces: Seq<Seq<ClauseView>>, map: LocalBeatmap)
    requires
        forall|i: int| 0 <= i < pieces.len() ==> all_admit(#[trigger] pieces[i], map),
    ensures
        all_admit(flat(pieces), map),
    decreases pieces.len(),
{
    if pieces.len() > 0 {
        let init = pieces.drop_last();
        assert forall|i: int| 0 <= i < init.len() implies all_admit(#[trigger] init[i], map) by {
            assert(init[i] == pieces[i]);
        }
        lemma_flat_admits(init, map);
        assert(all_admit(pieces[pieces.len() - 1], map));
        law_conditions_add_up(flat(init), pieces.last(), map);
    }
}

proof fn lemma_word_admits(key: Seq<char>, field: TextField, value: Seq<char>, map: LocalBeatmap)
    requires
        has_lowered(field.of(map), needle_of(value)),
    ensures
        all_admit(word_piece(key, field, value).clauses, map),
{
    reveal(word_piece);
}

/// Bounds that a number meets are met by it after they were written.
proof fn lemma_bounds_admit(
    key: Seq<char>,
    field: NumericField,
    min: Option<Single>,
    max: Option<Single>,
    map: LocalBeatmap,
)
    requires
        min matches Some(min) ==> minimum_holds(min) && (field.of(map) matches Some(actual)
            && min.at_most(actual)),
        max matches Some(max) ==> maximum_holds(max) && (field.of(map) matches Some(actual)
            && actual.at_most(max)),
    ensures
        all_admit(bound_piece(key, field, min, max).clauses, map),
{
    let clauses = bound_clauses(field, min, max);
    assert forall|i: int| 0 <= i < clauses.len() implies (#[trigger] clauses[i]).admits(map) by {}
}

proof fn lemma_range_admits(
    key: Seq<char>,
    field: NumericField,
    range: RangeFilter,
    full: (Single, Single),
    map: LocalBeatmap,
)
    requires
        bounds_hold(range, full),
        range.admits(field.of(map)),
    ensures
        all_admit(range_piece(key, field, range, full).clauses, map),
{
    reveal(range_piece);
    lemma_bounds_admit(key, field, written_min(range, full), written_max(range, full), map);
}

proof fn lemma_length_admits(min_text: Seq<char>, max_text: Seq<char>, map: LocalBeatmap)
    requires
        lengths_hold(min_text, max_text),
        length_within(map.length_seconds, min_text, max_text),
    ensures
        all_admit(length_piece(min_text, max_text).clauses, map),
{
    reveal(length_piece);
    lemma_bounds_admit(
        "length"@,
        NumericField::Length,
        bound_of(min_text),
        bound_of(max_text),
        map,
    );
}

/// The token of a mode asks for the maps that the choice asks for.
pub proof fn law_mode_token_means_the_mode(mode: ModeFilter, map: LocalBeatmap)
    ensures
        all_admit(token_clauses(mode_token(mode)), map) == mode.admits(map.mode),
{
    match mode.token_text() {
        Some(name) => {
            lemma_mode_clause(mode, name);
            lemma_one_token("mode="@ + name);
            let clauses = token_clauses(mode_token(mode));
            assert(clauses.len() == 1);
            if all_admit(clauses, map) {
                assert(clauses[0].admits(map));
            }
        },
        None => {
            assert(mode_token(mode) =~= Seq::empty());
        },
    }
}

proof fn lemma_word_pieces_admit(v: FiltersView, map: LocalBeatmap)
    requires
        v.controls_admit(map, v.needles()),
    ensures
        forall|i: int| 0 <= i < 5 ==> all_admit((#[trigger] pieces_of(v)[i]).clauses, map),
{
    lemma_pieces(v);
    lemma_word_admits("artist"@, TextField::Artist, v.artist, map);
    lemma_word_admits("title"@, TextField::Title, v.title, map);
    lemma_word_admits("creator"@, TextField::Creator, v.mapper, map);
    lemma_word_admits("difficulty"@, TextField::Difficulty, v.difficulty, map);
    lemma_word_admits("tag"@, TextField::Tag, v.tag, map);
}

proof fn lemma_range_pieces_admit(v: FiltersView, map: LocalBeatmap)
    requires
        v.can_be_searched(),
        v.numbers_hold(),
        v.controls_admit(map, v.needles()),
    ensures
        forall|i: int| 6 <= i < 12 ==> all_admit((#[trigger] pieces_of(v)[i]).clauses, map),
{
    lemma_pieces(v);
    lemma_range_admits("stars"@, NumericField::Stars, v.stars, bounds(STARS_RANGE), map);
    lemma_range_admits("ar"@, NumericField::Ar, v.ar, bounds(AR_RANGE), map);
    lemma_range_admits("cs"@, NumericField::Cs, v.cs, bounds(CS_RANGE), map);
    lemma_range_admits("od"@, NumericField::Od, v.od, bounds(OD_RANGE), map);
    lemma_range_admits("hp"@, NumericField::Hp, v.hp, bounds(HP_RANGE), map);
    lemma_range_admits("bpm"@, NumericField::Bpm, v.bpm, bounds(BPM_RANGE), map);
}

/// The search that is written from the controls lets through every map that
/// the controls let through, where the rounding of the numbers does not take
/// the bounds themselves away. It may let through more: its bounds are a
/// little wider, and a full range asks for nothing in it.
pub proof fn law_search_admits_what_controls_admit(v: FiltersView, map: LocalBeatmap)
    requires
        v.can_be_searched(),
        v.numbers_hold(),
        v.controls_admit(map, v.needles()),
    ensures
        all_admit(clauses_of(v.search_text()), map),
{
    lemma_search_clauses(v);
    lemma_pieces(v);
    lemma_word_pieces_admit(v, map);
    lemma_range_pieces_admit(v, map);
    lemma_length_admits(v.length_min, v.length_max, map);
    assert(all_admit(mode_piece(v.mode).clauses, map)) by {
        reveal(mode_piece);
        law_mode_token_means_the_mode(v.mode, map);
    }
    let clauses = all_clauses(pieces_of(v));
    assert forall|i: int| 0 <= i < clauses.len() implies all_admit(#[trigger] clauses[i], map) by {
        assert(clauses[i] == pieces_of(v)[i].clauses);
    }
    lemma_flat_admits(clauses, map);
}

proof fn lemma_flat_admitted(pieces: Seq<Seq<ClauseView>>, map: LocalBeatmap, n: int)
    requires
        all_admit(flat(pieces), map),
        0 <= n < pieces.len(),
    ensures
        all_admit(pieces[n], map),
    decreases pieces.len(),
{
    law_conditions_add_up(flat(pieces.drop_last()), pieces.last(), map);
    if n < pieces.len() - 1 {
        lemma_flat_admitted(pieces.drop_last(), map, n);
    }
}

proof fn lemma_word_admitted(key: Seq<char>, field: TextField, value: Seq<char>, map: LocalBeatmap)
    requires
        all_admit(word_piece(key, field, value).clauses, map),
    ensures
        has_lowered(field.of(map), needle_of(value)),
{
    reveal(word_piece);
    let clauses = word_clauses(field, value);
    if clauses.len() > 0 {
        assert(clauses[0].admits(map));
    } else {
        law_blank_boxes_ask_for_nothing(field.of(map), value, None, Seq::empty(), Seq::empty());
    }
}

/// The search that is written from the controls lets through no map without
/// the words of the text boxes, and none of another mode.
pub proof fn law_search_asks_for_words_and_mode(v: FiltersView, map: LocalBeatmap)
    requires
        v.can_be_searched(),
        all_admit(clauses_of(v.search_text()), map),
    ensures
        has_lowered(map.artist@, v.needles().artist),
        has_lowered(map.title@, v.needles().title),
        has_lowered(map.creator@, v.needles().mapper),
        has_lowered(map.version@, v.needles().difficulty),
        has_lowered(map.tags@, v.needles().tag),
        v.mode.admits(map.mode),
{
    lemma_search_clauses(v);
    lemma_pieces(v);
    let clauses = all_clauses(pieces_of(v));
    assert forall|i: int| 0 <= i < 13 implies all_admit(#[trigger] pieces_of(v)[i].clauses, map) by {
        assert(clauses[i] == pieces_of(v)[i].clauses);
        lemma_flat_admitted(clauses, map, i);
    }
    assert(all_admit(pieces_of(v)[0].clauses, map));
    assert(all_admit(pieces_of(v)[1].clauses, map));
    assert(all_admit(pieces_of(v)[2].clauses, map));
    assert(all_admit(pieces_of(v)[3].clauses, map));
    assert(all_admit(pieces_of(v)[4].clauses, map));
    assert(all_admit(pieces_of(v)[12].clauses, map));
    lemma_word_admitted("artist"@, TextField::Artist, v.artist, map);
    lemma_word_admitted("title"@, TextField::Title, v.title, map);
    lemma_word_admitted("creator"@, TextField::Creator, v.mapper, map);
    lemma_word_admitted("difficulty"@, TextField::Difficulty, v.difficulty, map);
    lemma_word_admitted("tag"@, TextField::Tag, v.tag, map);
    reveal(mode_piece);
    law_mode_token_means_the_mode(v.mode, map);
}

} // verus!
