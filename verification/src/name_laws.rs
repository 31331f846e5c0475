//! The names of the search syntax.

use crate::query::{
    is_key, mode_named, numeric_field, status_named, text_field, token_clause, NumericField,
    StatusTarget, TextField,
};
use crate::condition_laws::{law_key_and_comparison, symbol_of};
use crate::query::ComparisonOp;
use crate::text::ascii_lower;
use vstd::prelude::*;

verus! {

/// The keys of the numbers of a map.
pub proof fn law_number_keys()
    ensures
        numeric_field("stars"@) == Some(NumericField::Stars),
        numeric_field("sr"@) == Some(NumericField::Stars),
        numeric_field("star"@) == Some(NumericField::Stars),
        numeric_field("ar"@) == Some(NumericField::Ar),
        numeric_field("cs"@) == Some(NumericField::Cs),
        numeric_field("od"@) == Some(NumericField::Od),
        numeric_field("hp"@) == Some(NumericField::Hp),
        numeric_field("dr"@) == Some(NumericField::Hp),
        numeric_field("bpm"@) == Some(NumericField::Bpm),
        numeric_field("length"@) == Some(NumericField::Length),
        numeric_field("drain"@) == Some(NumericField::Length),
        numeric_field("len"@) == Some(NumericField::Length),
        numeric_field("time"@) == Some(NumericField::Length),
        numeric_field("circles"@) == Some(NumericField::Circles),
        numeric_field("circle"@) == Some(NumericField::Circles),
        numeric_field("sliders"@) == Some(NumericField::Sliders),
        numeric_field("slider"@) == Some(NumericField::Sliders),
        numeric_field("keys"@) == Some(NumericField::Keys),
        numeric_field("key"@) == Some(NumericField::Keys),
{
    reveal_strlit("stars");
    assert("stars"@.len() == 5);
    reveal_strlit("sr");
    assert("sr"@.len() == 2);
    reveal_strlit("star");
    assert("star"@.len() == 4);
    reveal_strlit("ar");
    assert("ar"@.len() == 2);
    reveal_strlit("cs");
    assert("cs"@.len() == 2);
    reveal_strlit("od");
    assert("od"@.len() == 2);
    reveal_strlit("hp");
    assert("hp"@.len() == 2);
    reveal_strlit("dr");
    assert("dr"@.len() == 2);
    reveal_strlit("bpm");
    assert("bpm"@.len() == 3);
    reveal_strlit("length");
    assert("length"@.len() == 6);
    reveal_strlit("drain");
    assert("drain"@.len() == 5);
    reveal_strlit("len");
    assert("len"@.len() == 3);
    reveal_strlit("time");
    assert("time"@.len() == 4);
    reveal_strlit("circles");
    assert("circles"@.len() == 7);
    reveal_strlit("circle");
    assert("circle"@.len() == 6);
    reveal_strlit("sliders");
    assert("sliders"@.len() == 7);
    reveal_strlit("slider");
    assert("slider"@.len() == 6);
    reveal_strlit("keys");
    assert("keys"@.len() == 4);
    reveal_strlit("key");
    assert("key"@.len() == 3);
    assert("stars"@[0] != "drain"@[0]);
    assert("sr"@[0] != "ar"@[0]);
    assert("sr"@[0] != "cs"@[0]);
    assert("sr"@[0] != "od"@[0]);
    assert("sr"@[0] != "hp"@[0]);
    assert("sr"@[0] != "dr"@[0]);
    assert("star"@[0] != "time"@[0]);
    assert("star"@[0] != "keys"@[0]);
    assert("ar"@[0] != "cs"@[0]);
    assert("ar"@[0] != "od"@[0]);
    assert("ar"@[0] != "hp"@[0]);
    assert("ar"@[0] != "dr"@[0]);
    assert("cs"@[0] != "od"@[0]);
    assert("cs"@[0] != "hp"@[0]);
    assert("cs"@[0] != "dr"@[0]);
    assert("od"@[0] != "hp"@[0]);
    assert("od"@[0] != "dr"@[0]);
    assert("hp"@[0] != "dr"@[0]);
    assert("bpm"@[0] != "len"@[0]);
    assert("bpm"@[0] != "key"@[0]);
    assert("length"@[0] != "circle"@[0]);
    assert("length"@[0] != "slider"@[0]);
    assert("len"@[0] != "key"@[0]);
    assert("time"@[0] != "keys"@[0]);
    assert("circles"@[0] != "sliders"@[0]);
    assert("circle"@[0] != "slider"@[0]);
}

/// The keys of the texts of a map, which are no keys of numbers.
pub proof fn law_text_keys()
    ensures
        text_field("artist"@) == Some(TextField::Artist) && numeric_field("artist"@) is None,
        text_field("title"@) == Some(TextField::Title) && numeric_field("title"@) is None,
        text_field("creator"@) == Some(TextField::Creator) && numeric_field("creator"@) is None,
        text_field("mapper"@) == Some(TextField::Creator) && numeric_field("mapper"@) is None,
        text_field("author"@) == Some(TextField::Creator) && numeric_field("author"@) is None,
        text_field("diff"@) == Some(TextField::Difficulty) && numeric_field("diff"@) is None,
        text_field("difficulty"@) == Some(TextField::Difficulty) && numeric_field("difficulty"@) is None,
        text_field("version"@) == Some(TextField::Difficulty) && numeric_field("version"@) is None,
        text_field("source"@) == Some(TextField::Source) && numeric_field("source"@) is None,
        text_field("tag"@) == Some(TextField::Tag) && numeric_field("tag"@) is None,
        text_field("tags"@) == Some(TextField::Tag) && numeric_field("tags"@) is None,
{
    reveal_strlit("stars");
    assert("stars"@.len() == 5);
    reveal_strlit("sr");
    assert("sr"@.len() == 2);
    reveal_strlit("star");
    assert("star"@.len() == 4);
    reveal_strlit("ar");
    assert("ar"@.len() == 2);
    reveal_strlit("cs");
    assert("cs"@.len() == 2);
    reveal_strlit("od");
    assert("od"@.len() == 2);
    reveal_strlit("hp");
    assert("hp"@.len() == 2);
    reveal_strlit("dr");
    assert("dr"@.len() == 2);
    reveal_strlit("bpm");
    assert("bpm"@.len() == 3);
    reveal_strlit("length");
    assert("length"@.len() == 6);
    reveal_strlit("drain");
    assert("drain"@.len() == 5);
    reveal_strlit("len");
    assert("len"@.len() == 3);
    reveal_strlit("time");
    assert("time"@.len() == 4);
    reveal_strlit("circles");
    assert("circles"@.len() == 7);
    reveal_strlit("circle");
    assert("circle"@.len() == 6);
    reveal_strlit("sliders");
    assert("sliders"@.len() == 7);
    reveal_strlit("slider");
    assert("slider"@.len() == 6);
    reveal_strlit("keys");
    assert("keys"@.len() == 4);
    reveal_strlit("key");
    assert("key"@.len() == 3);
    reveal_strlit("artist");
    assert("artist"@.len() == 6);
    reveal_strlit("title");
    assert("title"@.len() == 5);
    reveal_strlit("creator");
    assert("creator"@.len() == 7);
    reveal_strlit("mapper");
    assert("mapper"@.len() == 6);
    reveal_strlit("author");
    assert("author"@.len() == 6);
    reveal_strlit("diff");
    assert("diff"@.len() == 4);
    reveal_strlit("difficulty");
    assert("difficulty"@.len() == 10);
    reveal_strlit("version");
    assert("version"@.len() == 7);
    reveal_strlit("source");
    assert("source"@.len() == 6);
    reveal_strlit("tag");
    assert("tag"@.len() == 3);
    reveal_strlit("tags");
    assert("tags"@.len() == 4);
    assert("artist"@[0] != "mapper"@[0]);
    assert("artist"@[1] != "author"@[1]);
    assert("artist"@[0] != "source"@[0]);
    assert("artist"@[0] != "length"@[0]);
    assert("artist"@[0] != "circle"@[0]);
    assert("artist"@[0] != "slider"@[0]);
    assert("title"@[0] != "stars"@[0]);
    assert("title"@[0] != "drain"@[0]);
    assert("creator"@[0] != "version"@[0]);
    assert("creator"@[1] != "circles"@[1]);
    assert("creator"@[0] != "sliders"@[0]);
    assert("mapper"@[0] != "author"@[0]);
    assert("mapper"@[0] != "source"@[0]);
    assert("mapper"@[0] != "length"@[0]);
    assert("mapper"@[0] != "circle"@[0]);
    assert("mapper"@[0] != "slider"@[0]);
    assert("author"@[0] != "source"@[0]);
    assert("author"@[0] != "length"@[0]);
    assert("author"@[0] != "circle"@[0]);
    assert("author"@[0] != "slider"@[0]);
    assert("diff"@[0] != "tags"@[0]);
    assert("diff"@[0] != "star"@[0]);
    assert("diff"@[0] != "time"@[0]);
    assert("diff"@[0] != "keys"@[0]);
    assert("version"@[0] != "circles"@[0]);
    assert("version"@[0] != "sliders"@[0]);
    assert("source"@[0] != "length"@[0]);
    assert("source"@[0] != "circle"@[0]);
    assert("source"@[1] != "slider"@[1]);
    assert("tag"@[0] != "bpm"@[0]);
    assert("tag"@[0] != "len"@[0]);
    assert("tag"@[0] != "key"@[0]);
    assert("tags"@[0] != "star"@[0]);
    assert("tags"@[1] != "time"@[1]);
    assert("tags"@[0] != "keys"@[0]);
}

/// The keys of the mode and of the status, which are no keys of anything else.
pub proof fn law_other_keys()
    ensures
        text_field("mode"@) is None && numeric_field("mode"@) is None,
        text_field("m"@) is None && numeric_field("m"@) is None,
        text_field("status"@) is None && numeric_field("status"@) is None,
{
    reveal_strlit("stars");
    assert("stars"@.len() == 5);
    reveal_strlit("sr");
    assert("sr"@.len() == 2);
    reveal_strlit("star");
    assert("star"@.len() == 4);
    reveal_strlit("ar");
    assert("ar"@.len() == 2);
    reveal_strlit("cs");
    assert("cs"@.len() == 2);
    reveal_strlit("od");
    assert("od"@.len() == 2);
    reveal_strlit("hp");
    assert("hp"@.len() == 2);
    reveal_strlit("dr");
    assert("dr"@.len() == 2);
    reveal_strlit("bpm");
    assert("bpm"@.len() == 3);
    reveal_strlit("length");
    assert("length"@.len() == 6);
    reveal_strlit("drain");
    assert("drain"@.len() == 5);
    reveal_strlit("len");
    assert("len"@.len() == 3);
    reveal_strlit("time");
    assert("time"@.len() == 4);
    reveal_strlit("circles");
    assert("circles"@.len() == 7);
    reveal_strlit("circle");
    assert("circle"@.len() == 6);
    reveal_strlit("sliders");
    assert("sliders"@.len() == 7);
    reveal_strlit("slider");
    assert("slider"@.len() == 6);
    reveal_strlit("keys");
    assert("keys"@.len() == 4);
    reveal_strlit("key");
    assert("key"@.len() == 3);
    reveal_strlit("artist");
    assert("artist"@.len() == 6);
    reveal_strlit("title");
    assert("title"@.len() == 5);
    reveal_strlit("creator");
    assert("creator"@.len() == 7);
    reveal_strlit("mapper");
    assert("mapper"@.len() == 6);
    reveal_strlit("author");
    assert("author"@.len() == 6);
    reveal_strlit("diff");
    assert("diff"@.len() == 4);
    reveal_strlit("difficulty");
    assert("difficulty"@.len() == 10);
    reveal_strlit("version");
    assert("version"@.len() == 7);
    reveal_strlit("source");
    assert("source"@.len() == 6);
    reveal_strlit("tag");
    assert("tag"@.len() == 3);
    reveal_strlit("tags");
    assert("tags"@.len() == 4);
    reveal_strlit("mode");
    assert("mode"@.len() == 4);
    reveal_strlit("m");
    assert("m"@.len() == 1);
    reveal_strlit("status");
    assert("status"@.len() == 6);
    assert("mode"@[0] != "diff"@[0]);
    assert("mode"@[0] != "tags"@[0]);
    assert("mode"@[0] != "star"@[0]);
    assert("mode"@[0] != "time"@[0]);
    assert("mode"@[0] != "keys"@[0]);
    assert("status"@[0] != "artist"@[0]);
    assert("status"@[0] != "mapper"@[0]);
    assert("status"@[0] != "author"@[0]);
    assert("status"@[1] != "source"@[1]);
    assert("status"@[0] != "length"@[0]);
    assert("status"@[0] != "circle"@[0]);
    assert("status"@[1] != "slider"@[1]);
}

/// The names and the numbers of the modes.
pub proof fn law_mode_names()
    ensures
        mode_named("osu"@) == Some(0u8),
        mode_named("std"@) == Some(0u8),
        mode_named("standard"@) == Some(0u8),
        mode_named("o"@) == Some(0u8),
        mode_named("0"@) == Some(0u8),
        mode_named("taiko"@) == Some(1u8),
        mode_named("t"@) == Some(1u8),
        mode_named("1"@) == Some(1u8),
        mode_named("catch"@) == Some(2u8),
        mode_named("ctb"@) == Some(2u8),
        mode_named("fruits"@) == Some(2u8),
        mode_named("c"@) == Some(2u8),
        mode_named("2"@) == Some(2u8),
        mode_named("mania"@) == Some(3u8),
        mode_named("m"@) == Some(3u8),
        mode_named("3"@) == Some(3u8),
{
    reveal_strlit("osu");
    assert("osu"@.len() == 3);
    reveal_strlit("std");
    assert("std"@.len() == 3);
    reveal_strlit("standard");
    assert("standard"@.len() == 8);
    reveal_strlit("o");
    assert("o"@.len() == 1);
    reveal_strlit("0");
    assert("0"@.len() == 1);
    reveal_strlit("taiko");
    assert("taiko"@.len() == 5);
    reveal_strlit("t");
    assert("t"@.len() == 1);
    reveal_strlit("1");
    assert("1"@.len() == 1);
    reveal_strlit("catch");
    assert("catch"@.len() == 5);
    reveal_strlit("ctb");
    assert("ctb"@.len() == 3);
    reveal_strlit("fruits");
    assert("fruits"@.len() == 6);
    reveal_strlit("c");
    assert("c"@.len() == 1);
    reveal_strlit("2");
    assert("2"@.len() == 1);
    reveal_strlit("mania");
    assert("mania"@.len() == 5);
    reveal_strlit("m");
    assert("m"@.len() == 1);
    reveal_strlit("3");
    assert("3"@.len() == 1);
    assert("osu"@[0] != "std"@[0]);
    assert("osu"@[0] != "ctb"@[0]);
    assert("std"@[0] != "ctb"@[0]);
    assert("o"@[0] != "0"@[0]);
    assert("o"@[0] != "t"@[0]);
    assert("o"@[0] != "1"@[0]);
    assert("o"@[0] != "c"@[0]);
    assert("o"@[0] != "2"@[0]);
    assert("o"@[0] != "m"@[0]);
    assert("o"@[0] != "3"@[0]);
    assert("0"@[0] != "t"@[0]);
    assert("0"@[0] != "1"@[0]);
    assert("0"@[0] != "c"@[0]);
    assert("0"@[0] != "2"@[0]);
    assert("0"@[0] != "m"@[0]);
    assert("0"@[0] != "3"@[0]);
    assert("taiko"@[0] != "catch"@[0]);
    assert("taiko"@[0] != "mania"@[0]);
    assert("t"@[0] != "1"@[0]);
    assert("t"@[0] != "c"@[0]);
    assert("t"@[0] != "2"@[0]);
    assert("t"@[0] != "m"@[0]);
    assert("t"@[0] != "3"@[0]);
    assert("1"@[0] != "c"@[0]);
    assert("1"@[0] != "2"@[0]);
    assert("1"@[0] != "m"@[0]);
    assert("1"@[0] != "3"@[0]);
    assert("catch"@[0] != "mania"@[0]);
    assert("c"@[0] != "2"@[0]);
    assert("c"@[0] != "m"@[0]);
    assert("c"@[0] != "3"@[0]);
    assert("2"@[0] != "m"@[0]);
    assert("2"@[0] != "3"@[0]);
    assert("m"@[0] != "3"@[0]);
}

/// The names of the ranked statuses.
pub proof fn law_status_names()
    ensures
        status_named("ranked"@) == Some(StatusTarget::Ranked),
        status_named("r"@) == Some(StatusTarget::Ranked),
        status_named("approved"@) == Some(StatusTarget::Approved),
        status_named("a"@) == Some(StatusTarget::Approved),
        status_named("qualified"@) == Some(StatusTarget::Qualified),
        status_named("q"@) == Some(StatusTarget::Qualified),
        status_named("loved"@) == Some(StatusTarget::Loved),
        status_named("l"@) == Some(StatusTarget::Loved),
        status_named("pending"@) == Some(StatusTarget::Pending),
        status_named("w"@) == Some(StatusTarget::Pending),
        status_named("wip"@) == Some(StatusTarget::Pending),
        status_named("graveyard"@) == Some(StatusTarget::Graveyard),
        status_named("g"@) == Some(StatusTarget::Graveyard),
{
    reveal_strlit("ranked");
    assert("ranked"@.len() == 6);
    reveal_strlit("r");
    assert("r"@.len() == 1);
    reveal_strlit("approved");
    assert("approved"@.len() == 8);
    reveal_strlit("a");
    assert("a"@.len() == 1);
    reveal_strlit("qualified");
    assert("qualified"@.len() == 9);
    reveal_strlit("q");
    assert("q"@.len() == 1);
    reveal_strlit("loved");
    assert("loved"@.len() == 5);
    reveal_strlit("l");
    assert("l"@.len() == 1);
    reveal_strlit("pending");
    assert("pending"@.len() == 7);
    reveal_strlit("w");
    assert("w"@.len() == 1);
    reveal_strlit("wip");
    assert("wip"@.len() == 3);
    reveal_strlit("graveyard");
    assert("graveyard"@.len() == 9);
    reveal_strlit("g");
    assert("g"@.len() == 1);
    assert("r"@[0] != "a"@[0]);
    assert("r"@[0] != "q"@[0]);
    assert("r"@[0] != "l"@[0]);
    assert("r"@[0] != "w"@[0]);
    assert("r"@[0] != "g"@[0]);
    assert("a"@[0] != "q"@[0]);
    assert("a"@[0] != "l"@[0]);
    assert("a"@[0] != "w"@[0]);
    assert("a"@[0] != "g"@[0]);
    assert("qualified"@[0] != "graveyard"@[0]);
    assert("q"@[0] != "l"@[0]);
    assert("q"@[0] != "w"@[0]);
    assert("q"@[0] != "g"@[0]);
    assert("l"@[0] != "w"@[0]);
    assert("l"@[0] != "g"@[0]);
    assert("w"@[0] != "g"@[0]);
}

/// The case of the letters of a key means nothing.
pub proof fn law_keys_ignore_case(
    key: Seq<char>,
    other: Seq<char>,
    op: ComparisonOp,
    value: Seq<char>,
)
    requires
        is_key(key) && is_key(other),
        ascii_lower(key) == ascii_lower(other),
        value.len() > 0 ==> value[0] != '=',
        numeric_field(ascii_lower(key)) is Some || text_field(ascii_lower(key)) is Some
            || ascii_lower(key) == "mode"@ || ascii_lower(key) == "m"@ || ascii_lower(key)
            == "status"@,
    ensures
        token_clause(key + symbol_of(op) + value) == token_clause(
            other + symbol_of(op) + value,
        ),
{
    law_key_and_comparison(key, op, value);
    law_key_and_comparison(other, op, value);
}

} // verus!
