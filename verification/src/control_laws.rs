//! Which maps the controls let through, and how a search sets the controls.

use crate::condition_laws::{law_typed_number, symbol_of};
use crate::filters::{
    about, bound_of, bounds_asked, escaped, length_asked, length_token, mentions, mode_token,
    quoted, range_asked, text_token, BeatmapFilters, FiltersView, LoweredTextQueries, NeedlesView,
    RangeFilter,
};
use crate::local::LocalBeatmap;
use crate::numeral::{short_number, single_of_text};
use crate::outside::lowercase;
use crate::query::{ClauseView, ComparisonOp, ModeFilter, NumericField, TextField};
use crate::round_trip::lemma_number_keys;
use crate::search_laws::law_blank_boxes_ask_for_nothing;
use crate::short_numbers::{lemma_short_chars, rounded};
use crate::single::{nearest_integer, Single};
use crate::text::{contains_text, join, lemma_trim_both_ends, lemma_trim_fixed, trim, CharClass};
use vstd::prelude::*;

verus! {

// ---------------------------------------------------------------------------
// Which maps are let through
// ---------------------------------------------------------------------------

/// Whether a number is known and lies between the bounds of a range.
pub open spec fn lies_within(number: Option<Single>, range: RangeFilter) -> bool {
    match number {
        Some(number) => !number.nan() && !range.min.nan() && !range.max.nan()
            && range.min.scaled() <= number.scaled() <= range.max.scaled(),
        None => false,
    }
}

/// Where no search was typed, a map that is let through meets each control by
/// the field of its name: an enabled range by a known number between its
/// bounds, a text box by its words, a length box by the length, and the mode by
/// the mode.
pub proof fn law_let_through_meets_each_control(v: FiltersView, map: LocalBeatmap)
    requires
        v.search is None,
        v.admits(map, v.needles()),
    ensures
        v.stars.enabled ==> lies_within(map.stars, v.stars),
        v.ar.enabled ==> lies_within(map.ar, v.ar),
        v.cs.enabled ==> lies_within(map.cs, v.cs),
        v.od.enabled ==> lies_within(map.od, v.od),
        v.hp.enabled ==> lies_within(map.hp, v.hp),
        v.bpm.enabled ==> lies_within(map.bpm, v.bpm),
        lowercase(trim(v.artist)).len() > 0 ==> contains_text(
            lowercase(map.artist@),
            lowercase(trim(v.artist)),
        ),
        lowercase(trim(v.title)).len() > 0 ==> contains_text(
            lowercase(map.title@),
            lowercase(trim(v.title)),
        ),
        lowercase(trim(v.mapper)).len() > 0 ==> contains_text(
            lowercase(map.creator@),
            lowercase(trim(v.mapper)),
        ),
        lowercase(trim(v.difficulty)).len() > 0 ==> contains_text(
            lowercase(map.version@),
            lowercase(trim(v.difficulty)),
        ),
        lowercase(trim(v.tag)).len() > 0 ==> contains_text(
            lowercase(map.tags@),
            lowercase(trim(v.tag)),
        ),
        bound_of(v.length_min) is Some ==> map.length_seconds is Some && bound_of(
            v.length_min,
        )->0.scaled() <= map.length_seconds->0.scaled(),
        bound_of(v.length_max) is Some ==> map.length_seconds is Some
            && map.length_seconds->0.scaled() <= bound_of(v.length_max)->0.scaled(),
        v.mode == ModeFilter::Osu ==> map.mode is None || map.mode == Some(0u8),
        v.mode == ModeFilter::Taiko ==> map.mode == Some(1u8),
        v.mode == ModeFilter::Catch ==> map.mode == Some(2u8),
        v.mode == ModeFilter::Mania ==> map.mode == Some(3u8),
{
}

/// Where no search was typed, a map that meets each control is let through.
pub proof fn law_meeting_each_control_is_enough(v: FiltersView, map: LocalBeatmap)
    requires
        v.search is None,
        v.stars.enabled ==> lies_within(map.stars, v.stars),
        v.ar.enabled ==> lies_within(map.ar, v.ar),
        v.cs.enabled ==> lies_within(map.cs, v.cs),
        v.od.enabled ==> lies_within(map.od, v.od),
        v.hp.enabled ==> lies_within(map.hp, v.hp),
        v.bpm.enabled ==> lies_within(map.bpm, v.bpm),
        trim(v.artist).len() == 0 || contains_text(
            lowercase(map.artist@),
            lowercase(trim(v.artist)),
        ),
        trim(v.title).len() == 0 || contains_text(lowercase(map.title@), lowercase(trim(v.title))),
        trim(v.mapper).len() == 0 || contains_text(
            lowercase(map.creator@),
            lowercase(trim(v.mapper)),
        ),
        trim(v.difficulty).len() == 0 || contains_text(
            lowercase(map.version@),
            lowercase(trim(v.difficulty)),
        ),
        trim(v.tag).len() == 0 || contains_text(lowercase(map.tags@), lowercase(trim(v.tag))),
        bound_of(v.length_min) is Some ==> map.length_seconds is Some && bound_of(
            v.length_min,
        )->0.at_most(map.length_seconds->0),
        bound_of(v.length_max) is Some ==> map.length_seconds is Some
            && map.length_seconds->0.at_most(bound_of(v.length_max)->0),
        v.mode == ModeFilter::Osu ==> map.mode is None || map.mode == Some(0u8),
        v.mode == ModeFilter::Taiko ==> map.mode == Some(1u8),
        v.mode == ModeFilter::Catch ==> map.mode == Some(2u8),
        v.mode == ModeFilter::Mania ==> map.mode == Some(3u8),
    ensures
        v.admits(map, v.needles()),
{
    law_blank_boxes_ask_for_nothing(map.artist@, v.artist, None, Seq::empty(), Seq::empty());
    law_blank_boxes_ask_for_nothing(map.title@, v.title, None, Seq::empty(), Seq::empty());
    law_blank_boxes_ask_for_nothing(map.creator@, v.mapper, None, Seq::empty(), Seq::empty());
    law_blank_boxes_ask_for_nothing(map.version@, v.difficulty, None, Seq::empty(), Seq::empty());
    law_blank_boxes_ask_for_nothing(map.tags@, v.tag, None, Seq::empty(), Seq::empty());
}

/// A number of a map means nothing to controls whose range of that name is
/// off.
pub proof fn law_ranges_that_are_off(
    v: FiltersView,
    map: LocalBeatmap,
    needles: NeedlesView,
    other: Option<Single>,
)
    requires
        v.search is None,
    ensures
        !v.stars.enabled ==> v.admits((LocalBeatmap { stars: other, ..map }), needles) == v.admits(
            map,
            needles,
        ),
        !v.ar.enabled ==> v.admits((LocalBeatmap { ar: other, ..map }), needles) == v.admits(
            map,
            needles,
        ),
        !v.cs.enabled ==> v.admits((LocalBeatmap { cs: other, ..map }), needles) == v.admits(
            map,
            needles,
        ),
        !v.od.enabled ==> v.admits((LocalBeatmap { od: other, ..map }), needles) == v.admits(
            map,
            needles,
        ),
        !v.hp.enabled ==> v.admits((LocalBeatmap { hp: other, ..map }), needles) == v.admits(
            map,
            needles,
        ),
        !v.bpm.enabled ==> v.admits((LocalBeatmap { bpm: other, ..map }), needles) == v.admits(
            map,
            needles,
        ),
        bound_of(v.length_min) is None && bound_of(v.length_max) is None ==> v.admits(
            (LocalBeatmap { length_seconds: other, ..map }),
            needles,
        ) == v.admits(map, needles),
{
}

/// What no control asks about means nothing to the controls: the ids of a map,
/// its source, its files, its circles and sliders, and its status.
pub proof fn law_controls_look_at_nothing_else(
    v: FiltersView,
    map: LocalBeatmap,
    other: LocalBeatmap,
    needles: NeedlesView,
)
    requires
        v.search is None,
        map.artist@ == other.artist@,
        map.title@ == other.title@,
        map.creator@ == other.creator@,
        map.version@ == other.version@,
        map.tags@ == other.tags@,
        map.length_seconds == other.length_seconds,
        map.stars == other.stars,
        map.ar == other.ar,
        map.cs == other.cs,
        map.od == other.od,
        map.hp == other.hp,
        map.bpm == other.bpm,
        map.mode == other.mode,
    ensures
        v.admits(map, needles) == v.admits(other, needles),
{
}

/// Where a search was typed, the controls mean nothing: each of its conditions
/// must be met, and no other.
pub proof fn law_typed_conditions_are_all_met(
    v: FiltersView,
    map: LocalBeatmap,
    needles: NeedlesView,
    i: int,
)
    requires
        v.search matches Some(search) && 0 <= i < search.conditions.len(),
    ensures
        v.admits(map, needles) ==> v.search->0.conditions[i].admits(map),
        (forall|j: int|
            0 <= j < v.search->0.conditions.len() ==> (
            #[trigger] v.search->0.conditions[j]).admits(map)) ==> v.admits(map, needles),
{
}

// ---------------------------------------------------------------------------
// How many controls are active
// ---------------------------------------------------------------------------

/// Whether controls have words in one box that others do not have, and are the
/// same but for that.
pub open spec fn differ_by_box(v: FiltersView, w: FiltersView, field: TextField) -> bool {
    match field {
        TextField::Artist => trim(v.artist).len() > 0 && w == (FiltersView {
            artist: Seq::empty(),
            ..v
        }),
        TextField::Title => trim(v.title).len() > 0 && w == (FiltersView {
            title: Seq::empty(),
            ..v
        }),
        TextField::Creator => trim(v.mapper).len() > 0 && w == (FiltersView {
            mapper: Seq::empty(),
            ..v
        }),
        TextField::Difficulty => trim(v.difficulty).len() > 0 && w == (FiltersView {
            difficulty: Seq::empty(),
            ..v
        }),
        TextField::Tag => trim(v.tag).len() > 0 && w == (FiltersView {
            tag: Seq::empty(),
            ..v
        }),
        TextField::Source => false,
    }
}

/// A text box with words counts once: emptying it takes one from the count.
pub proof fn law_active_words(v: FiltersView, w: FiltersView, field: TextField)
    requires
        v.search is None,
        differ_by_box(v, w, field),
    ensures
        v.active() == w.active() + 1,
{
    lemma_trim_both_ends(Seq::<char>::empty(), CharClass::White);
    assert(v.active_ranges() == w.active_ranges());
    assert(v.active_length() == w.active_length());
    assert(v.active_words() == w.active_words() + 1);
}

/// Whether controls have one range enabled that others do not have, and are the
/// same but for that.
pub open spec fn differ_by_range(
    v: FiltersView,
    w: FiltersView,
    field: NumericField,
    off: RangeFilter,
) -> bool {
    !off.enabled && match field {
        NumericField::Stars => v.stars.enabled && w == (FiltersView { stars: off, ..v }),
        NumericField::Ar => v.ar.enabled && w == (FiltersView { ar: off, ..v }),
        NumericField::Cs => v.cs.enabled && w == (FiltersView { cs: off, ..v }),
        NumericField::Od => v.od.enabled && w == (FiltersView { od: off, ..v }),
        NumericField::Hp => v.hp.enabled && w == (FiltersView { hp: off, ..v }),
        NumericField::Bpm => v.bpm.enabled && w == (FiltersView { bpm: off, ..v }),
        _ => false,
    }
}

/// An enabled range counts once: switching it off takes one from the count.
pub proof fn law_active_ranges(
    v: FiltersView,
    w: FiltersView,
    field: NumericField,
    off: RangeFilter,
)
    requires
        v.search is None,
        differ_by_range(v, w, field, off),
    ensures
        v.active() == w.active() + 1,
{
    assert(v.active_words() == w.active_words());
    assert(v.active_length() == w.active_length());
    assert(v.active_ranges() == w.active_ranges() + 1);
}

/// Length boxes with a number in either of them count once, and so does a mode.
pub proof fn law_active_length_and_mode(v: FiltersView)
    requires
        v.search is None,
    ensures
        bound_of(v.length_min) is Some || bound_of(v.length_max) is Some ==> v.active() == (
        FiltersView { length_min: Seq::empty(), length_max: Seq::empty(), ..v }).active() + 1,
        v.mode != ModeFilter::Any ==> v.active() == (FiltersView {
            mode: ModeFilter::Any,
            ..v
        }).active() + 1,
{
    lemma_trim_both_ends(Seq::<char>::empty(), CharClass::White);
    let w = FiltersView { length_min: Seq::empty(), length_max: Seq::empty(), ..v };
    assert(v.active_words() == w.active_words());
    assert(v.active_ranges() == w.active_ranges());
    let u = FiltersView { mode: ModeFilter::Any, ..v };
    assert(v.active_words() == u.active_words());
    assert(v.active_ranges() == u.active_ranges());
    assert(v.active_length() == u.active_length());
}

/// Controls that ask for nothing count nothing, and a typed search counts its
/// conditions.
pub proof fn law_nothing_is_active(v: FiltersView)
    ensures
        v.search is None && trim(v.artist).len() == 0 && trim(v.title).len() == 0 && trim(
            v.mapper,
        ).len() == 0 && trim(v.difficulty).len() == 0 && trim(v.tag).len() == 0 && bound_of(
            v.length_min,
        ) is None && bound_of(v.length_max) is None && !v.stars.enabled && !v.ar.enabled
            && !v.cs.enabled && !v.od.enabled && !v.hp.enabled && !v.bpm.enabled && v.mode
            == ModeFilter::Any ==> v.active() == 0,
        v.search matches Some(search) ==> v.active() == search.conditions.len(),
{
}

// ---------------------------------------------------------------------------
// Numbers that a search asks for
// ---------------------------------------------------------------------------

/// Whether a condition about a field lets a number through when its bound is
/// taken as it is written.
pub open spec fn strictly_met(clause: ClauseView, field: NumericField, x: Single) -> bool {
    clause matches ClauseView::Numeric { field: f, op, value } ==> f == field ==> match op {
        ComparisonOp::GreaterThan | ComparisonOp::GreaterThanOrEqual => value.at_most(x),
        ComparisonOp::LessThan | ComparisonOp::LessThanOrEqual => x.at_most(value),
        ComparisonOp::Equal => value.same_number(x),
        ComparisonOp::NotEqual => true,
    }
}

proof fn lemma_bounds_let_through(
    clauses: Seq<ClauseView>,
    field: NumericField,
    start: (Single, Single),
    x: Single,
)
    requires
        start.0.at_most(x) && x.at_most(start.1),
        forall|i: int| 0 <= i < clauses.len() ==> strictly_met(#[trigger] clauses[i], field, x),
    ensures
        bounds_asked(clauses, field, start).0.at_most(x),
        x.at_most(bounds_asked(clauses, field, start).1),
    decreases clauses.len(),
{
    if clauses.len() > 0 {
        let init = clauses.drop_last();
        assert forall|i: int| 0 <= i < init.len() implies strictly_met(
            #[trigger] init[i],
            field,
            x,
        ) by {
            assert(strictly_met(clauses[i], field, x));
        }
        lemma_bounds_let_through(init, field, start, x);
        assert(strictly_met(clauses[clauses.len() - 1], field, x));
    }
}

/// A range that is set from a search lets every number through that lies in
/// the full range and meets each condition of the search on that number.
pub proof fn law_range_lets_through(
    clauses: Seq<ClauseView>,
    field: NumericField,
    full: (Single, Single),
    before: RangeFilter,
    x: Single,
)
    requires
        full.0.at_most(x) && x.at_most(full.1),
        forall|i: int| 0 <= i < clauses.len() ==> strictly_met(#[trigger] clauses[i], field, x),
    ensures
        range_asked(clauses, field, full, before).admits(Some(x)),
{
    lemma_bounds_let_through(clauses, field, full, x);
}

/// Whether a condition about a field gives a bound inside the full range and
/// does not ask for one number alone.
pub open spec fn gives_a_bound(
    clause: ClauseView,
    field: NumericField,
    full: (Single, Single),
) -> bool {
    clause matches ClauseView::Numeric { field: f, op, value } ==> f == field ==> op
        != ComparisonOp::Equal && full.0.at_most(value) && value.at_most(full.1)
}

proof fn lemma_bounds_keep_out(
    clauses: Seq<ClauseView>,
    field: NumericField,
    full: (Single, Single),
    x: Single,
    i: int,
)
    requires
        full.0.at_most(full.1),
        forall|j: int|
            0 <= j < clauses.len() ==> gives_a_bound(#[trigger] clauses[j], field, full),
        0 <= i < clauses.len(),
        bounds_asked(clauses, field, full).0.at_most(x),
        x.at_most(bounds_asked(clauses, field, full).1),
    ensures
        strictly_met(clauses[i], field, x),
    decreases clauses.len(),
{
    let init = clauses.drop_last();
    lemma_bounds_inside(clauses, field, full);
    assert forall|j: int| 0 <= j < init.len() implies gives_a_bound(
        #[trigger] init[j],
        field,
        full,
    ) by {
        assert(gives_a_bound(clauses[j], field, full));
    }
    lemma_bounds_inside(init, field, full);
    assert(gives_a_bound(clauses[clauses.len() - 1], field, full));
    if i < init.len() {
        lemma_bounds_keep_out(init, field, full, x, i);
        assert(init[i] == clauses[i]);
    }
}

proof fn lemma_bounds_inside(
    clauses: Seq<ClauseView>,
    field: NumericField,
    full: (Single, Single),
)
    requires
        full.0.at_most(full.1),
        forall|j: int|
            0 <= j < clauses.len() ==> gives_a_bound(#[trigger] clauses[j], field, full),
    ensures
        full.0.at_most(bounds_asked(clauses, field, full).0),
        bounds_asked(clauses, field, full).0.at_most(full.1),
        full.0.at_most(bounds_asked(clauses, field, full).1),
        bounds_asked(clauses, field, full).1.at_most(full.1),
    decreases clauses.len(),
{
    if clauses.len() > 0 {
        let init = clauses.drop_last();
        assert forall|j: int| 0 <= j < init.len() implies gives_a_bound(
            #[trigger] init[j],
            field,
            full,
        ) by {
            assert(gives_a_bound(clauses[j], field, full));
        }
        lemma_bounds_inside(init, field, full);
        assert(gives_a_bound(clauses[clauses.len() - 1], field, full));
    }
}

/// A range that is set from a search keeps every number out that misses one of
/// the bounds of the search, where those lie in the full range.
pub proof fn law_range_keeps_out(
    clauses: Seq<ClauseView>,
    field: NumericField,
    full: (Single, Single),
    before: RangeFilter,
    x: Single,
    i: int,
)
    requires
        full.0.at_most(full.1),
        forall|j: int|
            0 <= j < clauses.len() ==> gives_a_bound(#[trigger] clauses[j], field, full),
        0 <= i < clauses.len(),
        about(clauses[i], field),
        range_asked(clauses, field, full, before).admits(Some(x)),
    ensures
        strictly_met(clauses[i], field, x),
{
    lemma_bounds_inside(clauses, field, full);
    assert(mentions(clauses, field));
    lemma_bounds_keep_out(clauses, field, full, x, i);
}

/// One number alone, asked for last, is both bounds of its range.
pub proof fn law_range_of_one_number(
    clauses: Seq<ClauseView>,
    field: NumericField,
    full: (Single, Single),
    before: RangeFilter,
    x: Single,
)
    requires
        full.0.at_most(x) && x.at_most(full.1),
    ensures
        range_asked(
            clauses.push((ClauseView::Numeric { field, op: ComparisonOp::Equal, value: x })),
            field,
            full,
            before,
        ) == (RangeFilter { enabled: true, min: x, max: x }),
{
    let all = clauses.push((ClauseView::Numeric { field, op: ComparisonOp::Equal, value: x }));
    assert(about(all[clauses.len() as int], field));
    assert(all.drop_last() =~= clauses);
}

/// A range that no condition is about is switched off and keeps its bounds.
pub proof fn law_range_not_asked_for(
    clauses: Seq<ClauseView>,
    field: NumericField,
    full: (Single, Single),
    before: RangeFilter,
)
    requires
        forall|i: int|
            0 <= i < clauses.len() ==> !(#[trigger] clauses[i] matches ClauseView::Numeric {
                field: f,
                ..
            } && f == field),
    ensures
        range_asked(clauses, field, full, before) == (RangeFilter {
            enabled: false,
            min: before.min,
            max: before.max,
        }),
{
}

/// The range of each name is set from the conditions on the number of that
/// name: one condition switches its own range on and the five others off.
pub proof fn law_a_condition_sets_its_range(v: FiltersView, op: ComparisonOp, value: Single)
    ensures
        ({
            let set = v.set_from(
                seq![(ClauseView::Numeric { field: NumericField::Stars, op, value })],
            );
            set.stars.enabled && !set.ar.enabled && !set.cs.enabled && !set.od.enabled
                && !set.hp.enabled && !set.bpm.enabled
        }),
        ({
            let set = v.set_from(seq![(ClauseView::Numeric { field: NumericField::Ar, op, value })]);
            !set.stars.enabled && set.ar.enabled && !set.cs.enabled && !set.od.enabled
                && !set.hp.enabled && !set.bpm.enabled
        }),
        ({
            let set = v.set_from(seq![(ClauseView::Numeric { field: NumericField::Cs, op, value })]);
            !set.stars.enabled && !set.ar.enabled && set.cs.enabled && !set.od.enabled
                && !set.hp.enabled && !set.bpm.enabled
        }),
        ({
            let set = v.set_from(seq![(ClauseView::Numeric { field: NumericField::Od, op, value })]);
            !set.stars.enabled && !set.ar.enabled && !set.cs.enabled && set.od.enabled
                && !set.hp.enabled && !set.bpm.enabled
        }),
        ({
            let set = v.set_from(seq![(ClauseView::Numeric { field: NumericField::Hp, op, value })]);
            !set.stars.enabled && !set.ar.enabled && !set.cs.enabled && !set.od.enabled
                && set.hp.enabled && !set.bpm.enabled
        }),
        ({
            let set = v.set_from(seq![(ClauseView::Numeric { field: NumericField::Bpm, op, value })]);
            !set.stars.enabled && !set.ar.enabled && !set.cs.enabled && !set.od.enabled
                && !set.hp.enabled && set.bpm.enabled
        }),
{
    lemma_only_mention(NumericField::Stars, op, value);
    lemma_only_mention(NumericField::Ar, op, value);
    lemma_only_mention(NumericField::Cs, op, value);
    lemma_only_mention(NumericField::Od, op, value);
    lemma_only_mention(NumericField::Hp, op, value);
    lemma_only_mention(NumericField::Bpm, op, value);
}

proof fn lemma_only_mention(field: NumericField, op: ComparisonOp, value: Single)
    ensures
        ({
            let clauses = seq![(ClauseView::Numeric { field, op, value })];
            &&& mentions(clauses, field)
            &&& forall|other: NumericField|
                other != field ==> !(#[trigger] mentions(clauses, other))
        }),
{
    let clauses = seq![(ClauseView::Numeric { field, op, value })];
    assert(about(clauses[0], field));
}

/// A bound on a number becomes the bound of its range on the same side, and
/// the other bound is that of the full range, however the range stood before.
pub proof fn law_a_bound_goes_to_its_side(
    field: NumericField,
    full: (Single, Single),
    before: RangeFilter,
    x: Single,
)
    requires
        full.0.at_most(x) && x.at_most(full.1),
    ensures
        ({
            let set = |op: ComparisonOp|
                range_asked(
                    seq![(ClauseView::Numeric { field, op, value: x })],
                    field,
                    full,
                    before,
                );
            &&& set(ComparisonOp::GreaterThan).min.same_number(x)
            &&& set(ComparisonOp::GreaterThan).max == full.1
            &&& set(ComparisonOp::GreaterThanOrEqual).min.same_number(x)
            &&& set(ComparisonOp::GreaterThanOrEqual).max == full.1
            &&& set(ComparisonOp::LessThan).min == full.0
            &&& set(ComparisonOp::LessThan).max.same_number(x)
            &&& set(ComparisonOp::LessThanOrEqual).min == full.0
            &&& set(ComparisonOp::LessThanOrEqual).max.same_number(x)
            &&& set(ComparisonOp::NotEqual).min == full.0
            &&& set(ComparisonOp::NotEqual).max == full.1
        }),
{
    reveal_with_fuel(bounds_asked, 2);
    lemma_only_mention(field, ComparisonOp::GreaterThan, x);
    lemma_only_mention(field, ComparisonOp::GreaterThanOrEqual, x);
    lemma_only_mention(field, ComparisonOp::LessThan, x);
    lemma_only_mention(field, ComparisonOp::LessThanOrEqual, x);
    lemma_only_mention(field, ComparisonOp::NotEqual, x);
}

/// The ranges are set within their full ranges: 0 to 12 stars, an approach
/// rate and an overall difficulty from 0 to 11, a circle size and a drain rate
/// from 0 to 10, and up to 350 beats a minute.
pub proof fn law_full_ranges(v: FiltersView, clauses: Seq<ClauseView>)
    ensures
        v.set_from(clauses).stars == range_asked(
            clauses,
            NumericField::Stars,
            (nearest_integer(0), nearest_integer(12)),
            v.stars,
        ),
        v.set_from(clauses).ar == range_asked(
            clauses,
            NumericField::Ar,
            (nearest_integer(0), nearest_integer(11)),
            v.ar,
        ),
        v.set_from(clauses).cs == range_asked(
            clauses,
            NumericField::Cs,
            (nearest_integer(0), nearest_integer(10)),
            v.cs,
        ),
        v.set_from(clauses).od == range_asked(
            clauses,
            NumericField::Od,
            (nearest_integer(0), nearest_integer(11)),
            v.od,
        ),
        v.set_from(clauses).hp == range_asked(
            clauses,
            NumericField::Hp,
            (nearest_integer(0), nearest_integer(10)),
            v.hp,
        ),
        v.set_from(clauses).bpm == range_asked(
            clauses,
            NumericField::Bpm,
            (nearest_integer(0), nearest_integer(350)),
            v.bpm,
        ),
        FiltersView::full().stars == (RangeFilter {
            enabled: true,
            min: nearest_integer(0),
            max: nearest_integer(12),
        }),
        FiltersView::full().ar == (RangeFilter {
            enabled: true,
            min: nearest_integer(0),
            max: nearest_integer(11),
        }),
        FiltersView::full().cs == (RangeFilter {
            enabled: true,
            min: nearest_integer(0),
            max: nearest_integer(10),
        }),
        FiltersView::full().od == (RangeFilter {
            enabled: false,
            min: nearest_integer(0),
            max: nearest_integer(11),
        }),
        FiltersView::full().hp == (RangeFilter {
            enabled: false,
            min: nearest_integer(0),
            max: nearest_integer(10),
        }),
        FiltersView::full().bpm == (RangeFilter {
            enabled: false,
            min: nearest_integer(0),
            max: nearest_integer(350),
        }),
{
}

// ---------------------------------------------------------------------------
// Lengths that a search asks for
// ---------------------------------------------------------------------------

/// A search for lengths above a number fills the minimum box and leaves the
/// maximum box blank, and one for lengths below it the other way round; one
/// for a single length fills both, and `!=` neither. The number is written
/// with two decimal places.
pub proof fn law_length_goes_to_its_box(v: FiltersView, op: ComparisonOp, x: Single)
    requires
        x.finite(),
        v.query_text == "length"@ + symbol_of(op) + short_number(x),
    ensures
        op == ComparisonOp::GreaterThan || op == ComparisonOp::GreaterThanOrEqual ==> {
            &&& v.synchronized().length_min == short_number(rounded(x))
            &&& v.synchronized().length_max == Seq::<char>::empty()
        },
        op == ComparisonOp::LessThan || op == ComparisonOp::LessThanOrEqual ==> {
            &&& v.synchronized().length_min == Seq::<char>::empty()
            &&& v.synchronized().length_max == short_number(rounded(x))
        },
        op == ComparisonOp::Equal ==> {
            &&& v.synchronized().length_min == short_number(rounded(x))
            &&& v.synchronized().length_max == short_number(rounded(x))
        },
        op == ComparisonOp::NotEqual ==> {
            &&& v.synchronized().length_min == Seq::<char>::empty()
            &&& v.synchronized().length_max == Seq::<char>::empty()
        },
{
    let text = v.query_text;
    lemma_number_keys();
    law_typed_number("length"@, NumericField::Length, op, x);
    lemma_short_chars(x);
    reveal_strlit("length");
    let s = short_number(x);
    assert(text[0] == 'l');
    assert(text.last() == s[s.len() - 1]);
    lemma_trim_fixed(text, CharClass::White);
    reveal_with_fuel(length_asked, 2);
}

proof fn lemma_lengths_let_through(
    clauses: Seq<ClauseView>,
    start: (Option<Single>, Option<Single>),
    x: Single,
)
    requires
        start.0 matches Some(min) ==> min.at_most(x),
        start.1 matches Some(max) ==> x.at_most(max),
        forall|i: int|
            0 <= i < clauses.len() ==> strictly_met(#[trigger] clauses[i], NumericField::Length, x),
    ensures
        length_asked(clauses, start).0 matches Some(min) ==> min.at_most(x),
        length_asked(clauses, start).1 matches Some(max) ==> x.at_most(max),
    decreases clauses.len(),
{
    if clauses.len() > 0 {
        let init = clauses.drop_last();
        assert forall|i: int| 0 <= i < init.len() implies strictly_met(
            #[trigger] init[i],
            NumericField::Length,
            x,
        ) by {
            assert(strictly_met(clauses[i], NumericField::Length, x));
        }
        lemma_lengths_let_through(init, start, x);
        assert(strictly_met(clauses[clauses.len() - 1], NumericField::Length, x));
    }
}

/// The lengths that are written into the boxes let every length through that
/// meets each condition of the search on the length.
pub proof fn law_lengths_let_through(clauses: Seq<ClauseView>, x: Single)
    requires
        forall|i: int|
            0 <= i < clauses.len() ==> strictly_met(#[trigger] clauses[i], NumericField::Length, x),
    ensures
        length_asked(clauses, (None, None)).0 matches Some(min) ==> min.at_most(x),
        length_asked(clauses, (None, None)).1 matches Some(max) ==> x.at_most(max),
{
    lemma_lengths_let_through(clauses, (None, None), x);
}

/// A further condition on the length narrows the boxes on its own side and
/// leaves the other as it is.
pub proof fn law_lengths_narrow(clauses: Seq<ClauseView>, op: ComparisonOp, value: Single)
    requires
        !value.nan(),
    ensures
        ({
            let before = length_asked(clauses, (None, None));
            let after = length_asked(
                clauses.push((ClauseView::Numeric { field: NumericField::Length, op, value })),
                (None, None),
            );
            &&& op == ComparisonOp::GreaterThan || op == ComparisonOp::GreaterThanOrEqual ==> {
                &&& after.1 == before.1
                &&& after.0 matches Some(min) && value.at_most(min)
                &&& before.0 matches Some(old_min) ==> !old_min.nan() ==> old_min.at_most(
                    after.0->0,
                )
            }
            &&& op == ComparisonOp::LessThan || op == ComparisonOp::LessThanOrEqual ==> {
                &&& after.0 == before.0
                &&& after.1 matches Some(max) && max.at_most(value)
                &&& before.1 matches Some(old_max) ==> !old_max.nan() ==> (after.1->0).at_most(
                    old_max,
                )
            }
            &&& op == ComparisonOp::Equal ==> after == (Some(value), Some(value))
            &&& op == ComparisonOp::NotEqual ==> after == before
        }),
{
    let all = clauses.push((ClauseView::Numeric { field: NumericField::Length, op, value }));
    assert(all.drop_last() =~= clauses);
}

/// The boxes hold the bounds in writing, and are blank where there is none.
pub proof fn law_length_boxes(v: FiltersView, clauses: Seq<ClauseView>)
    ensures
        ({
            let found = length_asked(clauses, (None, None));
            &&& found.0 matches Some(min) ==> v.set_from(clauses).length_min == short_number(min)
            &&& found.0 is None ==> v.set_from(clauses).length_min.len() == 0
            &&& found.1 matches Some(max) ==> v.set_from(clauses).length_max == short_number(max)
            &&& found.1 is None ==> v.set_from(clauses).length_max.len() == 0
        }),
{
}

// ---------------------------------------------------------------------------
// Words and modes that a search asks for
// ---------------------------------------------------------------------------

/// Words that are asked for with an equals sign go into the text box of their
/// name, the last of them where there are several, and leave the other boxes
/// as the search before them set them.
pub proof fn law_words_go_to_their_box(
    v: FiltersView,
    clauses: Seq<ClauseView>,
    field: TextField,
    words: Seq<char>,
)
    ensures
        ({
            let before = v.set_from(clauses);
            let after = v.set_from(
                clauses.push((ClauseView::Text { field, op: ComparisonOp::Equal, value: words })),
            );
            &&& after.artist == (if field == TextField::Artist {
                words
            } else {
                before.artist
            })
            &&& after.title == (if field == TextField::Title {
                words
            } else {
                before.title
            })
            &&& after.mapper == (if field == TextField::Creator {
                words
            } else {
                before.mapper
            })
            &&& after.difficulty == (if field == TextField::Difficulty {
                words
            } else {
                before.difficulty
            })
            &&& after.tag == (if field == TextField::Tag {
                words
            } else {
                before.tag
            })
        }),
{
    let all = clauses.push((ClauseView::Text { field, op: ComparisonOp::Equal, value: words }));
    assert(all.drop_last() =~= clauses);
    assert(all.last() == ClauseView::Text { field, op: ComparisonOp::Equal, value: words });
}

/// Any other condition leaves the text boxes as they are, and without a
/// condition they are blank.
pub proof fn law_other_conditions_fill_no_box(
    v: FiltersView,
    clauses: Seq<ClauseView>,
    clause: ClauseView,
)
    requires
        !(clause matches ClauseView::Text { op, .. } && op == ComparisonOp::Equal),
    ensures
        v.set_from(clauses.push(clause)).artist == v.set_from(clauses).artist,
        v.set_from(clauses.push(clause)).title == v.set_from(clauses).title,
        v.set_from(clauses.push(clause)).mapper == v.set_from(clauses).mapper,
        v.set_from(clauses.push(clause)).difficulty == v.set_from(clauses).difficulty,
        v.set_from(clauses.push(clause)).tag == v.set_from(clauses).tag,
        v.set_from(Seq::empty()).artist.len() == 0,
        v.set_from(Seq::empty()).title.len() == 0,
        v.set_from(Seq::empty()).mapper.len() == 0,
        v.set_from(Seq::empty()).difficulty.len() == 0,
        v.set_from(Seq::empty()).tag.len() == 0,
{
    assert(clauses.push(clause).drop_last() =~= clauses);
}

/// The mode that is asked for with an equals sign, the last where there are
/// several, is the mode that the control lets through; without one the control
/// lets every mode through.
pub proof fn law_mode_is_set(v: FiltersView, clauses: Seq<ClauseView>, target: u8, mode: u8)
    requires
        target <= 3,
    ensures
        v.set_from(
            clauses.push((ClauseView::Mode { op: ComparisonOp::Equal, target_mode: target })),
        ).mode.admits(Some(mode)) == (mode == target),
        v.set_from(
            clauses.push((ClauseView::Mode { op: ComparisonOp::Equal, target_mode: target })),
        ).mode.admits(None) == (target == 0),
        v.set_from(Seq::empty()).mode.admits(Some(mode)),
{
    let all = clauses.push((ClauseView::Mode { op: ComparisonOp::Equal, target_mode: target }));
    assert(all.drop_last() =~= clauses);
    assert(all.last() == ClauseView::Mode { op: ComparisonOp::Equal, target_mode: target });
}

/// Any other condition leaves the mode as it is.
pub proof fn law_other_conditions_set_no_mode(
    v: FiltersView,
    clauses: Seq<ClauseView>,
    clause: ClauseView,
)
    requires
        !(clause matches ClauseView::Mode { op, .. } && op == ComparisonOp::Equal),
    ensures
        v.set_from(clauses.push(clause)).mode == v.set_from(clauses).mode,
{
    assert(clauses.push(clause).drop_last() =~= clauses);
}

// ---------------------------------------------------------------------------
// The search that is written
// ---------------------------------------------------------------------------

/// The controls are written in the order of the filter panel: words, lengths,
/// ranges, and the mode.
pub proof fn law_order_of_the_search(v: FiltersView)
    ensures
        v.search_text() == join(
            text_token("artist"@, v.artist) + text_token("title"@, v.title) + text_token(
                "creator"@,
                v.mapper,
            ) + text_token("difficulty"@, v.difficulty) + text_token("tag"@, v.tag)
                + length_token(">="@, v.length_min) + length_token("<="@, v.length_max)
                + v.stars.token_texts("stars"@, (nearest_integer(0), nearest_integer(12)))
                + v.ar.token_texts("ar"@, (nearest_integer(0), nearest_integer(11)))
                + v.cs.token_texts("cs"@, (nearest_integer(0), nearest_integer(10)))
                + v.od.token_texts("od"@, (nearest_integer(0), nearest_integer(11)))
                + v.hp.token_texts("hp"@, (nearest_integer(0), nearest_integer(10)))
                + v.bpm.token_texts("bpm"@, (nearest_integer(0), nearest_integer(350)))
                + mode_token(v.mode),
            " "@,
        ),
{
}

/// A range is written by those of its bounds that lie inside the full range.
pub proof fn law_written_bounds(range: RangeFilter, key: Seq<char>, full: (Single, Single))
    requires
        full.0.at_most(full.1),
        !range.min.nan() && !range.max.nan(),
    ensures
        ({
            let low = full.0.scaled() < range.min.scaled();
            let high = range.max.scaled() < full.1.scaled();
            let min = key + ">="@ + short_number(range.min);
            let max = key + "<="@ + short_number(range.max);
            range.token_texts(key, full) == (if !range.enabled || (!low && !high) {
                Seq::empty()
            } else if low && high {
                seq![min, max]
            } else if low {
                seq![min]
            } else {
                seq![max]
            })
        }),
{
}

// ---------------------------------------------------------------------------
// The controls themselves
// ---------------------------------------------------------------------------

/// The controls are what the boxes, ranges and choices of the filters hold,
/// each under its own name.
pub proof fn law_controls_of_filters(f: BeatmapFilters)
    ensures
        f@.artist == f.artist@ && f@.title == f.title@ && f@.mapper == f.mapper@,
        f@.difficulty == f.difficulty@ && f@.tag == f.tag@,
        f@.length_min == f.length_min@ && f@.length_max == f.length_max@,
        f@.stars == f.stars && f@.ar == f.ar && f@.cs == f.cs,
        f@.od == f.od && f@.hp == f.hp && f@.bpm == f.bpm,
        f@.mode == f.mode && f@.query_text == f.query_text@,
        f@.search is Some == f.parsed_query is Some,
        f.parsed_query matches Some(query) ==> f@.search->0.raw == query.raw@
            && f@.search->0.conditions == query.conditions(),
{
}

/// The words that are looked for are the small letters of what the boxes hold,
/// without the white space around it, each under the name of its box.
pub proof fn law_words_of_the_boxes(v: FiltersView, lowered: LoweredTextQueries)
    ensures
        v.needles().artist == lowercase(trim(v.artist)),
        v.needles().title == lowercase(trim(v.title)),
        v.needles().mapper == lowercase(trim(v.mapper)),
        v.needles().difficulty == lowercase(trim(v.difficulty)),
        v.needles().tag == lowercase(trim(v.tag)),
        lowered@.artist == lowered.artist@ && lowered@.title == lowered.title@,
        lowered@.mapper == lowered.mapper@ && lowered@.difficulty == lowered.difficulty@,
        lowered@.tag == lowered.tag@,
{
}

/// Filters begin with no words, no lengths and the mode osu!standard.
pub proof fn law_filters_at_the_start()
    ensures
        FiltersView::full().artist.len() == 0 && FiltersView::full().title.len() == 0,
        FiltersView::full().mapper.len() == 0 && FiltersView::full().difficulty.len() == 0,
        FiltersView::full().tag.len() == 0,
        FiltersView::full().length_min.len() == 0 && FiltersView::full().length_max.len() == 0,
        FiltersView::full().mode == ModeFilter::Osu,
        FiltersView::full().search is None,
        FiltersView::full().query_text == "mode=osu"@,
        !FiltersView::blank().stars.enabled && !FiltersView::blank().ar.enabled,
        !FiltersView::blank().cs.enabled && !FiltersView::blank().od.enabled,
        !FiltersView::blank().hp.enabled && !FiltersView::blank().bpm.enabled,
        FiltersView::blank().query_text.len() == 0 && FiltersView::blank().search is None,
        FiltersView::blank().mode == ModeFilter::Osu,
{
}

/// What a length box says is a finite number, without the white space around
/// it; anything else asks for nothing.
pub proof fn law_length_box(text: Seq<char>)
    ensures
        single_of_text(trim(text)) matches Some(x) ==> trim(text).len() > 0 ==> x.finite()
            ==> bound_of(text) == Some(x),
        single_of_text(trim(text)) matches Some(x) ==> !x.finite() ==> bound_of(text) is None,
        single_of_text(trim(text)) is None ==> bound_of(text) is None,
        trim(text).len() == 0 ==> bound_of(text) is None,
{
}

// ---------------------------------------------------------------------------
// Limits and marks
// ---------------------------------------------------------------------------

/// Whatever numbers a search asks for, a range stays inside its full range.
pub proof fn law_ranges_stay_inside(
    clauses: Seq<ClauseView>,
    field: NumericField,
    full: (Single, Single),
    before: RangeFilter,
)
    requires
        full.0.at_most(full.1),
        forall|i: int|
            0 <= i < clauses.len() ==> ((#[trigger] clauses[i]) matches ClauseView::Numeric {
                value,
                ..
            } ==> !value.nan()),
        mentions(clauses, field),
    ensures
        full.0.at_most(range_asked(clauses, field, full, before).min),
        range_asked(clauses, field, full, before).min.at_most(full.1),
        full.0.at_most(range_asked(clauses, field, full, before).max),
        range_asked(clauses, field, full, before).max.at_most(full.1),
        range_asked(clauses, field, full, before).enabled,
{
    lemma_bounds_are_numbers(clauses, field, full);
}

proof fn lemma_bounds_are_numbers(
    clauses: Seq<ClauseView>,
    field: NumericField,
    start: (Single, Single),
)
    requires
        !start.0.nan() && !start.1.nan(),
        forall|i: int|
            0 <= i < clauses.len() ==> ((#[trigger] clauses[i]) matches ClauseView::Numeric {
                value,
                ..
            } ==> !value.nan()),
    ensures
        !bounds_asked(clauses, field, start).0.nan(),
        !bounds_asked(clauses, field, start).1.nan(),
    decreases clauses.len(),
{
    if clauses.len() > 0 {
        let init = clauses.drop_last();
        assert forall|i: int| 0 <= i < init.len() implies ((
        #[trigger] init[i]) matches ClauseView::Numeric { value, .. } ==> !value.nan()) by {
            assert(init[i] == clauses[i]);
        }
        lemma_bounds_are_numbers(init, field, start);
        assert(clauses.last() == clauses[clauses.len() - 1]);
    }
}

/// Words with a space, a slash or a quotation mark are written in quotation
/// marks, and others as they are.
pub proof fn law_words_in_marks(words: Seq<char>)
    ensures
        words.contains(' ') || words.contains('/') || words.contains('"') ==> quoted(words).len()
            >= 2 && quoted(words)[0] == '"' && quoted(words).last() == '"',
        !words.contains(' ') && !words.contains('/') && !words.contains('"') ==> quoted(words)
            == words,
        words.contains(' ') && !words.contains('"') ==> quoted(words) == seq!['"'] + words + seq![
            '"',
        ],
{
    if !words.contains('"') {
        lemma_nothing_escaped(words);
    }
}

proof fn lemma_nothing_escaped(words: Seq<char>)
    requires
        !words.contains('"'),
    ensures
        escaped(words) == words,
    decreases words.len(),
{
    if words.len() > 0 {
        let init = words.drop_last();
        assert(words.last() != '"') by {
            assert(words[words.len() - 1] == words.last());
        }
        assert forall|c: char| init.contains(c) implies words.contains(c) by {
            let i = choose|i: int| 0 <= i < init.len() && init[i] == c;
            assert(words[i] == c);
        }
        lemma_nothing_escaped(init);
        assert(init.push(words.last()) =~= words);
    }
}

/// A text box is written as its key and its words, and a blank one not at all;
/// so is a length box, and so is a mode.
pub proof fn law_written_boxes(key: Seq<char>, text: Seq<char>, sign: Seq<char>)
    ensures
        trim(text).len() == 0 ==> text_token(key, text).len() == 0,
        trim(text).len() > 0 ==> text_token(key, text) == seq![key + "="@ + quoted(trim(text))],
        bound_of(text) matches Some(x) ==> length_token(sign, text) == seq![
            "length"@ + sign + short_number(x),
        ],
        bound_of(text) is None ==> length_token(sign, text).len() == 0,
        mode_token(ModeFilter::Any).len() == 0,
        mode_token(ModeFilter::Osu) == seq!["mode="@ + "osu"@],
        mode_token(ModeFilter::Taiko) == seq!["mode="@ + "taiko"@],
        mode_token(ModeFilter::Catch) == seq!["mode="@ + "catch"@],
        mode_token(ModeFilter::Mania) == seq!["mode="@ + "mania"@],
{
}

} // verus!
