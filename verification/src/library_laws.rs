//! What is found wrong with a map, how maps are grouped, and what a scan takes
//! over from an earlier one.

use crate::local::{
    holds_its_maps, is_grouping, issue_views, issues_of, key_less, maps_with_key, IssueView,
    LocalBeatmap, LocalBeatmapSet, RepairIssue, RepairSeverity,
};
use crate::scan::{
    can_have_stars, is_fresh, issues_at, lookup, maps_by_path, maps_in, meta_or, problem_message,
    reported_in, with_index_stars, with_stars, IndexState, ParseIssueKind, ParseOutcome, ScanEvent,
};
use crate::single::Single;
use crate::text::text_less;
use vstd::prelude::*;

verus! {

// ---------------------------------------------------------------------------
// Issues
// ---------------------------------------------------------------------------

/// The issue of a background that is not on disk.
pub open spec fn background_issue(map: LocalBeatmap, name: Seq<char>) -> IssueView {
    IssueView {
        beatmap: map.path@,
        message: "Missing background file: "@ + name,
        severity: RepairSeverity::MissingRequiredFile,
    }
}

/// The issue of an audio file that is not on disk.
pub open spec fn audio_issue(map: LocalBeatmap, name: Seq<char>) -> IssueView {
    IssueView {
        beatmap: map.path@,
        message: "Missing audio file: "@ + name,
        severity: RepairSeverity::MissingRequiredFile,
    }
}

/// A background that a map names and that is not on disk is one issue of the
/// map, whether or not its audio file is there; one that is on disk is none.
pub proof fn law_issue_of_the_background(
    map: LocalBeatmap,
    name: String,
    audio_exists: bool,
    background_exists: bool,
)
    requires
        map.background_filename == Some(name),
    ensures
        ({
            let issues = issues_of(map@, audio_exists, background_exists);
            let issue = background_issue(map, name@);
            &&& issues.contains(issue) == !background_exists
            &&& issues.filter(|other: IssueView| other == issue).len() == (if background_exists {
                0nat
            } else {
                1nat
            })
        }),
{
    let issues = issues_of(map@, audio_exists, background_exists);
    let issue = background_issue(map, name@);
    let same = |other: IssueView| other == issue;
    lemma_issues(map, audio_exists, background_exists);
    reveal_with_fuel(Seq::filter, 3);
    if let Some(audio) = map.audio_filename {
        lemma_issues_differ(map, audio@, name@);
        let other = audio_issue(map, audio@);
        if !background_exists {
            if !audio_exists {
                assert(issues =~= seq![other, issue]);
                assert(issues.drop_last() =~= seq![other]);
                assert(seq![other].drop_last() =~= Seq::empty());
            } else {
                assert(issues =~= seq![issue]);
                assert(issues.drop_last() =~= Seq::empty());
            }
            assert(issues[issues.len() - 1] == issue);
        } else if !audio_exists {
            assert(issues =~= seq![other]);
            assert(issues.drop_last() =~= Seq::empty());
        }
    } else if !background_exists {
        assert(issues =~= seq![issue]);
        assert(issues.drop_last() =~= Seq::empty());
        assert(issues[0] == issue);
    }
}

proof fn lemma_issues_differ(map: LocalBeatmap, audio: Seq<char>, background: Seq<char>)
    ensures
        audio_issue(map, audio) != background_issue(map, background),
{
    reveal_strlit("Missing background file: ");
    reveal_strlit("Missing audio file: ");
    let a = "Missing audio file: "@ + audio;
    let b = "Missing background file: "@ + background;
    assert(a[8] == 'a');
    assert(b[8] == 'b');
}

proof fn lemma_issues(map: LocalBeatmap, audio_exists: bool, background_exists: bool)
    ensures
        issues_of(map@, audio_exists, background_exists) == (match map.audio_filename {
            Some(name) if !audio_exists => seq![audio_issue(map, name@)],
            _ => Seq::empty(),
        }) + (match map.background_filename {
            Some(name) if !background_exists => seq![background_issue(map, name@)],
            _ => Seq::empty(),
        }),
{
}

/// All that can be wrong with a map: first its audio file, then its
/// background, each where it is named and not on disk.
pub proof fn law_issues_of_a_map(map: LocalBeatmap, audio: String, background: String)
    requires
        map.audio_filename == Some(audio),
        map.background_filename == Some(background),
    ensures
        issues_of(map@, true, true) == Seq::<IssueView>::empty(),
        issues_of(map@, false, true) == seq![audio_issue(map, audio@)],
        issues_of(map@, true, false) == seq![background_issue(map, background@)],
        issues_of(map@, false, false) == seq![
            audio_issue(map, audio@),
            background_issue(map, background@),
        ],
{
}

/// A map without an audio file has no issue about one, and likewise without a
/// background, whatever is on disk.
pub proof fn law_no_issue_of_unnamed_files(
    map: LocalBeatmap,
    audio_exists: bool,
    background_exists: bool,
)
    ensures
        map.audio_filename is None && map.background_filename is None ==> issues_of(
            map@,
            audio_exists,
            background_exists,
        ).len() == 0,
        map.audio_filename is None ==> issues_of(map@, audio_exists, background_exists) == issues_of(
            map@,
            !audio_exists,
            background_exists,
        ),
        map.background_filename is None ==> issues_of(map@, audio_exists, background_exists)
            == issues_of(map@, audio_exists, !background_exists),
        map.audio_filename is Some && !audio_exists ==> issues_of(
            map@,
            audio_exists,
            background_exists,
        ).len() > 0,
        map.background_filename is Some && !background_exists ==> issues_of(
            map@,
            audio_exists,
            background_exists,
        ).len() > 0,
{
    lemma_issues(map, audio_exists, background_exists);
}

/// A map is named by its artist, its title and its difficulty, in this order.
pub proof fn law_label(map: LocalBeatmap)
    ensures
        map@.label_text() == map.artist@ + " - "@ + map.title@ + " ["@ + map.version@ + "]"@,
{
}

// ---------------------------------------------------------------------------
// Sets
// ---------------------------------------------------------------------------

/// A set holds those maps whose own id of a set and whose folder are the set's,
/// in the order in which they were found; its folder is written as in the first
/// of them.
pub proof fn law_maps_of_a_set(set: LocalBeatmapSet, maps: Seq<LocalBeatmap>)
    requires
        holds_its_maps(set, maps),
    ensures
        set.maps@ == maps.filter(
            |map: LocalBeatmap|
                map.beatmapset_id == set.beatmapset_id && map.folder@.key == set.folder@.key,
        ),
        set.maps@.len() > 0,
        set.folder == set.maps@[0].folder,
{
    lemma_maps_with_key(maps, set);
}

proof fn lemma_maps_with_key(maps: Seq<LocalBeatmap>, set: LocalBeatmapSet)
    ensures
        maps_with_key(maps, set.key()) == maps.filter(
            |map: LocalBeatmap|
                map.beatmapset_id == set.beatmapset_id && map.folder@.key == set.folder@.key,
        ),
    decreases maps.len(),
{
    reveal(Seq::filter);
    if maps.len() > 0 {
        lemma_maps_with_key(maps.drop_last(), set);
        let map = maps.last();
        if map.beatmapset_id == set.beatmapset_id && map.folder@.key == set.folder@.key {
            assert(map.set_key() =~= set.key());
        }
    }
}

/// Sets without an id come before those with one, those with a smaller id
/// before those with a larger one, and sets of one id in the order of their
/// folders.
pub proof fn law_order_of_sets(sets: Seq<LocalBeatmapSet>, maps: Seq<LocalBeatmap>, i: int, j: int)
    requires
        is_grouping(sets, maps),
        0 <= i < j < sets.len(),
    ensures
        match (sets[i].beatmapset_id, sets[j].beatmapset_id) {
            (None, None) => text_less(sets[i].folder@.key, sets[j].folder@.key),
            (None, Some(_)) => true,
            (Some(_), None) => false,
            (Some(x), Some(y)) => x < y || (x == y && text_less(
                sets[i].folder@.key,
                sets[j].folder@.key,
            )),
        },
{
    assert(key_less(sets[i].key(), sets[j].key()));
}

/// Each map stands in a set with its own id and folder.
pub proof fn law_each_map_has_its_set(
    sets: Seq<LocalBeatmapSet>,
    maps: Seq<LocalBeatmap>,
    n: int,
)
    requires
        is_grouping(sets, maps),
        0 <= n < maps.len(),
    ensures
        exists|i: int|
            0 <= i < sets.len() && (#[trigger] sets[i]).beatmapset_id == maps[n].beatmapset_id
                && sets[i].folder@.key == maps[n].folder@.key,
{
    let key = maps[n].set_key();
    let i = choose|i: int| 0 <= i < sets.len() && (#[trigger] sets[i]).key() == key;
    assert(sets[i].beatmapset_id == maps[n].beatmapset_id);
}

// ---------------------------------------------------------------------------
// The earlier scan
// ---------------------------------------------------------------------------

/// Of the maps of an earlier scan that have one path, the last counts.
pub proof fn law_last_map_of_a_path(maps: Seq<LocalBeatmap>, i: int)
    requires
        0 <= i < maps.len(),
        forall|j: int| i < j < maps.len() ==> (#[trigger] maps[j]).path@.key != maps[i].path@.key,
    ensures
        lookup(maps_by_path(maps), maps[i].path@.key) == Some(maps[i]),
    decreases maps.len(),
{
    if i < maps.len() - 1 {
        let init = maps.drop_last();
        assert(init[i] == maps[i]);
        assert forall|j: int| i < j < init.len() implies (#[trigger] init[j]).path@.key
            != init[i].path@.key by {
            assert(maps[j].path@.key != maps[i].path@.key);
        }
        law_last_map_of_a_path(init, i);
        assert(maps[maps.len() - 1].path@.key != maps[i].path@.key);
    }
}

/// A path without a map in an earlier scan is not known from it.
pub proof fn law_unknown_path(maps: Seq<LocalBeatmap>, path: Seq<char>)
    requires
        forall|j: int| 0 <= j < maps.len() ==> (#[trigger] maps[j]).path@.key != path,
    ensures
        lookup(maps_by_path(maps), path) is None,
    decreases maps.len(),
{
    if maps.len() > 0 {
        let init = maps.drop_last();
        assert forall|j: int| 0 <= j < init.len() implies (#[trigger] init[j]).path@.key != path by {
            assert(maps[j].path@.key != path);
        }
        law_unknown_path(init, path);
        assert(maps[maps.len() - 1].path@.key != path);
    }
}

/// The issues that are taken over for a path are those of that path, in their
/// order.
pub proof fn law_issues_of_a_path(issues: Seq<RepairIssue>, path: Seq<char>)
    ensures
        issues_at(issues, path) == issues.filter(
            |issue: RepairIssue| issue.beatmap@.key == path,
        ),
    decreases issues.len(),
{
    reveal(Seq::filter);
    if issues.len() > 0 {
        law_issues_of_a_path(issues.drop_last(), path);
    }
}

/// What is known of a file is used again only where its length and its time
/// are known on both sides, and are the same.
pub proof fn law_changed_files_are_read_again(cached: (u64, u64), current: (u64, u64))
    ensures
        is_fresh(Some(cached), Some(current)) == (cached.0 == current.0 && cached.1 == current.1),
        !is_fresh(None, Some(current)),
        !is_fresh(Some(cached), None),
        !is_fresh(None, None),
{
}

/// Length and time of a file are those from before it was read, where they are
/// known, else those from after it, else zeros.
pub proof fn law_length_and_time(before: (u64, u64), after: Option<(u64, u64)>)
    ensures
        meta_or(Some(before), after) == before,
        after matches Some(later) ==> meta_or(None, after) == later,
        meta_or(None, None) == (0u64, 0u64),
{
}

// ---------------------------------------------------------------------------
// Reports
// ---------------------------------------------------------------------------

/// The maps of a scan are those of its reports on maps, in their order.
pub proof fn law_reported_maps(events: Seq<ScanEvent>, event: ScanEvent)
    ensures
        reported_in(Seq::empty()).len() == 0,
        event matches ScanEvent::Beatmap { map, .. } ==> reported_in(events.push(event))
            == reported_in(events).push(*map),
        !(event is Beatmap) ==> reported_in(events.push(event)) == reported_in(events),
{
    assert(events.push(event).drop_last() =~= events);
    if let ScanEvent::Beatmap { map, .. } = event {
        assert(reported_in(events) + seq![*map] =~= reported_in(events).push(*map));
    } else {
        assert(reported_in(events) + maps_in(event) =~= reported_in(events));
    }
}

/// What is said of files that could not be read: a file that took too long is
/// told from one that could not be understood.
pub proof fn law_messages_of_problems(error: Seq<char>, message: String, map: LocalBeatmap)
    ensures
        problem_message(ParseIssueKind::ParseError, error) == error,
        problem_message(ParseIssueKind::Timeout, error)
            == "Timed out parsing map file after 8 seconds: "@ + error,
        ParseIssueKind::Timeout.name() == "parse_timeout"@,
        ParseIssueKind::ParseError.name() == "parse_error"@,
        ParseOutcome::Parsed(map).error() is None,
        ParseOutcome::Failed(message).error() == Some((ParseIssueKind::ParseError, message@)),
        ParseOutcome::TimedOut.error() == Some(
            (ParseIssueKind::Timeout, "parser did not finish in time"@),
        ),
        ParseOutcome::Disconnected.error() == Some(
            (ParseIssueKind::ParseError, "parser worker disconnected"@),
        ),
{
}

/// What a scan says at its start of the game's own database: nothing where it
/// is loaded.
pub proof fn law_complaints_about_the_database(message: String)
    ensures
        IndexState::Loaded.complaint() is None,
        IndexState::Failed(message).complaint() == Some(message@),
        IndexState::NoRoot.complaint() == Some("No osu! root selected; osu!.db unavailable"@),
{
}

// ---------------------------------------------------------------------------
// Maps and issues themselves
// ---------------------------------------------------------------------------

/// What is said of a map is said of its own fields, each under its own name.
pub proof fn law_fields_of_maps(map: LocalBeatmap)
    ensures
        map@.path == map.path@ && map@.folder == map.folder@ && map@.md5 == map.md5@,
        map@.beatmap_id == map.beatmap_id && map@.beatmapset_id == map.beatmapset_id,
        map@.artist == map.artist@ && map@.title == map.title@ && map@.source == map.source@,
        map@.creator == map.creator@ && map@.version == map.version@ && map@.tags == map.tags@,
        map.audio_filename matches Some(name) ==> map@.audio_filename == Some(name@),
        map.audio_filename is None ==> map@.audio_filename is None,
        map.background_filename matches Some(name) ==> map@.background_filename == Some(name@),
        map.background_filename is None ==> map@.background_filename is None,
        map@.mode == map.mode && map@.has_mode_field == map.has_mode_field,
        map@.ar == map.ar && map@.cs == map.cs && map@.od == map.od && map@.hp == map.hp,
        map@.stars == map.stars && map@.bpm == map.bpm,
        map@.length_seconds == map.length_seconds,
        map@.circles == map.circles && map@.sliders == map.sliders,
        map@.ranked_status == map.ranked_status,
{
}

/// What an issue says, and in which order issues are listed.
pub proof fn law_fields_of_issues(issues: Seq<RepairIssue>, i: int)
    requires
        0 <= i < issues.len(),
    ensures
        issue_views(issues).len() == issues.len(),
        issue_views(issues)[i].beatmap == issues[i].beatmap@,
        issue_views(issues)[i].message == issues[i].message@,
        issue_views(issues)[i].severity == issues[i].severity,
{
}

// ---------------------------------------------------------------------------
// Stars
// ---------------------------------------------------------------------------

/// Stars are calculated for maps of osu!standard, which those without a mode
/// are too, and for no others.
pub proof fn law_maps_with_stars(map: LocalBeatmap)
    ensures
        map.mode is None ==> can_have_stars(map),
        map.mode matches Some(mode) ==> can_have_stars(map) == (mode == 0),
{
}

/// Known stars are never replaced, unknown ones are filled in where that is
/// possible, and nothing else of a map changes.
pub proof fn law_stars_are_filled_in(
    map: LocalBeatmap,
    calculated: Option<Single>,
    indexed: bool,
    found: Option<Single>,
)
    ensures
        map.stars is Some ==> with_stars(map, calculated) == map && with_index_stars(
            map,
            indexed,
            Some(found),
        ) == map,
        map.stars is None && can_have_stars(map) ==> with_stars(map, calculated).stars
            == calculated,
        !can_have_stars(map) ==> with_stars(map, calculated) == map,
        map.stars is None && indexed ==> with_index_stars(map, indexed, Some(found)).stars == found,
        !indexed ==> with_index_stars(map, indexed, Some(found)) == map,
        with_index_stars(map, indexed, None) == map,
        with_stars(map, calculated) == (LocalBeatmap {
            stars: with_stars(map, calculated).stars,
            ..map
        }),
        with_index_stars(map, indexed, Some(found)) == (LocalBeatmap {
            stars: with_index_stars(map, indexed, Some(found)).stars,
            ..map
        }),
{
}

} // verus!
