//! Scanning the songs folder: what is taken from an earlier scan, what is
//! read anew, and what is reported.
//!
//! A [`Scanner`] makes the decisions of a scan. It is told what was found on
//! disk and what came of reading a file, and answers with what to do and what
//! to report.

use crate::local::{
    build_sets, find_repair_issues, is_grouping, issue_views, issues_of, law_each_map_in_one_set,
    IssueView, LocalBeatmap, LocalBeatmapSet, RepairIssue, RepairSeverity,
};
use crate::outside::optional_text;
use crate::path::{FilePath, PathTable};
use crate::query::mode_of;
use crate::single::Single;

use crate::text::{same_text, string_texts};
use vstd::prelude::*;

verus! {

/// The result of a scan.
#[derive(Debug, Clone)]
pub struct LibraryScan {
    pub sets: Vec<LocalBeatmapSet>,
    pub maps: Vec<LocalBeatmap>,
    pub problems: Vec<RepairIssue>,
    /// Length and time of modification in seconds of each file by its path,
    /// so that files changed since the scan are read again.
    pub file_meta: PathTable<(u64, u64)>,
}

impl Default for LibraryScan {
    fn default() -> (res: Self)
        ensures
            res.sets@ == Seq::<LocalBeatmapSet>::empty(),
            res.maps@ == Seq::<LocalBeatmap>::empty(),
            res.problems@ == Seq::<RepairIssue>::empty(),
            res.file_meta.wf(),
            res.file_meta@ == Map::<Seq<char>, (Seq<char>, (u64, u64))>::empty(),
            res.file_meta.values() == Map::<Seq<char>, (u64, u64)>::empty(),
    {
        LibraryScan {
            sets: Vec::new(),
            maps: Vec::new(),
            problems: Vec::new(),
            file_meta: PathTable::new(),
        }
    }
}

/// What a scan reports.
#[derive(Debug)]
pub enum ScanEvent {
    Started { total_osu_files: usize, star_parse_error: Option<String> },
    Beatmap { map: Box<LocalBeatmap>, file_len: u64, file_mtime_secs: u64, issues: Vec<RepairIssue> },
    Problem { issue: RepairIssue },
    Finished { sets: Vec<LocalBeatmapSet> },
    Stopped { sets: Vec<LocalBeatmapSet> },
    Failed { message: String },
}

/// Why a file could not be read.
#[derive(Debug, Clone, Copy, PartialEq, Eq, Structural)]
pub enum ParseIssueKind {
    Timeout,
    ParseError,
}

impl ParseIssueKind {
    pub open spec fn name(self) -> Seq<char> {
        match self {
            ParseIssueKind::Timeout => "parse_timeout"@,
            ParseIssueKind::ParseError => "parse_error"@,
        }
    }

    /// The name of the kind, by which it can be left out of the report.
    pub fn as_str(&self) -> (res: &'static str)
        ensures
            res@ == self.name(),
    {
        match self {
            ParseIssueKind::Timeout => "parse_timeout",
            ParseIssueKind::ParseError => "parse_error",
        }
    }
}

/// What came of loading the game's own database.
#[derive(Debug)]
pub enum IndexState {
    NoRoot,
    Loaded,
    Failed(String),
}

impl IndexState {
    /// What is reported where the database cannot be used.
    pub open spec fn complaint(self) -> Option<Seq<char>> {
        match self {
            IndexState::NoRoot => Some("No osu! root selected; osu!.db unavailable"@),
            IndexState::Loaded => None,
            IndexState::Failed(message) => Some(message@),
        }
    }
}

// ---------------------------------------------------------------------------
// Reading a file in time
// ---------------------------------------------------------------------------

/// What came of reading a file in a worker with a time limit.
#[derive(Debug)]
pub enum ParseOutcome {
    Parsed(LocalBeatmap),
    Failed(String),
    TimedOut,
    Disconnected,
}

impl ParseOutcome {
    /// Kind and text of the error, where reading failed.
    pub open spec fn error(self) -> Option<(ParseIssueKind, Seq<char>)> {
        match self {
            ParseOutcome::Parsed(map) => None,
            ParseOutcome::Failed(message) => Some((ParseIssueKind::ParseError, message@)),
            ParseOutcome::TimedOut => Some(
                (ParseIssueKind::Timeout, "parser did not finish in time"@),
            ),
            ParseOutcome::Disconnected => Some(
                (ParseIssueKind::ParseError, "parser worker disconnected"@),
            ),
        }
    }

    /// The map, or kind and text of the error.
    pub fn into_result(self) -> (res: Result<LocalBeatmap, (ParseIssueKind, String)>)
        ensures
            match res {
                Ok(map) => self == ParseOutcome::Parsed(map),
                Err((kind, message)) => self.error() == Some((kind, message@)),
            },
    {
        match self {
            ParseOutcome::Parsed(map) => Ok(map),
            ParseOutcome::Failed(message) => Err((ParseIssueKind::ParseError, message)),
            ParseOutcome::TimedOut => Err(
                (ParseIssueKind::Timeout, "parser did not finish in time".to_owned()),
            ),
            ParseOutcome::Disconnected => Err(
                (ParseIssueKind::ParseError, "parser worker disconnected".to_owned()),
            ),
        }
    }
}

fn is_standard(map: &LocalBeatmap) -> (res: bool)
    ensures
        res == (mode_of(*map) == 0),
{
    match map.mode {
        Some(mode) => mode == 0,
        None => true,
    }
}

/// Whether stars can be calculated for a map: for osu!standard maps only.
pub open spec fn can_have_stars(map: LocalBeatmap) -> bool {
    mode_of(map) == 0
}

/// A map with calculated stars, where it has none yet and can have them.
pub open spec fn with_stars(map: LocalBeatmap, calculated: Option<Single>) -> LocalBeatmap {
    if map.stars is None && can_have_stars(map) {
        LocalBeatmap { stars: calculated, ..map }
    } else {
        map
    }
}

/// A map with the stars that the database has for it, where the database can
/// be asked, has the map, and the map has no stars yet.
pub open spec fn with_index_stars(
    map: LocalBeatmap,
    indexed: bool,
    found: Option<Option<Single>>,
) -> LocalBeatmap {
    match found {
        Some(stars) if indexed && map.stars is None => LocalBeatmap { stars, ..map },
        _ => map,
    }
}

/// Whether the worker that reads a file calculates its stars too: where it is
/// asked to, and for osu!standard maps only.
pub fn worker_calculates_stars(calculate_local_stars: bool, map: &LocalBeatmap) -> (res: bool)
    ensures
        res == (calculate_local_stars && mode_of(*map) == 0),
        res == (calculate_local_stars && can_have_stars(*map)),
{
    calculate_local_stars && is_standard(map)
}

/// Whether stars have to be calculated for a map that is known otherwise.
pub fn needs_star_calculation(map: &LocalBeatmap) -> (res: bool)
    ensures
        res == (map.stars is None && mode_of(*map) == 0),
        res == (map.stars is None && can_have_stars(*map)),
{
    map.stars.is_none() && is_standard(map)
}

// ---------------------------------------------------------------------------
// The earlier scan
// ---------------------------------------------------------------------------

/// Maps by the keys of their paths; a later map counts more.
pub open spec fn maps_by_path(maps: Seq<LocalBeatmap>) -> Map<Seq<char>, LocalBeatmap>
    decreases maps.len(),
{
    if maps.len() == 0 {
        Map::empty()
    } else {
        maps_by_path(maps.drop_last()).insert(maps.last().path@.key, maps.last())
    }
}

/// The issues of a path, given by its key, in their order.
pub open spec fn issues_at(issues: Seq<RepairIssue>, path: Seq<char>) -> Seq<RepairIssue>
    decreases issues.len(),
{
    if issues.len() == 0 {
        Seq::empty()
    } else {
        let earlier = issues_at(issues.drop_last(), path);
        if issues.last().beatmap@.key == path {
            earlier.push(issues.last())
        } else {
            earlier
        }
    }
}

fn select_issues(issues: &Vec<RepairIssue>, path: &FilePath) -> (res: Vec<RepairIssue>)
    ensures
        res@ == issues_at(issues@, path@.key),
{
    let mut res: Vec<RepairIssue> = Vec::new();
    let mut i: usize = 0;
    while i < issues.len()
        invariant
            i <= issues@.len(),
            res@ == issues_at(issues@.take(i as int), path@.key),
        decreases issues@.len() - i,
    {
        assert(issues@.take(i + 1).drop_last() == issues@.take(i as int));
        assert(issues@.take(i + 1).last() == issues@[i as int]);
        if issues[i].beatmap.same_path(path) {
            res.push(issues[i].clone());
        }
        i = i + 1;
    }
    assert(issues@.take(issues@.len() as int) == issues@);
    res
}

/// Whether an entry of an earlier scan may be used again: only where both
/// sides know length and time of the file, and both are the same.
pub open spec fn is_fresh(cached: Option<(u64, u64)>, current: Option<(u64, u64)>) -> bool {
    cached is Some && cached == current
}

pub fn cached_entry_fresh(cached: Option<&(u64, u64)>, current: Option<&(u64, u64)>) -> (res: bool)
    ensures
        res == is_fresh(
            match cached {
                Some(meta) => Some(*meta),
                None => None,
            },
            match current {
                Some(meta) => Some(*meta),
                None => None,
            },
        ),
{
    match (cached, current) {
        (Some(cached), Some(current)) => cached.0 == current.0 && cached.1 == current.1,
        _ => false,
    }
}

// ---------------------------------------------------------------------------
// Reports
// ---------------------------------------------------------------------------

/// The maps that an event reports.
pub open spec fn maps_in(event: ScanEvent) -> Seq<LocalBeatmap> {
    match event {
        ScanEvent::Beatmap { map, .. } => seq![*map],
        _ => Seq::empty(),
    }
}

/// The maps that a list of events reports.
pub open spec fn reported_in(events: Seq<ScanEvent>) -> Seq<LocalBeatmap>
    decreases events.len(),
{
    if events.len() == 0 {
        Seq::empty()
    } else {
        reported_in(events.drop_last()) + maps_in(events.last())
    }
}

/// Whether an event reports on one file.
pub open spec fn is_file_report(event: ScanEvent) -> bool {
    event is Beatmap || event is Problem
}

/// Whether an event ends a scan.
pub open spec fn is_last_report(event: ScanEvent) -> bool {
    event is Finished || event is Stopped || event is Failed
}

/// Whether the sets of an event, where it has any, group some maps.
pub open spec fn sets_group(event: ScanEvent, maps: Seq<LocalBeatmap>) -> bool {
    match event {
        ScanEvent::Finished { sets } => is_grouping(sets@, maps),
        ScanEvent::Stopped { sets } => is_grouping(sets@, maps),
        _ => true,
    }
}

/// Whether events are those of a scan that goes on: it started, and then
/// reported on files.
pub open spec fn is_begun_scan(events: Seq<ScanEvent>) -> bool {
    &&& events.len() > 0
    &&& events[0] is Started
    &&& forall|i: int| 1 <= i < events.len() ==> is_file_report(#[trigger] events[i])
}

/// Whether events are all those of a scan: a scan that began and then its last
/// report, or a failure before it could begin.
pub open spec fn is_whole_scan(events: Seq<ScanEvent>) -> bool {
    ||| events.len() == 1 && events[0] is Failed
    ||| {
        &&& events.len() > 1
        &&& is_begun_scan(events.drop_last())
        &&& is_last_report(events.last())
        &&& sets_group(events.last(), reported_in(events.drop_last()))
    }
}

/// A scan whose songs folder is there. It has reported nothing yet.
#[derive(Debug)]
pub struct OpenedScan {
    opened: (),
}

/// Begins a scan. Where the songs folder is not there, the failure is all that
/// the scan reports.
pub fn open_scan(songs_dir: &str, exists_on_disk: bool) -> (res: Result<OpenedScan, ScanEvent>)
    ensures
        match res {
            Ok(_) => exists_on_disk,
            Err(event) => {
                &&& !exists_on_disk
                &&& event matches ScanEvent::Failed { message }
                &&& message@ == "Songs directory does not exist: "@ + songs_dir@
                &&& is_whole_scan(seq![event])
            },
        },
{
    if !exists_on_disk {
        let mut message = "Songs directory does not exist: ".to_owned();
        message.append(songs_dir);
        return Err(ScanEvent::Failed { message });
    }
    Ok(OpenedScan { opened: () })
}

// ---------------------------------------------------------------------------
// The scanner
// ---------------------------------------------------------------------------

/// What to do with a file.
#[derive(Debug)]
pub enum FileStep {
    /// It is no beatmap file.
    Skip,
    /// It is unchanged since the earlier scan; the report of it.
    Reuse(ScanEvent),
    /// It has to be read, its stars calculated with it or not.
    Parse { calculate_local_stars: bool },
}

/// The state of a scan that has started.
pub struct Scanner {
    cached_maps: PathTable<LocalBeatmap>,
    cached_problems: Vec<RepairIssue>,
    cached_meta: PathTable<(u64, u64)>,
    skip_issue_kinds: Vec<String>,
    has_index: bool,
    cancelled: bool,
    maps: Vec<LocalBeatmap>,
    sent: Ghost<Seq<ScanEvent>>,
}

/// The value of a key, where a table has it.
pub open spec fn lookup<V>(table: Map<Seq<char>, V>, key: Seq<char>) -> Option<V> {
    if table.dom().contains(key) {
        Some(table[key])
    } else {
        None
    }
}

/// The first of two pairs that is known, or zeros.
pub open spec fn meta_or(first: Option<(u64, u64)>, second: Option<(u64, u64)>) -> (u64, u64) {
    match first {
        Some(meta) => meta,
        None => match second {
            Some(meta) => meta,
            None => (0, 0),
        },
    }
}

/// The message of a file that could not be read.
pub open spec fn problem_message(kind: ParseIssueKind, error: Seq<char>) -> Seq<char> {
    match kind {
        ParseIssueKind::Timeout => "Timed out parsing map file after 8 seconds: "@ + error,
        ParseIssueKind::ParseError => error,
    }
}

impl OpenedScan {
    /// Starts the scan, with what an earlier one found.
    pub fn start(
        self,
        cached_scan: Option<LibraryScan>,
        skip_issue_kinds: Vec<String>,
        index: &IndexState,
        total_osu_files: usize,
    ) -> (res: (Scanner, ScanEvent))
        requires
            cached_scan matches Some(scan) ==> scan.file_meta.wf(),
        ensures
            res.0.wf(),
            res.0.sent() == seq![res.1],
            res.1 matches ScanEvent::Started { total_osu_files: total, star_parse_error } && total
                == total_osu_files && optional_text(star_parse_error) == index.complaint(),
            res.0.reported() == Seq::<LocalBeatmap>::empty(),
            !res.0.cancel_seen(),
            res.0.indexed() == (index is Loaded),
            res.0.skipped_kinds() == string_texts(skip_issue_kinds@),
            match cached_scan {
                Some(scan) => {
                    &&& res.0.known_maps() == maps_by_path(scan.maps@)
                    &&& res.0.known_problems() == scan.problems@
                    &&& res.0.known_meta() == scan.file_meta.values()
                },
                None => {
                    &&& res.0.known_maps() == Map::<Seq<char>, LocalBeatmap>::empty()
                    &&& res.0.known_problems() == Seq::<RepairIssue>::empty()
                    &&& res.0.known_meta() == Map::<Seq<char>, (u64, u64)>::empty()
                },
            },
    {
        let has_index = matches!(index, IndexState::Loaded);
        let scan = match cached_scan {
            Some(scan) => scan,
            None => LibraryScan::default(),
        };
        let mut cached_maps: PathTable<LocalBeatmap> = PathTable::new();
        let mut i: usize = 0;
        while i < scan.maps.len()
            invariant
                i <= scan.maps@.len(),
                cached_maps.wf(),
                cached_maps.values() == maps_by_path(scan.maps@.take(i as int)),
            decreases scan.maps@.len() - i,
        {
            assert(scan.maps@.take(i + 1).drop_last() == scan.maps@.take(i as int));
            assert(scan.maps@.take(i + 1).last() == scan.maps@[i as int]);
            cached_maps.insert(scan.maps[i].path.clone(), scan.maps[i].clone());
            i = i + 1;
        }
        assert(scan.maps@.take(scan.maps@.len() as int) == scan.maps@);
        let star_parse_error = match index {
            IndexState::NoRoot => Some("No osu! root selected; osu!.db unavailable".to_owned()),
            IndexState::Loaded => None,
            IndexState::Failed(message) => Some(message.clone()),
        };
        let event = ScanEvent::Started { total_osu_files, star_parse_error };
        let ghost events = seq![event];
        let scanner = Scanner {
            cached_maps,
            cached_problems: scan.problems,
            cached_meta: scan.file_meta,
            skip_issue_kinds,
            has_index,
            cancelled: false,
            maps: Vec::new(),
            sent: Ghost(events),
        };
        proof {
            reveal_with_fuel(reported_in, 2);
            assert(reported_in(seq![event]) =~= Seq::<LocalBeatmap>::empty());
        }
        (scanner, event)
    }
}

impl Scanner {
    /// The keys of the tables stand in order, the events so far are those of a
    /// scan that goes on, and the maps are those that the events report.
    pub closed spec fn wf(self) -> bool {
        &&& self.cached_maps.wf()
        &&& self.cached_meta.wf()
        &&& is_begun_scan(self.sent@)
        &&& reported_in(self.sent@) == self.maps@
    }

    /// The maps of the earlier scan by the keys of their paths.
    pub closed spec fn known_maps(self) -> Map<Seq<char>, LocalBeatmap> {
        self.cached_maps.values()
    }

    /// The issues of the earlier scan.
    pub closed spec fn known_problems(self) -> Seq<RepairIssue> {
        self.cached_problems@
    }

    /// Length and time of the files of the earlier scan.
    pub closed spec fn known_meta(self) -> Map<Seq<char>, (u64, u64)> {
        self.cached_meta.values()
    }

    /// The kinds of issues that are not reported.
    pub closed spec fn skipped_kinds(self) -> Seq<Seq<char>> {
        string_texts(self.skip_issue_kinds@)
    }

    /// Whether the game's own database can be asked for stars.
    pub closed spec fn indexed(self) -> bool {
        self.has_index
    }

    /// Whether the scan was seen to be cancelled.
    pub closed spec fn cancel_seen(self) -> bool {
        self.cancelled
    }

    /// The maps reported so far.
    pub closed spec fn reported(self) -> Seq<LocalBeatmap> {
        self.maps@
    }

    /// The events reported so far.
    pub closed spec fn sent(self) -> Seq<ScanEvent> {
        self.sent@
    }

    /// Whether nothing but the reports differs.
    pub open spec fn same_settings(self, other: Scanner) -> bool {
        &&& self.known_maps() == other.known_maps()
        &&& self.known_problems() == other.known_problems()
        &&& self.known_meta() == other.known_meta()
        &&& self.skipped_kinds() == other.skipped_kinds()
        &&& self.indexed() == other.indexed()
        &&& self.cancel_seen() == other.cancel_seen()
    }

    /// Whether nothing was reported since another state.
    pub open spec fn same_reports(self, other: Scanner) -> bool {
        self.sent() == other.sent() && self.reported() == other.reported()
    }

    /// Whether one event was reported since another state.
    pub open spec fn reports_one_more(self, other: Scanner, event: ScanEvent) -> bool {
        &&& self.sent() == other.sent().push(event)
        &&& self.reported() == other.reported() + maps_in(event)
    }

    /// Takes note of whether the scan was cancelled, and says whether to stop.
    pub fn stop_if(&mut self, cancelled: bool) -> (stop: bool)
        requires
            old(self).wf(),
        ensures
            final(self).wf(),
            stop == cancelled,
            final(self).cancel_seen() == (old(self).cancel_seen() || cancelled),
            final(self).same_reports(*old(self)),
            final(self).known_maps() == old(self).known_maps(),
            final(self).known_problems() == old(self).known_problems(),
            final(self).known_meta() == old(self).known_meta(),
            final(self).skipped_kinds() == old(self).skipped_kinds(),
            final(self).indexed() == old(self).indexed(),
    {
        if cancelled {
            self.cancelled = true;
        }
        cancelled
    }

    /// The last report: what went wrong, or the sets of all maps reported. The
    /// scan stopped where it was seen to be cancelled, else it finished.
    pub fn end(self, failure: Option<String>) -> (res: ScanEvent)
        requires
            self.wf(),
        ensures
            is_whole_scan(self.sent().push(res)),
            match failure {
                Some(message) => res == (ScanEvent::Failed { message }),
                None => if self.cancel_seen() {
                    res matches ScanEvent::Stopped { sets } && is_grouping(sets@, self.reported())
                } else {
                    res matches ScanEvent::Finished { sets } && is_grouping(sets@, self.reported())
                },
            },
    {
        let ghost events = self.sent@;
        let res = match failure {
            Some(message) => ScanEvent::Failed { message },
            None => if self.cancelled {
                ScanEvent::Stopped { sets: build_sets(&self.maps) }
            } else {
                ScanEvent::Finished { sets: build_sets(&self.maps) }
            },
        };
        assert(events.push(res).drop_last() == events);
        res
    }

    /// Keeps a report in mind.
    proof fn lemma_one_more(before: Scanner, after: Scanner, event: ScanEvent)
        requires
            before.wf(),
            is_file_report(event),
            after.sent@ == before.sent@.push(event),
            after.maps@ == before.maps@ + maps_in(event),
            after.cached_maps.wf(),
            after.cached_meta.wf(),
        ensures
            after.wf(),
            after.reports_one_more(before, event),
    {
        let events = before.sent@;
        assert(events.push(event).drop_last() =~= events);
        assert(is_begun_scan(events.push(event)));
    }

    /// Decides on a file of a set folder, given whether its name is that of a
    /// beatmap file and what is known of it on disk now. A map of the earlier
    /// scan is used again where the file is unchanged.
    pub fn on_file(
        &mut self,
        path: &FilePath,
        osu_file: bool,
        current_meta: Option<(u64, u64)>,
    ) -> (res: FileStep)
        requires
            old(self).wf(),
        ensures
            final(self).wf(),
            final(self).same_settings(*old(self)),
            ({
                let known = lookup(old(self).known_maps(), path@.key);
                let fresh = is_fresh(lookup(old(self).known_meta(), path@.key), current_meta);
                match res {
                    FileStep::Skip => !osu_file && final(self).same_reports(*old(self)),
                    FileStep::Reuse(event) => {
                        &&& osu_file && known is Some && fresh
                        &&& event matches ScanEvent::Beatmap { map, file_len, file_mtime_secs, issues }
                        &&& *map == known->0
                        &&& (file_len, file_mtime_secs) == current_meta->0
                        &&& issues@ == issues_at(old(self).known_problems(), path@.key)
                        &&& final(self).reports_one_more(*old(self), event)
                    },
                    FileStep::Parse { calculate_local_stars } => {
                        &&& osu_file && !(known is Some && fresh)
                        &&& calculate_local_stars == !old(self).indexed()
                        &&& final(self).same_reports(*old(self))
                    },
                }
            }),
    {
        if !osu_file {
            return FileStep::Skip;
        }
        let mut reused: Option<(LocalBeatmap, (u64, u64))> = None;
        if let Some(map) = self.cached_maps.get(path) {
            let cached = self.cached_meta.get(path);
            if let Some(current) = current_meta {
                if cached_entry_fresh(cached, Some(&current)) {
                    reused = Some((map.clone(), current));
                }
            }
        }
        match reused {
            Some((map, current)) => {
                let issues = select_issues(&self.cached_problems, path);
                let ghost before = *self;
                self.maps.push(map.clone());
                let event = ScanEvent::Beatmap {
                    map: Box::new(map),
                    file_len: current.0,
                    file_mtime_secs: current.1,
                    issues,
                };
                self.sent = Ghost(self.sent@.push(event));
                proof {
                    assert(self.maps@ =~= before.maps@ + maps_in(event));
                    Scanner::lemma_one_more(before, *self, event);
                }
                FileStep::Reuse(event)
            },
            None => FileStep::Parse { calculate_local_stars: !self.has_index },
        }
    }

    /// Whether the game's own database is asked for the stars of a map.
    pub fn wants_index_stars(&self, map: &LocalBeatmap) -> (res: bool)
        ensures
            res == (self.indexed() && map.stars is None),
    {
        self.has_index && map.stars.is_none()
    }

    /// Takes the stars that the database has for a map, if it has the map.
    pub fn take_index_stars(&self, map: &mut LocalBeatmap, found: Option<Option<Single>>)
        ensures
            *final(map) == (match found {
                Some(stars) if self.indexed() && old(map).stars is None => LocalBeatmap {
                    stars,
                    ..*old(map)
                },
                _ => *old(map),
            }),
            *final(map) == with_index_stars(*old(map), self.indexed(), found),
    {
        if self.wants_index_stars(map) {
            if let Some(stars) = found {
                map.stars = stars;
            }
        }
    }

    /// Reports a map that was read, with its stars where they had to be
    /// calculated. Length and time of the file are those from before it was
    /// read, else those from after it.
    pub fn on_parsed(
        &mut self,
        map: LocalBeatmap,
        calculated_stars: Option<Single>,
        meta_before: Option<(u64, u64)>,
        meta_after: Option<(u64, u64)>,
        audio_exists: bool,
        background_exists: bool,
    ) -> (res: ScanEvent)
        requires
            old(self).wf(),
        ensures
            final(self).wf(),
            final(self).same_settings(*old(self)),
            res matches ScanEvent::Beatmap { map: reported, file_len, file_mtime_secs, issues } && {
                &&& *reported == (if map.stars is None && mode_of(map) == 0 {
                    LocalBeatmap { stars: calculated_stars, ..map }
                } else {
                    map
                })
                &&& *reported == with_stars(map, calculated_stars)
                &&& (file_len, file_mtime_secs) == meta_or(meta_before, meta_after)
                &&& issue_views(issues@) == issues_of(reported@, audio_exists, background_exists)
                &&& final(self).reports_one_more(*old(self), res)
            },
    {
        let mut map = map;
        if needs_star_calculation(&map) {
            map.stars = calculated_stars;
        }
        let issues = find_repair_issues(&map, audio_exists, background_exists);
        let (file_len, file_mtime_secs) = match meta_before {
            Some(meta) => meta,
            None => match meta_after {
                Some(meta) => meta,
                None => (0, 0),
            },
        };
        let ghost before = *self;
        self.maps.push(map.clone());
        let event = ScanEvent::Beatmap { map: Box::new(map), file_len, file_mtime_secs, issues };
        self.sent = Ghost(self.sent@.push(event));
        proof {
            assert(self.maps@ =~= before.maps@ + maps_in(event));
            Scanner::lemma_one_more(before, *self, event);
        }
        event
    }

    /// Reports a file that could not be read, unless issues of its kind are
    /// left out.
    pub fn on_parse_error(&mut self, path: &FilePath, kind: ParseIssueKind, error: &str) -> (res:
        Option<ScanEvent>)
        requires
            old(self).wf(),
        ensures
            final(self).wf(),
            final(self).same_settings(*old(self)),
            match res {
                Some(event) => {
                    &&& !old(self).skipped_kinds().contains(kind.name())
                    &&& event matches ScanEvent::Problem { issue }
                    &&& issue@ == (IssueView {
                        beatmap: path@,
                        message: problem_message(kind, error@),
                        severity: RepairSeverity::ParseWarning,
                    })
                    &&& final(self).reports_one_more(*old(self), event)
                },
                None => {
                    &&& old(self).skipped_kinds().contains(kind.name())
                    &&& final(self).same_reports(*old(self))
                },
            },
    {
        let ghost before = *self;
        let name = kind.as_str();
        let mut i: usize = 0;
        while i < self.skip_issue_kinds.len()
            invariant
                i <= self.skip_issue_kinds@.len(),
                *self == before,
                before == *old(self),
                before.wf(),
                name@ == kind.name(),
                forall|j: int| 0 <= j < i ==> (#[trigger] self.skipped_kinds()[j]) != kind.name(),
            decreases self.skip_issue_kinds@.len() - i,
        {
            assert(self.skipped_kinds()[i as int] == self.skip_issue_kinds@[i as int]@);
            if same_text(self.skip_issue_kinds[i].as_str(), name) {
                assert(self.skipped_kinds().contains(kind.name()));
                return None;
            }
            i = i + 1;
        }
        let message = match kind {
            ParseIssueKind::Timeout => {
                let mut message = "Timed out parsing map file after 8 seconds: ".to_owned();
                message.append(error);
                message
            },
            ParseIssueKind::ParseError => error.to_owned(),
        };
        let issue = RepairIssue {
            beatmap: path.clone(),
            message,
            severity: RepairSeverity::ParseWarning,
        };
        let event = ScanEvent::Problem { issue };
        self.sent = Ghost(self.sent@.push(event));
        proof {
            assert(self.maps@ =~= before.maps@ + maps_in(event));
            Scanner::lemma_one_more(before, *self, event);
        }
        Some(event)
    }

    /// At every moment of a scan its events are those of a scan that goes on,
    /// and its maps are those that the events report.
    pub proof fn law_reports_add_up(self)
        requires
            self.wf(),
        ensures
            is_begun_scan(self.sent()),
            self.reported() == reported_in(self.sent()),
    {
    }
}

/// A scan has one last report, which is a finish, a stop or a failure, and it
/// comes last. The start comes once and first, unless a failure is all there
/// is.
pub proof fn law_events_in_order(events: Seq<ScanEvent>)
    requires
        is_whole_scan(events),
    ensures
        events.len() > 0,
        forall|i: int|
            0 <= i < events.len() ==> is_last_report(#[trigger] events[i]) == (i == events.len() - 1),
        forall|i: int|
            0 <= i < events.len() ==> (#[trigger] events[i] is Started) == (i == 0 && events.len()
                > 1),
        events.len() == 1 ==> events[0] is Failed,
{
    if events.len() > 1 {
        let begun = events.drop_last();
        assert forall|i: int| 0 <= i < begun.len() implies #[trigger] events[i] == begun[i] by {}
    }
}

/// The sets of the last report hold every map that was reported before it,
/// each in one set, and no other.
pub proof fn law_last_report_holds_all_maps(
    events: Seq<ScanEvent>,
    sets: Seq<LocalBeatmapSet>,
    n: int,
)
    requires
        is_whole_scan(events),
        match events.last() {
            ScanEvent::Finished { sets: reported } => reported@ == sets,
            ScanEvent::Stopped { sets: reported } => reported@ == sets,
            _ => false,
        },
        0 <= n < reported_in(events).len(),
    ensures
        exists|i: int|
            0 <= i < sets.len() && (#[trigger] sets[i]).maps@.contains(reported_in(events)[n]),
        forall|i: int, j: int|
            0 <= i < sets.len() && 0 <= j < sets.len() && (#[trigger] sets[i]).maps@.contains(
                reported_in(events)[n],
            ) && (#[trigger] sets[j]).maps@.contains(reported_in(events)[n]) ==> i == j,
{
    assert(reported_in(events) =~= reported_in(events.drop_last()));
    law_each_map_in_one_set(sets, reported_in(events), n);
}

} // verus!
