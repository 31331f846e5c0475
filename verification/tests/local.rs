use osu_map_manager::local::{
    build_sets, find_repair_issues, is_osu_file, LibraryScan, LocalBeatmap, RepairIssue,
    RepairSeverity, ScanEvent,
};
use osu_map_manager::osu_file::{
    is_osu_file_name, is_repairable_asset_filename, is_repairable_asset_named,
    parse_event_filename, parse_folder_set_id, parse_mode, parse_osu_bytes, read_contents,
    set_id_of_name,
};
use osu_map_manager::path::{FilePath, PathTable};
use osu_map_manager::scan::{
    cached_entry_fresh, needs_star_calculation, open_scan, worker_calculates_stars, FileStep, IndexState, ParseIssueKind, ParseOutcome, Scanner,
};
use osu_map_manager::single::Single;
use osu_map_manager::table::TextTable;
use std::path::Path;

fn path(text: &str) -> FilePath {
    FilePath::new(text)
}

fn begun(cached: Option<LibraryScan>, skipped: Vec<String>, index: &IndexState) -> Scanner {
    open_scan("Songs", true).unwrap().start(cached, skipped, index, 0).0
}

fn single(x: f32) -> Single {
    Single::from_bits(x.to_bits())
}

#[test]
fn missing_background_is_not_reported_when_map_has_no_background() {
    let text = "osu file format v14

[General]
AudioFilename: audio.mp3

[Metadata]
Title:No Background
Artist:Test
Creator:Mapper
Version:Normal
BeatmapSetID:123
BeatmapID:456

[Events]
//Background and Video events
//Break Periods

[Difficulty]
HPDrainRate:5
CircleSize:4
OverallDifficulty:7
ApproachRate:9

[HitObjects]
256,192,1000,1,0,0:0:0:0:
";
    let map = parse_osu_bytes(&path("osu-map-manager-test-1/no-bg.osu"), text.as_bytes(), None).unwrap();
    assert_eq!(map.audio_filename.as_deref(), Some("audio.mp3"));
    // The audio file is there; no background file is.
    let issues = find_repair_issues(&map, true, false);

    assert!(issues.is_empty());
}

#[test]
fn cached_entries_are_reused_only_when_file_meta_matches() {
    assert!(cached_entry_fresh(Some(&(10, 100)), Some(&(10, 100))));
    // Changed size or mtime: re-parse.
    assert!(!cached_entry_fresh(Some(&(10, 100)), Some(&(11, 100))));
    assert!(!cached_entry_fresh(Some(&(10, 100)), Some(&(10, 101))));
    // Old caches have no metadata at all: never trust blindly.
    assert!(!cached_entry_fresh(None, Some(&(10, 100))));
    assert!(!cached_entry_fresh(Some(&(10, 100)), None));
    assert!(!cached_entry_fresh(None, None));
}

#[test]
fn game_mode_parsing_is_tolerant() {
    let mut values = TextTable::new();
    assert_eq!(parse_mode(&values), None);

    values.insert("Mode".to_owned(), "3".to_owned());
    assert_eq!(parse_mode(&values), Some(3));

    values.insert("Mode".to_owned(), "1 // taiko".to_owned());
    assert_eq!(parse_mode(&values), Some(1));

    let mut lower = TextTable::new();
    lower.insert("mode".to_owned(), "2".to_owned());
    assert_eq!(parse_mode(&lower), Some(2));

    let mut bad = TextTable::new();
    bad.insert("Mode".to_owned(), "mania".to_owned());
    assert_eq!(parse_mode(&bad), None);
}

#[test]
fn osu_file_extension_check_ignores_case() {
    assert!(is_osu_file("song.osu"));
    assert!(is_osu_file("SONG.OSU"));
    assert!(is_osu_file("song.Osu"));
    assert!(!is_osu_file("song.osb"));
    assert!(!is_osu_file("song"));
}

#[test]
fn non_std_map_metadata_parses_without_star_calculation() {
    let text = "osu file format v14

[General]
AudioFilename: audio.mp3
Mode: 3

[Metadata]
Title:Mania Map
Artist:Test
Creator:Mapper
Version:Keys
BeatmapSetID:123
BeatmapID:789

[Difficulty]
CircleSize:4

[HitObjects]
64,192,1000,1,0,0:0:0:0:
";
    let parsed = parse_osu_bytes(&path("osu-map-manager-mode-test-1/mania.osu"), text.as_bytes(), None);
    let map = ParseOutcome::Parsed(parsed.unwrap()).into_result().unwrap();
    assert!(!worker_calculates_stars(true, &map));
    assert!(!needs_star_calculation(&map));

    assert_eq!(map.mode, Some(3));
    assert!(map.has_mode_field);
    assert_eq!(map.title, "Mania Map");
}

const FULL: &str = "osu file format v14\r
\r
[General]\r
AudioFilename: song.mp3 \r
mode: 1\r
\r
[Metadata]\r
Title:A: B\r
Artist: First\r
Artist: Second\r
Creator:Mapper\r
Version:Hard\r
Source:Game\r
Tags:one two\r
BeatmapID:-5\r
BeatmapSetID:0\r
\r
[Difficulty]\r
HPDrainRate:5.5\r
CircleSize:4\r
OverallDifficulty:abc\r
ApproachRate:9.3\r
\r
[Events]\r
0,0,\"old.png\",0,0\r
Video,0,\"movie.avi\"\r
  BACKGROUND , 0, \"a, b.JPG\" ,0,0\r
Sample,1:2:3\r
\r
[TimingPoints]\r
0,-100,4\r
10,nothing\r
100,333.33,4,2,1,60,1,0\r
200,500,4,2,1,60,1,0\r
\r
[HitObjects]\r
256,192,5000,1,0,0:0:0:0:\r
256,192,61000,6,0,L|0:0,1,100\r
256,192,60000,5,0,0:0:0:0:\r
256,192,1.5,1,0\r
256,192,99999999999,1,0\r
256,192,70000\r
// 256,192,90000,1\r
[Other]\r
Title:Not this\r
256,192,80000,1,0,0:0:0:0:\r
";

#[test]
fn a_whole_file_is_read() {
    let map = parse_osu_bytes(&path("Songs/123 First - A/file.osu"), FULL.as_bytes(), Some(single(4.5)))
        .unwrap();
    assert_eq!(map.path.text(), "Songs/123 First - A/file.osu");
    assert_eq!(map.folder.text(), "Songs/123 First - A");
    assert_eq!(map.md5, format!("{:x}", md5::compute(FULL)));
    assert_eq!(map.beatmap_id, None);
    // Without a usable id the folder gives it.
    assert_eq!(map.beatmapset_id, Some(123));
    assert_eq!(map.artist, "Second");
    assert_eq!(map.title, "A: B");
    assert_eq!(map.source, "Game");
    assert_eq!(map.creator, "Mapper");
    assert_eq!(map.version, "Hard");
    assert_eq!(map.tags, "one two");
    assert_eq!(map.audio_filename.as_deref(), Some("song.mp3"));
    assert_eq!(map.background_filename.as_deref(), Some("a, b.JPG"));
    assert_eq!(map.mode, Some(1));
    assert!(map.has_mode_field);
    assert_eq!(map.ar, Some(single(9.3)));
    assert_eq!(map.cs, Some(single(4.0)));
    assert_eq!(map.od, None);
    assert_eq!(map.hp, Some(single(5.5)));
    assert_eq!(map.stars, Some(single(4.5)));
    assert_eq!(map.bpm, Some(single(60_000.0 / 333.33)));
    assert_eq!(map.length_seconds, Some(single(61_000.0 / 1000.0)));
    assert_eq!(map.circles, 2);
    assert_eq!(map.sliders, 1);
    assert_eq!(map.ranked_status, None);
    assert_eq!(map.label(), "Second - A: B [Hard]");
}

#[test]
fn a_file_that_says_nothing() {
    let map = parse_osu_bytes(&path("empty.osu"), b"", None).unwrap();
    assert_eq!(map.folder.text(), "");
    assert_eq!(map.md5, "d41d8cd98f00b204e9800998ecf8427e");
    assert_eq!(map.beatmapset_id, None);
    assert_eq!(map.artist, "");
    assert_eq!(map.mode, None);
    assert!(!map.has_mode_field);
    assert_eq!(map.bpm, None);
    assert_eq!(map.length_seconds, None);
    assert_eq!(map.circles, 0);
    assert_eq!(map.label(), " -  []");
}

#[test]
fn invalid_bytes_are_replaced() {
    let map = parse_osu_bytes(&path("x.osu"), b"[Metadata]\nTitle:a\xffb\n", None).unwrap();
    assert_eq!(map.title, "a\u{fffd}b");
    let map = parse_osu_bytes(&path("x.osu"), "[Metadata]\nTitle:ünï".as_bytes(), None).unwrap();
    assert_eq!(map.title, "ünï");
}

#[test]
fn only_metadata_sections_hold_metadata() {
    let said = read_contents("Title:none\n[Colours]\nTitle:no\n[HitObjects]\nTitle:no\n[General]\nTitle:yes");
    assert_eq!(said.values.get("Title").map(String::as_str), Some("yes"));
    let quiet = read_contents("Title:none\n[Colours]\nTitle:no");
    assert_eq!(quiet.values.len(), 0);
}

#[test]
fn comments_and_blank_lines_mean_nothing() {
    let a = read_contents("[General]\nMode: 1\n[HitObjects]\n1,2,3,1");
    let b = read_contents("\n// x\n[General]\n\n  \nMode: 1\n//[Metadata]\n[HitObjects]\n// 1,2,9,1\n1,2,3,1\n\n");
    assert_eq!(parse_mode(&a.values), parse_mode(&b.values));
    assert_eq!(a.last_object_time, b.last_object_time);
    assert_eq!((a.circles, b.circles), (1, 1));
}

#[test]
fn the_mode_key_is_looked_up_in_order() {
    let mut values = TextTable::new();
    values.insert("mode".to_owned(), "2".to_owned());
    values.insert("MODE".to_owned(), "1".to_owned());
    // Capitals come before small letters.
    assert_eq!(parse_mode(&values), Some(1));
    values.insert("Mode".to_owned(), "3".to_owned());
    assert_eq!(parse_mode(&values), Some(3));
    values.insert("Mode".to_owned(), "256".to_owned());
    assert_eq!(parse_mode(&values), None);
    values.insert("Mode".to_owned(), "".to_owned());
    assert_eq!(parse_mode(&values), None);
}

#[test]
fn tables_keep_one_value_per_key() {
    let mut table = TextTable::new();
    for key in ["b", "a", "c", "b", "", "ab"] {
        table.insert(key.to_owned(), table.len());
    }
    assert_eq!(table.len(), 5);
    let keys: Vec<&str> = (0..table.len()).map(|i| table.at(i).0.as_str()).collect();
    assert_eq!(keys, vec!["", "a", "ab", "b", "c"]);
    assert_eq!(table.get("b"), Some(&3));
    assert_eq!(table.get("d"), None);
}

#[test]
fn extensions_of_file_names() {
    assert!(is_osu_file("Songs/1 a.b/x.y.osu"));
    assert!(!is_osu_file("Songs/x.osu/y"));
    assert!(!is_osu_file(".osu"));
    assert!(!is_osu_file(""));
    assert!(!is_osu_file("x.osu."));
    assert!(is_osu_file_name(Some("x.OSU")));
    assert!(!is_osu_file_name(Some("osu")));
    assert!(!is_osu_file_name(None));
}

#[test]
fn backgrounds_are_images() {
    assert!(is_repairable_asset_filename("bg.jpg"));
    assert!(is_repairable_asset_filename(" \" dir/BG.JPEG \" "));
    assert!(is_repairable_asset_filename("a.png"));
    assert!(is_repairable_asset_filename("a.webp"));
    assert!(is_repairable_asset_filename("a.bmp"));
    assert!(!is_repairable_asset_filename("a.gif"));
    assert!(!is_repairable_asset_filename("0"));
    assert!(!is_repairable_asset_filename("  "));
    assert!(!is_repairable_asset_filename("jpg"));
    assert!(!is_repairable_asset_named("0", Some("x.jpg")));
    assert!(is_repairable_asset_named("x.jpg", Some("x.jpg")));
    assert!(!is_repairable_asset_named("x.jpg", None));
    assert_eq!(parse_event_filename("0,0,\"bg.jpg\",0,0").as_deref(), Some("bg.jpg"));
    assert_eq!(parse_event_filename("0,0,\"b,g.jpg\",0,0").as_deref(), Some("b,g.jpg"));
    assert_eq!(parse_event_filename("0,0, bg.png ").as_deref(), Some("bg.png"));
    assert_eq!(parse_event_filename("0,0,movie.avi"), None);
    assert_eq!(parse_event_filename("0,0"), None);
}

#[test]
fn set_ids_of_folders() {
    assert_eq!(parse_folder_set_id("Songs/1234 Artist - Title"), Some(1234));
    assert_eq!(parse_folder_set_id("Songs/ 77x"), Some(77));
    assert_eq!(parse_folder_set_id("Songs/Artist"), None);
    assert_eq!(parse_folder_set_id("Songs/0 x"), None);
    assert_eq!(parse_folder_set_id(""), None);
    assert_eq!(set_id_of_name(Some("99999999999999999999")), None);
    assert_eq!(set_id_of_name(Some("5")), Some(5));
    assert_eq!(set_id_of_name(None), None);
}

#[test]
fn missing_files_are_reported() {
    let map = LocalBeatmap {
        path: path("p.osu"),
        audio_filename: Some("a.mp3".into()),
        background_filename: Some("b.jpg".into()),
        ..Default::default()
    };
    assert!(find_repair_issues(&map, true, true).is_empty());
    let issues = find_repair_issues(&map, false, false);
    let said: Vec<(&str, &str, RepairSeverity)> = issues
        .iter()
        .map(|issue| (issue.beatmap.text(), issue.message.as_str(), issue.severity))
        .collect();
    assert_eq!(
        said,
        vec![
            ("p.osu", "Missing audio file: a.mp3", RepairSeverity::MissingRequiredFile),
            ("p.osu", "Missing background file: b.jpg", RepairSeverity::MissingRequiredFile),
        ]
    );
    let silent = LocalBeatmap::default();
    assert!(find_repair_issues(&silent, false, false).is_empty());
}

fn map_in(folder: &str, id: Option<i64>, version: &str) -> LocalBeatmap {
    LocalBeatmap {
        path: path(&format!("{folder}/{version}.osu")),
        folder: path(folder),
        beatmapset_id: id,
        version: version.into(),
        ..Default::default()
    }
}

#[test]
fn sets_group_maps_by_id_and_folder() {
    let maps = vec![
        map_in("b", Some(2), "1"),
        map_in("a", None, "2"),
        map_in("b", Some(2), "3"),
        map_in("a", Some(-1), "4"),
        map_in("a", Some(2), "5"),
        map_in("a", None, "6"),
        map_in("b", Some(10), "7"),
    ];
    let sets = build_sets(&maps);
    let said: Vec<(Option<i64>, &str, Vec<&str>)> = sets
        .iter()
        .map(|set| {
            let versions = set.maps.iter().map(|map| map.version.as_str()).collect();
            (set.beatmapset_id, set.folder.text(), versions)
        })
        .collect();
    assert_eq!(
        said,
        vec![
            (None, "a", vec!["2", "6"]),
            (Some(-1), "a", vec!["4"]),
            (Some(2), "a", vec!["5"]),
            (Some(2), "b", vec!["1", "3"]),
            (Some(10), "b", vec!["7"]),
        ]
    );
    assert!(build_sets(&Vec::new()).is_empty());
}

fn versions_of(event: &ScanEvent) -> Vec<String> {
    match event {
        ScanEvent::Finished { sets } | ScanEvent::Stopped { sets } => sets
            .iter()
            .flat_map(|set| set.maps.iter().map(|map| map.version.clone()))
            .collect(),
        _ => panic!("not a last report"),
    }
}

#[test]
fn unchanged_files_are_used_again() {
    let mut cached = LibraryScan::default();
    cached.maps.push(map_in("a", None, "old"));
    cached.maps.push(map_in("a", None, "1"));
    cached.problems.push(RepairIssue {
        beatmap: path("a/1.osu"),
        message: "first".into(),
        severity: RepairSeverity::ParseWarning,
    });
    cached.problems.push(RepairIssue {
        beatmap: path("a/old.osu"),
        message: "other".into(),
        severity: RepairSeverity::ParseWarning,
    });
    cached.file_meta.insert(path("a/1.osu"), (10, 100));
    let mut scanner = begun(Some(cached), Vec::new(), &IndexState::Loaded);

    match scanner.on_file(&path("a/1.osu"), true, Some((10, 100))) {
        FileStep::Reuse(ScanEvent::Beatmap { map, file_len, file_mtime_secs, issues }) => {
            assert_eq!(map.version, "1");
            assert_eq!((file_len, file_mtime_secs), (10, 100));
            assert_eq!(issues.len(), 1);
            assert_eq!(issues[0].message, "first");
        }
        step => panic!("{step:?}"),
    }
    // Changed, without recorded metadata, unknown, and no beatmap file.
    let parse_without_stars = |step: FileStep| {
        matches!(step, FileStep::Parse { calculate_local_stars: false })
    };
    assert!(parse_without_stars(scanner.on_file(&path("a/1.osu"), true, Some((11, 100)))));
    assert!(parse_without_stars(scanner.on_file(&path("a/1.osu"), true, None)));
    assert!(parse_without_stars(scanner.on_file(&path("a/old.osu"), true, Some((1, 1)))));
    assert!(parse_without_stars(scanner.on_file(&path("a/2.osu"), true, Some((1, 1)))));
    assert!(matches!(scanner.on_file(&path("a/bg.jpg"), false, None), FileStep::Skip));

    assert!(!scanner.stop_if(false));
    assert!(scanner.stop_if(true));
    let last = scanner.end(None);
    assert!(matches!(last, ScanEvent::Stopped { .. }));
    assert_eq!(versions_of(&last), vec!["1"]);
}

#[test]
fn read_files_are_reported_with_stars_and_issues() {
    let mut scanner = begun(None, Vec::new(), &IndexState::NoRoot);
    assert!(matches!(
        scanner.on_file(&path("a/1.osu"), true, Some((1, 2))),
        FileStep::Parse { calculate_local_stars: true }
    ));
    let mut map = map_in("a", None, "1");
    map.audio_filename = Some("a.mp3".into());
    assert!(!scanner.wants_index_stars(&map));
    scanner.take_index_stars(&mut map, Some(Some(single(9.0))));
    assert_eq!(map.stars, None);
    assert!(needs_star_calculation(&map));
    match scanner.on_parsed(map, Some(single(5.0)), None, Some((3, 4)), false, true) {
        ScanEvent::Beatmap { map, file_len, file_mtime_secs, issues } => {
            assert_eq!(map.stars, Some(single(5.0)));
            assert_eq!((file_len, file_mtime_secs), (3, 4));
            assert_eq!(issues.len(), 1);
        }
        event => panic!("{event:?}"),
    }
    let mut taiko = map_in("b", None, "2");
    taiko.mode = Some(1);
    match scanner.on_parsed(taiko, Some(single(5.0)), None, None, true, true) {
        ScanEvent::Beatmap { map, file_len, file_mtime_secs, issues } => {
            assert_eq!(map.stars, None);
            assert_eq!((file_len, file_mtime_secs), (0, 0));
            assert!(issues.is_empty());
        }
        event => panic!("{event:?}"),
    }
    assert!(!scanner.stop_if(false));
    let last = scanner.end(None);
    assert!(matches!(last, ScanEvent::Finished { .. }));
    assert_eq!(versions_of(&last), vec!["1", "2"]);
}

#[test]
fn the_database_gives_stars_to_maps_without_them() {
    let scanner = begun(None, Vec::new(), &IndexState::Loaded);
    let mut map = map_in("a", None, "1");
    assert!(scanner.wants_index_stars(&map));
    scanner.take_index_stars(&mut map, None);
    assert_eq!(map.stars, None);
    scanner.take_index_stars(&mut map, Some(Some(single(6.5))));
    assert_eq!(map.stars, Some(single(6.5)));
    scanner.take_index_stars(&mut map, Some(None));
    assert_eq!(map.stars, Some(single(6.5)));
    assert!(!needs_star_calculation(&map));
}

#[test]
fn files_that_cannot_be_read_are_reported_or_left_out() {
    let mut scanner = begun(None, vec!["parse_timeout".to_owned()], &IndexState::NoRoot);
    let (kind, error) = ParseOutcome::TimedOut.into_result().unwrap_err();
    assert_eq!((kind, error.as_str()), (ParseIssueKind::Timeout, "parser did not finish in time"));
    assert!(scanner.on_parse_error(&path("a/1.osu"), kind, &error).is_none());

    let (kind, error) = ParseOutcome::Disconnected.into_result().unwrap_err();
    assert_eq!((kind, error.as_str()), (ParseIssueKind::ParseError, "parser worker disconnected"));
    match scanner.on_parse_error(&path("a/1.osu"), kind, &error) {
        Some(ScanEvent::Problem { issue }) => {
            assert_eq!(issue.beatmap.text(), "a/1.osu");
            assert_eq!(issue.message, "parser worker disconnected");
            assert_eq!(issue.severity, RepairSeverity::ParseWarning);
        }
        event => panic!("{event:?}"),
    }

    let mut strict = begun(None, Vec::new(), &IndexState::NoRoot);
    match strict.on_parse_error(&path("b"), ParseIssueKind::Timeout, "late") {
        Some(ScanEvent::Problem { issue }) => {
            assert_eq!(issue.message, "Timed out parsing map file after 8 seconds: late");
        }
        event => panic!("{event:?}"),
    }
    let failed_read = ParseOutcome::Failed("reading x".into()).into_result();
    assert_eq!(failed_read.unwrap_err(), (ParseIssueKind::ParseError, "reading x".to_owned()));
    assert_eq!(ParseIssueKind::ParseError.as_str(), "parse_error");
}

#[test]
fn scans_begin_and_fail() {
    match open_scan("/songs", false) {
        Err(ScanEvent::Failed { message }) => {
            assert_eq!(message, "Songs directory does not exist: /songs");
        }
        other => panic!("{other:?}"),
    }
    let start = |index: IndexState, total: usize| {
        open_scan("/songs", true).unwrap().start(None, Vec::new(), &index, total)
    };
    match start(IndexState::NoRoot, 7).1 {
        ScanEvent::Started { total_osu_files, star_parse_error } => {
            assert_eq!(total_osu_files, 7);
            assert_eq!(
                star_parse_error.as_deref(),
                Some("No osu! root selected; osu!.db unavailable")
            );
        }
        event => panic!("{event:?}"),
    }
    assert!(matches!(
        start(IndexState::Loaded, 0).1,
        ScanEvent::Started { star_parse_error: None, .. }
    ));
    match start(IndexState::Failed("bad db".into()), 0).1 {
        ScanEvent::Started { star_parse_error, .. } => {
            assert_eq!(star_parse_error.as_deref(), Some("bad db"));
        }
        event => panic!("{event:?}"),
    }
    let mut scanner = start(IndexState::Loaded, 0).0;
    assert!(scanner.stop_if(true));
    let last = scanner.end(Some("x".into()));
    assert!(matches!(last, ScanEvent::Failed { message } if message == "x"));
}

#[test]
fn a_scan_reports_in_order() {
    let (mut scanner, started) =
        open_scan("s", true).unwrap().start(None, Vec::new(), &IndexState::NoRoot, 2);
    let mut events = vec![started];
    events.push(scanner.on_parsed(map_in("a", None, "1"), None, None, None, true, true));
    events.extend(scanner.on_parse_error(&path("a/2.osu"), ParseIssueKind::ParseError, "bad"));
    events.push(scanner.end(None));
    let kinds: Vec<&str> = events
        .iter()
        .map(|event| match event {
            ScanEvent::Started { .. } => "started",
            ScanEvent::Beatmap { .. } => "map",
            ScanEvent::Problem { .. } => "problem",
            ScanEvent::Finished { .. } => "finished",
            ScanEvent::Stopped { .. } => "stopped",
            ScanEvent::Failed { .. } => "failed",
        })
        .collect();
    assert_eq!(kinds, vec!["started", "map", "problem", "finished"]);
    assert_eq!(versions_of(&events[3]), vec!["1"]);
}

const PATHS: [&str; 22] = [
    "", ".", "..", "/", "a", "a/", "a/.", "./a", "a/b", "a//b", "a/./b", "a-b", "a.b", "a/b/c",
    "/a", "/a/b", "/./a", "../a", "a/../b", "b", "a\u{0}b", "a\u{1}b",
];

#[test]
fn paths_are_the_same_part_by_part() {
    for left in PATHS {
        for right in PATHS {
            let same = Path::new(left) == Path::new(right);
            assert_eq!(path(left).same_path(&path(right)), same, "{left:?} {right:?}");
            assert_eq!(path(left) == path(right), same);
        }
    }
    assert_eq!(path("/s//x").text(), "/s//x");
}

#[test]
fn sets_are_ordered_by_folder_part_by_part() {
    let maps: Vec<LocalBeatmap> = PATHS.iter().map(|folder| map_in(folder, None, folder)).collect();
    let sets = build_sets(&maps);
    let mut expected: Vec<&Path> = PATHS.iter().map(Path::new).collect();
    expected.sort();
    expected.dedup();
    let ours: Vec<&Path> = sets.iter().map(|set| Path::new(set.folder.text())).collect();
    assert_eq!(ours, expected);
    // One folder written in two ways is one set, named as it came first.
    let twice = vec![map_in("a//b", Some(1), "1"), map_in("a/b", Some(1), "2")];
    let sets = build_sets(&twice);
    assert_eq!(sets.len(), 1);
    assert_eq!(sets[0].folder.text(), "a//b");
    assert_eq!(sets[0].maps.len(), 2);
    // A folder below another one comes before a sibling with a longer name.
    let siblings = vec![map_in("a-b", None, "1"), map_in("a/b", None, "2")];
    assert_eq!(build_sets(&siblings)[0].folder.text(), "a/b");
}

#[test]
fn cached_files_are_found_however_their_path_is_written() {
    let mut cached = LibraryScan::default();
    cached.maps.push(map_in("/s//a", None, "1"));
    cached.problems.push(RepairIssue {
        beatmap: path("/s/a/./1.osu"),
        message: "kept".into(),
        severity: RepairSeverity::ParseWarning,
    });
    cached.file_meta.insert(path("/s/a//1.osu"), (1, 2));
    assert_eq!(cached.file_meta.len(), 1);
    assert_eq!(cached.file_meta.at(0).0.text(), "/s/a//1.osu");
    let mut scanner = begun(Some(cached), Vec::new(), &IndexState::Loaded);
    match scanner.on_file(&path("/s/a/1.osu"), true, Some((1, 2))) {
        FileStep::Reuse(ScanEvent::Beatmap { map, issues, .. }) => {
            assert_eq!(map.path.text(), "/s//a/1.osu");
            assert_eq!(issues[0].message, "kept");
        }
        step => panic!("{step:?}"),
    }
}

#[test]
fn folders_of_files() {
    for text in ["x.osu", "/x.osu", "a/x.osu", "/a/x.osu", "a//x.osu", "./x.osu", "../x.osu"] {
        let map = parse_osu_bytes(&path(text), b"", None).unwrap();
        let expected = Path::new(text).parent().unwrap();
        assert_eq!(map.folder.text(), expected.to_str().unwrap());
        assert_eq!(map.path.text(), text);
    }
    let map = parse_osu_bytes(&path("/x.osu"), b"", None).unwrap();
    assert_eq!(map.folder.text(), "/");
}

#[test]
fn the_hash_of_a_file_is_written_in_hexadecimal() {
    let map = parse_osu_bytes(&path("a/b.osu"), b"abc", None).unwrap();
    assert_eq!(map.md5, "900150983cd24fb0d6963f7d28e17f72");
    assert_eq!(map.md5.len(), 32);
}

#[test]
fn the_case_of_a_file_name_means_nothing() {
    for name in ["x.osu", "X.OSU", "x.oSu"] {
        assert!(is_osu_file_name(Some(name)));
    }
    for name in ["x.osz", "X.OSZ", "osu", "OSU", ".osu", ".OSU"] {
        assert!(!is_osu_file_name(Some(name)));
    }
}

#[test]
fn the_mode_may_be_followed_by_anything_but_digits() {
    for (value, mode) in
        [("3", Some(3)), ("3;", Some(3)), ("03 x", Some(3)), ("33", Some(33)), ("333", None)]
    {
        for key in ["Mode", "mode", "MODE"] {
            let mut values = TextTable::new();
            values.insert(key.to_owned(), value.to_owned());
            assert_eq!(parse_mode(&values), mode, "{key}: {value}");
        }
    }
    let text = "[General]\nAudioFilename: a.mp3\n";
    let map = parse_osu_bytes(&path("a/b.osu"), text.as_bytes(), None).unwrap();
    assert_eq!(map.mode, None);
    assert!(!map.has_mode_field);
}

#[test]
fn a_file_without_a_background_event_has_no_background_issue() {
    let text = "[General]\nAudioFilename: a.mp3\n[Events]\n1,0,\"video.png\"\n";
    let map = parse_osu_bytes(&path("a/b.osu"), text.as_bytes(), None).unwrap();
    let issues = find_repair_issues(&map, false, false);
    assert_eq!(issues.len(), 1);
    assert_eq!(issues[0].message, "Missing audio file: a.mp3");
    let with = "[Events]\n0,0,\"bg.png\",0,0\n";
    let map = parse_osu_bytes(&path("a/b.osu"), with.as_bytes(), None).unwrap();
    assert_eq!(
        find_repair_issues(&map, false, false)[0].message,
        "Missing background file: bg.png"
    );
}

#[test]
fn paths_with_backslashes_have_a_folder() {
    for text in ["C:\\s\\a.osu", "s\\b/a.osu", "C:a.osu", "x/y:z\\a.osu"] {
        let map = parse_osu_bytes(&path(text), b"", None).unwrap();
        let expected = Path::new(text).parent().unwrap();
        assert_eq!(map.folder.text(), expected.to_str().unwrap());
        assert!(path(text).same_path(&map.path));
    }
}

#[test]
fn tables_keep_the_first_spelling_of_a_path() {
    let mut table = PathTable::new();
    table.insert(path("a//b"), 1);
    table.insert(path("a"), 2);
    table.insert(path("a/b/"), 3);
    assert_eq!(table.len(), 2);
    assert_eq!((table.at(0).0.text(), *table.at(0).1), ("a", 2));
    assert_eq!((table.at(1).0.text(), *table.at(1).1), ("a//b", 3));
    assert_eq!(table.get(&path("a/./b")), Some(&3));
    assert_eq!(table.get(&path("b")), None);
}
