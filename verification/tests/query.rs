use osu_map_manager::local::LocalBeatmap;
use osu_map_manager::query::{
    parse_osu_query, parse_time_or_number, tokenize_query, BeatmapFilters, ComparisonOp, ModeFilter,
    NumericField, ParsedOsuQuery, QueryClause, RangeFilter, StatusTarget, TextField,
};
use osu_map_manager::single::Single;

fn single(x: f32) -> Single {
    Single::from_bits(x.to_bits())
}

fn some(x: f32) -> Option<Single> {
    Some(single(x))
}

fn filters() -> BeatmapFilters {
    BeatmapFilters::with_full_ranges()
}

#[test]
fn builds_readable_osu_query() {
    let mut query = filters();
    query.artist = "Camellia".into();
    query.stars.enabled = true;
    query.stars.min = single(5.5);

    assert_eq!(query.to_osu_search(), "artist=Camellia stars>=5.5 mode=osu");
}

#[test]
fn default_filters_match_std_maps_with_known_values() {
    let query = filters();
    assert!(query.stars.enabled);
    assert!(query.ar.enabled);
    assert!(query.cs.enabled);
    assert!(!query.od.enabled);

    let map = LocalBeatmap {
        artist: "Camellia".into(),
        mode: None,
        stars: some(5.0),
        ar: some(9.0),
        cs: some(4.0),
        ..Default::default()
    };
    assert!(query.matches_local(&map));

    // Unknown values never match an enabled filter.
    let unknown_stars = LocalBeatmap {
        mode: None,
        ar: some(9.0),
        cs: some(4.0),
        ..Default::default()
    };
    assert!(!query.matches_local(&unknown_stars));

    let taiko = LocalBeatmap {
        mode: Some(1),
        stars: some(5.0),
        ar: some(9.0),
        cs: some(4.0),
        ..Default::default()
    };
    assert!(!query.matches_local(&taiko));
}

#[test]
fn ranges_and_length_behave() {
    let mut query = filters();
    query.mode = ModeFilter::Any;
    query.stars.enabled = true;
    query.stars.min = single(5.0);
    query.stars.max = single(7.0);
    query.ar.enabled = false;
    query.cs.enabled = false;
    query.length_min = "60".into();
    query.length_max = "not a number".into();

    let inside = LocalBeatmap {
        stars: some(6.0),
        length_seconds: some(120.0),
        ..Default::default()
    };
    assert!(query.matches_local(&inside));

    let too_easy = LocalBeatmap {
        stars: some(4.9),
        length_seconds: some(120.0),
        ..Default::default()
    };
    assert!(!query.matches_local(&too_easy));

    // Missing values never match an enabled numeric filter.
    let unknown = LocalBeatmap::default();
    assert!(!query.matches_local(&unknown));
}

#[test]
fn test_parse_time_formats() {
    assert_eq!(parse_time_or_number("120"), some(120.0));
    assert_eq!(parse_time_or_number("2:30"), some(150.0));
    assert_eq!(parse_time_or_number("1:05.5"), some(65.5));
    assert_eq!(parse_time_or_number("0:45"), some(45.0));
    assert_eq!(parse_time_or_number("invalid"), None);
}

#[test]
fn test_tokenize_quotes_and_negation() {
    let tokens = tokenize_query(r#"artist="Camellia vs nanahira" stars>=5.5 -instrumental 12345"#);
    assert_eq!(
        tokens,
        vec![
            "artist=Camellia vs nanahira",
            "stars>=5.5",
            "-instrumental",
            "12345"
        ]
    );
}

#[test]
fn test_wiki_numeric_operators() {
    let parsed = parse_osu_query("stars>=5.0 ar<9.5 cs!=4 bpm>180 length<=2:30 circles>=500 sliders<200");
    let map_pass = LocalBeatmap {
        stars: some(5.5),
        ar: some(9.0),
        cs: some(3.8),
        bpm: some(190.0),
        length_seconds: some(140.0),
        circles: 600,
        sliders: 150,
        ..Default::default()
    };
    let map_fail = LocalBeatmap {
        stars: some(4.5), // < 5.0
        ar: some(9.0),
        cs: some(3.8),
        bpm: some(190.0),
        length_seconds: some(140.0),
        circles: 600,
        sliders: 150,
        ..Default::default()
    };
    assert!(parsed.matches(&map_pass));
    assert!(!parsed.matches(&map_fail));
}

#[test]
fn test_wiki_text_and_quoted() {
    let parsed = parse_osu_query("artist=\"super artist\" creator!=sotarks diff=insane");
    let map_pass = LocalBeatmap {
        artist: "Super Artist feat. XYZ".into(),
        creator: "NatsumeRin".into(),
        version: "Insane Difficulty".into(),
        ..Default::default()
    };
    let map_fail = LocalBeatmap {
        artist: "Super Artist".into(),
        creator: "Sotarks".into(), // != sotarks fails
        version: "Insane".into(),
        ..Default::default()
    };
    assert!(parsed.matches(&map_pass));
    assert!(!parsed.matches(&map_fail));
}

#[test]
fn test_wiki_mode_and_status() {
    let parsed = parse_osu_query("mode=taiko status=ranked");
    let map_pass = LocalBeatmap {
        mode: Some(1),
        ranked_status: Some(4),
        ..Default::default()
    };
    let map_fail_mode = LocalBeatmap {
        mode: Some(0),
        ranked_status: Some(4),
        ..Default::default()
    };
    let map_fail_status = LocalBeatmap {
        mode: Some(1),
        ranked_status: Some(2), // graveyard/pending
        ..Default::default()
    };
    assert!(parsed.matches(&map_pass));
    assert!(!parsed.matches(&map_fail_mode));
    assert!(!parsed.matches(&map_fail_status));
}

#[test]
fn test_wiki_unkeyed_and_ids() {
    let parsed_id = parse_osu_query("28107");
    let map_by_id = LocalBeatmap {
        beatmap_id: Some(28107),
        ..Default::default()
    };
    let map_by_set = LocalBeatmap {
        beatmapset_id: Some(28107),
        ..Default::default()
    };
    let map_other = LocalBeatmap {
        beatmap_id: Some(99999),
        ..Default::default()
    };
    assert!(parsed_id.matches(&map_by_id));
    assert!(parsed_id.matches(&map_by_set));
    assert!(!parsed_id.matches(&map_other));

    let parsed_neg = parse_osu_query("-tv");
    let map_clean = LocalBeatmap {
        title: "Full Version Song".into(),
        ..Default::default()
    };
    let map_tv = LocalBeatmap {
        title: "Anime Opening (TV Size)".into(),
        ..Default::default()
    };
    assert!(parsed_neg.matches(&map_clean));
    assert!(!parsed_neg.matches(&map_tv));
}

#[test]
fn test_two_way_sync() {
    let mut filters = BeatmapFilters::default();
    filters.query_text = "artist=Camellia stars>=5.5 stars<=7.5 mode=taiko length>=120".into();
    filters.sync_ui_from_query_text();

    assert_eq!(filters.artist, "camellia");
    assert!(filters.stars.enabled);
    assert_eq!(filters.stars.min, single(5.5));
    assert_eq!(filters.stars.max, single(7.5));
    assert_eq!(filters.mode, ModeFilter::Taiko);
    assert_eq!(filters.length_min, "120");

    filters.update_query_text_from_ui();
    assert!(filters.query_text.contains("artist=camellia"));
    assert!(filters.query_text.contains("stars>=5.5"));
    assert!(filters.query_text.contains("stars<=7.5"));
    assert!(filters.query_text.contains("mode=taiko"));
}

#[test]
fn controls_come_back_from_their_search_text() {
    let mut before = filters();
    before.artist = " Camellia vs \"nanahira\" feat. X ".into();
    before.title = "a/b".into();
    before.mapper = "NatsumeRin".into();
    before.tag = "back\\slash".into();
    before.stars = RangeFilter { enabled: true, min: single(5.25), max: single(7.5) };
    before.ar = RangeFilter { enabled: true, min: single(0.0), max: single(9.3) };
    before.cs.enabled = false;
    before.bpm = RangeFilter { enabled: true, min: single(180.0), max: single(350.0) };
    before.length_min = "90.5".into();
    before.length_max = " 300 ".into();
    before.mode = ModeFilter::Mania;

    let mut after = before.clone();
    after.update_query_text_from_ui();
    assert_eq!(
        after.query_text,
        "artist=\"Camellia vs \\\"nanahira\\\" feat. X\" title=\"a/b\" creator=NatsumeRin tag=back\\slash length>=90.5 length<=300 stars>=5.25 stars<=7.5 ar<=9.3 bpm>=180 mode=mania"
    );
    after.sync_ui_from_query_text();
    assert_eq!(after.artist, "camellia vs \"nanahira\" feat. x");
    assert_eq!(after.title, "a/b");
    assert_eq!(after.mapper, "natsumerin");
    assert_eq!(after.difficulty, "");
    assert_eq!(after.tag, "back\\slash");
    assert_eq!(after.stars, before.stars);
    assert_eq!(after.ar, before.ar);
    assert!(!after.cs.enabled);
    assert_eq!(after.bpm, before.bpm);
    assert_eq!(after.length_min, "90.5");
    assert_eq!(after.length_max, "300");
    assert_eq!(after.mode, ModeFilter::Mania);
    assert_eq!(after.active_count(), 11);
}

#[test]
fn texts_that_do_not_come_back() {
    // A value that begins with an equals sign loses it.
    assert_eq!(
        parse_osu_query("artist==x").clauses,
        vec![QueryClause::Text {
            field: TextField::Artist,
            op: ComparisonOp::Equal,
            value: "x".into(),
        }]
    );
    // A backslash before the closing quotation mark takes it away.
    assert_eq!(tokenize_query("artist=\"a b\\\" mode=osu"), vec!["artist=a b\" mode=osu"]);
    // A tab is not quoted, and divides the text.
    assert_eq!(tokenize_query("artist=a\tb"), vec!["artist=a", "b"]);
}

#[test]
fn quotes_and_backslashes_in_tokens() {
    assert_eq!(tokenize_query(""), Vec::<String>::new());
    assert_eq!(tokenize_query("  \t \n"), Vec::<String>::new());
    assert_eq!(tokenize_query("a\\\"b c\""), vec!["a\\b c"]);
    assert_eq!(tokenize_query(r#""a\\b" "c\d""#), vec![r"a\b", r"c\d"]);
    assert_eq!(tokenize_query(r#""  padded  " x"#), vec!["padded", "x"]);
    assert_eq!(tokenize_query("\"\" x"), vec!["x"]);
    assert_eq!(tokenize_query("\"open end"), vec!["open end"]);
    assert_eq!(tokenize_query("a\u{3000}b\u{a0}c"), vec!["a", "b", "c"]);
}

fn only_clause(input: &str) -> QueryClause {
    let parsed = parse_osu_query(input);
    assert_eq!(parsed.raw, input);
    assert_eq!(parsed.clauses.len(), 1, "{input}");
    parsed.clauses[0].clone()
}

#[test]
fn operators_and_keys_are_recognised() {
    let operators = [
        (">=", ComparisonOp::GreaterThanOrEqual),
        ("<=", ComparisonOp::LessThanOrEqual),
        ("!=", ComparisonOp::NotEqual),
        ("==", ComparisonOp::Equal),
        (">", ComparisonOp::GreaterThan),
        ("<", ComparisonOp::LessThan),
        ("=", ComparisonOp::Equal),
        (":", ComparisonOp::Equal),
    ];
    for (symbol, op) in operators {
        assert_eq!(
            only_clause(&format!("BPM{symbol}180.5")),
            QueryClause::Numeric { field: NumericField::Bpm, op, value: single(180.5) }
        );
    }
    let numbers = [
        ("stars", NumericField::Stars),
        ("sr", NumericField::Stars),
        ("star", NumericField::Stars),
        ("ar", NumericField::Ar),
        ("cs", NumericField::Cs),
        ("od", NumericField::Od),
        ("hp", NumericField::Hp),
        ("dr", NumericField::Hp),
        ("bpm", NumericField::Bpm),
        ("length", NumericField::Length),
        ("drain", NumericField::Length),
        ("len", NumericField::Length),
        ("time", NumericField::Length),
        ("circles", NumericField::Circles),
        ("circle", NumericField::Circles),
        ("sliders", NumericField::Sliders),
        ("slider", NumericField::Sliders),
        ("keys", NumericField::Keys),
        ("key", NumericField::Keys),
    ];
    for (key, field) in numbers {
        assert_eq!(
            only_clause(&format!("{key}=1:30")),
            QueryClause::Numeric { field, op: ComparisonOp::Equal, value: single(90.0) }
        );
        assert!(parse_osu_query(&format!("{key}=abc")).is_empty());
        assert!(parse_osu_query(&format!("{key}=1:2:3")).is_empty());
        assert!(parse_osu_query(&format!("{key}=inf")).is_empty());
    }
    let texts = [
        ("artist", TextField::Artist),
        ("title", TextField::Title),
        ("creator", TextField::Creator),
        ("mapper", TextField::Creator),
        ("author", TextField::Creator),
        ("diff", TextField::Difficulty),
        ("difficulty", TextField::Difficulty),
        ("version", TextField::Difficulty),
        ("source", TextField::Source),
        ("tag", TextField::Tag),
        ("tags", TextField::Tag),
    ];
    for (key, field) in texts {
        assert_eq!(
            only_clause(&format!("{key}!=ÄBC>=d")),
            QueryClause::Text { field, op: ComparisonOp::NotEqual, value: "äbc>=d".into() }
        );
    }
}

#[test]
fn modes_and_statuses_are_recognised() {
    for (name, target_mode) in [
        ("osu", 0),
        ("std", 0),
        ("STANDARD", 0),
        ("o", 0),
        ("0", 0),
        ("taiko", 1),
        ("t", 1),
        ("1", 1),
        ("catch", 2),
        ("ctb", 2),
        ("fruits", 2),
        ("c", 2),
        ("2", 2),
        ("mania", 3),
        ("m", 3),
        ("3", 3),
    ] {
        for key in ["mode", "m"] {
            assert_eq!(
                only_clause(&format!("{key}={name}")),
                QueryClause::Mode { op: ComparisonOp::Equal, target_mode }
            );
        }
    }
    assert!(parse_osu_query("mode=4 mode=").is_empty());
    for (name, target) in [
        ("ranked", StatusTarget::Ranked),
        ("r", StatusTarget::Ranked),
        ("approved", StatusTarget::Approved),
        ("a", StatusTarget::Approved),
        ("qualified", StatusTarget::Qualified),
        ("q", StatusTarget::Qualified),
        ("loved", StatusTarget::Loved),
        ("L", StatusTarget::Loved),
        ("pending", StatusTarget::Pending),
        ("w", StatusTarget::Pending),
        ("wip", StatusTarget::Pending),
        ("graveyard", StatusTarget::Graveyard),
        ("g", StatusTarget::Graveyard),
        ("7", StatusTarget::Specific(7)),
        ("+255", StatusTarget::Specific(255)),
    ] {
        assert_eq!(
            only_clause(&format!("status!={name}")),
            QueryClause::Status { op: ComparisonOp::NotEqual, target }
        );
    }
    assert!(parse_osu_query("status=256 status=-1 status=x").is_empty());
    assert!(StatusTarget::Ranked.matches(5));
    assert!(!StatusTarget::Approved.matches(4));
    assert!(StatusTarget::Qualified.matches(6));
    assert!(StatusTarget::Pending.matches(2));
    assert!(StatusTarget::Specific(9).matches(9));
    assert!(!StatusTarget::Loved.matches(6));
}

#[test]
fn words_and_unknown_keys_are_looked_for_everywhere() {
    assert_eq!(
        only_clause("foo=bar"),
        QueryClause::Unkeyed { negated: false, text: "foo=bar".into(), numeric_id: None }
    );
    assert_eq!(
        only_clause("-42"),
        QueryClause::Unkeyed { negated: true, text: "42".into(), numeric_id: Some(42) }
    );
    assert_eq!(
        only_clause("-"),
        QueryClause::Unkeyed { negated: false, text: "-".into(), numeric_id: None }
    );
    assert_eq!(
        only_clause("--7"),
        QueryClause::Unkeyed { negated: true, text: "-7".into(), numeric_id: Some(-7) }
    );
    assert_eq!(
        only_clause("9223372036854775808"),
        QueryClause::Unkeyed {
            negated: false,
            text: "9223372036854775808".into(),
            numeric_id: None,
        }
    );
    // A key has no minus in it, so a condition cannot be turned round.
    assert_eq!(
        only_clause("-artist=x"),
        QueryClause::Unkeyed { negated: true, text: "artist=x".into(), numeric_id: None }
    );
}

#[test]
fn a_minus_turns_a_word_round() {
    let word = parse_osu_query("rock");
    let opposite = parse_osu_query("-rock");
    for tags in ["Rock n roll", "pop", ""] {
        let map = LocalBeatmap { tags: tags.into(), ..Default::default() };
        assert_ne!(word.matches(&map), opposite.matches(&map));
    }
}

#[test]
fn conditions_add_up_and_none_admit_all() {
    let map = LocalBeatmap { artist: "LiSA".into(), stars: some(5.0), ..Default::default() };
    assert!(ParsedOsuQuery::default().matches(&map));
    assert!(parse_osu_query("   ").matches(&map));
    assert!(parse_osu_query("artist=lisa").matches(&map));
    assert!(parse_osu_query("stars>4").matches(&map));
    assert!(parse_osu_query("artist=lisa stars>4").matches(&map));
    assert!(!parse_osu_query("artist=lisa stars>6").matches(&map));
    assert!(!parse_osu_query("artist=aimer stars>4").matches(&map));
}

#[test]
fn unknown_values_meet_no_condition() {
    let map = LocalBeatmap::default();
    for op in ["=", "!=", "<", "<=", ">", ">="] {
        assert!(!parse_osu_query(&format!("stars{op}5")).matches(&map));
        assert!(!parse_osu_query(&format!("keys{op}4")).matches(&map));
    }
    assert!(!parse_osu_query("status=ranked").matches(&map));
    assert!(!parse_osu_query("status!=ranked").matches(&map));
    // Counts are always known, and so is the mode.
    assert!(parse_osu_query("circles=0 sliders<1 mode=osu mode!=taiko").matches(&map));
}

#[test]
fn keys_are_those_of_mania_maps() {
    let mania = LocalBeatmap { mode: Some(3), cs: some(7.0), ..Default::default() };
    let standard = LocalBeatmap { mode: Some(0), cs: some(7.0), ..Default::default() };
    assert!(parse_osu_query("keys=7").matches(&mania));
    assert!(!parse_osu_query("keys=7").matches(&standard));
}

#[test]
fn comparisons_allow_for_rounding() {
    let number = |x: f32| single(x);
    assert!(ComparisonOp::Equal.compare_f32(number(5.04), number(5.0)));
    assert!(!ComparisonOp::Equal.compare_f32(number(5.06), number(5.0)));
    assert!(ComparisonOp::NotEqual.compare_f32(number(5.06), number(5.0)));
    assert!(ComparisonOp::GreaterThanOrEqual.compare_f32(number(4.9995), number(5.0)));
    assert!(!ComparisonOp::GreaterThanOrEqual.compare_f32(number(4.998), number(5.0)));
    assert!(ComparisonOp::LessThanOrEqual.compare_f32(number(5.0005), number(5.0)));
    assert!(!ComparisonOp::LessThan.compare_f32(number(5.0), number(5.0)));
    assert!(!ComparisonOp::GreaterThan.compare_f32(number(5.0), number(5.0)));
    let mut seed: u64 = 3;
    for _ in 0..2000 {
        seed = seed.wrapping_mul(6364136223846793005).wrapping_add(1442695040888963407);
        let a = (seed >> 40) as f32 / 1_000_000.0;
        let b = a + ((seed >> 20) as u8 as f32 - 128.0) / 2000.0;
        let (p, q) = (single(a), single(b));
        assert_eq!(ComparisonOp::Equal.compare_f32(p, q), (a - b).abs() < 0.05);
        assert_eq!(ComparisonOp::NotEqual.compare_f32(p, q), (a - b).abs() >= 0.05);
        assert_eq!(ComparisonOp::GreaterThan.compare_f32(p, q), a > b);
        assert_eq!(ComparisonOp::GreaterThanOrEqual.compare_f32(p, q), a >= b - 0.001);
        assert_eq!(ComparisonOp::LessThan.compare_f32(p, q), a < b);
        assert_eq!(ComparisonOp::LessThanOrEqual.compare_f32(p, q), a <= b + 0.001);
    }
}

#[test]
fn texts_are_compared_by_their_small_letters() {
    assert!(ComparisonOp::Equal.compare_str("Super ARTIST", "artist"));
    assert!(!ComparisonOp::NotEqual.compare_str("Super ARTIST", "artist"));
    assert!(ComparisonOp::LessThan.compare_str("Super ARTIST", "per a"));
    assert!(ComparisonOp::Equal.compare_str("anything", ""));
    assert!(ComparisonOp::Equal.compare_str("ÀÉÎ", "éî"));
    assert!(ComparisonOp::Equal.compare_str("ΟΔΟΣ", "οδος"));
    assert!(!ComparisonOp::Equal.compare_str("abc", "ABC"));
}

#[test]
fn times_and_numbers_at_the_edges() {
    assert_eq!(parse_time_or_number(" \"90\" "), some(90.0));
    assert_eq!(parse_time_or_number("inf"), None);
    assert_eq!(parse_time_or_number("nan"), None);
    assert_eq!(parse_time_or_number("1:2:3"), None);
    assert_eq!(parse_time_or_number(":30"), None);
    assert_eq!(parse_time_or_number("30:"), None);
    assert_eq!(parse_time_or_number("-1:30"), some(-30.0));
    assert_eq!(parse_time_or_number("inf:0"), some(f32::INFINITY));
    assert!(parse_time_or_number("nan:0").is_some_and(|x| x.is_nan()));
}

#[test]
fn length_boxes_that_hold_no_number() {
    let mut query = filters();
    assert!(query.length_valid());
    query.length_min = "abc".into();
    assert!(!query.length_valid());
    query.length_min = " 60 ".into();
    assert!(query.length_valid());
    query.length_max = "inf".into();
    assert!(!query.length_valid());
    query.length_max = "  ".into();
    assert!(query.length_valid());
    assert_eq!(query.to_osu_search(), "length>=60 mode=osu");
}

#[test]
fn active_filters_are_counted() {
    let mut query = BeatmapFilters::default();
    assert_eq!(query.active_count(), 1);
    query.mode = ModeFilter::Any;
    assert_eq!(query.active_count(), 0);
    query.artist = "x".into();
    query.tag = "  ".into();
    query.length_max = "1".into();
    query.length_min = "2".into();
    query.bpm.enabled = true;
    assert_eq!(query.active_count(), 3);
    query.query_text = "a b c=d stars=5".into();
    query.sync_ui_from_query_text();
    assert_eq!(query.active_count(), 4);
    assert_eq!(filters().active_count(), 4);
}

#[test]
fn clearing_goes_back_to_the_start() {
    let mut query = BeatmapFilters::default();
    query.query_text = "artist=x stars>=3 mode=catch length<60".into();
    query.sync_ui_from_query_text();
    query.clear_all();
    let fresh = filters();
    assert_eq!(query.ui_snapshot(), fresh.ui_snapshot());
    assert_eq!(query.query_text, "mode=osu");
    assert_eq!(query.query_text, fresh.query_text);
    assert!(query.parsed_query.is_none());
    assert_eq!(fresh.stars, RangeFilter { enabled: true, min: single(0.0), max: single(12.0) });
    assert_eq!(fresh.bpm, RangeFilter { enabled: false, min: single(0.0), max: single(350.0) });
    // A blank search text does the same, but for the text.
    query.artist = "x".into();
    query.query_text = "  ".into();
    query.sync_ui_from_query_text();
    assert_eq!(query.ui_snapshot(), fresh.ui_snapshot());
    assert_eq!(query.query_text, "");
    query.init_query_text();
    assert_eq!(query.query_text, "mode=osu");
    query.query_text = "kept".into();
    query.init_query_text();
    assert_eq!(query.query_text, "kept");
}

#[test]
fn a_typed_search_takes_the_place_of_the_controls() {
    let mut query = filters();
    query.query_text = "tv".into();
    query.sync_ui_from_query_text();
    let map = LocalBeatmap { title: "TV Size".into(), mode: Some(1), ..Default::default() };
    assert!(query.matches_local(&map));
    query.update_query_text_from_ui();
    assert!(query.parsed_query.is_none());
    assert_eq!(query.query_text, "");
}

#[test]
fn sync_narrows_and_clamps_ranges() {
    let mut query = BeatmapFilters::default();
    query.query_text = "stars>3 stars>=5 stars<20 ar=9.5 od!=8 hp<-3 bpm>400 length>60 length>=90 length<2:00 length=100".into();
    query.sync_ui_from_query_text();
    assert_eq!(query.stars, RangeFilter { enabled: true, min: single(5.0), max: single(12.0) });
    assert_eq!(query.ar, RangeFilter { enabled: true, min: single(9.5), max: single(9.5) });
    assert!(!query.cs.enabled);
    assert_eq!(query.od, RangeFilter { enabled: true, min: single(0.0), max: single(11.0) });
    assert_eq!(query.hp, RangeFilter { enabled: true, min: single(0.0), max: single(0.0) });
    assert_eq!(query.bpm, RangeFilter { enabled: true, min: single(350.0), max: single(350.0) });
    assert_eq!(query.length_min, "100");
    assert_eq!(query.length_max, "100");
    assert_eq!(query.mode, ModeFilter::Any);
}

#[test]
fn lowered_text_matches_like_the_filters() {
    let mut query = filters();
    query.mode = ModeFilter::Any;
    query.stars.enabled = false;
    query.ar.enabled = false;
    query.cs.enabled = false;
    query.artist = "  LiSA ".into();
    let text = query.lowered_text();
    assert_eq!(text.artist, "lisa");
    for artist in ["lisa", "LiSA feat. X", "Aimer"] {
        let map = LocalBeatmap { artist: artist.into(), ..Default::default() };
        assert_eq!(query.matches_local(&map), query.matches_local_lowered(&map, &text));
    }
}

#[test]
fn ranges_that_are_not_enabled_ask_for_nothing() {
    let off = RangeFilter::new(single(1.0), single(2.0));
    assert!(off.matches(None));
    assert!(off.matches(some(99.0)));
    let on = RangeFilter { enabled: true, ..off };
    assert!(!on.matches(None));
    assert!(on.matches(some(1.0)));
    assert!(on.matches(some(2.0)));
    assert!(!on.matches(some(2.1)));
    assert!(!on.matches(some(f32::NAN)));
    assert_eq!(RangeFilter::default(), RangeFilter::new(single(0.0), single(0.0)));
}

#[test]
fn modes_have_names() {
    let labels: Vec<&str> = ModeFilter::ALL.iter().map(|mode| mode.label()).collect();
    assert_eq!(labels, vec!["osu! (standard)", "Any mode", "taiko", "catch", "mania"]);
    let tokens: Vec<Option<&str>> = ModeFilter::ALL.iter().map(|mode| mode.token()).collect();
    assert_eq!(tokens, vec![Some("osu"), None, Some("taiko"), Some("catch"), Some("mania")]);
    assert!(ModeFilter::Osu.matches(None));
    assert!(ModeFilter::Osu.matches(Some(0)));
    assert!(!ModeFilter::Osu.matches(Some(1)));
    assert!(ModeFilter::Any.matches(Some(9)));
    assert!(ModeFilter::Taiko.matches(Some(1)));
    assert!(ModeFilter::Catch.matches(Some(2)));
    assert!(ModeFilter::Mania.matches(Some(3)));
    assert!(!ModeFilter::Mania.matches(None));
    assert_eq!(ModeFilter::default(), ModeFilter::Osu);
}

#[test]
fn the_written_search_admits_what_the_controls_admit() {
    let mut query = filters();
    query.artist = "LiSA".into();
    query.stars = RangeFilter { enabled: true, min: single(5.25), max: single(7.0) };
    query.ar.enabled = false;
    query.cs.enabled = false;
    query.length_min = "60".into();
    let parsed = parse_osu_query(&query.to_osu_search());
    for (artist, stars, length, mode) in [
        ("lisa", 5.25, 60.0, None),
        ("LISA feat. X", 7.0, 500.0, Some(0)),
        ("Aimer", 6.0, 60.0, None),
        ("LiSA", 7.1, 60.0, None),
        ("LiSA", 6.0, 59.0, None),
        ("LiSA", 6.0, 60.0, Some(3)),
    ] {
        let map = LocalBeatmap {
            artist: artist.into(),
            stars: some(stars),
            length_seconds: some(length),
            mode,
            ..Default::default()
        };
        assert_eq!(query.matches_local(&map), parsed.matches(&map), "{artist} {stars} {length}");
    }
    // The search allows for rounding at its bounds.
    let below = LocalBeatmap {
        artist: "LiSA".into(),
        stars: some(5.2495),
        length_seconds: some(60.0),
        ..Default::default()
    };
    assert!(!query.matches_local(&below));
    assert!(parsed.matches(&below));
}

#[test]
fn a_minimum_rounded_up_too_far_loses_maps() {
    let mut query = BeatmapFilters::default();
    query.stars = RangeFilter { enabled: true, min: single(5.006), max: single(12.0) };
    assert_eq!(query.to_osu_search(), "stars>=5.01 mode=osu");
    let map = LocalBeatmap { stars: some(5.007), ..Default::default() };
    assert!(query.matches_local(&map));
    assert!(!parse_osu_query(&query.to_osu_search()).matches(&map));
}

#[test]
fn a_written_mode_asks_for_the_mode() {
    for mode in ModeFilter::ALL {
        let query = BeatmapFilters { mode, ..Default::default() };
        let parsed = parse_osu_query(&query.to_osu_search());
        for of_map in [None, Some(0), Some(1), Some(2), Some(3), Some(4)] {
            let map = LocalBeatmap { mode: of_map, ..Default::default() };
            assert_eq!(parsed.matches(&map), mode.matches(of_map));
        }
    }
}

#[test]
fn a_range_with_one_bound_comes_back() {
    let mut query = filters();
    query.stars.min = single(5.5);
    query.update_query_text_from_ui();
    query.sync_ui_from_query_text();
    assert_eq!(query.stars, RangeFilter { enabled: true, min: single(5.5), max: single(12.0) });
    assert!(!query.ar.enabled);
}

#[test]
fn blank_boxes_and_case_mean_nothing() {
    let mut query = BeatmapFilters::default();
    query.title = " \t".into();
    query.length_max = "long".into();
    let map = LocalBeatmap { title: "Some Title".into(), ..Default::default() };
    assert!(query.matches_local(&map));
    query.title = "some TITLE".into();
    assert!(query.matches_local(&map));
    query.length_max = "100".into();
    assert!(!query.matches_local(&map));
}

#[test]
fn setting_and_writing_twice_change_nothing() {
    let mut query = filters();
    query.query_text = " artist=LiSA stars>=5 ".into();
    query.sync_ui_from_query_text();
    let once = query.clone();
    query.sync_ui_from_query_text();
    assert_eq!(query.ui_snapshot(), once.ui_snapshot());
    assert_eq!(query.parsed_query, once.parsed_query);
    assert_eq!(query.query_text, " artist=LiSA stars>=5 ");

    query.update_query_text_from_ui();
    let written = query.query_text.clone();
    query.update_query_text_from_ui();
    assert_eq!(query.query_text, written);
    assert_eq!(written, "artist=lisa stars>=5");
}
