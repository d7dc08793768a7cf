use atref::index::Entry;
use atref::search::{match_indices, rank, search_rows, split_highlights, FuzzyMatcher};
use nucleo_matcher::pattern::{CaseMatching, Normalization, Pattern};
use nucleo_matcher::{Config as MatcherConfig, Matcher, Utf32Str};

fn entry(rel: &str, root_rank: usize) -> Entry {
    Entry {
        abs: rel.to_string(),
        root: String::new(),
        rel: rel.to_string(),
        root_rank,
        size: 0,
        mtime: 0,
    }
}

fn matcher() -> FuzzyMatcher {
    FuzzyMatcher::new()
}

#[test]
fn folder_priority_breaks_ties() {
    let entries = vec![entry("notes.md", 1), entry("notes.md", 0)];
    let (res, total) = rank("notes", &entries, &[], &mut matcher(), 10);
    assert_eq!(res, vec![1, 0], "root_rank 0 (entries[1]) ranks first");
    assert_eq!(total, 2, "both files match");

    let reversed = vec![entry("notes.md", 0), entry("notes.md", 1)];
    let (res, _) = rank("notes", &reversed, &[], &mut matcher(), 10);
    assert_eq!(res, vec![0, 1]);
}

#[test]
fn empty_query_is_folder_priority_order() {
    let entries = vec![entry("b.md", 1), entry("a.md", 0), entry("c.md", 0)];
    let (res, total) = rank("", &entries, &[], &mut matcher(), 10);
    assert_eq!(res, vec![1, 2, 0]);
    assert_eq!(total, 3);
}

#[test]
fn caps_order_at_max_but_counts_all_matches() {
    let entries: Vec<Entry> = (0..25).map(|i| entry(&format!("note{i}.md"), 0)).collect();
    let (res, total) = rank("note", &entries, &[], &mut matcher(), 10);
    assert_eq!(res.len(), 10, "only top `max` shown");
    assert_eq!(total, 25, "but all matches counted");
}

#[test]
fn camelhumps_camelcase_initialism() {
    let entries = vec![
        entry("MyOtherThing.rs", 0),
        entry("MyClassFile.rs", 0),
        entry("readme.md", 0),
    ];
    let (res, _) = rank("mclfi", &entries, &[], &mut matcher(), 10);
    assert!(!res.is_empty(), "initialism should match");
    assert_eq!(entries[res[0]].rel, "MyClassFile.rs");
}

#[test]
fn camelhumps_word_boundary_initialism() {
    let entries = vec![
        entry("Finance Spreadsheet.md", 0),
        entry("Finite Seasons Family Gift.md", 0),
        entry("notes.md", 0),
    ];
    let (res, _) = rank("fsfg", &entries, &[], &mut matcher(), 10);
    assert!(!res.is_empty(), "initialism should match");
    assert_eq!(entries[res[0]].rel, "Finite Seasons Family Gift.md");
}

#[test]
fn empty_query_orders_by_frecency_then_folder() {
    let entries = vec![entry("a.md", 0), entry("b.md", 0), entry("c.md", 1)];
    // frecency scores 0.0, 8.0, 2.0, in quarters
    let frecency = vec![0, 32, 8];
    let (res, total) = rank("", &entries, &frecency, &mut matcher(), 10);
    assert_eq!(res, vec![1, 2, 0], "frecency DESC: b, c, a");
    assert_eq!(total, 3);
}

#[test]
fn query_frecency_breaks_near_equal_ties() {
    let entries = vec![entry("notes.md", 0), entry("notes.md", 1)];
    // frecency scores 0.0 and 10.0, in quarters
    let frecency = vec![0, 40];
    let (res, _) = rank("notes", &entries, &frecency, &mut matcher(), 10);
    assert_eq!(
        res,
        vec![1, 0],
        "frecency edges out the equal-scoring stranger"
    );
}

#[test]
fn indices_come_from_the_scoring_pattern() {
    let mut m = Matcher::new(MatcherConfig::DEFAULT.match_paths());
    let hay = "specs\\009-match-highlighting.md";
    let pattern = Pattern::parse("spec", CaseMatching::Smart, Normalization::Smart);
    let mut buf = Vec::new();
    let score = pattern.score(Utf32Str::new(hay, &mut buf), &mut m);
    let mut raw = Vec::new();
    let indices_score = pattern.indices(Utf32Str::new(hay, &mut buf), &mut m, &mut raw);
    assert_eq!(score, indices_score, "same match, same score");
    assert!(score.is_some());
    assert!(!raw.is_empty());

    let got = match_indices(hay, "spec", &mut matcher());
    assert!(!got.is_empty());
    assert!(got.windows(2).all(|w| w[0] < w[1]), "sorted + deduplicated");
}

#[test]
fn match_indices_empty_query_or_no_match_is_empty() {
    let mut m = matcher();
    assert!(match_indices("notes.md", "", &mut m).is_empty());
    assert!(match_indices("notes.md", "zzqx", &mut m).is_empty());
}

#[test]
fn match_indices_non_ascii_positions_are_code_points() {
    let mut m = matcher();
    let got = match_indices("nota-café.md", "café", &mut m);
    assert_eq!(got, vec![5, 6, 7, 8], "c-a-f-é at code points 5..=8");
}

#[test]
fn match_indices_camelhumps_is_non_contiguous() {
    let mut m = matcher();
    let hay = "FiniteSeasonsGift.md";
    let got = match_indices(hay, "fsg", &mut m);
    assert_eq!(got.len(), 3);
    assert!(
        got.windows(2).any(|w| w[1] - w[0] > 1),
        "humps are not adjacent: {got:?}"
    );
    let chars: Vec<char> = hay.chars().collect();
    let hit: String = got
        .iter()
        .map(|&i| chars[i as usize].to_ascii_lowercase())
        .collect();
    assert_eq!(hit, "fsg", "highlighted chars echo the query");
}

#[test]
fn split_highlights_maps_to_displayed_strings() {
    let (name_hl, loc_hl) = split_highlights("docs\\demo.mp4", "atref", &[0, 1, 4, 5, 6]);
    assert_eq!(name_hl, vec![0, 1], "d, e of demo.mp4");
    assert_eq!(loc_hl, vec![6, 7], "d, o of docs after `atref/`");
}

#[test]
fn split_highlights_root_level_file_has_no_location_positions() {
    let (name_hl, loc_hl) = split_highlights("notes.md", "vault", &[0, 1, 2]);
    assert_eq!(name_hl, vec![0, 1, 2]);
    assert!(loc_hl.is_empty());
}

#[test]
fn split_highlights_nested_parent_keeps_inner_separators() {
    let (name_hl, loc_hl) = split_highlights("a\\b\\c.md", "root", &[0, 1, 2, 3, 4]);
    assert_eq!(name_hl, vec![0], "c of c.md");
    assert_eq!(loc_hl, vec![5, 6, 7], "a, /, b after `root/`");
}

#[test]
fn match_indices_timing_smoke_over_synthetic_corpus() {
    let entries: Vec<Entry> = (0..5000)
        .map(|i| entry(&format!("dir{}\\note-file-{i}.md", i % 40), 0))
        .collect();
    let mut m = matcher();
    let (idx, _) = rank("note", &entries, &[], &mut m, 50);
    assert_eq!(idx.len(), 50);
    let start = std::time::Instant::now();
    for &i in &idx {
        let positions = match_indices(&entries[i].rel, "note", &mut m);
        assert!(!positions.is_empty());
    }
    let elapsed = start.elapsed();
    assert!(
        elapsed < std::time::Duration::from_millis(250),
        "50 rows took {elapsed:?}"
    );
}

#[test]
fn query_frecency_does_not_beat_clearly_better_match() {
    let entries = vec![entry("readme.md", 0), entry("rxexaxdxmxe.md", 0)];
    // a frecency score of 1000.0, in quarters, piled on the worse match
    let frecency = vec![0, 4000];
    let (res, _) = rank("readme", &entries, &frecency, &mut matcher(), 10);
    assert_eq!(
        entries[res[0]].rel, "readme.md",
        "the better fuzzy match still wins"
    );
}

#[test]
fn rank_with_zero_max_still_counts() {
    let entries = vec![entry("a.md", 0), entry("b.md", 0)];
    let (res, total) = rank("md", &entries, &[], &mut matcher(), 0);
    assert!(res.is_empty());
    assert_eq!(total, 2);
    let (res, total) = rank("x", &[], &[], &mut matcher(), 10);
    assert!(res.is_empty());
    assert_eq!(total, 0);
}

#[test]
fn search_rows_carry_names_locations_and_highlights() {
    let entries = vec![Entry {
        abs: r"D:\dev\atref\docs\demo.mp4".to_string(),
        root: r"D:\dev\atref".to_string(),
        rel: r"docs\demo.mp4".to_string(),
        root_rank: 0,
        size: 42,
        mtime: 0,
    }];
    let out = search_rows("demo", &entries, &[], &mut matcher(), 50);
    assert_eq!(out.total, 1);
    assert_eq!(out.matches, 1);
    assert_eq!(out.rows.len(), 1);
    let row = &out.rows[0];
    assert_eq!(row.name, "demo.mp4");
    assert_eq!(row.location, "atref/docs");
    assert_eq!(row.abs, r"D:\dev\atref\docs\demo.mp4");
    assert_eq!(row.size, 42);
    assert!(!row.name_hl.is_empty());
    let empty = search_rows("", &entries, &[], &mut matcher(), 50);
    assert!(empty.rows[0].name_hl.is_empty() && empty.rows[0].loc_hl.is_empty());
}

#[test]
fn very_long_queries_are_ranked_and_highlighted() {
    let entries = vec![entry(r"notes\a.md", 0), entry(r"notes\b.md", 0)];
    let mut m = matcher();
    let long: String = "a".repeat(70_000);
    let (order, total) = rank(&long, &entries, &[], &mut m, 10);
    assert_eq!((order.len(), total), (0, 0), "a needle longer than every path matches nothing");
    assert!(match_indices(r"notes\a.md", &long, &mut m).is_empty());
    let spaced: String = "a ".repeat(40_000);
    let (order, total) = rank(&spaced, &entries, &[], &mut m, 10);
    assert_eq!(total, 1);
    assert_eq!(order, vec![0]);
}
