use hyprlauncher::entry::{
    AppEntry, EntryType, FileKind, BONUS_SCORE_BINARY, BONUS_SCORE_EXACT,
    BONUS_SCORE_FILE_LISTING, BONUS_SCORE_FOLDER, BONUS_SCORE_ICON_NAME, BONUS_SCORE_LAUNCH_COUNT,
};
use hyprlauncher::heatmap::Heatmap;
use hyprlauncher::index::build_index;
use hyprlauncher::search::{
    binary_candidate, classify_query, empty_search, expand_query_path, path_search, sort_results,
    text_search, QueryMode, SearchResult,
};

fn app(name: &str, launch_count: u32) -> AppEntry {
    AppEntry {
        name: name.to_string(),
        description: String::new(),
        path: format!("/usr/share/applications/{}.desktop", name),
        command: name.to_lowercase(),
        icon_name: "some-icon".to_string(),
        launch_count,
        entry_type: EntryType::Application,
        score_boost: 0,
    }
}

#[test]
fn query_classification() {
    assert_eq!(classify_query(""), QueryMode::EmptyMode);
    assert_eq!(classify_query("/etc"), QueryMode::PathMode);
    assert_eq!(classify_query("~/dl"), QueryMode::PathMode);
    assert_eq!(classify_query("$HOME"), QueryMode::PathMode);
    assert_eq!(classify_query("fire"), QueryMode::TextMode);
    assert_eq!(classify_query(" "), QueryMode::TextMode);
}

#[test]
fn empty_query_ranks_by_usage() {
    let idx = build_index(&vec![app("Rare", 1), app("Often", 9)], &Heatmap::new());
    let r = empty_search(&idx, 50);
    assert_eq!(r.len(), 2);
    assert_eq!(r[0].app.name, "Often");
    assert_eq!(r[1].app.name, "Rare");
    assert_eq!(r[0].score - r[1].score, 8 * BONUS_SCORE_LAUNCH_COUNT);
    // the formula itself: launches at full weight, plus the icon bonus
    assert_eq!(r[0].score, 9 * BONUS_SCORE_LAUNCH_COUNT + BONUS_SCORE_ICON_NAME);
}

#[test]
fn empty_query_skips_non_desktop_sources() {
    let mut file_entry = app("Loose", 0);
    file_entry.path = "/home/u/loose".to_string();
    let idx = build_index(&vec![app("Real", 0), file_entry], &Heatmap::new());
    let r = empty_search(&idx, 50);
    assert_eq!(r.len(), 1);
    assert_eq!(r[0].app.name, "Real");
}

#[test]
fn a_repeated_launch_raises_the_score_by_one_weight() {
    // one recorded launch moves the empty-query score up by exactly the
    // launch weight
    let mut idx = build_index(&vec![app("Files", 0)], &Heatmap::new());
    let before = empty_search(&idx, 50)[0].score;
    idx.record_launch("Files");
    let after = empty_search(&idx, 50)[0].score;
    assert_eq!(after - before, BONUS_SCORE_LAUNCH_COUNT);
}

#[test]
fn launch_counts_break_fuzzy_ties() {
    // both names match "file" fuzzily; the launched one ranks first
    let idx = build_index(&vec![app("FileRoller", 0), app("Files", 5)], &Heatmap::new());
    let r = text_search(&idx, "file", None, 50);
    assert_eq!(r.len(), 2);
    assert_eq!(r[0].app.name, "Files");
    assert_eq!(r[1].app.name, "FileRoller");
}

#[test]
fn an_exact_match_outranks_any_fuzzy_match() {
    // "Files" is heavily launched, but "term" matches exactly
    let idx = build_index(&vec![app("Files", 4000000), app("Term", 0)], &Heatmap::new());
    let r = text_search(&idx, "tErM", None, 50);
    assert!(r.len() >= 1);
    assert_eq!(r[0].app.name, "Term");
}

#[test]
fn unmatched_queries_return_nothing() {
    let idx = build_index(&vec![app("Files", 0)], &Heatmap::new());
    let r = text_search(&idx, "zzq", None, 50);
    assert_eq!(r.len(), 0);
}

#[test]
fn search_is_capped_at_max_results() {
    let apps: Vec<AppEntry> = (0..9).map(|i| app(&format!("File{}", i), 0)).collect();
    let idx = build_index(&apps, &Heatmap::new());
    assert_eq!(empty_search(&idx, 4).len(), 4);
    assert_eq!(text_search(&idx, "file", None, 3).len(), 3);
    assert_eq!(empty_search(&idx, 0).len(), 0);
}

#[test]
fn binary_fallback_for_an_unindexed_command() {
    // the caller found /usr/bin/ls executable and hands the candidate in
    let idx = build_index(&Vec::new(), &Heatmap::new());
    let bin = binary_candidate("ls").unwrap();
    let r = text_search(&idx, "ls", Some(bin), 50);
    assert_eq!(r.len(), 1);
    assert_eq!(r[0].score, BONUS_SCORE_BINARY);
    assert_eq!(r[0].app.name, "ls");
    assert_eq!(r[0].app.path, "/usr/bin/ls");
    assert_eq!(r[0].app.command, "/usr/bin/ls");
    assert!(matches!(r[0].app.entry_type, EntryType::File));
}

#[test]
fn binary_fallback_carries_the_remaining_tokens() {
    let bin = binary_candidate("ls -la /tmp").unwrap();
    assert_eq!(bin.app.command, "/usr/bin/ls -la /tmp");
    assert_eq!(bin.app.name, "ls -la /tmp");
    assert!(binary_candidate("   ").is_none());
}

#[test]
fn an_exact_match_suppresses_the_binary_fallback() {
    let idx = build_index(&vec![app("ls", 0)], &Heatmap::new());
    let bin = binary_candidate("ls").unwrap();
    let r = text_search(&idx, "ls", Some(bin), 50);
    assert_eq!(r.len(), 1);
    assert_eq!(r[0].app.path, "/usr/share/applications/ls.desktop");
}

#[test]
fn a_first_token_match_suppresses_the_fallback_too() {
    // the entry "ls" equals the first token of "ls -la", so no /usr/bin
    // entry joins — and "ls" itself is no match for the whole query
    let idx = build_index(&vec![app("ls", 0)], &Heatmap::new());
    let bin = binary_candidate("ls -la").unwrap();
    let r = text_search(&idx, "ls -la", Some(bin), 50);
    assert_eq!(r.len(), 0);
    // with no entry named after the first token, the fallback joins
    let idx2 = build_index(&vec![app("foo", 0)], &Heatmap::new());
    let bin2 = binary_candidate("ls -la").unwrap();
    let r2 = text_search(&idx2, "ls -la", Some(bin2), 50);
    assert_eq!(r2.len(), 1);
    assert_eq!(r2[0].app.command, "/usr/bin/ls -la");
}

#[test]
fn the_cap_keeps_the_highest_scored_entries() {
    // the cap comes after the sort: the top-scored entry survives even
    // when it stands last in the index
    let idx = build_index(&vec![app("Rare", 0), app("Often", 7)], &Heatmap::new());
    let r = empty_search(&idx, 1);
    assert_eq!(r.len(), 1);
    assert_eq!(r[0].app.name, "Often");
}

#[test]
fn folding_is_full_unicode() {
    let idx = build_index(&vec![app("Éditeur", 0)], &Heatmap::new());
    let r = text_search(&idx, "éDITEUR", None, 50);
    assert_eq!(r.len(), 1);
    assert!(r[0].score >= BONUS_SCORE_EXACT);
}

#[test]
fn listing_a_directory_starts_with_the_parent_row() {
    // the /etc listing: ".." first, then directories alphabetically, then
    // files alphabetically
    let children = vec![
        ("/etc/passwd".to_string(), FileKind::RegularFile("text/plain".to_string())),
        ("/etc/ssh".to_string(), FileKind::Directory),
        ("/etc/hosts".to_string(), FileKind::RegularFile("text/plain".to_string())),
        ("/etc/apt".to_string(), FileKind::Directory),
    ];
    let r = path_search(Some(("/".to_string(), FileKind::Directory)), children, 50);
    let names: Vec<&str> = r.iter().map(|x| x.app.name.as_str()).collect();
    assert_eq!(names, vec!["..", "apt", "ssh", "hosts", "passwd"]);
    assert_eq!(r[0].score, BONUS_SCORE_FOLDER);
    assert_eq!(r[1].score, BONUS_SCORE_FOLDER);
    assert_eq!(r[3].score, BONUS_SCORE_FILE_LISTING);
    assert_eq!(r[0].app.path, "/");
    assert_eq!(r[0].app.icon_name, "folder");
}

#[test]
fn listing_without_a_parent_has_no_navigation_row() {
    let children = vec![("/etc".to_string(), FileKind::Directory)];
    let r = path_search(None, children, 50);
    assert_eq!(r.len(), 1);
    assert_eq!(r[0].app.name, "etc");
}

#[test]
fn listing_is_capped_too() {
    let children = vec![
        ("/d/a".to_string(), FileKind::Directory),
        ("/d/b".to_string(), FileKind::Directory),
        ("/d/c".to_string(), FileKind::Directory),
    ];
    let r = path_search(Some(("/".to_string(), FileKind::Directory)), children, 2);
    assert_eq!(r.len(), 2);
    assert_eq!(r[0].app.name, "..");
    assert_eq!(r[1].app.name, "a");
}

#[test]
fn sorting_is_by_score_then_name() {
    let mk = |name: &str, score: i64| SearchResult { app: app(name, 0), score };
    let mut v = vec![mk("beta", 10), mk("alpha", 10), mk("low", 1), mk("top", 99)];
    sort_results(&mut v);
    let names: Vec<&str> = v.iter().map(|x| x.app.name.as_str()).collect();
    assert_eq!(names, vec!["top", "alpha", "beta", "low"]);
}

#[test]
fn case_insensitive_exact_matching() {
    let idx = build_index(&vec![app("FireFox", 3)], &Heatmap::new());
    let r = text_search(&idx, "fIrEfOx", None, 50);
    assert_eq!(r.len(), 1);
    // the exact-match formula: the exact band, capped launches, icon bonus
    assert_eq!(
        r[0].score,
        BONUS_SCORE_EXACT + 3 * BONUS_SCORE_LAUNCH_COUNT + BONUS_SCORE_ICON_NAME
    );
}

#[test]
fn duplicate_folded_names_appear_once() {
    // two index entries whose names fold to the same text: one result
    let mut a = app("files", 0);
    a.path = "/one/files.desktop".to_string();
    let b = app("Files", 0);
    let idx = build_index(&vec![a, b], &Heatmap::new());
    let r = text_search(&idx, "file", None, 50);
    assert_eq!(r.len(), 1);
}

#[test]
fn plain_queries_pass_through_expansion() {
    assert_eq!(expand_query_path("/etc"), "/etc");
    assert_eq!(expand_query_path("no-specials"), "no-specials");
}
