use hyprlauncher::entry::{AppEntry, EntryType};
use hyprlauncher::heatmap::Heatmap;
use hyprlauncher::index::{build_index, AppIndex};

fn app(name: &str, launch_count: u32) -> AppEntry {
    AppEntry {
        name: name.to_string(),
        description: String::new(),
        path: format!("/usr/share/applications/{}.desktop", name),
        command: name.to_lowercase(),
        icon_name: "some-icon".to_string(),
        launch_count,
        entry_type: EntryType::Application,
        score_boost: 0,
    }
}

#[test]
fn rebuild_keeps_names_unique_and_applications_only() {
    let resolved = vec![app("Files", 0), app("Term", 0), app("Files", 0)];
    let heat = Heatmap::new();
    let idx = build_index(&resolved, &heat);
    assert_eq!(idx.len(), 2);
    for e in idx.entries.iter() {
        assert!(matches!(e.entry_type, EntryType::Application));
    }
    let mut names: Vec<&str> = idx.entries.iter().map(|e| e.name.as_str()).collect();
    names.sort_unstable();
    names.dedup();
    assert_eq!(names.len(), 2);
}

#[test]
fn rebuild_seeds_counts_from_the_heatmap() {
    let resolved = vec![app("Files", 0), app("Term", 0)];
    let mut heat = Heatmap::new();
    heat.set("Files".to_string(), 9);
    let idx = build_index(&resolved, &heat);
    assert_eq!(idx.get("Files").unwrap().launch_count, 9);
    assert_eq!(idx.get("Term").unwrap().launch_count, 0);
}

#[test]
fn last_entry_scanned_for_a_name_wins() {
    let mut a = app("Files", 0);
    a.command = "first".to_string();
    let mut b = app("Files", 0);
    b.command = "second".to_string();
    let idx = build_index(&vec![a, b], &Heatmap::new());
    assert_eq!(idx.len(), 1);
    assert_eq!(idx.get("Files").unwrap().command, "second");
}

#[test]
fn record_launch_increments_in_place() {
    let mut idx = build_index(&vec![app("Files", 5)], &Heatmap::new());
    assert_eq!(idx.record_launch("Files"), Some(6));
    assert_eq!(idx.get("Files").unwrap().launch_count, 6);
    assert_eq!(idx.record_launch("Files"), Some(7));
}

#[test]
fn record_launch_of_an_unknown_name_is_a_no_op() {
    let mut idx = build_index(&vec![app("Files", 5)], &Heatmap::new());
    assert_eq!(idx.record_launch("Missing"), None);
    assert_eq!(idx.get("Files").unwrap().launch_count, 5);
    assert_eq!(idx.len(), 1);
}

#[test]
fn insert_replaces_by_name() {
    let mut idx = AppIndex::new();
    idx.insert(app("A", 0));
    idx.insert(app("B", 0));
    idx.insert(app("A", 3));
    assert_eq!(idx.len(), 2);
    assert_eq!(idx.get("A").unwrap().launch_count, 3);
}

#[test]
fn desktop_roots_follow_the_search_path() {
    let roots = hyprlauncher::index::get_desktop_paths(Some("/a:/b"));
    assert_eq!(roots.len(), 7);
    assert_eq!(roots[0], "/a/applications");
    assert_eq!(roots[1], "/b/applications");
    assert_eq!(roots[2], "/usr/share/applications");
    assert_eq!(roots[3], "/usr/local/share/applications");
    assert_eq!(roots[4], "/var/lib/flatpak/exports/share/applications");
    assert!(roots[5].ends_with("/.local/share/applications") || roots[5].starts_with("~"));
    assert!(roots[6].ends_with("/.local/share/flatpak/exports/share/applications")
        || roots[6].starts_with("~"));
}

#[test]
fn desktop_roots_without_a_search_path() {
    let roots = hyprlauncher::index::get_desktop_paths(None);
    assert_eq!(roots.len(), 5);
    assert_eq!(roots[0], "/usr/share/applications");
}
