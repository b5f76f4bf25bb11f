use hyprlauncher::desktop::parse_desktop_entry;
use hyprlauncher::entry::EntryType;

const FULL: &str = "[Desktop Entry]\nType=Application\nName=Files\nExec=nautilus %U\nIcon=org.gnome.Nautilus\nComment=Access and organize files\nGenericName=File Manager\n";

#[test]
fn resolves_a_full_entry() {
    let e = parse_desktop_entry("/apps/files.desktop".to_string(), FULL).unwrap();
    assert_eq!(e.name, "Files");
    assert_eq!(e.command, "nautilus %U");
    assert_eq!(e.icon_name, "org.gnome.Nautilus");
    assert_eq!(e.description, "Access and organize files");
    assert_eq!(e.path, "/apps/files.desktop");
    assert_eq!(e.launch_count, 0);
    assert!(matches!(e.entry_type, EntryType::Application));
    assert_eq!(e.score_boost, 0);
}

#[test]
fn no_display_entries_are_hidden() {
    let text = "[Desktop Entry]\nName=Hidden\nNoDisplay=true\n";
    assert!(parse_desktop_entry("/h.desktop".to_string(), text).is_none());
    let text2 = "[Desktop Entry]\nName=Shown\nNoDisplay=false\n";
    assert!(parse_desktop_entry("/s.desktop".to_string(), text2).is_some());
}

#[test]
fn a_missing_name_resolves_to_nothing() {
    let text = "[Desktop Entry]\nExec=foo\n";
    assert!(parse_desktop_entry("/x.desktop".to_string(), text).is_none());
    assert!(parse_desktop_entry("/x.desktop".to_string(), "").is_none());
}

#[test]
fn defaults_for_missing_keys() {
    let text = "[Desktop Entry]\nName=Bare\n";
    let e = parse_desktop_entry("/b.desktop".to_string(), text).unwrap();
    assert_eq!(e.command, "");
    assert_eq!(e.icon_name, "application-x-executable");
    assert_eq!(e.description, "");
}

#[test]
fn generic_name_backs_up_the_comment() {
    let text = "[Desktop Entry]\nName=X\nGenericName=Editor\n";
    let e = parse_desktop_entry("/x.desktop".to_string(), text).unwrap();
    assert_eq!(e.description, "Editor");
}

#[test]
fn keys_outside_the_main_section_are_ignored() {
    let text = "Name=Stray\n[Other Section]\nName=Wrong\n[Desktop Entry]\nName=Right\n";
    let e = parse_desktop_entry("/x.desktop".to_string(), text).unwrap();
    assert_eq!(e.name, "Right");
}

#[test]
fn the_first_line_for_a_key_wins() {
    let text = "[Desktop Entry]\nName=First\nName=Second\n";
    let e = parse_desktop_entry("/x.desktop".to_string(), text).unwrap();
    assert_eq!(e.name, "First");
}
