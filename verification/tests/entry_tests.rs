use hyprlauncher::entry::{
    create_file_entry, expand_command, file_name, mime_icon, AppEntry, EntryType, FileKind,
    BONUS_SCORE_FOLDER,
};

fn app(name: &str, path: &str, icon: &str, launch_count: u32) -> AppEntry {
    AppEntry {
        name: name.to_string(),
        description: String::new(),
        path: path.to_string(),
        command: String::new(),
        icon_name: icon.to_string(),
        launch_count,
        entry_type: EntryType::Application,
        score_boost: 0,
    }
}

#[test]
fn file_name_of_paths() {
    assert_eq!(file_name("/usr/bin/ls").unwrap(), "ls");
    assert_eq!(file_name("/etc/").unwrap(), "etc");
    assert_eq!(file_name("plain").unwrap(), "plain");
    assert!(file_name("/").is_none());
    assert!(file_name("").is_none());
}

#[test]
fn directory_entry() {
    let e = create_file_entry("/etc/ssh".to_string(), FileKind::Directory).unwrap();
    assert_eq!(e.name, "ssh");
    assert_eq!(e.icon_name, "folder");
    assert_eq!(e.command, "");
    assert_eq!(e.score_boost, BONUS_SCORE_FOLDER);
    assert!(matches!(e.entry_type, EntryType::File));
}

#[test]
fn executable_entry_quotes_its_path() {
    let e = create_file_entry("/usr/bin/ls".to_string(), FileKind::ExecutableFile).unwrap();
    assert_eq!(e.icon_name, "application-x-executable");
    assert_eq!(e.command, "\"/usr/bin/ls\"");
    assert_eq!(e.score_boost, 0);
}

#[test]
fn regular_file_opens_via_handler() {
    let e = create_file_entry(
        "/home/u/notes.txt".to_string(),
        FileKind::RegularFile("text/plain".to_string()),
    )
    .unwrap();
    assert_eq!(e.icon_name, "text-x-generic");
    assert_eq!(e.command, "xdg-open \"/home/u/notes.txt\"");
}

#[test]
fn unresolvable_path_gives_no_entry() {
    assert!(create_file_entry("/".to_string(), FileKind::Directory).is_none());
}

#[test]
fn mime_buckets() {
    assert_eq!(mime_icon("text/plain", "/x"), "text-x-generic");
    assert_eq!(mime_icon("image/png", "/x"), "image-x-generic");
    assert_eq!(mime_icon("audio/flac", "/x"), "audio-x-generic");
    assert_eq!(mime_icon("video/mp4", "/x"), "video-x-generic");
    assert_eq!(mime_icon("application/pdf", "/x"), "application-pdf");
    assert_eq!(mime_icon("", "/doc.pdf"), "application-pdf");
    assert_eq!(mime_icon("application/octet-stream", "/x"), "application-x-generic");
}

#[test]
fn expand_command_substitutes_placeholders() {
    assert_eq!(expand_command("nautilus %U", "Files"), "nautilus");
    assert_eq!(expand_command("run --title %c %f", "My App"), "run --title My App");
    assert_eq!(expand_command("plain", "X"), "plain");
    assert_eq!(expand_command("  spaced  ", "X"), "spaced");
}

#[test]
fn duplicate_copies_every_field() {
    let e = app("Files", "/a.desktop", "io", 3);
    let d = e.duplicate();
    assert_eq!(d.name, e.name);
    assert_eq!(d.path, e.path);
    assert_eq!(d.icon_name, e.icon_name);
    assert_eq!(d.launch_count, e.launch_count);
}
