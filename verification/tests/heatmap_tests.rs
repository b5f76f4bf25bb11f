use hyprlauncher::heatmap::{heatmap_from_text, Heatmap};

#[test]
fn set_and_get() {
    let mut h = Heatmap::new();
    assert_eq!(h.get("Files"), None);
    h.set("Files".to_string(), 3);
    h.set("Term".to_string(), 1);
    h.set("Files".to_string(), 4);
    assert_eq!(h.get("Files"), Some(4));
    assert_eq!(h.get("Term"), Some(1));
    assert_eq!(h.get("Other"), None);
}

#[test]
fn writes_canonical_text() {
    let mut h = Heatmap::new();
    h.set("Files".to_string(), 12);
    h.set("Term".to_string(), 0);
    assert_eq!(h.to_text(), "{\"Files\":12,\"Term\":0}");
    assert_eq!(Heatmap::new().to_text(), "{}");
}

#[test]
fn save_then_load_keeps_the_count() {
    // the round trip of one save: set, write out, read back
    let mut h = Heatmap::new();
    h.set("Files".to_string(), 7);
    let loaded = heatmap_from_text(h.to_text().as_str());
    assert_eq!(loaded.get("Files"), Some(7));
}

#[test]
fn round_trip_keeps_every_pair() {
    let mut h = Heatmap::new();
    h.set("Files".to_string(), 5);
    h.set("Fire Fox".to_string(), 4294967295);
    h.set("zero".to_string(), 0);
    let loaded = heatmap_from_text(h.to_text().as_str());
    assert_eq!(loaded.get("Files"), Some(5));
    assert_eq!(loaded.get("Fire Fox"), Some(4294967295));
    assert_eq!(loaded.get("zero"), Some(0));
}

#[test]
fn round_trip_escapes_quotes_and_backslashes() {
    let mut h = Heatmap::new();
    h.set("a\"b".to_string(), 1);
    h.set("c\\d".to_string(), 2);
    let text = h.to_text();
    assert_eq!(text, "{\"a\\\"b\":1,\"c\\\\d\":2}");
    let loaded = heatmap_from_text(text.as_str());
    assert_eq!(loaded.get("a\"b"), Some(1));
    assert_eq!(loaded.get("c\\d"), Some(2));
}

#[test]
fn malformed_text_is_the_empty_heatmap() {
    assert_eq!(heatmap_from_text("").pairs.len(), 0);
    assert_eq!(heatmap_from_text("not json").pairs.len(), 0);
    assert_eq!(heatmap_from_text("{\"unclosed\":1").pairs.len(), 0);
    assert_eq!(heatmap_from_text("{\"x\":}").pairs.len(), 0);
    assert_eq!(heatmap_from_text("[1,2]").pairs.len(), 0);
    // a count beyond the 32-bit ceiling does not parse
    assert_eq!(heatmap_from_text("{\"x\":4294967296}").pairs.len(), 0);
}

#[test]
fn empty_object_is_the_empty_heatmap() {
    let loaded = heatmap_from_text("{}");
    assert_eq!(loaded.pairs.len(), 0);
    assert_eq!(loaded.get("anything"), None);
}

#[test]
fn duplicate_keys_take_the_last_value() {
    let loaded = heatmap_from_text("{\"x\":1,\"x\":2}");
    assert_eq!(loaded.get("x"), Some(2));
    assert_eq!(loaded.pairs.len(), 1);
}
