use hyprlauncher::config::Config;

#[test]
fn default_configuration_values() {
    let c = Config::default();
    assert_eq!(c.window.width, 600);
    assert_eq!(c.window.max_entries, 50);
    assert!(c.window.show_search);
    assert!(!c.window.use_gtk_colors);
    assert_eq!(c.window.border_width, 2);
    assert_eq!(c.theme.colors.window_bg, "#0f0f0f");
    assert_eq!(c.theme.corners.window, 12);
    assert_eq!(c.theme.typography.item_path_font_family, "monospace");
    assert_eq!(c.window.custom_navigate_keys.up, "k");
    assert!(!c.debug.enable_logging);
}

#[test]
fn stylesheet_carries_the_theme() {
    let c = Config::default();
    let css = c.get_css();
    assert!(css.contains("background-color: #0f0f0f"));
    assert!(css.contains("border-radius: 12px"));
    assert!(css.contains("border: 2px solid #333333;"));
    assert!(css.contains("font-family: monospace"));
    assert!(css.contains("scrollbar { opacity: 0; }"));
    assert!(!css.contains("@theme_bg_color"));
}

#[test]
fn stylesheet_without_a_border() {
    let mut c = Config::default();
    c.window.show_border = false;
    assert!(c.get_css().contains("border: none;"));
}

#[test]
fn gtk_coloured_stylesheet() {
    let mut c = Config::default();
    c.window.use_gtk_colors = true;
    let css = c.get_css();
    assert!(css.contains("@theme_bg_color"));
    assert!(css.contains("border: 2px solid @borders;"));
    assert!(!css.contains("#0f0f0f"));
}

#[test]
fn stylesheet_writes_negative_margins() {
    let mut c = Config::default();
    c.window.border_width = -3;
    let css = c.get_css();
    assert!(css.contains("border: -3px solid #333333;"));
}
