//! The configuration snapshot the launcher consumes, with its defaults,
//! and the stylesheet text derived from it. Reading, merging and watching
//! the configuration file are the surrounding program's work; this module
//! only computes.

use crate::text::{dec_i32, push_dec_i32};
use vstd::prelude::*;

verus! {

#[derive(Debug, Clone)]
pub struct Corners {
    pub window: i32,
    pub search: i32,
    pub list_item: i32,
}

/// The out-of-the-box corner radii.
pub open spec fn is_default_corners(c: Corners) -> bool {
    c.window == 12 && c.search == 8 && c.list_item == 8
}

impl Default for Corners {
    fn default() -> (r: Self)
        ensures
            is_default_corners(r),
    {
        Self { window: 12, search: 8, list_item: 8 }
    }
}

#[derive(Debug, Clone)]
pub struct Colors {
    pub window_bg: String,
    pub search_bg: String,
    pub search_bg_focused: String,
    pub item_bg: String,
    pub item_bg_hover: String,
    pub item_bg_selected: String,
    pub search_text: String,
    pub search_caret: String,
    pub item_name: String,
    pub item_name_selected: String,
    pub item_description: String,
    pub item_description_selected: String,
    pub item_path: String,
    pub item_path_selected: String,
    pub border: String,
}

/// The out-of-the-box dark palette.
pub open spec fn is_default_colors(c: Colors) -> bool {
    &&& c.window_bg@ == "#0f0f0f"@
    &&& c.search_bg@ == "#1f1f1f"@
    &&& c.search_bg_focused@ == "#282828"@
    &&& c.item_bg@ == "#0f0f0f"@
    &&& c.item_bg_hover@ == "#181818"@
    &&& c.item_bg_selected@ == "#1f1f1f"@
    &&& c.search_text@ == "#e0e0e0"@
    &&& c.search_caret@ == "#808080"@
    &&& c.item_name@ == "#ffffff"@
    &&& c.item_name_selected@ == "#ffffff"@
    &&& c.item_description@ == "#a0a0a0"@
    &&& c.item_description_selected@ == "#a0a0a0"@
    &&& c.item_path@ == "#808080"@
    &&& c.item_path_selected@ == "#808080"@
    &&& c.border@ == "#333333"@
}

impl Default for Colors {
    fn default() -> (r: Self)
        ensures
            is_default_colors(r),
    {
        Self {
            window_bg: String::from_str("#0f0f0f"),
            search_bg: String::from_str("#1f1f1f"),
            search_bg_focused: String::from_str("#282828"),
            item_bg: String::from_str("#0f0f0f"),
            item_bg_hover: String::from_str("#181818"),
            item_bg_selected: String::from_str("#1f1f1f"),
            search_text: String::from_str("#e0e0e0"),
            search_caret: String::from_str("#808080"),
            item_name: String::from_str("#ffffff"),
            item_name_selected: String::from_str("#ffffff"),
            item_description: String::from_str("#a0a0a0"),
            item_description_selected: String::from_str("#a0a0a0"),
            item_path: String::from_str("#808080"),
            item_path_selected: String::from_str("#808080"),
            border: String::from_str("#333333"),
        }
    }
}

#[derive(Debug, Clone)]
pub struct Spacing {
    pub search_margin: i32,
    pub search_padding: i32,
    pub item_margin: i32,
    pub item_padding: i32,
}

/// The out-of-the-box spacing.
pub open spec fn is_default_spacing(c: Spacing) -> bool {
    c.search_margin == 12 && c.search_padding == 12 && c.item_margin == 6 && c.item_padding == 4
}

impl Default for Spacing {
    fn default() -> (r: Self)
        ensures
            is_default_spacing(r),
    {
        Self { search_margin: 12, search_padding: 12, item_margin: 6, item_padding: 4 }
    }
}

#[derive(Debug, Clone)]
pub struct Typography {
    pub search_font_size: i32,
    pub item_name_size: i32,
    pub item_description_size: i32,
    pub item_path_size: i32,
    pub item_path_font_family: String,
}

/// The out-of-the-box type sizes.
pub open spec fn is_default_typography(c: Typography) -> bool {
    &&& c.search_font_size == 16
    &&& c.item_name_size == 14
    &&& c.item_description_size == 12
    &&& c.item_path_size == 12
    &&& c.item_path_font_family@ == "monospace"@
}

impl Default for Typography {
    fn default() -> (r: Self)
        ensures
            is_default_typography(r),
    {
        Self {
            search_font_size: 16,
            item_name_size: 14,
            item_description_size: 12,
            item_path_size: 12,
            item_path_font_family: String::from_str("monospace"),
        }
    }
}

#[derive(Debug, Clone)]
pub struct Theme {
    pub colors: Colors,
    pub corners: Corners,
    pub spacing: Spacing,
    pub typography: Typography,
}

/// The out-of-the-box theme.
pub open spec fn is_default_theme(t: Theme) -> bool {
    &&& is_default_colors(t.colors)
    &&& is_default_corners(t.corners)
    &&& is_default_spacing(t.spacing)
    &&& is_default_typography(t.typography)
}

impl Default for Theme {
    fn default() -> (r: Self)
        ensures
            is_default_theme(r),
    {
        Self {
            colors: Colors::default(),
            corners: Corners::default(),
            spacing: Spacing::default(),
            typography: Typography::default(),
        }
    }
}

/// Where the launcher window anchors on the screen.
#[allow(non_camel_case_types)]
#[derive(Clone, Copy, Debug, PartialEq, Eq, Structural)]
pub enum WindowAnchor {
    center,
    top,
    bottom,
    left,
    right,
    top_left,
    top_right,
    bottom_left,
    bottom_right,
}

#[derive(Debug, Clone)]
pub struct NavigateKeys {
    pub up: String,
    pub down: String,
    pub delete_word: String,
}

/// The out-of-the-box navigation keys.
pub open spec fn is_default_navigate_keys(k: NavigateKeys) -> bool {
    k.up@ == "k"@ && k.down@ == "j"@ && k.delete_word@ == "h"@
}

impl Default for NavigateKeys {
    fn default() -> (r: Self)
        ensures
            is_default_navigate_keys(r),
    {
        Self {
            up: String::from_str("k"),
            down: String::from_str("j"),
            delete_word: String::from_str("h"),
        }
    }
}

#[derive(Debug, Clone)]
pub struct Window {
    pub width: i32,
    pub height: i32,
    pub anchor: WindowAnchor,
    pub margin_top: i32,
    pub margin_bottom: i32,
    pub margin_left: i32,
    pub margin_right: i32,
    pub show_descriptions: bool,
    pub show_paths: bool,
    pub show_icons: bool,
    pub show_search: bool,
    pub custom_navigate_keys: NavigateKeys,
    pub show_border: bool,
    pub border_width: i32,
    pub use_gtk_colors: bool,
    pub max_entries: usize,
}

/// The out-of-the-box window: centred, bordered, fifty rows.
pub open spec fn is_default_window(w: Window) -> bool {
    &&& w.width == 600
    &&& w.height == 600
    &&& w.anchor == WindowAnchor::center
    &&& w.margin_top == 0
    &&& w.margin_bottom == 0
    &&& w.margin_left == 0
    &&& w.margin_right == 0
    &&& !w.show_descriptions
    &&& !w.show_paths
    &&& w.show_icons
    &&& w.show_search
    &&& is_default_navigate_keys(w.custom_navigate_keys)
    &&& w.show_border
    &&& w.border_width == 2
    &&& !w.use_gtk_colors
    &&& w.max_entries == 50
}

impl Default for Window {
    fn default() -> (r: Self)
        ensures
            is_default_window(r),
    {
        Self {
            width: 600,
            height: 600,
            show_descriptions: false,
            show_paths: false,
            show_icons: true,
            show_search: true,
            custom_navigate_keys: NavigateKeys::default(),
            anchor: WindowAnchor::center,
            margin_top: 0,
            margin_bottom: 0,
            margin_left: 0,
            margin_right: 0,
            show_border: true,
            border_width: 2,
            use_gtk_colors: false,
            max_entries: 50,
        }
    }
}

#[derive(Debug, Clone)]
pub struct Debug {
    pub disable_auto_focus: bool,
    pub enable_logging: bool,
}

/// Debugging is off out of the box.
pub open spec fn is_default_debug(d: Debug) -> bool {
    !d.disable_auto_focus && !d.enable_logging
}

impl Default for Debug {
    fn default() -> (r: Self)
        ensures
            is_default_debug(r),
    {
        Self { disable_auto_focus: false, enable_logging: false }
    }
}

#[derive(Debug, Clone)]
pub struct Config {
    pub window: Window,
    pub theme: Theme,
    pub debug: Debug,
}

/// The whole out-of-the-box configuration.
pub open spec fn is_default_config(c: Config) -> bool {
    is_default_window(c.window) && is_default_theme(c.theme) && is_default_debug(c.debug)
}

impl Default for Config {
    fn default() -> (r: Self)
        ensures
            is_default_config(r),
    {
        Self { window: Window::default(), theme: Theme::default(), debug: Debug::default() }
    }
}

/// The window's border rule: its width and colour where a border is shown
/// (the theme's colour, or the GTK border colour), none otherwise.
pub open spec fn border_style_spec(c: &Config) -> Seq<char> {
    if c.window.show_border {
        if c.window.use_gtk_colors {
            "border: "@ + dec_i32(c.window.border_width as int) + "px solid @borders;"@
        } else {
            "border: "@ + dec_i32(c.window.border_width as int) + "px solid "@
                + c.theme.colors.border@ + ";"@
        }
    } else {
        "border: none;"@
    }
}

/// The stylesheet text of the GTK-themed branch.
pub open spec fn css_gtk_spec(c: &Config) -> Seq<char> {
    "window {
                    background-color: @theme_bg_color;
                    border-radius: "@ + dec_i32(c.theme.corners.window as int) + "px;
                    "@ + border_style_spec(c) + "
                }
                listview {
                    background: @theme_bg_color;
                }
                listview > row {
                    padding: "@ + dec_i32(c.theme.spacing.item_padding as int) + "px;
                    margin: "@ + dec_i32(c.theme.spacing.item_margin as int) + "px;
                    border-radius: "@ + dec_i32(c.theme.corners.list_item as int) + "px;
                    background: @theme_bg_color;
                    transition: all 200ms ease;
                }
                listview > row:selected {
                    background-color: @theme_selected_bg_color;
                }
                listview > row:hover:not(:selected) {
                    background-color: mix(@theme_bg_color, @theme_fg_color, 0.95);
                }
                entry {
                    margin: "@ + dec_i32(c.theme.spacing.search_margin as int) + "px;
                    padding: "@ + dec_i32(c.theme.spacing.search_padding as int) + "px;
                    border-radius: "@ + dec_i32(c.theme.corners.search as int) + "px;
                    background-color: @theme_base_color;
                    color: @theme_text_color;
                    caret-color: @theme_text_color;
                    font-size: "@ + dec_i32(c.theme.typography.search_font_size as int) + "px;
                    box-shadow: 0 2px 4px rgba(0, 0, 0, 0.2);
                }
                entry:focus {
                    background-color: @theme_base_color;
                }
                .app-name {
                    color: @theme_text_color;
                    font-size: "@ + dec_i32(c.theme.typography.item_name_size as int) + "px;
                    font-weight: bold;
                    margin-right: 8px;
                }
                .app-description {
                    color: mix(@theme_fg_color, @theme_bg_color, 0.7);
                    font-size: "@ + dec_i32(c.theme.typography.item_description_size as int) + "px;
                    margin-right: 8px;
                }
                .app-path {
                    color: mix(@theme_fg_color, @theme_bg_color, 0.5);
                    font-size: "@ + dec_i32(c.theme.typography.item_path_size as int) + "px;
                    font-family: "@ + c.theme.typography.item_path_font_family@ + ";
                    opacity: 0.8;
                }
                scrollbar { opacity: 0; }"@
}

/// The stylesheet text of the self-coloured branch.
pub open spec fn css_plain_spec(c: &Config) -> Seq<char> {
    "window {
                    background-color: "@ + c.theme.colors.window_bg@ + ";
                    border-radius: "@ + dec_i32(c.theme.corners.window as int) + "px;
                    "@ + border_style_spec(c) + "
                }
                listview {
                    background: "@ + c.theme.colors.window_bg@ + ";
                }
                listview > row {
                    padding: "@ + dec_i32(c.theme.spacing.item_padding as int) + "px;
                    margin: "@ + dec_i32(c.theme.spacing.item_margin as int) + "px;
                    border-radius: "@ + dec_i32(c.theme.corners.list_item as int) + "px;
                    background: "@ + c.theme.colors.item_bg@ + ";
                    transition: all 200ms ease;
                }
                listview > row:selected {
                    background-color: "@ + c.theme.colors.item_bg_selected@ + ";
                }
                listview > row:hover:not(:selected) {
                    background-color: "@ + c.theme.colors.item_bg_hover@ + ";
                }
                entry {
                    margin: "@ + dec_i32(c.theme.spacing.search_margin as int) + "px;
                    padding: "@ + dec_i32(c.theme.spacing.search_padding as int) + "px;
                    border-radius: "@ + dec_i32(c.theme.corners.search as int) + "px;
                    background-color: "@ + c.theme.colors.search_bg@ + ";
                    color: "@ + c.theme.colors.search_text@ + ";
                    caret-color: "@ + c.theme.colors.search_caret@ + ";
                    font-size: "@ + dec_i32(c.theme.typography.search_font_size as int) + "px;
                    box-shadow: 0 2px 4px rgba(0, 0, 0, 0.2);
                }
                entry:focus {
                    background-color: "@ + c.theme.colors.search_bg_focused@ + ";
                }
                .app-name {
                    color: "@ + c.theme.colors.item_name@ + ";
                    font-size: "@ + dec_i32(c.theme.typography.item_name_size as int) + "px;
                    font-weight: bold;
                    margin-right: 8px;
                }
                listview > row:selected .app-name,
                listview > row:hover:not(:selected) .app-name {
                    color: "@ + c.theme.colors.item_name_selected@ + ";
                }
                .app-description {
                    color: "@ + c.theme.colors.item_description@ + ";
                    font-size: "@ + dec_i32(c.theme.typography.item_description_size as int) + "px;
                    margin-right: 8px;
                }
                listview > row:selected .app-description,
                listview > row:hover:not(:selected) .app-description {
                    color: "@ + c.theme.colors.item_description_selected@ + ";
                }
                .app-path {
                    color: "@ + c.theme.colors.item_path@ + ";
                    font-size: "@ + dec_i32(c.theme.typography.item_path_size as int) + "px;
                    font-family: "@ + c.theme.typography.item_path_font_family@ + ";
                    opacity: 0.8;
                }
                listview > row:selected .app-path,
                listview > row:hover:not(:selected) .app-path {
                    color: "@ + c.theme.colors.item_path_selected@ + ";
                }
                scrollbar { opacity: 0; }"@
}


/// The whole stylesheet for one configuration.
pub open spec fn css_spec(c: &Config) -> Seq<char> {
    if c.window.use_gtk_colors {
        css_gtk_spec(c)
    } else {
        css_plain_spec(c)
    }
}

impl Config {
    fn border_style(&self) -> (r: String)
        ensures
            r@ == border_style_spec(self),
    {
        if self.window.show_border {
            if self.window.use_gtk_colors {
                let mut out = String::from_str("border: ");
                push_dec_i32(&mut out, self.window.border_width);
                out.append("px solid @borders;");
                out
            } else {
                let mut out = String::from_str("border: ");
                push_dec_i32(&mut out, self.window.border_width);
                out.append("px solid ");
                out.append(self.theme.colors.border.as_str());
                out.append(";");
                out
            }
        } else {
            String::from_str("border: none;")
        }
    }

    fn css_gtk(&self, border: &String) -> (r: String)
        requires
            border@ == border_style_spec(self),
        ensures
            r@ == css_gtk_spec(self),
    {
        let mut out = String::from_str("window {
                    background-color: @theme_bg_color;
                    border-radius: ");
        push_dec_i32(&mut out, self.theme.corners.window);
        out.append("px;
                    ");
        out.append(border.as_str());
        out.append("
                }
                listview {
                    background: @theme_bg_color;
                }
                listview > row {
                    padding: ");
        push_dec_i32(&mut out, self.theme.spacing.item_padding);
        out.append("px;
                    margin: ");
        push_dec_i32(&mut out, self.theme.spacing.item_margin);
        out.append("px;
                    border-radius: ");
        push_dec_i32(&mut out, self.theme.corners.list_item);
        out.append("px;
                    background: @theme_bg_color;
                    transition: all 200ms ease;
                }
                listview > row:selected {
                    background-color: @theme_selected_bg_color;
                }
                listview > row:hover:not(:selected) {
                    background-color: mix(@theme_bg_color, @theme_fg_color, 0.95);
                }
                entry {
                    margin: ");
        push_dec_i32(&mut out, self.theme.spacing.search_margin);
        out.append("px;
                    padding: ");
        push_dec_i32(&mut out, self.theme.spacing.search_padding);
        out.append("px;
                    border-radius: ");
        push_dec_i32(&mut out, self.theme.corners.search);
        out.append("px;
                    background-color: @theme_base_color;
                    color: @theme_text_color;
                    caret-color: @theme_text_color;
                    font-size: ");
        push_dec_i32(&mut out, self.theme.typography.search_font_size);
        out.append("px;
                    box-shadow: 0 2px 4px rgba(0, 0, 0, 0.2);
                }
                entry:focus {
                    background-color: @theme_base_color;
                }
                .app-name {
                    color: @theme_text_color;
                    font-size: ");
        push_dec_i32(&mut out, self.theme.typography.item_name_size);
        out.append("px;
                    font-weight: bold;
                    margin-right: 8px;
                }
                .app-description {
                    color: mix(@theme_fg_color, @theme_bg_color, 0.7);
                    font-size: ");
        push_dec_i32(&mut out, self.theme.typography.item_description_size);
        out.append("px;
                    margin-right: 8px;
                }
                .app-path {
                    color: mix(@theme_fg_color, @theme_bg_color, 0.5);
                    font-size: ");
        push_dec_i32(&mut out, self.theme.typography.item_path_size);
        out.append("px;
                    font-family: ");
        out.append(self.theme.typography.item_path_font_family.as_str());
        out.append(";
                    opacity: 0.8;
                }
                scrollbar { opacity: 0; }");
        proof {
            assert(out@ =~= css_gtk_spec(self));
        }
        out
    }

    fn css_plain(&self, border: &String) -> (r: String)
        requires
            border@ == border_style_spec(self),
        ensures
            r@ == css_plain_spec(self),
    {
        let mut out = String::from_str("window {
                    background-color: ");
        out.append(self.theme.colors.window_bg.as_str());
        out.append(";
                    border-radius: ");
        push_dec_i32(&mut out, self.theme.corners.window);
        out.append("px;
                    ");
        out.append(border.as_str());
        out.append("
                }
                listview {
                    background: ");
        out.append(self.theme.colors.window_bg.as_str());
        out.append(";
                }
                listview > row {
                    padding: ");
        push_dec_i32(&mut out, self.theme.spacing.item_padding);
        out.append("px;
                    margin: ");
        push_dec_i32(&mut out, self.theme.spacing.item_margin);
        out.append("px;
                    border-radius: ");
        push_dec_i32(&mut out, self.theme.corners.list_item);
        out.append("px;
                    background: ");
        out.append(self.theme.colors.item_bg.as_str());
        out.append(";
                    transition: all 200ms ease;
                }
                listview > row:selected {
                    background-color: ");
        out.append(self.theme.colors.item_bg_selected.as_str());
        out.append(";
                }
                listview > row:hover:not(:selected) {
                    background-color: ");
        out.append(self.theme.colors.item_bg_hover.as_str());
        out.append(";
                }
                entry {
                    margin: ");
        push_dec_i32(&mut out, self.theme.spacing.search_margin);
        out.append("px;
                    padding: ");
        push_dec_i32(&mut out, self.theme.spacing.search_padding);
        out.append("px;
                    border-radius: ");
        push_dec_i32(&mut out, self.theme.corners.search);
        out.append("px;
                    background-color: ");
        out.append(self.theme.colors.search_bg.as_str());
        out.append(";
                    color: ");
        out.append(self.theme.colors.search_text.as_str());
        out.append(";
                    caret-color: ");
        out.append(self.theme.colors.search_caret.as_str());
        out.append(";
                    font-size: ");
        push_dec_i32(&mut out, self.theme.typography.search_font_size);
        out.append("px;
                    box-shadow: 0 2px 4px rgba(0, 0, 0, 0.2);
                }
                entry:focus {
                    background-color: ");
        out.append(self.theme.colors.search_bg_focused.as_str());
        out.append(";
                }
                .app-name {
                    color: ");
        out.append(self.theme.colors.item_name.as_str());
        out.append(";
                    font-size: ");
        push_dec_i32(&mut out, self.theme.typography.item_name_size);
        out.append("px;
                    font-weight: bold;
                    margin-right: 8px;
                }
                listview > row:selected .app-name,
                listview > row:hover:not(:selected) .app-name {
                    color: ");
        out.append(self.theme.colors.item_name_selected.as_str());
        out.append(";
                }
                .app-description {
                    color: ");
        out.append(self.theme.colors.item_description.as_str());
        out.append(";
                    font-size: ");
        push_dec_i32(&mut out, self.theme.typography.item_description_size);
        out.append("px;
                    margin-right: 8px;
                }
                listview > row:selected .app-description,
                listview > row:hover:not(:selected) .app-description {
                    color: ");
        out.append(self.theme.colors.item_description_selected.as_str());
        out.append(";
                }
                .app-path {
                    color: ");
        out.append(self.theme.colors.item_path.as_str());
        out.append(";
                    font-size: ");
        push_dec_i32(&mut out, self.theme.typography.item_path_size);
        out.append("px;
                    font-family: ");
        out.append(self.theme.typography.item_path_font_family.as_str());
        out.append(";
                    opacity: 0.8;
                }
                listview > row:selected .app-path,
                listview > row:hover:not(:selected) .app-path {
                    color: ");
        out.append(self.theme.colors.item_path_selected.as_str());
        out.append(";
                }
                scrollbar { opacity: 0; }");
        proof {
            assert(out@ =~= css_plain_spec(self));
        }
        out
    }

    /// The stylesheet this configuration asks for.
    pub fn get_css(&self) -> (r: String)
        ensures
            r@ == css_spec(self),
    {
        let border = self.border_style();
        if self.window.use_gtk_colors {
            self.css_gtk(&border)
        } else {
            self.css_plain(&border)
        }
    }
}

} // verus!
