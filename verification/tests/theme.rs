use muthr::theme::{
    darkness_label, filter_line, filter_themes, format_hex, list_entry, listing_line, palette_label,
    parse_color, parse_theme_colors, preview_colors, sort_themes_by_name, theme_name, theme_setting, Color, PickerKey,
    PickerMove, PickerState, Theme, ThemeFilter,
};

fn s(v: &str) -> String {
    v.to_string()
}

fn theme(name: &str, is_dark: bool) -> Theme {
    Theme {
        name: s(name),
        path: format!("/themes/{}", name),
        palette: vec![Color::Black; 16],
        background: Color::Black,
        foreground: Color::White,
        is_dark,
    }
}

#[test]
fn colors_parse_and_format() {
    assert_eq!(parse_color("#1d1f21"), Some(Color::Rgb(0x1d, 0x1f, 0x21)));
    assert_eq!(parse_color("##FFaa00"), Some(Color::Rgb(255, 170, 0)));
    assert_eq!(parse_color("1d1f2"), None);
    assert_eq!(parse_color("#zz0000"), None);
    assert_eq!(format_hex(Color::Rgb(1, 171, 255)), "#01abff");
    assert_eq!(format_hex(Color::Cyan), "#00ffff");
    assert_eq!(format_hex(Color::Other), "unknown");
}

#[test]
fn color_round_trip() {
    for c in [Color::Rgb(0, 0, 0), Color::Rgb(255, 255, 255), Color::Rgb(18, 52, 86)] {
        assert_eq!(parse_color(&format_hex(c)), Some(c));
    }
}

#[test]
fn theme_file_colors() {
    let content = "# Dracula\npalette = 1=#ff5555\npalette = 20=#000000\nbackground = #282a36\nforeground=#f8f8f2\ncursor-color = #fff\n";
    let colors = parse_theme_colors(content).unwrap();
    assert_eq!(colors.palette.len(), 16);
    assert_eq!(colors.palette[1], Color::Rgb(0xff, 0x55, 0x55));
    assert_eq!(colors.palette[0], Color::Black);
    assert_eq!(colors.background, Color::Rgb(0x28, 0x2a, 0x36));
    assert_eq!(colors.foreground, Color::Rgb(0xf8, 0xf8, 0xf2));
    assert!(parse_theme_colors("background = #12345\n").is_none());
    let defaults = parse_theme_colors("").unwrap();
    assert_eq!(defaults.foreground, Color::White);
    assert_eq!(theme_name("/t/Dracula+"), Some(s("Dracula+")));
}

#[test]
fn filter_cycle() {
    assert_eq!(ThemeFilter::All.next(), ThemeFilter::Dark);
    assert_eq!(ThemeFilter::All.next().next().next(), ThemeFilter::All);
    assert_eq!(ThemeFilter::Light.label(), "light");
}

#[test]
fn filtering_with_lowercase_search() {
    let themes = vec![theme("Dracula", true), theme("Solarized Light", false), theme("DRACULA Pro", true)];
    assert_eq!(filter_themes(&themes, ThemeFilter::All, ""), vec![0, 1, 2]);
    assert_eq!(filter_themes(&themes, ThemeFilter::Dark, ""), vec![0, 2]);
    assert_eq!(filter_themes(&themes, ThemeFilter::Light, ""), vec![1]);
    assert_eq!(filter_themes(&themes, ThemeFilter::All, "dRaCuLa"), vec![0, 2]);
    assert_eq!(filter_themes(&themes, ThemeFilter::Light, "dracula"), Vec::<usize>::new());
    let unicode = vec![theme("ÉCLAIR", true)];
    assert_eq!(filter_themes(&unicode, ThemeFilter::All, "éclair"), vec![0]);
}

#[test]
fn themes_sorted_by_lowercase_name() {
    let sorted = sort_themes_by_name(vec![theme("b", true), theme("A", true), theme("a", false), theme("C", true)]);
    let names: Vec<(String, bool)> = sorted.into_iter().map(|t| (t.name, t.is_dark)).collect();
    assert_eq!(names, vec![(s("A"), true), (s("a"), false), (s("b"), true), (s("C"), true)]);
}

#[test]
fn picker_keys() {
    let mut p = PickerState::new();
    assert_eq!(p.step(PickerKey::Char('j')), PickerMove::Next);
    assert_eq!(p.step(PickerKey::Char('G')), PickerMove::Last);
    assert_eq!(p.step(PickerKey::Char('f')), PickerMove::Stay);
    assert_eq!(p.filter, ThemeFilter::Dark);
    assert_eq!(p.step(PickerKey::Char('/')), PickerMove::Stay);
    assert!(p.search_active);
    p.step(PickerKey::Char('q'));
    p.step(PickerKey::Char('x'));
    p.step(PickerKey::Backspace);
    assert_eq!(p.search, vec!['q']);
    assert_eq!(p.step(PickerKey::Enter), PickerMove::Stay);
    assert!(!p.search_active);
    assert_eq!(filter_line(p.filter, &p.search), "[Filter: dark] searching: \"q\" (Press 'c' to clear)");
    p.step(PickerKey::Char('/'));
    p.step(PickerKey::Char('c'));
    assert!(p.search.is_empty());
    p.step(PickerKey::Esc);
    assert_eq!(filter_line(p.filter, &p.search), "[Filter: dark] (Press '/' to search)");
    assert_eq!(p.step(PickerKey::Enter), PickerMove::Confirm);
    assert_eq!(p.step(PickerKey::Char('q')), PickerMove::Cancel);
    assert_eq!(p.step(PickerKey::Home), PickerMove::First);
}

#[test]
fn preview_and_listing() {
    let mut palette = vec![Color::Black; 16];
    palette[1] = Color::Red;
    palette[12] = Color::Blue;
    palette[8] = Color::Rgb(1, 2, 3);
    let p = preview_colors(&palette, Color::White);
    assert_eq!(p.keyword, Color::Red);
    assert_eq!(p.function, Color::Blue);
    assert_eq!(p.comment, Color::Rgb(1, 2, 3));
    assert_eq!(p.text, Color::White);
    assert_eq!(list_entry("Nord", true), "❯ Nord");
    assert_eq!(list_entry("Nord", false), "  Nord");
    assert_eq!(darkness_label(true), "Dark Theme");
    assert_eq!(palette_label(7), " 07 ");
    assert_eq!(palette_label(15), " 15 ");
    assert_eq!(listing_line("Nord", true, "/t/Nord"), format!("  {:<30} [dark] /t/Nord", "Nord"));
    assert_eq!(theme_setting("Nord"), "theme = Nord\n");
}
