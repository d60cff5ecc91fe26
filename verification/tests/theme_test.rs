use mmterm::color::Color;
use mmterm::theme::{default_theme, Theme};

#[test]
fn default_theme_has_default_background() {
    let theme = default_theme();
    // default background is #121212
    assert_eq!(theme.background.r, 0x12);
    assert_eq!(theme.background.g, 0x12);
    assert_eq!(theme.background.b, 0x12);
}

#[test]
fn palette_has_16_entries() {
    let theme = default_theme();
    assert_eq!(theme.palette.len(), 16);
}

#[test]
fn default_theme_ui_colors_come_from_palette() {
    let theme = default_theme();
    assert_eq!(theme.foreground, Color::rgb(0xa0, 0xa0, 0xa0));
    assert_eq!(theme.search_match, Color::rgb(0xfd, 0x97, 0x1f));
    assert_eq!(theme.scrollbar, Color::rgb(0x50, 0x53, 0x54));
}

#[test]
fn theme_parts_without_ui_fields_use_palette_defaults() {
    let mut palette = [Color::rgb(0, 0, 0); 16];
    palette[3] = Color::rgb(0xff, 0xff, 0x00);
    palette[8] = Color::rgb(0x88, 0x88, 0x88);
    let t = Theme::from_parts(
        Color::rgb(0xff, 0xff, 0xff),
        Color::rgb(0, 0, 0),
        Color::rgb(1, 1, 1),
        Color::rgb(2, 2, 2),
        palette,
        None,
        None,
    );
    assert_eq!(t.search_match, Color::rgb(0xff, 0xff, 0x00));
    assert_eq!(t.scrollbar.r, 0x88);
    let t2 = Theme::from_parts(
        Color::rgb(0xff, 0xff, 0xff),
        Color::rgb(0, 0, 0),
        Color::rgb(1, 1, 1),
        Color::rgb(2, 2, 2),
        palette,
        Some(Color::rgb(9, 9, 9)),
        Some(Color::rgb(7, 7, 7)),
    );
    assert_eq!(t2.search_match, Color::rgb(9, 9, 9));
    assert_eq!(t2.scrollbar, Color::rgb(7, 7, 7));
}
