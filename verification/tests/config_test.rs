use mmterm::color::Color;
use mmterm::config::{default_blink_ms, parse_hex, ColorsConfig, ShellConfig, WindowConfig};
use mmterm::config_text::config_text;

#[test]
fn parse_hex_reads_rrggbb() {
    assert_eq!(parse_hex("#a0b1c2"), Color::rgb(0xa0, 0xb1, 0xc2));
    assert_eq!(parse_hex("121212"), Color::rgb(0x12, 0x12, 0x12));
    assert_eq!(parse_hex("#ABCDEF"), Color::rgb(0xab, 0xcd, 0xef));
}

#[test]
fn parse_hex_ignores_every_leading_hash() {
    assert_eq!(parse_hex("###ff0000"), Color::rgb(0xff, 0, 0));
}

#[test]
fn parse_hex_short_values_fill_low_channels() {
    assert_eq!(parse_hex("#fff"), Color::rgb(0, 0x0f, 0xff));
    assert_eq!(parse_hex("+ff"), Color::rgb(0, 0, 0xff));
}

#[test]
fn parse_hex_invalid_is_black() {
    assert_eq!(parse_hex(""), Color::rgb(0, 0, 0));
    assert_eq!(parse_hex("#"), Color::rgb(0, 0, 0));
    assert_eq!(parse_hex("#zz0000"), Color::rgb(0, 0, 0));
    assert_eq!(parse_hex("+"), Color::rgb(0, 0, 0));
    assert_eq!(parse_hex("-12"), Color::rgb(0, 0, 0));
    assert_eq!(parse_hex("#1ffffffff"), Color::rgb(0, 0, 0));
}

#[test]
fn parse_hex_takes_low_three_bytes() {
    assert_eq!(parse_hex("#ff102030"), Color::rgb(0x10, 0x20, 0x30));
}

#[test]
fn colors_config_accessors_parse_fields() {
    let c = ColorsConfig::default();
    assert_eq!(c.bg(), Color::rgb(0x12, 0x12, 0x12));
    assert_eq!(c.fg(), Color::rgb(0xa0, 0xa0, 0xa0));
    assert_eq!(c.cursor(), Color::rgb(0xbb, 0xbb, 0xbb));
    assert_eq!(c.selection(), Color::rgb(0x3d, 0x3d, 0x3d));
}

#[test]
fn palette_colors_parses_default_palette() {
    let c = ColorsConfig::default();
    let p = c.palette_colors();
    assert_eq!(p[0], Color::rgb(0x1b, 0x1d, 0x1e));
    assert_eq!(p[1], Color::rgb(0xf9, 0x26, 0x72));
    assert_eq!(p[15], Color::rgb(0xf8, 0xf8, 0xf2));
}

#[test]
fn palette_colors_short_palette_pads_black() {
    let mut c = ColorsConfig::default();
    c.palette = vec!["#010203".to_string(), "nope".to_string(), "bad".to_string()];
    let p = c.palette_colors();
    assert_eq!(p[0], Color::rgb(1, 2, 3));
    assert_eq!(p[1], Color::rgb(0, 0, 0));
    assert_eq!(p[2], Color::rgb(0, 0x0b, 0xad));
    for i in 3..16 {
        assert_eq!(p[i], Color::rgb(0, 0, 0));
    }
}

#[test]
fn palette_colors_ignores_entries_past_sixteen() {
    let mut c = ColorsConfig::default();
    c.palette = (0..20).map(|_| "#ffffff".to_string()).collect();
    c.palette[16] = "#000000".to_string();
    let p = c.palette_colors();
    assert!(p.iter().all(|&x| x == Color::rgb(255, 255, 255)));
}

#[test]
fn window_and_shell_defaults() {
    let w = WindowConfig::default();
    assert_eq!((w.width, w.height), (800, 600));
    assert_eq!(w.title, "mmterm");
    assert_eq!(w.cursor_blink_ms, 500);
    assert_eq!(default_blink_ms(), 500);
    assert!(ShellConfig::default().program.is_none());
}

#[test]
fn colors_default_palette_has_sixteen_strings() {
    let c = ColorsConfig::default();
    assert_eq!(c.palette.len(), 16);
    assert_eq!(c.background, "#121212");
}

#[test]
fn config_text_writes_every_setting() {
    let window = WindowConfig { width: 800, height: 600, title: "mm \"term\"".to_string(), cursor_blink_ms: 0 };
    let shell = ShellConfig { program: None };
    let colors = ColorsConfig {
        background: "#000000".to_string(),
        foreground: "#ffffff".to_string(),
        cursor: "#cccccc".to_string(),
        selection: "#333333".to_string(),
        palette: vec!["#010203".to_string(), "#0a0b0c".to_string()],
    };
    let text = config_text("Menlo", "14.5", &window, &shell, &colors);
    assert_eq!(
        text,
        "# mmterm configuration\n\n[font]\nfamily = \"Menlo\"\nsize = 14.5\n\n[window]\nwidth           = 800\nheight          = 600\ntitle           = \"mm \\\"term\\\"\"\ncursor_blink_ms = 0\n\n[shell]\n# program = \"/bin/zsh\"\n\n[colors]\nbackground = \"#000000\"\nforeground = \"#ffffff\"\ncursor     = \"#cccccc\"\nselection  = \"#333333\"\npalette = [\n  \"#010203\",\n  \"#0a0b0c\"\n]\n"
    );
}

#[test]
fn config_text_names_the_shell_program() {
    let shell = ShellConfig { program: Some("/bin/fish".to_string()) };
    let mut colors = ColorsConfig::default();
    colors.palette = Vec::new();
    let text = config_text("Fira Code", "12", &WindowConfig::default(), &shell, &colors);
    assert!(text.contains("\n[shell]\nprogram = \"/bin/fish\"\n"));
    assert!(text.contains("\npalette = [\n\n]\n"));
}
