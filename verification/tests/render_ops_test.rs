use mmterm::glyph::GlyphKey;
use mmterm::render_ops::{cursor_blink_step, draw_overlays, ModeKind, Overlay};
use mmterm::session::SavedSplitDir;

#[test]
fn no_overlays_in_plain_mode() {
    assert!(draw_overlays(false, ModeKind::Plain, false).is_empty());
}

#[test]
fn overlays_stack_in_order() {
    assert_eq!(
        draw_overlays(true, ModeKind::CommandPalette, true),
        vec![Overlay::ConfigPanel, Overlay::CommandPalette, Overlay::QuitConfirm]
    );
    assert_eq!(
        draw_overlays(false, ModeKind::QuitSave, true),
        vec![Overlay::QuitConfirm, Overlay::SaveSessionConfirm]
    );
    assert_eq!(
        draw_overlays(false, ModeKind::Screenshot, false),
        vec![Overlay::ScreenshotSelector]
    );
    assert_eq!(
        draw_overlays(true, ModeKind::ScreenshotName, false),
        vec![Overlay::ConfigPanel, Overlay::ScreenshotNameInput]
    );
}

#[test]
fn cursor_blinks_after_interval() {
    assert_eq!(cursor_blink_step(499, 500, true), (false, true));
    assert_eq!(cursor_blink_step(500, 500, true), (true, false));
    assert_eq!(cursor_blink_step(900, 500, false), (true, true));
}

#[test]
fn plain_value_types_compare() {
    let k = GlyphKey { c: 'a', px: 16, bold: false };
    assert_eq!(k, GlyphKey { c: 'a', px: 16, bold: false });
    assert_ne!(k, GlyphKey { c: 'a', px: 16, bold: true });
    assert_ne!(SavedSplitDir::H, SavedSplitDir::V);
}
