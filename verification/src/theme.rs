use vstd::prelude::*;

use crate::color::Color;
use crate::config::{default_palette_text, palette_entry, spec_parse_hex, ColorsConfig};

verus! {

/// The colours the renderer draws with.
#[derive(Clone, Copy, Debug)]
pub struct Theme {
    pub foreground: Color,
    pub background: Color,
    pub cursor: Color,
    pub selection: Color,
    pub palette: [Color; 16],
    /// Highlight of search matches.
    pub search_match: Color,
    pub scrollbar: Color,
}

impl Theme {
    /// A theme from its colours; a theme that names no search-match colour
    /// uses palette entry 3 (yellow), one that names no scrollbar colour
    /// palette entry 8 (bright black).
    pub fn from_parts(
        foreground: Color,
        background: Color,
        cursor: Color,
        selection: Color,
        palette: [Color; 16],
        search_match: Option<Color>,
        scrollbar: Option<Color>,
    ) -> (t: Theme)
        ensures
            t.foreground == foreground,
            t.background == background,
            t.cursor == cursor,
            t.selection == selection,
            t.palette == palette,
            t.search_match == (match search_match {
                Some(c) => c,
                None => palette@[3],
            }),
            t.scrollbar == (match scrollbar {
                Some(c) => c,
                None => palette@[8],
            }),
    {
        let search_match = match search_match {
            Some(c) => c,
            None => palette[3],
        };
        let scrollbar = match scrollbar {
            Some(c) => c,
            None => palette[8],
        };
        Theme { foreground, background, cursor, selection, palette, search_match, scrollbar }
    }

    /// The theme that the `[colors]` section of the configuration describes.
    pub fn from_config(colors: &ColorsConfig) -> (t: Theme)
        ensures
            t.foreground == spec_parse_hex(colors.foreground@),
            t.background == spec_parse_hex(colors.background@),
            t.cursor == spec_parse_hex(colors.cursor@),
            t.selection == spec_parse_hex(colors.selection@),
            forall|i: int| 0 <= i < 16 ==> #[trigger] t.palette@[i] == palette_entry(colors.palette@, i),
            t.search_match == palette_entry(colors.palette@, 3),
            t.scrollbar == palette_entry(colors.palette@, 8),
    {
        let palette = colors.palette_colors();
        Theme::from_parts(
            colors.fg(),
            colors.bg(),
            colors.cursor(),
            colors.selection(),
            palette,
            None,
            None,
        )
    }
}

/// The built-in theme: the default configuration's colours.
pub fn default_theme() -> (t: Theme)
    ensures
        t.foreground == spec_parse_hex("#a0a0a0"@),
        t.background == spec_parse_hex("#121212"@),
        t.cursor == spec_parse_hex("#bbbbbb"@),
        t.selection == spec_parse_hex("#3d3d3d"@),
        forall|i: int| 0 <= i < 16 ==> #[trigger] t.palette@[i] == spec_parse_hex(default_palette_text()[i]),
        t.search_match == t.palette@[3],
        t.scrollbar == t.palette@[8],
{
    let colors = ColorsConfig::default();
    Theme::from_config(&colors)
}

} // verus!
