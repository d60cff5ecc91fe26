use vstd::prelude::*;

verus! {

/// What a rasterised glyph is cached under: the character, the pixel size
/// and the weight.
#[derive(Clone, Copy, Debug, PartialEq, Eq, Hash, Structural)]
pub struct GlyphKey {
    pub c: char,
    pub px: u32,
    pub bold: bool,
}

} // verus!
