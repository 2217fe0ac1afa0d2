//! Glyph identity and per-glyph metrics.
//!
//! A `GlyphId` names one glyph of one font at one quantised size; the size is
//! stored in subunits of 1/64 pixel so that nearly identical fractional sizes
//! alias into one cache slot. `GlyphMetrics` carries the horizontal raster
//! metrics of a glyph, all in the same subunits.

use vstd::prelude::*;

verus! {

/// One subunit is 1/64 of a pixel; all geometry in this crate is measured in
/// subunits.
pub const SUBUNITS_PER_PIXEL: i64 = 64;

/// Largest magnitude accepted for any single font metric (an advance, a
/// kerning value, an ascent, a bitmap extent), in subunits. Bounding the
/// metrics lets every layout computation stay inside `i64`.
pub const METRIC_LIMIT: i64 = 0x40_0000;

/// Compact identity of a rasterisable glyph: font handle, glyph index within
/// the font, and font size quantised to subunits.
#[derive(Clone, Copy, PartialEq, Eq, Hash, Structural, Debug)]
pub struct GlyphId {
    /// Handle of the font within the font store.
    pub font_id: u32,
    /// Index of the glyph inside the font.
    pub glyph_index: u16,
    /// Font size in subunits (1/64 pixel).
    pub size: u32,
}

impl GlyphId {
    /// Builds a glyph identity from its three components.
    pub fn new(font_id: u32, glyph_index: u16, size: u32) -> (r: GlyphId)
        ensures
            r.font_id == font_id,
            r.glyph_index == glyph_index,
            r.size == size,
    {
        GlyphId { font_id, glyph_index, size }
    }
}

/// Horizontal raster metrics of one glyph at one size, in subunits.
///
/// `xmin`/`ymin` give the offset of the bitmap's lower-left corner from the
/// pen origin (y grows upward in font space); `width`/`height` are the bitmap
/// extents; `advance` is the pen movement to the next origin.
#[derive(Clone, Copy, PartialEq, Eq, Hash, Structural, Debug)]
pub struct GlyphMetrics {
    pub width: i64,
    pub height: i64,
    pub xmin: i64,
    pub ymin: i64,
    pub advance: i64,
}

impl GlyphMetrics {
    /// Metric values a well-formed font store accepts: extents are
    /// non-negative, the advance is non-negative, and every field is bounded
    /// by `METRIC_LIMIT`.
    pub open spec fn wf(self) -> bool {
        &&& 0 <= self.width <= METRIC_LIMIT
        &&& 0 <= self.height <= METRIC_LIMIT
        &&& -METRIC_LIMIT <= self.xmin <= METRIC_LIMIT
        &&& -METRIC_LIMIT <= self.ymin <= METRIC_LIMIT
        &&& 0 <= self.advance <= METRIC_LIMIT
    }
}

} // verus!
