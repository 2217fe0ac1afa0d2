//! Layout configuration.
//!
//! Lengths are in subunits of 1/64 pixel. The line-height scale is a fixed
//! point fraction with denominator `SCALE_ONE` (64), so a scale of 64 leaves
//! line heights unchanged.

use vstd::prelude::*;

verus! {

/// Fixed-point denominator of `line_height_scale`: 64 means a scale of 1.
pub const SCALE_ONE: u32 = 64;

/// Largest accepted `line_height_scale` (a scale of 1024).
pub const SCALE_LIMIT: u32 = 0x1_0000;

/// Largest accepted `tab_size_in_spaces`.
pub const TAB_LIMIT: usize = 1024;

/// Largest accepted `max_width` / `max_height`, in subunits.
pub const BOX_LIMIT: i64 = 0x4_0000_0000_0000;

/// Horizontal justification applied after each line is assembled.
#[derive(Default, Clone, Copy, Debug, PartialEq, Eq, Hash, Structural)]
pub enum HorizontalAlign {
    /// Align text to the left.
    #[default]
    Left,
    /// Center text horizontally.
    Center,
    /// Align text to the right.
    Right,
}

/// Vertical alignment strategy for the entire block of text.
#[derive(Default, Clone, Copy, Debug, PartialEq, Eq, Hash, Structural)]
pub enum VerticalAlign {
    /// Align text to the top.
    #[default]
    Top,
    /// Center text vertically.
    Middle,
    /// Align text to the bottom.
    Bottom,
}

/// Wrapping rules that define where line breaks may occur.
#[derive(Default, Clone, Copy, Debug, PartialEq, Eq, Hash, Structural)]
pub enum WrapStyle {
    /// Wrap text at word boundaries.
    #[default]
    WordWrap,
    /// Wrap text at any character.
    CharWrap,
    /// Do not wrap text.
    NoWrap,
}

/// Configuration knobs used by the text layout pipeline.
#[derive(Clone, Copy, Debug)]
pub struct TextLayoutConfig {
    /// Maximum width of the layout box, in subunits. If text exceeds this, it
    /// may wrap or overflow.
    pub max_width: Option<i64>,
    /// Maximum height of the layout box, in subunits.
    pub max_height: Option<i64>,
    /// Horizontal alignment of the text within the layout box.
    pub horizontal_align: HorizontalAlign,
    /// Vertical alignment of the text within the layout box.
    pub vertical_align: VerticalAlign,
    /// Scaling factor for the line height, in units of `SCALE_ONE`.
    pub line_height_scale: u32,
    /// Strategy for wrapping text.
    pub wrap_style: WrapStyle,
    /// Number of spaces to treat a tab character as.
    pub tab_size_in_spaces: usize,
}

impl TextLayoutConfig {
    /// Bounds that keep every layout computation inside `i64`.
    pub open spec fn wf(self) -> bool {
        &&& (self.max_width matches Some(w) ==> 0 <= w <= BOX_LIMIT)
        &&& (self.max_height matches Some(h) ==> 0 <= h <= BOX_LIMIT)
        &&& self.line_height_scale <= SCALE_LIMIT
        &&& self.tab_size_in_spaces <= TAB_LIMIT
    }

    /// Reports whether the configuration is within the accepted bounds.
    pub fn is_wf(&self) -> (r: bool)
        ensures
            r == self.wf(),
    {
        let w_ok = match self.max_width {
            Some(w) => 0 <= w && w <= BOX_LIMIT,
            None => true,
        };
        let h_ok = match self.max_height {
            Some(h) => 0 <= h && h <= BOX_LIMIT,
            None => true,
        };
        w_ok && h_ok && self.line_height_scale <= SCALE_LIMIT && self.tab_size_in_spaces
            <= TAB_LIMIT
    }
}

impl Default for TextLayoutConfig {
    /// Unconstrained box, left/top alignment, word wrapping, unit line-height
    /// scale, four spaces per tab.
    fn default() -> (r: Self)
        ensures
            r.max_width is None,
            r.max_height is None,
            r.horizontal_align == HorizontalAlign::Left,
            r.vertical_align == VerticalAlign::Top,
            r.line_height_scale == SCALE_ONE,
            r.wrap_style == WrapStyle::WordWrap,
            r.tab_size_in_spaces == 4,
            r.wf(),
    {
        TextLayoutConfig {
            max_width: None,
            max_height: None,
            horizontal_align: HorizontalAlign::Left,
            vertical_align: VerticalAlign::Top,
            line_height_scale: SCALE_ONE,
            wrap_style: WrapStyle::WordWrap,
            tab_size_in_spaces: 4,
        }
    }
}

} // verus!
