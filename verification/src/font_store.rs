//! Integer font metric tables.
//!
//! The layout engine never touches a font file: the environment (a font
//! parser, a system font database) supplies, ahead of a layout call, the
//! metrics of every glyph the text may use, converted to subunits of 1/64
//! pixel. A `FontStore` holds one `SizedFont` table per (font handle,
//! quantised size) pair: the vertical line metrics, the per-character glyph
//! entries, and the kerning pairs.

use vstd::prelude::*;

use crate::glyph::{GlyphMetrics, METRIC_LIMIT};

verus! {

/// Vertical metrics of a font at one size, in subunits. The descent is
/// non-positive, as fonts supply it.
#[derive(Clone, Copy, PartialEq, Eq, Structural, Debug)]
pub struct LineMetrics {
    pub ascent: i64,
    pub descent: i64,
    pub line_gap: i64,
}

impl LineMetrics {
    /// Bounds a well-formed store accepts: ascent and line gap are
    /// non-negative, descent non-positive, all within `METRIC_LIMIT`.
    pub open spec fn wf(self) -> bool {
        &&& 0 <= self.ascent <= METRIC_LIMIT
        &&& -METRIC_LIMIT <= self.descent <= 0
        &&& 0 <= self.line_gap <= METRIC_LIMIT
    }
}

/// One character of a sized font: the character, the glyph index it maps to,
/// and the glyph's raster metrics.
#[derive(Clone, Copy, PartialEq, Eq, Structural, Debug)]
pub struct GlyphEntry {
    pub ch: char,
    pub glyph_index: u16,
    pub metrics: GlyphMetrics,
}

/// A horizontal kerning pair: the adjustment applied between the glyph
/// `left` and the glyph `right`, in subunits.
#[derive(Clone, Copy, PartialEq, Eq, Structural, Debug)]
pub struct KernEntry {
    pub left: u16,
    pub right: u16,
    pub kern: i64,
}

/// The metric tables of one font at one quantised size.
///
/// `line_metrics` is `None` for a font that lacks horizontal line metrics
/// (a vertical-only font); the layout engine skips such runs.
#[derive(Clone, Debug)]
pub struct SizedFont {
    pub font_id: u32,
    pub size: u32,
    pub line_metrics: Option<LineMetrics>,
    pub glyphs: Vec<GlyphEntry>,
    pub kerning: Vec<KernEntry>,
}

/// First glyph entry for `ch`, in table order.
pub open spec fn find_glyph(glyphs: Seq<GlyphEntry>, ch: char) -> Option<GlyphEntry>
    decreases glyphs.len(),
{
    if glyphs.len() == 0 {
        None
    } else if glyphs[0].ch == ch {
        Some(glyphs[0])
    } else {
        find_glyph(glyphs.drop_first(), ch)
    }
}

/// First kerning entry for the pair `(left, right)`, in table order.
pub open spec fn find_kern(kerning: Seq<KernEntry>, left: u16, right: u16) -> Option<i64>
    decreases kerning.len(),
{
    if kerning.len() == 0 {
        None
    } else if kerning[0].left == left && kerning[0].right == right {
        Some(kerning[0].kern)
    } else {
        find_kern(kerning.drop_first(), left, right)
    }
}

impl SizedFont {
    /// Every metric stored in the table is within the accepted bounds.
    pub open spec fn wf(self) -> bool {
        &&& (self.line_metrics matches Some(lm) ==> lm.wf())
        &&& forall|i: int| 0 <= i < self.glyphs@.len() ==> (#[trigger] self.glyphs@[i]).metrics.wf()
        &&& forall|i: int|
            0 <= i < self.kerning@.len() ==> -METRIC_LIMIT <= (#[trigger] self.kerning@[i]).kern
                <= METRIC_LIMIT
    }

    /// The glyph entry this font uses for `ch`, if the table has one.
    pub open spec fn spec_glyph(self, ch: char) -> Option<GlyphEntry> {
        find_glyph(self.glyphs@, ch)
    }

    /// The kerning between two glyph indices; zero when the table has no
    /// entry for the pair.
    pub open spec fn spec_kern(self, left: u16, right: u16) -> int {
        match find_kern(self.kerning@, left, right) {
            Some(k) => k as int,
            None => 0,
        }
    }

    /// Starts an empty table for one (font, size) pair.
    pub fn new(font_id: u32, size: u32) -> (r: SizedFont)
        ensures
            r.font_id == font_id,
            r.size == size,
            r.line_metrics is None,
            r.glyphs@ =~= Seq::<GlyphEntry>::empty(),
            r.kerning@ =~= Seq::<KernEntry>::empty(),
            r.wf(),
    {
        SizedFont { font_id, size, line_metrics: None, glyphs: Vec::new(), kerning: Vec::new() }
    }

    /// Sets the vertical line metrics. Returns false, leaving the table
    /// unchanged, when a value is out of bounds.
    pub fn set_line_metrics(&mut self, lm: LineMetrics) -> (r: bool)
        requires
            old(self).wf(),
        ensures
            final(self).wf(),
            r == lm.wf(),
            r ==> *final(self) == (SizedFont { line_metrics: Some(lm), ..*old(self) }),
            !r ==> *final(self) == *old(self),
    {
        if 0 <= lm.ascent && lm.ascent <= METRIC_LIMIT && -METRIC_LIMIT <= lm.descent
            && lm.descent <= 0 && 0 <= lm.line_gap && lm.line_gap <= METRIC_LIMIT {
            self.line_metrics = Some(lm);
            true
        } else {
            false
        }
    }

    /// Appends a glyph entry. Returns false, leaving the table unchanged,
    /// when a metric is out of bounds.
    pub fn push_glyph(&mut self, ch: char, glyph_index: u16, metrics: GlyphMetrics) -> (r: bool)
        requires
            old(self).wf(),
        ensures
            final(self).wf(),
            r == metrics.wf(),
            r ==> final(self).glyphs@ == old(self).glyphs@.push(
                GlyphEntry { ch, glyph_index, metrics },
            ) && *final(self) == (SizedFont { glyphs: final(self).glyphs, ..*old(self) }),
            !r ==> *final(self) == *old(self),
    {
        if 0 <= metrics.width && metrics.width <= METRIC_LIMIT && 0 <= metrics.height
            && metrics.height <= METRIC_LIMIT && -METRIC_LIMIT <= metrics.xmin
            && metrics.xmin <= METRIC_LIMIT && -METRIC_LIMIT <= metrics.ymin
            && metrics.ymin <= METRIC_LIMIT && 0 <= metrics.advance
            && metrics.advance <= METRIC_LIMIT {
            self.glyphs.push(GlyphEntry { ch, glyph_index, metrics });
            true
        } else {
            false
        }
    }

    /// Appends a kerning pair. Returns false, leaving the table unchanged,
    /// when the value is out of bounds.
    pub fn push_kern(&mut self, left: u16, right: u16, kern: i64) -> (r: bool)
        requires
            old(self).wf(),
        ensures
            final(self).wf(),
            r == (-METRIC_LIMIT <= kern <= METRIC_LIMIT),
            r ==> final(self).kerning@ == old(self).kerning@.push(KernEntry { left, right, kern })
                && *final(self) == (SizedFont { kerning: final(self).kerning, ..*old(self) }),
            !r ==> *final(self) == *old(self),
    {
        if -METRIC_LIMIT <= kern && kern <= METRIC_LIMIT {
            self.kerning.push(KernEntry { left, right, kern });
            true
        } else {
            false
        }
    }

    /// Looks up the glyph entry for a character, first match in table order.
    pub fn glyph(&self, ch: char) -> (r: Option<GlyphEntry>)
        ensures
            r == self.spec_glyph(ch),
    {
        let n = self.glyphs.len();
        proof {
            assert(self.glyphs@.skip(0) =~= self.glyphs@);
        }
        for i in 0..n
            invariant
                n == self.glyphs@.len(),
                find_glyph(self.glyphs@.skip(i as int), ch) == find_glyph(self.glyphs@, ch),
        {
            proof {
                assert(self.glyphs@.skip(i as int).drop_first() =~= self.glyphs@.skip(
                    i as int + 1,
                ));
            }
            if self.glyphs[i].ch == ch {
                return Some(self.glyphs[i]);
            }
        }
        None
    }

    /// Looks up the kerning between two glyph indices; zero without an entry.
    pub fn kern(&self, left: u16, right: u16) -> (r: i64)
        ensures
            r as int == self.spec_kern(left, right),
            self.wf() ==> -METRIC_LIMIT <= r <= METRIC_LIMIT,
    {
        let n = self.kerning.len();
        proof {
            assert(self.kerning@.skip(0) =~= self.kerning@);
        }
        for i in 0..n
            invariant
                n == self.kerning@.len(),
                find_kern(self.kerning@.skip(i as int), left, right) == find_kern(
                    self.kerning@,
                    left,
                    right,
                ),
        {
            proof {
                assert(self.kerning@.skip(i as int).drop_first() =~= self.kerning@.skip(
                    i as int + 1,
                ));
            }
            let e = self.kerning[i];
            if e.left == left && e.right == right {
                return e.kern;
            }
        }
        0
    }
}

/// First sized-font table for `(font_id, size)`, in store order.
pub open spec fn find_sized_font(fonts: Seq<SizedFont>, font_id: u32, size: u32) -> Option<
    SizedFont,
>
    decreases fonts.len(),
{
    if fonts.len() == 0 {
        None
    } else if fonts[0].font_id == font_id && fonts[0].size == size {
        Some(fonts[0])
    } else {
        find_sized_font(fonts.drop_first(), font_id, size)
    }
}

/// A glyph entry found in a well-formed table has well-formed metrics.
pub proof fn lemma_find_glyph_wf(glyphs: Seq<GlyphEntry>, ch: char)
    requires
        forall|i: int| 0 <= i < glyphs.len() ==> (#[trigger] glyphs[i]).metrics.wf(),
    ensures
        match find_glyph(glyphs, ch) {
            Some(ge) => ge.metrics.wf(),
            None => true,
        },
    decreases glyphs.len(),
{
    if glyphs.len() == 0 {
    } else if glyphs[0].ch == ch {
    } else {
        assert forall|i: int| 0 <= i < glyphs.drop_first().len() implies (#[trigger] glyphs.drop_first()[i]).metrics.wf() by {
            assert(glyphs.drop_first()[i] == glyphs[i + 1]);
        }
        lemma_find_glyph_wf(glyphs.drop_first(), ch);
    }
}

/// A kerning value found in a bounded table is bounded.
pub proof fn lemma_find_kern_bounded(kerning: Seq<KernEntry>, left: u16, right: u16)
    requires
        forall|i: int|
            0 <= i < kerning.len() ==> -METRIC_LIMIT <= (#[trigger] kerning[i]).kern
                <= METRIC_LIMIT,
    ensures
        match find_kern(kerning, left, right) {
            Some(k) => -METRIC_LIMIT <= k <= METRIC_LIMIT,
            None => true,
        },
    decreases kerning.len(),
{
    if kerning.len() == 0 {
    } else if kerning[0].left == left && kerning[0].right == right {
    } else {
        assert forall|i: int|
            0 <= i < kerning.drop_first().len() implies -METRIC_LIMIT <= (#[trigger] kerning.drop_first()[i]).kern <= METRIC_LIMIT by {
            assert(kerning.drop_first()[i] == kerning[i + 1]);
        }
        lemma_find_kern_bounded(kerning.drop_first(), left, right);
    }
}

/// The kerning a well-formed table answers is bounded.
pub proof fn lemma_spec_kern_bounded(sf: SizedFont, left: u16, right: u16)
    requires
        sf.wf(),
    ensures
        -METRIC_LIMIT <= sf.spec_kern(left, right) <= METRIC_LIMIT,
{
    lemma_find_kern_bounded(sf.kerning@, left, right);
}

/// A table found in a sequence of well-formed tables is well formed.
pub proof fn lemma_find_sized_font_wf(fonts: Seq<SizedFont>, font_id: u32, size: u32)
    requires
        forall|i: int| 0 <= i < fonts.len() ==> (#[trigger] fonts[i]).wf(),
    ensures
        match find_sized_font(fonts, font_id, size) {
            Some(f) => f.wf(),
            None => true,
        },
    decreases fonts.len(),
{
    if fonts.len() == 0 {
    } else if fonts[0].font_id == font_id && fonts[0].size == size {
    } else {
        assert forall|i: int| 0 <= i < fonts.drop_first().len() implies (#[trigger] fonts.drop_first()[i]).wf() by {
            assert(fonts.drop_first()[i] == fonts[i + 1]);
        }
        lemma_find_sized_font_wf(fonts.drop_first(), font_id, size);
    }
}

/// The collection of sized-font tables available to one layout call.
#[derive(Clone, Debug)]
pub struct FontStore {
    pub fonts: Vec<SizedFont>,
}

impl FontStore {
    /// Every table in the store is well formed.
    pub open spec fn wf(self) -> bool {
        forall|i: int| 0 <= i < self.fonts@.len() ==> (#[trigger] self.fonts@[i]).wf()
    }

    /// The table the store answers for `(font_id, size)`.
    pub open spec fn spec_sized_font(self, font_id: u32, size: u32) -> Option<SizedFont> {
        find_sized_font(self.fonts@, font_id, size)
    }

    /// An empty store.
    pub fn new() -> (r: FontStore)
        ensures
            r.fonts@ =~= Seq::<SizedFont>::empty(),
            r.wf(),
    {
        FontStore { fonts: Vec::new() }
    }

    /// Adds a sized-font table to the store.
    pub fn add_font(&mut self, sf: SizedFont)
        requires
            old(self).wf(),
            sf.wf(),
        ensures
            final(self).wf(),
            final(self).fonts@ == old(self).fonts@.push(sf),
    {
        self.fonts.push(sf);
    }

    /// Looks up the table for `(font_id, size)`, first match in store order.
    pub fn sized_font(&self, font_id: u32, size: u32) -> (r: Option<&SizedFont>)
        ensures
            match r {
                Some(f) => self.spec_sized_font(font_id, size) == Some(*f),
                None => self.spec_sized_font(font_id, size) is None,
            },
    {
        let n = self.fonts.len();
        proof {
            assert(self.fonts@.skip(0) =~= self.fonts@);
        }
        for i in 0..n
            invariant
                n == self.fonts@.len(),
                find_sized_font(self.fonts@.skip(i as int), font_id, size) == find_sized_font(
                    self.fonts@,
                    font_id,
                    size,
                ),
        {
            proof {
                assert(self.fonts@.skip(i as int).drop_first() =~= self.fonts@.skip(i as int + 1));
            }
            let f = &self.fonts[i];
            if f.font_id == font_id && f.size == size {
                return Some(f);
            }
        }
        None
    }
}

} // verus!
