//! Executable layout fragments.
//!
//! A `LayoutFragment` is the mutable accumulator of stage one: the positioned
//! glyphs of a partial line or word, the running metric maxima, the visual
//! length, and the advance cursor. Every operation is proved equal to its
//! model in `crate::model`.

use vstd::prelude::*;

use crate::font_store::{FontStore, SizedFont, LineMetrics};
use crate::glyph::{GlyphId, GlyphMetrics, METRIC_LIMIT};
use crate::model::{
    budget_max, concat_kern, frag_blank, frag_bounded, frag_concat, frag_push, frag_single,
    offset_glyphs, push_kern, FragModel, GlyphPos,
};

verus! {

/// One positioned glyph of a layout. The y axis grows downward; `(x, y)` is
/// the upper-left corner of the glyph bitmap, in subunits.
#[derive(Clone, Copy, Debug, PartialEq, Eq, Hash)]
pub struct GlyphPosition<T> {
    /// The unique identifier for the glyph.
    pub glyph_id: GlyphId,
    /// The metrics of the glyph.
    pub glyph_metrics: GlyphMetrics,
    /// The absolute X coordinate of the upper left corner of the glyph.
    pub x: i64,
    /// The absolute Y coordinate of the upper left corner of the glyph.
    pub y: i64,
    /// Custom user data associated with this glyph.
    pub user_data: T,
}

impl<T> View for GlyphPosition<T> {
    type V = GlyphPos<T>;

    open spec fn view(&self) -> GlyphPos<T> {
        GlyphPos {
            id: self.glyph_id,
            metrics: self.glyph_metrics,
            x: self.x as int,
            y: self.y as int,
            user: self.user_data,
        }
    }
}

/// The model view of a glyph buffer.
pub open spec fn glyphs_view<T>(v: Seq<GlyphPosition<T>>) -> Seq<GlyphPos<T>> {
    v.map(|i: int, g: GlyphPosition<T>| g@)
}

/// Partial line/word buffer: positioned glyphs plus cumulative advance and
/// line metrics.
pub struct LayoutFragment<T> {
    /// Glyphs in reading order, with fragment-relative coordinates.
    pub buffer: Vec<GlyphPosition<T>>,
    /// Rightmost bitmap pixel of any glyph, in subunits.
    pub instance_length: i64,
    /// Largest ascent of any run contributing to the fragment.
    pub max_ascent: i64,
    /// Largest (least negative) descent of any contributing run.
    pub max_descent: i64,
    /// Largest line gap of any contributing run.
    pub max_line_gap: i64,
    /// Where the next glyph's origin would fall.
    pub next_origin_x: i64,
}

impl<T> View for LayoutFragment<T> {
    type V = FragModel<T>;

    open spec fn view(&self) -> FragModel<T> {
        FragModel {
            glyphs: glyphs_view(self.buffer@),
            len: self.instance_length as int,
            ascent: self.max_ascent as int,
            descent: self.max_descent as int,
            gap: self.max_line_gap as int,
            cursor: self.next_origin_x as int,
        }
    }
}

impl<T: Copy> LayoutFragment<T> {
    /// The empty fragment.
    pub fn new_blank() -> (r: Self)
        ensures
            r@ == frag_blank::<T>(),
            frag_bounded(r@, 0),
    {
        let r = LayoutFragment {
            buffer: Vec::new(),
            instance_length: 0,
            max_ascent: 0,
            max_descent: 0,
            max_line_gap: 0,
            next_origin_x: 0,
        };
        proof {
            assert(r@.glyphs =~= frag_blank::<T>().glyphs);
            assert(r@ =~= frag_blank::<T>());
        }
        r
    }

    /// The fragment holding one first glyph.
    pub fn new(id: GlyphId, m: GlyphMetrics, lm: LineMetrics, user: T) -> (r: Self)
        requires
            m.wf(),
            lm.wf(),
        ensures
            r@ == frag_single(id, m, lm, user),
            frag_bounded(r@, 2 * METRIC_LIMIT as int),
    {
        let glyph = GlyphPosition {
            glyph_id: id,
            glyph_metrics: m,
            x: m.xmin,
            y: -(m.ymin + m.height),
            user_data: user,
        };
        let mut buffer: Vec<GlyphPosition<T>> = Vec::new();
        buffer.push(glyph);
        let r = LayoutFragment {
            buffer,
            instance_length: m.xmin + m.width,
            max_ascent: lm.ascent,
            max_descent: lm.descent,
            max_line_gap: lm.line_gap,
            next_origin_x: m.advance,
        };
        proof {
            assert(r@.glyphs =~= frag_single(id, m, lm, user).glyphs);
            assert(r@ =~= frag_single(id, m, lm, user));
        }
        r
    }

    /// A fresh line opened by a tab: no glyphs, cursor and visual length at
    /// the tab advance, and the opening run's line metrics.
    pub fn new_tab(lm: LineMetrics, tab: i64) -> (r: Self)
        requires
            lm.wf(),
            0 <= tab <= budget_max(),
        ensures
            r@ == crate::model::frag_tab_start::<T>(lm, tab as int),
            frag_bounded(r@, tab as int),
    {
        let r = LayoutFragment {
            buffer: Vec::new(),
            instance_length: tab,
            max_ascent: lm.ascent,
            max_descent: lm.descent,
            max_line_gap: lm.line_gap,
            next_origin_x: tab,
        };
        proof {
            assert(r@.glyphs =~= crate::model::frag_tab_start::<T>(lm, tab as int).glyphs);
            assert(r@ =~= crate::model::frag_tab_start::<T>(lm, tab as int));
        }
        r
    }

    /// The kerning the fragment's last glyph applies before `id`, per the
    /// sized font `sf` of the incoming glyph.
    fn kern_before(&self, sf: &SizedFont, id: GlyphId) -> (r: i64)
        requires
            sf.wf(),
        ensures
            r as int == push_kern(self@, *sf, id.font_id, id.size, id.glyph_index),
            -METRIC_LIMIT <= r <= METRIC_LIMIT,
    {
        if self.buffer.len() > 0 {
            let last = &self.buffer[self.buffer.len() - 1];
            if last.glyph_id.font_id == id.font_id && last.glyph_id.size == id.size {
                let k = sf.kern(last.glyph_id.glyph_index, id.glyph_index);
                proof {
                    assert(self@.glyphs.last() == self.buffer@[self.buffer@.len() - 1]@);
                }
                k
            } else {
                proof {
                    assert(self@.glyphs.last() == self.buffer@[self.buffer@.len() - 1]@);
                }
                0
            }
        } else {
            0
        }
    }

    /// Appends one glyph unconditionally.
    pub fn push_char(
        &mut self,
        sf: &SizedFont,
        id: GlyphId,
        m: GlyphMetrics,
        lm: LineMetrics,
        user: T,
        Ghost(b): Ghost<int>,
    )
        requires
            sf.wf(),
            m.wf(),
            lm.wf(),
            frag_bounded(old(self)@, b),
            0 <= b,
            b + 4 * METRIC_LIMIT as int <= budget_max(),
        ensures
            final(self)@ == frag_push(
                old(self)@,
                id,
                m,
                lm,
                user,
                push_kern(old(self)@, *sf, id.font_id, id.size, id.glyph_index),
            ),
            frag_bounded(final(self)@, b + 4 * METRIC_LIMIT as int),
    {
        let kern = self.kern_before(sf, id);
        let c = self.next_origin_x + kern;
        let gx = c + m.xmin;
        let gy = -(m.ymin + m.height);
        self.buffer.push(
            GlyphPosition { glyph_id: id, glyph_metrics: m, x: gx, y: gy, user_data: user },
        );
        let reach = gx + m.width;
        if reach > self.instance_length {
            self.instance_length = reach;
        }
        if lm.ascent > self.max_ascent {
            self.max_ascent = lm.ascent;
        }
        if lm.descent > self.max_descent {
            self.max_descent = lm.descent;
        }
        if lm.line_gap > self.max_line_gap {
            self.max_line_gap = lm.line_gap;
        }
        self.next_origin_x = c + m.advance;
        proof {
            let pk = push_kern(old(self)@, *sf, id.font_id, id.size, id.glyph_index);
            let want = frag_push(old(self)@, id, m, lm, user, pk);
            assert(self@.glyphs =~= want.glyphs);
            assert(self@ =~= want);
        }
    }

    /// Appends one glyph only when its resulting visual length stays within
    /// `max_length`; otherwise leaves the fragment unchanged and returns
    /// false.
    pub fn try_push_char_in_length(
        &mut self,
        sf: &SizedFont,
        id: GlyphId,
        m: GlyphMetrics,
        lm: LineMetrics,
        user: T,
        max_length: i64,
        Ghost(b): Ghost<int>,
    ) -> (ok: bool)
        requires
            sf.wf(),
            m.wf(),
            lm.wf(),
            frag_bounded(old(self)@, b),
            0 <= b,
            b + 4 * METRIC_LIMIT as int <= budget_max(),
        ensures
            ({
                let pk = push_kern(old(self)@, *sf, id.font_id, id.size, id.glyph_index);
                let c = old(self)@.cursor + pk;
                &&& ok == (c + m.xmin + m.width <= max_length)
                &&& ok ==> final(self)@ == frag_push(old(self)@, id, m, lm, user, pk)
                    && frag_bounded(final(self)@, b + 4 * METRIC_LIMIT as int)
                &&& !ok ==> final(self)@ == old(self)@ && frag_bounded(final(self)@, b)
            }),
    {
        let kern = self.kern_before(sf, id);
        let c = self.next_origin_x + kern;
        if c + m.xmin + m.width > max_length {
            return false;
        }
        let gx = c + m.xmin;
        let gy = -(m.ymin + m.height);
        self.buffer.push(
            GlyphPosition { glyph_id: id, glyph_metrics: m, x: gx, y: gy, user_data: user },
        );
        let reach = gx + m.width;
        if reach > self.instance_length {
            self.instance_length = reach;
        }
        if lm.ascent > self.max_ascent {
            self.max_ascent = lm.ascent;
        }
        if lm.descent > self.max_descent {
            self.max_descent = lm.descent;
        }
        if lm.line_gap > self.max_line_gap {
            self.max_line_gap = lm.line_gap;
        }
        self.next_origin_x = c + m.advance;
        proof {
            let pk = push_kern(old(self)@, *sf, id.font_id, id.size, id.glyph_index);
            let want = frag_push(old(self)@, id, m, lm, user, pk);
            assert(self@.glyphs =~= want.glyphs);
            assert(self@ =~= want);
        }
        true
    }

    /// Moves the cursor and visual length by a tab advance without adding a
    /// glyph; each metric maximum takes the larger of its current value and
    /// the run's.
    pub fn add_tab(&mut self, lm: LineMetrics, tab: i64, Ghost(b): Ghost<int>)
        requires
            lm.wf(),
            frag_bounded(old(self)@, b),
            0 <= b,
            0 <= tab,
            b + tab as int <= budget_max(),
        ensures
            final(self)@ == crate::model::frag_add_tab(old(self)@, lm, tab as int),
            frag_bounded(final(self)@, b + tab as int),
    {
        self.instance_length = self.instance_length + tab;
        self.next_origin_x = self.next_origin_x + tab;
        if lm.ascent > self.max_ascent {
            self.max_ascent = lm.ascent;
        }
        if lm.descent > self.max_descent {
            self.max_descent = lm.descent;
        }
        if lm.line_gap > self.max_line_gap {
            self.max_line_gap = lm.line_gap;
        }
        proof {
            let want = crate::model::frag_add_tab(old(self)@, lm, tab as int);
            assert(self@.glyphs =~= want.glyphs);
            assert(self@ =~= want);
        }
    }

    /// Appends every glyph of `other`, shifted by this fragment's
    /// kern-corrected cursor, only when the resulting visual length stays
    /// within `max_length`; otherwise leaves both fragments unchanged and
    /// returns false.
    #[verifier::loop_isolation(false)]
    pub fn try_concat_in_length(
        &mut self,
        other: &LayoutFragment<T>,
        store: &FontStore,
        max_length: i64,
        Ghost(bl): Ghost<int>,
        Ghost(bw): Ghost<int>,
    ) -> (ok: bool)
        requires
            store.wf(),
            frag_bounded(old(self)@, bl),
            frag_bounded(other@, bw),
            0 <= bl,
            0 <= bw,
            bl + bw + METRIC_LIMIT as int <= budget_max(),
        ensures
            ({
                let k = concat_kern(*store, old(self)@, other@);
                &&& ok == (old(self)@.cursor + k + other@.len <= max_length)
                &&& ok ==> final(self)@ == frag_concat(old(self)@, other@, k) && frag_bounded(
                    final(self)@,
                    bl + bw + METRIC_LIMIT as int,
                )
                &&& !ok ==> final(self)@ == old(self)@ && frag_bounded(final(self)@, bl)
            }),
    {
        let kern: i64 = if self.buffer.len() > 0 && other.buffer.len() > 0 {
            let l = &self.buffer[self.buffer.len() - 1];
            let w = &other.buffer[0];
            proof {
                assert(self@.glyphs.last() == self.buffer@[self.buffer@.len() - 1]@);
                assert(other@.glyphs.first() == other.buffer@[0]@);
            }
            if l.glyph_id.font_id == w.glyph_id.font_id && l.glyph_id.size == w.glyph_id.size {
                match store.sized_font(l.glyph_id.font_id, l.glyph_id.size) {
                    Some(sf) => {
                        proof {
                            crate::font_store::lemma_find_sized_font_wf(
                                store.fonts@,
                                l.glyph_id.font_id,
                                l.glyph_id.size,
                            );
                        }
                        sf.kern(l.glyph_id.glyph_index, w.glyph_id.glyph_index)
                    },
                    None => 0,
                }
            } else {
                0
            }
        } else {
            0
        };
        let ghost k = concat_kern(*store, old(self)@, other@);
        proof {
            assert(kern as int == k);
        }
        let c = self.next_origin_x + kern;
        let new_len = c + other.instance_length;
        if new_len > max_length {
            return false;
        }
        let ghost old_glyphs = self@.glyphs;
        let n = other.buffer.len();
        for i in 0..n
            invariant
                n == other.buffer@.len(),
                frag_bounded(other@, bw),
                -(bl + METRIC_LIMIT as int) <= c <= bl + METRIC_LIMIT as int,
                self@.glyphs =~= old_glyphs + offset_glyphs(
                    other@.glyphs.take(i as int),
                    c as int,
                    0,
                ),
                self.instance_length == old(self).instance_length,
                self.max_ascent == old(self).max_ascent,
                self.max_descent == old(self).max_descent,
                self.max_line_gap == old(self).max_line_gap,
                self.next_origin_x == old(self).next_origin_x,
        {
            let g = other.buffer[i];
            proof {
                assert(other@.glyphs[i as int] == other.buffer@[i as int]@);
            }
            let ghost pre_glyphs = self@.glyphs;
            let shifted_glyph = GlyphPosition {
                glyph_id: g.glyph_id,
                glyph_metrics: g.glyph_metrics,
                x: g.x + c,
                y: g.y,
                user_data: g.user_data,
            };
            self.buffer.push(shifted_glyph);
            proof {
                let gi = other@.glyphs[i as int];
                let pre = other@.glyphs.take(i as int);
                assert(other@.glyphs.take(i as int + 1) =~= pre.push(gi));
                crate::model::lemma_offset_glyphs_push(pre, gi, c as int, 0);
                let shifted = (GlyphPos { x: gi.x + c, y: gi.y + 0, ..gi });
                assert(offset_glyphs(other@.glyphs.take(i as int + 1), c as int, 0)
                    =~= offset_glyphs(pre, c as int, 0).push(shifted));
                assert(self@.glyphs =~= pre_glyphs.push(shifted_glyph@));
                assert(shifted_glyph@ == shifted);
                assert(self@.glyphs =~= old_glyphs + offset_glyphs(
                    other@.glyphs.take(i as int + 1),
                    c as int,
                    0,
                ));
            }
        }
        if new_len > self.instance_length {
            self.instance_length = new_len;
        }
        if other.max_ascent > self.max_ascent {
            self.max_ascent = other.max_ascent;
        }
        if other.max_descent > self.max_descent {
            self.max_descent = other.max_descent;
        }
        if other.max_line_gap > self.max_line_gap {
            self.max_line_gap = other.max_line_gap;
        }
        self.next_origin_x = c + other.next_origin_x;
        proof {
            let want = frag_concat(old(self)@, other@, k);
            assert(other@.glyphs.take(n as int) =~= other@.glyphs);
            assert(self@.glyphs =~= want.glyphs);
            assert(self@ =~= want);
        }
        true
    }
}

} // verus!
