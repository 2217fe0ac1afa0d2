//! Text runs and the layout pipeline.
//!
//! `TextData` is an ordered sequence of runs; `layout` turns it into a
//! `TextLayout` — lines of absolutely positioned glyphs — and is proved
//! equal to the model `layout_model` in `crate::model`.

use vstd::prelude::*;

use crate::config::{HorizontalAlign, TextLayoutConfig, VerticalAlign, SCALE_LIMIT};
use crate::context::{frags_view, LayoutContext};
use crate::font_store::FontStore;
use crate::fragment::{glyphs_view, GlyphPosition, LayoutFragment};
use crate::glyph::METRIC_LIMIT;
use crate::model::{
    assemble, atoms_of, atoms_of_run, budget_max, div2, flush_state, frag_bounded, layout_model,
    line_height_max, line_height_of, max_width_of, place_line, place_lines, run_atoms, scaled,
    state_bounded, state_init, step_atom, total_height_of, Atom, FragModel,
    LayoutModel, LineModel, CHAR_LIMIT,
};

verus! {

/// One run of text: a font handle, a quantised size (subunits of 1/64
/// pixel), the characters, and a user payload attached to every glyph the
/// run produces.
pub struct TextElement<T> {
    /// Handle of the font within the font store.
    pub font_id: u32,
    /// Font size in subunits.
    pub font_size: u32,
    /// The characters of the run.
    pub content: Vec<char>,
    /// Custom user data copied to each glyph of the run.
    pub user_data: T,
}

/// An ordered sequence of text runs; layout concatenates them without
/// separators.
pub struct TextData<T> {
    /// The runs, in reading order.
    pub texts: Vec<TextElement<T>>,
}

impl<T> TextData<T> {
    /// An empty text.
    pub fn new() -> (r: TextData<T>)
        ensures
            r.texts@ =~= Seq::<TextElement<T>>::empty(),
    {
        TextData { texts: Vec::new() }
    }

    /// Appends one run.
    pub fn push(&mut self, element: TextElement<T>)
        ensures
            final(self).texts@ == old(self).texts@.push(element),
    {
        self.texts.push(element);
    }

    /// Reports whether the text is small enough for one layout call.
    pub fn within_char_limit(&self) -> (r: bool)
        ensures
            r == (atoms_of(self.texts@).len() <= CHAR_LIMIT as int),
    {
        let mut acc: usize = 0;
        let n = self.texts.len();
        proof {
            assert(self.texts@.take(0) =~= Seq::<TextElement<T>>::empty());
        }
        for t in 0..n
            invariant
                n == self.texts@.len(),
                acc as int == atoms_of(self.texts@.take(t as int)).len(),
                acc <= CHAR_LIMIT,
        {
            proof {
                lemma_atoms_take_unfold(self.texts@, t as int);
            }
            let len = self.texts[t].content.len();
            if len > CHAR_LIMIT - acc {
                proof {
                    crate::model::lemma_atoms_of_take_len(self.texts@, t as int + 1);
                }
                return false;
            }
            acc = acc + len;
        }
        proof {
            assert(self.texts@.take(n as int) =~= self.texts@);
        }
        true
    }
}

/// Unfolds the flattening of one more run.
proof fn lemma_atoms_take_unfold<T>(texts: Seq<TextElement<T>>, t: int)
    requires
        0 <= t < texts.len(),
    ensures
        atoms_of(texts.take(t + 1)) == atoms_of(texts.take(t)) + atoms_of_run(
            texts[t].font_id,
            texts[t].font_size,
            texts[t].content@,
            texts[t].user_data,
        ),
        atoms_of(texts.take(t + 1)).len() == atoms_of(texts.take(t)).len()
            + texts[t].content@.len(),
{
    assert(texts.take(t + 1).drop_last() =~= texts.take(t));
    assert(texts.take(t + 1).last() == texts[t]);
    assert(atoms_of_run(
        texts[t].font_id,
        texts[t].font_size,
        texts[t].content@,
        texts[t].user_data,
    ).len() == texts[t].content@.len());
}

/// A single row of positioned glyphs in the final layout. All coordinates
/// are in subunits; the y axis grows downward.
pub struct TextLayoutLine<T> {
    /// The height of this line.
    pub line_height: i64,
    /// The width of this line.
    pub line_width: i64,
    /// The Y coordinate of the top of this line.
    pub top: i64,
    /// The Y coordinate of the bottom of this line.
    pub bottom: i64,
    /// The glyphs contained in this line.
    pub glyphs: Vec<GlyphPosition<T>>,
}

impl<T> View for TextLayoutLine<T> {
    type V = LineModel<T>;

    open spec fn view(&self) -> LineModel<T> {
        LineModel {
            line_height: self.line_height as int,
            line_width: self.line_width as int,
            top: self.top as int,
            bottom: self.bottom as int,
            glyphs: glyphs_view(self.glyphs@),
        }
    }
}

/// The model view of a line buffer.
pub open spec fn lines_view<T>(v: Seq<TextLayoutLine<T>>) -> Seq<LineModel<T>> {
    v.map(|i: int, l: TextLayoutLine<T>| l@)
}

/// Final layout output produced by [`TextData::layout`].
pub struct TextLayout<T> {
    /// The configuration used for this layout.
    pub config: TextLayoutConfig,
    /// The total height of the laid out text.
    pub total_height: i64,
    /// The total width of the laid out text.
    pub total_width: i64,
    /// The lines of text in the layout.
    pub lines: Vec<TextLayoutLine<T>>,
}

impl<T> View for TextLayout<T> {
    type V = LayoutModel<T>;

    open spec fn view(&self) -> LayoutModel<T> {
        LayoutModel {
            config: self.config,
            total_height: self.total_height as int,
            total_width: self.total_width as int,
            lines: lines_view(self.lines@),
        }
    }
}

/// Number of glyphs over a sequence of lines.
pub open spec fn glyph_count<T>(lines: Seq<LineModel<T>>) -> int
    decreases lines.len(),
{
    if lines.len() == 0 {
        0
    } else {
        glyph_count(lines.drop_last()) + lines.last().glyphs.len()
    }
}

impl<T> TextLayout<T> {
    /// Returns the number of lines in the layout.
    pub fn len_lines(&self) -> (r: usize)
        ensures
            r == self@.lines.len(),
    {
        self.lines.len()
    }

    /// Returns the total number of glyphs in the layout (sum of glyphs in
    /// all lines).
    pub fn len_glyphs(&self) -> (r: usize)
        requires
            glyph_count(self@.lines) <= usize::MAX,
        ensures
            r as int == glyph_count(self@.lines),
    {
        let mut acc: usize = 0;
        let n = self.lines.len();
        proof {
            assert(self@.lines.take(0) =~= Seq::<LineModel<T>>::empty());
        }
        for i in 0..n
            invariant
                n == self.lines@.len(),
                acc as int == glyph_count(self@.lines.take(i as int)),
                glyph_count(self@.lines) <= usize::MAX,
        {
            proof {
                assert(self@.lines.take(i as int + 1).drop_last() =~= self@.lines.take(i as int));
                lemma_glyph_count_take(self@.lines, i as int + 1);
            }
            acc = acc + self.lines[i].glyphs.len();
        }
        proof {
            assert(self@.lines.take(n as int) =~= self@.lines);
        }
        acc
    }
}

/// A prefix counts at most as many glyphs as the whole, and counts are
/// non-negative.
proof fn lemma_glyph_count_take<T>(lines: Seq<LineModel<T>>, t: int)
    requires
        0 <= t <= lines.len(),
    ensures
        0 <= glyph_count(lines.take(t)) <= glyph_count(lines),
    decreases lines.len() - t,
{
    lemma_glyph_count_nonneg(lines.take(t));
    if t == lines.len() {
        assert(lines.take(t) =~= lines);
    } else {
        assert(lines.take(t + 1).drop_last() =~= lines.take(t));
        assert(lines.take(t + 1).last() == lines[t]);
        lemma_glyph_count_take(lines, t + 1);
    }
}

/// Glyph counts are non-negative.
proof fn lemma_glyph_count_nonneg<T>(lines: Seq<LineModel<T>>)
    ensures
        0 <= glyph_count(lines),
    decreases lines.len(),
{
    if lines.len() > 0 {
        lemma_glyph_count_nonneg(lines.drop_last());
    }
}

/// Halving that rounds toward zero, as `div2` in the model.
fn half(v: i64) -> (r: i64)
    requires
        i64::MIN < v,
    ensures
        r as int == div2(v as int),
        v >= 0 ==> 0 <= r <= v,
        v < 0 ==> v <= r <= 0,
{
    if v >= 0 {
        let r = ((v as u64) / 2) as i64;
        proof {
            vstd::arithmetic::div_mod::lemma_div_nonincreasing(v as int, 2);
            vstd::arithmetic::div_mod::lemma_div_pos_is_pos(v as int, 2);
        }
        r
    } else {
        let m = -v;
        let r = -(((m as u64) / 2) as i64);
        proof {
            vstd::arithmetic::div_mod::lemma_div_nonincreasing(m as int, 2);
            vstd::arithmetic::div_mod::lemma_div_pos_is_pos(m as int, 2);
        }
        r
    }
}

/// Fixed-point line-height scaling, as `scaled` in the model.
fn scaled_exec(raw: i64, scale: u32) -> (r: i64)
    requires
        0 <= raw <= 3 * METRIC_LIMIT,
        scale <= SCALE_LIMIT,
    ensures
        r as int == scaled(raw as int, scale),
        0 <= r <= line_height_max(),
{
    proof {
        vstd::arithmetic::mul::lemma_mul_nonnegative(raw as int, scale as int);
        vstd::arithmetic::mul::lemma_mul_upper_bound(
            raw as int,
            3 * METRIC_LIMIT as int,
            scale as int,
            SCALE_LIMIT as int,
        );
    }
    let p = raw * (scale as i64);
    proof {
        vstd::arithmetic::div_mod::lemma_div_pos_is_pos(p as int, 64);
        vstd::arithmetic::div_mod::lemma_div_is_ordered(
            p as int,
            3 * (METRIC_LIMIT as int) * (SCALE_LIMIT as int),
            64,
        );
        assert(3 * (METRIC_LIMIT as int) * (SCALE_LIMIT as int) == 64 * 0x3_0000_0000);
        vstd::arithmetic::div_mod::lemma_div_multiples_vanish(0x3_0000_0000, 64);
    }
    ((p as u64) / 64) as i64
}

/// Largest total height a layout within the character limit can reach.
pub open spec fn total_height_max() -> int {
    (2 * CHAR_LIMIT as int + 2) * line_height_max()
}


/// The scaled height of one fragment's line box.
fn line_height_exec<T: Copy>(f: &LayoutFragment<T>, config: &TextLayoutConfig) -> (lh: i64)
    requires
        config.wf(),
        frag_bounded(f@, budget_max()),
    ensures
        lh as int == line_height_of(f@, config.line_height_scale),
        0 <= lh <= 0x3_0000_0000,
{
    let raw = f.max_ascent - f.max_descent + f.max_line_gap;
    scaled_exec(raw, config.line_height_scale)
}

/// First pass of stage two: the total height and the widest line.
#[verifier::loop_isolation(false)]
fn totals_of_frags<T: Copy>(frags: &Vec<LayoutFragment<T>>, config: &TextLayoutConfig) -> (r: (
    i64,
    i64,
))
    requires
        config.wf(),
        forall|j: int|
            0 <= j < frags@.len() ==> frag_bounded(#[trigger] frags_view(frags@)[j], budget_max()),
        frags@.len() <= 2 * CHAR_LIMIT as int + 2,
    ensures
        r.0 as int == total_height_of(frags_view(frags@), config.line_height_scale),
        0 <= r.0 <= total_height_max(),
        r.1 as int == max_width_of(frags_view(frags@)),
        0 <= r.1,
        r.1 as int <= budget_max(),
{
    let ghost fmodels = frags_view(frags@);
    let ghost scale = config.line_height_scale;
    let n = frags.len();
    let mut total_height: i64 = 0;
    let mut max_line_width: i64 = 0;
    proof {
        assert(fmodels.take(0) =~= Seq::<FragModel<T>>::empty());
    }
    for i in 0..n
        invariant
            total_height as int == total_height_of(fmodels.take(i as int), scale),
            0 <= total_height,
            total_height as int <= (i as int) * 0x3_0000_0000,
            max_line_width as int == max_width_of(fmodels.take(i as int)),
            0 <= max_line_width,
            max_line_width as int <= budget_max(),
    {
        let f = &frags[i];
        proof {
            assert(fmodels[i as int] == frags@[i as int]@);
            assert(frag_bounded(fmodels[i as int], budget_max()));
        }
        let lh = line_height_exec(f, config);
        proof {
            assert(fmodels.take(i as int + 1).drop_last() =~= fmodels.take(i as int));
            assert(fmodels.take(i as int + 1).last() == fmodels[i as int]);
        }
        total_height = total_height + lh;
        if f.instance_length > max_line_width {
            max_line_width = f.instance_length;
        }
    }
    proof {
        assert(fmodels.take(n as int) =~= fmodels);
    }
    (total_height, max_line_width)
}

/// Places one fragment as a final line at vertical position `cur_y`.
#[verifier::loop_isolation(false)]
fn place_frag<T: Copy>(
    f: &LayoutFragment<T>,
    config: &TextLayoutConfig,
    container: i64,
    cur_y: i64,
) -> (line: TextLayoutLine<T>)
    requires
        config.wf(),
        frag_bounded(f@, budget_max()),
        -budget_max() <= container <= budget_max(),
        -0x1000_0000_0000_0000 <= cur_y <= 0x1000_0000_0000_0000,
    ensures
        line@ == place_line(f@, *config, container as int, cur_y as int),
        line.line_height as int == line_height_of(f@, config.line_height_scale),
{
    let lh = line_height_exec(f, config);
    let xo = match config.horizontal_align {
        HorizontalAlign::Left => 0,
        HorizontalAlign::Center => half(container - f.instance_length),
        HorizontalAlign::Right => container - f.instance_length,
    };
    let base = cur_y + half(lh) - half(f.max_ascent + f.max_descent);
    let mut glyphs: Vec<GlyphPosition<T>> = Vec::new();
    let ng = f.buffer.len();
    proof {
        assert(f@.glyphs.take(0) =~= Seq::<crate::model::GlyphPos<T>>::empty());
        assert(glyphs_view(glyphs@) =~= crate::model::offset_glyphs(
            f@.glyphs.take(0),
            xo as int,
            base as int,
        ));
    }
    for j in 0..ng
        invariant
            ng == f.buffer@.len(),
            glyphs_view(glyphs@) == crate::model::offset_glyphs(
                f@.glyphs.take(j as int),
                xo as int,
                base as int,
            ),
    {
        let g = f.buffer[j];
        proof {
            assert(f@.glyphs[j as int] == f.buffer@[j as int]@);
        }
        let ghost pre_glyphs = glyphs_view(glyphs@);
        let moved = GlyphPosition {
            glyph_id: g.glyph_id,
            glyph_metrics: g.glyph_metrics,
            x: g.x + xo,
            y: g.y + base,
            user_data: g.user_data,
        };
        glyphs.push(moved);
        proof {
            let gi = f@.glyphs[j as int];
            let pre = f@.glyphs.take(j as int);
            assert(f@.glyphs.take(j as int + 1) =~= pre.push(gi));
            crate::model::lemma_offset_glyphs_push(pre, gi, xo as int, base as int);
            assert(glyphs_view(glyphs@) =~= pre_glyphs.push(moved@));
            assert(glyphs_view(glyphs@) =~= crate::model::offset_glyphs(
                f@.glyphs.take(j as int + 1),
                xo as int,
                base as int,
            ));
        }
    }
    let line = TextLayoutLine {
        line_height: lh,
        line_width: f.instance_length,
        top: cur_y,
        bottom: cur_y + lh,
        glyphs,
    };
    proof {
        assert(f@.glyphs.take(ng as int) =~= f@.glyphs);
        assert(line@ =~= place_line(f@, *config, container as int, cur_y as int));
    }
    line
}

/// Stage two as an executable function: totals, container sizes, block
/// start, and line placement, equal to `assemble` on the fragment views.
#[verifier::loop_isolation(false)]
fn assemble_frags<T: Copy>(frags: Vec<LayoutFragment<T>>, config: &TextLayoutConfig) -> (r:
    TextLayout<T>)
    requires
        config.wf(),
        forall|j: int|
            0 <= j < frags@.len() ==> frag_bounded(#[trigger] frags_view(frags@)[j], budget_max()),
        frags@.len() <= 2 * CHAR_LIMIT as int + 2,
    ensures
        r@ == assemble(frags_view(frags@), *config),
{
    let ghost fmodels = frags_view(frags@);
    let ghost scale = config.line_height_scale;
    let (total_height, max_line_width) = totals_of_frags(&frags, config);
    let n = frags.len();

    let container = match config.max_width {
        Some(w) => w,
        None => max_line_width,
    };
    let layout_height = match config.max_height {
        Some(h) => h,
        None => total_height,
    };
    let y0 = match config.vertical_align {
        VerticalAlign::Top => 0,
        VerticalAlign::Middle => half(layout_height - total_height),
        VerticalAlign::Bottom => layout_height - total_height,
    };
    let mut out: Vec<TextLayoutLine<T>> = Vec::new();
    let mut cur_y: i64 = y0;
    proof {
        assert(fmodels.take(0) =~= Seq::<FragModel<T>>::empty());
        assert(lines_view(out@) =~= place_lines(
            fmodels.take(0),
            *config,
            container as int,
            y0 as int,
        ));
    }
    for i in 0..n
        invariant
            lines_view(out@) == place_lines(
                fmodels.take(i as int),
                *config,
                container as int,
                y0 as int,
            ),
            cur_y as int == y0 as int + total_height_of(fmodels.take(i as int), scale),
            0 <= total_height_of(fmodels.take(i as int), scale) <= (i as int) * 0x3_0000_0000,
    {
        let f = &frags[i];
        proof {
            assert(fmodels[i as int] == frags@[i as int]@);
            assert(frag_bounded(fmodels[i as int], budget_max()));
        }
        let line = place_frag(f, config, container, cur_y);
        let lh = line.line_height;
        let ghost pre_lines = lines_view(out@);
        out.push(line);
        proof {
            assert(fmodels.take(i as int + 1) =~= fmodels.take(i as int).push(fmodels[i as int]));
            crate::model::lemma_place_lines_snoc(
                fmodels.take(i as int),
                fmodels[i as int],
                *config,
                container as int,
                y0 as int,
            );
            assert(lines_view(out@) =~= pre_lines.push(line@));
            assert(fmodels.take(i as int + 1).drop_last() =~= fmodels.take(i as int));
            assert(fmodels.take(i as int + 1).last() == fmodels[i as int]);
            crate::model::lemma_line_height_bounds(fmodels[i as int], scale, budget_max());
        }
        cur_y = cur_y + lh;
    }
    let r = TextLayout {
        config: config.clone(),
        total_height,
        total_width: max_line_width,
        lines: out,
    };
    proof {
        assert(fmodels.take(n as int) =~= fmodels);
        assert(r@ =~= assemble(fmodels, *config));
    }
    r
}

impl<T: Copy> TextData<T> {
    /// Computes the bounding box that would be produced by [`Self::layout`],
    /// as `[width, height]` in subunits.
    pub fn measure(&self, config: &TextLayoutConfig, font_store: &FontStore) -> (r: [i64; 2])
        requires
            font_store.wf(),
            config.wf(),
            atoms_of(self.texts@).len() <= CHAR_LIMIT as int,
        ensures
            r[0] == layout_model(self.texts@, *config, *font_store).total_width,
            r[1] == layout_model(self.texts@, *config, *font_store).total_height,
    {
        let layout = self.layout(config, font_store);
        [layout.total_width, layout.total_height]
    }

    /// Performs glyph layout according to the provided configuration.
    ///
    /// Stage one buffers each character into line fragments while honoring
    /// the wrap style and width limit; stage two converts the fragments into
    /// final glyph positions with alignment offsets applied. The result is
    /// exactly `layout_model` applied to the runs, the configuration, and
    /// the store.
    #[verifier::loop_isolation(false)]
    #[verifier::rlimit(100)]
    pub fn layout(&self, config: &TextLayoutConfig, font_store: &FontStore) -> (r: TextLayout<T>)
        requires
            font_store.wf(),
            config.wf(),
            atoms_of(self.texts@).len() <= CHAR_LIMIT as int,
        ensures
            r@ == layout_model(self.texts@, *config, *font_store),
    {
        let mut context = LayoutContext::<T>::new();
        let ghost mut bl: int = 0;
        let ghost mut bw: int = 0;
        let nt = self.texts.len();
        proof {
            assert(self.texts@.take(0) =~= Seq::<TextElement<T>>::empty());
        }
        for t in 0..nt
            invariant
                context@ == run_atoms(
                    state_init::<T>(),
                    *font_store,
                    *config,
                    atoms_of(self.texts@.take(t as int)),
                ),
                state_bounded(context@, bl, bw),
                0 <= bl,
                0 <= bw,
                bl + bw <= atoms_of(self.texts@.take(t as int)).len() * 0x1_0180_0000,
                context@.lines.len() <= 2 * atoms_of(self.texts@.take(t as int)).len(),
        {
            let ghost k0 = atoms_of(self.texts@.take(t as int)).len() as int;
            proof {
                lemma_atoms_take_unfold(self.texts@, t as int);
                crate::model::lemma_atoms_of_take_len(self.texts@, t as int + 1);
            }
            let text = &self.texts[t];
            let ghost run_atoms_seq = atoms_of_run(
                text.font_id,
                text.font_size,
                text.content@,
                text.user_data,
            );
            let ghost st_base = context@;
            match font_store.sized_font(text.font_id, text.font_size) {
                None => {
                    proof {
                        assert forall|i: int| 0 <= i < run_atoms_seq.len() implies match
                            font_store.spec_sized_font(
                            (#[trigger] run_atoms_seq[i]).1,
                            run_atoms_seq[i].2,
                        ) {
                            None => true,
                            Some(sfm) => sfm.line_metrics is None,
                        } by {
                            assert(run_atoms_seq[i].1 == text.font_id);
                            assert(run_atoms_seq[i].2 == text.font_size);
                        }
                        crate::model::lemma_run_atoms_all_skip(
                            st_base,
                            *font_store,
                            *config,
                            run_atoms_seq,
                        );
                        crate::model::lemma_run_atoms_append(
                            state_init::<T>(),
                            *font_store,
                            *config,
                            atoms_of(self.texts@.take(t as int)),
                            run_atoms_seq,
                        );
                    }
                },
                Some(sf) => {
                    proof {
                        crate::font_store::lemma_find_sized_font_wf(
                            font_store.fonts@,
                            text.font_id,
                            text.font_size,
                        );
                    }
                    match sf.line_metrics {
                        None => {
                            proof {
                                assert forall|i: int| 0 <= i < run_atoms_seq.len() implies match
                                    font_store.spec_sized_font(
                                    (#[trigger] run_atoms_seq[i]).1,
                                    run_atoms_seq[i].2,
                                ) {
                                    None => true,
                                    Some(sfm) => sfm.line_metrics is None,
                                } by {
                                    assert(run_atoms_seq[i].1 == text.font_id);
                                    assert(run_atoms_seq[i].2 == text.font_size);
                                }
                                crate::model::lemma_run_atoms_all_skip(
                                    st_base,
                                    *font_store,
                                    *config,
                                    run_atoms_seq,
                                );
                                crate::model::lemma_run_atoms_append(
                                    state_init::<T>(),
                                    *font_store,
                                    *config,
                                    atoms_of(self.texts@.take(t as int)),
                                    run_atoms_seq,
                                );
                            }
                        },
                        Some(lm) => {
                            let user = text.user_data;
                            let nc = text.content.len();
                            proof {
                                assert(text.content@.take(0) =~= Seq::<char>::empty());
                                assert(atoms_of_run(
                                    text.font_id,
                                    text.font_size,
                                    text.content@.take(0),
                                    user,
                                ).len() == 0);
                            }
                            for c in 0..nc
                                invariant
                                    context@ == run_atoms(
                                        st_base,
                                        *font_store,
                                        *config,
                                        atoms_of_run(
                                            text.font_id,
                                            text.font_size,
                                            text.content@.take(c as int),
                                            user,
                                        ),
                                    ),
                                    state_bounded(context@, bl, bw),
                                    0 <= bl,
                                    0 <= bw,
                                    bl + bw <= (k0 + c as int) * 0x1_0180_0000,
                                    context@.lines.len() <= 2 * (k0 + c as int),
                            {
                                let ghost st_pre = context@;
                                let ghost k = k0 + c as int;
                                let ghost a: Atom<T> = (
                                    text.content@[c as int],
                                    text.font_id,
                                    text.font_size,
                                    user,
                                );
                                proof {
                                    assert(k + 1 <= atoms_of(self.texts@.take(t as int + 1)).len());
                                    assert(k + 1 <= CHAR_LIMIT as int);
                                }
                                let ch = text.content[c];
                                if ch == '\n' || ch == '\u{2028}' || ch == '\u{2029}' {
                                    context.handle_newline(font_store, config, Ghost(bl), Ghost(bw));
                                    proof {
                                        bl = 0;
                                        bw = 0;
                                    }
                                } else if ch == ' ' {
                                    match sf.glyph(' ') {
                                        Some(ge) => {
                                            proof {
                                                crate::font_store::lemma_find_glyph_wf(
                                                    sf.glyphs@,
                                                    ' ',
                                                );
                                            }
                                            let nb = context.handle_space(
                                                font_store,
                                                config,
                                                sf,
                                                text.font_id,
                                                text.font_size,
                                                ge,
                                                lm,
                                                user,
                                                Ghost(bl),
                                                Ghost(bw),
                                            );
                                            proof {
                                                bl = nb@.0;
                                                bw = nb@.1;
                                            }
                                        },
                                        None => {},
                                    }
                                } else if ch == '\t' {
                                    match sf.glyph(' ') {
                                        Some(ge) => {
                                            proof {
                                                crate::font_store::lemma_find_glyph_wf(
                                                    sf.glyphs@,
                                                    ' ',
                                                );
                                            }
                                            let nb = context.handle_tab(
                                                font_store,
                                                config,
                                                lm,
                                                ge.metrics.advance,
                                                Ghost(bl),
                                                Ghost(bw),
                                            );
                                            proof {
                                                bl = nb@.0;
                                                bw = nb@.1;
                                            }
                                        },
                                        None => {},
                                    }
                                } else {
                                    match sf.glyph(ch) {
                                        Some(ge) => {
                                            proof {
                                                crate::font_store::lemma_find_glyph_wf(
                                                    sf.glyphs@,
                                                    ch,
                                                );
                                            }
                                            let nb = context.handle_char(
                                                font_store,
                                                config,
                                                sf,
                                                text.font_id,
                                                text.font_size,
                                                ge,
                                                lm,
                                                user,
                                                Ghost(bl),
                                                Ghost(bw),
                                            );
                                            proof {
                                                bl = nb@.0;
                                                bw = nb@.1;
                                            }
                                        },
                                        None => {},
                                    }
                                }
                                proof {
                                    assert(context@ == step_atom(st_pre, *font_store, *config, a));
                                    crate::model::lemma_step_atom_lines_growth(
                                        st_pre,
                                        *font_store,
                                        *config,
                                        a,
                                    );
                                    crate::model::lemma_atoms_of_run_push(
                                        text.font_id,
                                        text.font_size,
                                        text.content@.take(c as int),
                                        text.content@[c as int],
                                        user,
                                    );
                                    assert(text.content@.take(c as int + 1) =~= text.content@.take(
                                        c as int,
                                    ).push(text.content@[c as int]));
                                    crate::model::lemma_run_atoms_snoc(
                                        st_base,
                                        *font_store,
                                        *config,
                                        atoms_of_run(
                                            text.font_id,
                                            text.font_size,
                                            text.content@.take(c as int),
                                            user,
                                        ),
                                        a,
                                    );
                                }
                            }
                            proof {
                                assert(text.content@.take(nc as int) =~= text.content@);
                                crate::model::lemma_run_atoms_append(
                                    state_init::<T>(),
                                    *font_store,
                                    *config,
                                    atoms_of(self.texts@.take(t as int)),
                                    run_atoms_seq,
                                );
                            }
                        },
                    }
                },
            }
            proof {
                assert(context@ == run_atoms(
                    state_init::<T>(),
                    *font_store,
                    *config,
                    atoms_of(self.texts@.take(t as int + 1)),
                ));
            }
        }
        let ghost st_final = context@;
        proof {
            assert(self.texts@.take(nt as int) =~= self.texts@);
            crate::model::lemma_flush_lines_growth(st_final, *font_store, *config);
        }
        context.flush(font_store, config, Ghost(bl), Ghost(bw));
        let ghost fmodels = context@.lines;
        proof {
            assert(fmodels == flush_state(
                run_atoms(state_init::<T>(), *font_store, *config, atoms_of(self.texts@)),
                *font_store,
                *config,
            ));
            assert(fmodels.len() <= 2 * CHAR_LIMIT as int + 2);
        }
        let frags = context.lines;
        proof {
            assert(frags_view(frags@) == fmodels);
        }
        let r = assemble_frags(frags, config);
        proof {
            assert(r@ == layout_model(self.texts@, *config, *font_store));
        }
        r
    }
}

} // verus!
