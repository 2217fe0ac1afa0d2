//! Mathematical model of the layout pipeline.
//!
//! Every executable step of the engine is mirrored here by a spec function
//! over unbounded integers, and the executable code is proved equal to this
//! model. Stage one turns the flattened character stream into line fragments
//! (`run_atoms`, `flush_state`); stage two places the fragments on the final
//! coordinate grid (`assemble`).

use vstd::prelude::*;

use crate::config::{HorizontalAlign, TextLayoutConfig, VerticalAlign, WrapStyle, TAB_LIMIT};
use crate::font_store::{FontStore, GlyphEntry, LineMetrics, SizedFont};
use crate::glyph::{GlyphId, GlyphMetrics, METRIC_LIMIT};

verus! {

/// Larger of two integers.
pub open spec fn max_i(a: int, b: int) -> int {
    if a >= b {
        a
    } else {
        b
    }
}

/// Halving that rounds toward zero, as the executable `i64` division does.
pub open spec fn div2(v: int) -> int {
    if v >= 0 {
        v / 2
    } else {
        -((-v) / 2)
    }
}

/// Fixed-point line-height scaling: `raw * scale / 64`, rounding down.
/// Only applied to non-negative `raw`.
pub open spec fn scaled(raw: int, scale: u32) -> int {
    raw * scale / 64
}

/// Largest number of characters one layout call accepts; together with the
/// metric bounds this keeps every coordinate within `i64`.
pub const CHAR_LIMIT: usize = 0x100_0000;

/// How much the magnitude bound of the open fragments can grow per
/// character processed: `(TAB_LIMIT + 6) * METRIC_LIMIT`, written as a
/// literal so that budget arithmetic stays linear.
pub open spec fn step_budget() -> int {
    0x1_0180_0000
}

/// Magnitude bound reached after `CHAR_LIMIT` characters, with one step of
/// margin for the final flush; every committed fragment stays within it.
pub open spec fn budget_max() -> int {
    (CHAR_LIMIT as int + 1) * 0x1_0180_0000
}

/// One positioned glyph: identity, raster metrics, the upper-left corner of
/// its bitmap (y grows downward), and the user payload of its run.
#[verifier::ext_equal]
pub ghost struct GlyphPos<T> {
    pub id: GlyphId,
    pub metrics: GlyphMetrics,
    pub x: int,
    pub y: int,
    pub user: T,
}

/// A partial line or word: its glyphs in reading order, the visual extent
/// `len` (rightmost bitmap pixel), the per-line metric maxima, and the pen
/// cursor where the next glyph's origin would fall.
#[verifier::ext_equal]
pub ghost struct FragModel<T> {
    pub glyphs: Seq<GlyphPos<T>>,
    pub len: int,
    pub ascent: int,
    pub descent: int,
    pub gap: int,
    pub cursor: int,
}

/// The fragment-buffering state: committed lines, the open line fragment,
/// and the open word fragment.
#[verifier::ext_equal]
pub ghost struct LayoutState<T> {
    pub lines: Seq<FragModel<T>>,
    pub line: Option<FragModel<T>>,
    pub word: Option<FragModel<T>>,
}

/// Magnitude bounds of a fragment: cursor, visual length, and glyph
/// x-coordinates within `b`; metric maxima and glyph y-coordinates within
/// the constant metric bounds.
pub open spec fn frag_bounded<T>(f: FragModel<T>, b: int) -> bool {
    &&& -b <= f.cursor <= b
    &&& -b <= f.len <= b
    &&& 0 <= f.ascent <= METRIC_LIMIT
    &&& -METRIC_LIMIT <= f.descent <= 0
    &&& 0 <= f.gap <= METRIC_LIMIT
    &&& forall|i: int|
        0 <= i < f.glyphs.len() ==> {
            let g = #[trigger] f.glyphs[i];
            &&& -b <= g.x <= b
            &&& -2 * (METRIC_LIMIT as int) <= g.y <= 2 * (METRIC_LIMIT as int)
            &&& g.metrics.wf()
        }
}

/// A smaller bound implies a larger one.
pub proof fn lemma_frag_bounded_mono<T>(f: FragModel<T>, b1: int, b2: int)
    requires
        frag_bounded(f, b1),
        b1 <= b2,
    ensures
        frag_bounded(f, b2),
{
    assert forall|i: int| 0 <= i < f.glyphs.len() implies {
        let g = #[trigger] f.glyphs[i];
        &&& -b2 <= g.x <= b2
        &&& -2 * (METRIC_LIMIT as int) <= g.y <= 2 * (METRIC_LIMIT as int)
        &&& g.metrics.wf()
    } by {
        assert(frag_bounded(f, b1));
    }
}

/// Bounds of a whole buffering state: the open line and word fragments are
/// within their budgets; every committed line is within the global bound.
pub open spec fn state_bounded<T>(st: LayoutState<T>, bl: int, bw: int) -> bool {
    &&& (st.line matches Some(f) ==> frag_bounded(f, bl))
    &&& (st.word matches Some(f) ==> frag_bounded(f, bw))
    &&& forall|i: int| 0 <= i < st.lines.len() ==> frag_bounded(#[trigger] st.lines[i], budget_max())
}

/// The empty fragment with zero metrics.
pub open spec fn frag_blank<T>() -> FragModel<T> {
    FragModel { glyphs: Seq::empty(), len: 0, ascent: 0, descent: 0, gap: 0, cursor: 0 }
}

/// The fragment holding a single first glyph: the glyph sits at `xmin`, the
/// visual length is taken without clamping, and the line metrics are the
/// run's.
pub open spec fn frag_single<T>(id: GlyphId, m: GlyphMetrics, lm: LineMetrics, user: T) -> FragModel<
    T,
> {
    FragModel {
        glyphs: seq![
            GlyphPos { id, metrics: m, x: m.xmin as int, y: -(m.ymin + m.height), user },
        ],
        len: m.xmin + m.width,
        ascent: lm.ascent as int,
        descent: lm.descent as int,
        gap: lm.line_gap as int,
        cursor: m.advance as int,
    }
}

/// Kerning applied when pushing glyph `idx` of `(font_id, size)` after the
/// fragment's last glyph: non-zero only when the previous glyph has the same
/// font handle and quantised size.
pub open spec fn push_kern<T>(
    frag: FragModel<T>,
    sf: SizedFont,
    font_id: u32,
    size: u32,
    idx: u16,
) -> int {
    if frag.glyphs.len() > 0 && frag.glyphs.last().id.font_id == font_id
        && frag.glyphs.last().id.size == size {
        sf.spec_kern(frag.glyphs.last().id.glyph_index, idx)
    } else {
        0
    }
}

/// Appends one glyph to a fragment: the cursor moves by the kerning, the
/// glyph is placed at the corrected cursor, the visual length and metric
/// maxima are updated, and the cursor advances.
pub open spec fn frag_push<T>(
    frag: FragModel<T>,
    id: GlyphId,
    m: GlyphMetrics,
    lm: LineMetrics,
    user: T,
    kern: int,
) -> FragModel<T> {
    let c = frag.cursor + kern;
    FragModel {
        glyphs: frag.glyphs.push(
            GlyphPos { id, metrics: m, x: c + m.xmin, y: -(m.ymin + m.height), user },
        ),
        len: max_i(frag.len, c + m.xmin + m.width),
        ascent: max_i(frag.ascent, lm.ascent as int),
        descent: max_i(frag.descent, lm.descent as int),
        gap: max_i(frag.gap, lm.line_gap as int),
        cursor: c + m.advance,
    }
}

/// Whether a visual length fits the optional width limit.
pub open spec fn fits(max_width: Option<i64>, v: int) -> bool {
    match max_width {
        None => true,
        Some(m) => v <= m,
    }
}

/// Kerning applied between a line fragment and a word fragment when the word
/// is folded onto the line: non-zero only when the line's last glyph and the
/// word's first glyph share font handle and quantised size, and the store
/// still knows that font.
pub open spec fn concat_kern<T>(store: FontStore, line: FragModel<T>, word: FragModel<T>) -> int {
    if line.glyphs.len() > 0 && word.glyphs.len() > 0 {
        let l = line.glyphs.last();
        let w = word.glyphs.first();
        if l.id.font_id == w.id.font_id && l.id.size == w.id.size {
            match store.spec_sized_font(l.id.font_id, l.id.size) {
                Some(sf) => sf.spec_kern(l.id.glyph_index, w.id.glyph_index),
                None => 0,
            }
        } else {
            0
        }
    } else {
        0
    }
}

/// Every glyph translated by `(dx, dy)`.
pub open spec fn offset_glyphs<T>(gs: Seq<GlyphPos<T>>, dx: int, dy: int) -> Seq<GlyphPos<T>> {
    gs.map(|i: int, g: GlyphPos<T>| GlyphPos { x: g.x + dx, y: g.y + dy, ..g })
}

/// Translating distributes over appending one glyph.
pub proof fn lemma_offset_glyphs_push<T>(gs: Seq<GlyphPos<T>>, g: GlyphPos<T>, dx: int, dy: int)
    ensures
        offset_glyphs(gs.push(g), dx, dy) =~= offset_glyphs(gs, dx, dy).push(
            GlyphPos { x: g.x + dx, y: g.y + dy, ..g },
        ),
{
}

/// The kerning between two fragments of a well-formed store is bounded.
pub proof fn lemma_concat_kern_bounded<T>(store: FontStore, line: FragModel<T>, word: FragModel<T>)
    requires
        store.wf(),
    ensures
        -METRIC_LIMIT <= concat_kern(store, line, word) <= METRIC_LIMIT,
{
    if line.glyphs.len() > 0 && word.glyphs.len() > 0 {
        let l = line.glyphs.last();
        let w = word.glyphs.first();
        if l.id.font_id == w.id.font_id && l.id.size == w.id.size {
            crate::font_store::lemma_find_sized_font_wf(store.fonts@, l.id.font_id, l.id.size);
            match store.spec_sized_font(l.id.font_id, l.id.size) {
                Some(sf) => {
                    crate::font_store::lemma_spec_kern_bounded(
                        sf,
                        l.id.glyph_index,
                        w.id.glyph_index,
                    );
                },
                None => {},
            }
        }
    }
}

/// The kerning a well-formed sized font applies before a push is bounded.
pub proof fn lemma_push_kern_bounded<T>(
    frag: FragModel<T>,
    sf: SizedFont,
    font_id: u32,
    size: u32,
    idx: u16,
)
    requires
        sf.wf(),
    ensures
        -METRIC_LIMIT <= push_kern(frag, sf, font_id, size, idx) <= METRIC_LIMIT,
{
    if frag.glyphs.len() > 0 && frag.glyphs.last().id.font_id == font_id
        && frag.glyphs.last().id.size == size {
        crate::font_store::lemma_spec_kern_bounded(sf, frag.glyphs.last().id.glyph_index, idx);
    }
}

/// Folds a word fragment onto a line fragment: every word glyph shifts right
/// by the line's kern-corrected cursor, and the maxima merge.
pub open spec fn frag_concat<T>(line: FragModel<T>, word: FragModel<T>, kern: int) -> FragModel<T> {
    let c = line.cursor + kern;
    FragModel {
        glyphs: line.glyphs + offset_glyphs(word.glyphs, c, 0),
        len: max_i(line.len, c + word.len),
        ascent: max_i(line.ascent, word.ascent),
        descent: max_i(line.descent, word.descent),
        gap: max_i(line.gap, word.gap),
        cursor: c + word.cursor,
    }
}

/// The state a layout call starts from.
pub open spec fn state_init<T>() -> LayoutState<T> {
    LayoutState { lines: Seq::empty(), line: None, word: None }
}

/// A hard line break: newline, line separator, or paragraph separator.
pub open spec fn is_hard_break(ch: char) -> bool {
    ch == '\n' || ch == '\u{2028}' || ch == '\u{2029}'
}

/// Hard break: fold the word onto the line within the width limit when both
/// exist, commit what remains, and emit a blank line when nothing is open.
pub open spec fn step_newline<T>(
    st: LayoutState<T>,
    store: FontStore,
    cfg: TextLayoutConfig,
) -> LayoutState<T> {
    match (st.line, st.word) {
        (Some(lf), Some(wf)) => {
            let k = concat_kern(store, lf, wf);
            if fits(cfg.max_width, lf.cursor + k + wf.len) {
                LayoutState { lines: st.lines.push(frag_concat(lf, wf, k)), line: None, word: None }
            } else {
                LayoutState { lines: st.lines.push(lf).push(wf), line: None, word: None }
            }
        },
        (Some(f), None) => LayoutState { lines: st.lines.push(f), line: None, word: None },
        (None, Some(f)) => LayoutState { lines: st.lines.push(f), line: None, word: None },
        (None, None) => LayoutState { lines: st.lines.push(frag_blank()), line: None, word: None },
    }
}

/// Space: under word wrapping, fold any pending word onto the line (breaking
/// the line if it does not fit), then append the space glyph to the line.
/// Under the other styles the space is appended directly.
pub open spec fn step_space<T>(
    st: LayoutState<T>,
    store: FontStore,
    cfg: TextLayoutConfig,
    sf: SizedFont,
    font_id: u32,
    size: u32,
    ge: GlyphEntry,
    lm: LineMetrics,
    user: T,
) -> LayoutState<T> {
    let id = GlyphId { font_id, glyph_index: ge.glyph_index, size };
    match (cfg.wrap_style, st.line, st.word) {
        (WrapStyle::WordWrap, Some(lf), Some(wf)) => {
            let k = concat_kern(store, lf, wf);
            if fits(cfg.max_width, lf.cursor + k + wf.len) {
                let merged = frag_concat(lf, wf, k);
                let pk = push_kern(merged, sf, font_id, size, ge.glyph_index);
                LayoutState {
                    lines: st.lines,
                    line: Some(frag_push(merged, id, ge.metrics, lm, user, pk)),
                    word: None,
                }
            } else {
                let pk = push_kern(wf, sf, font_id, size, ge.glyph_index);
                LayoutState {
                    lines: st.lines.push(lf),
                    line: Some(frag_push(wf, id, ge.metrics, lm, user, pk)),
                    word: None,
                }
            }
        },
        (WrapStyle::WordWrap, Some(lf), None) => {
            let pk = push_kern(lf, sf, font_id, size, ge.glyph_index);
            LayoutState {
                lines: st.lines,
                line: Some(frag_push(lf, id, ge.metrics, lm, user, pk)),
                word: None,
            }
        },
        (WrapStyle::WordWrap, None, Some(wf)) => {
            let pk = push_kern(wf, sf, font_id, size, ge.glyph_index);
            LayoutState {
                lines: st.lines,
                line: Some(frag_push(wf, id, ge.metrics, lm, user, pk)),
                word: None,
            }
        },
        (WrapStyle::WordWrap, None, None) => LayoutState {
            lines: st.lines,
            line: Some(frag_single(id, ge.metrics, lm, user)),
            word: None,
        },
        (_, Some(lf), _) => {
            let pk = push_kern(lf, sf, font_id, size, ge.glyph_index);
            LayoutState {
                lines: st.lines,
                line: Some(frag_push(lf, id, ge.metrics, lm, user, pk)),
                word: None,
            }
        },
        (_, None, _) => LayoutState {
            lines: st.lines,
            line: Some(frag_single(id, ge.metrics, lm, user)),
            word: None,
        },
    }
}

/// Adds a tab advance to a fragment: the cursor and visual length move by
/// `tab` without adding a glyph, and the metric maxima absorb the run's line
/// metrics.
pub open spec fn frag_add_tab<T>(frag: FragModel<T>, lm: LineMetrics, tab: int) -> FragModel<T> {
    FragModel {
        glyphs: frag.glyphs,
        len: frag.len + tab,
        ascent: max_i(frag.ascent, lm.ascent as int),
        descent: max_i(frag.descent, lm.descent as int),
        gap: max_i(frag.gap, lm.line_gap as int),
        cursor: frag.cursor + tab,
    }
}

/// A fresh line opened by a tab: no glyphs, the cursor and visual length at
/// the tab advance, and the opening run's line metrics (the descent included,
/// so an indented line keeps its line height).
pub open spec fn frag_tab_start<T>(lm: LineMetrics, tab: int) -> FragModel<T> {
    FragModel {
        glyphs: Seq::empty(),
        len: tab,
        ascent: lm.ascent as int,
        descent: lm.descent as int,
        gap: lm.line_gap as int,
        cursor: tab,
    }
}

/// Tab: fold any pending word onto the line (breaking when it does not fit),
/// then move the line's cursor by the tab advance. A tab that opens a fresh
/// line seeds it with the run's line metrics; on an existing line the metric
/// maxima take the larger of the current and the run's values.
pub open spec fn step_tab<T>(
    st: LayoutState<T>,
    store: FontStore,
    cfg: TextLayoutConfig,
    lm: LineMetrics,
    tab: int,
) -> LayoutState<T> {
    let folded = match (st.line, st.word) {
        (Some(lf), Some(wf)) => {
            let k = concat_kern(store, lf, wf);
            if fits(cfg.max_width, lf.cursor + k + wf.len) {
                LayoutState { lines: st.lines, line: Some(frag_concat(lf, wf, k)), word: None }
            } else {
                LayoutState { lines: st.lines.push(lf), line: Some(wf), word: None }
            }
        },
        (None, Some(wf)) => LayoutState { lines: st.lines, line: Some(wf), word: None },
        _ => LayoutState { lines: st.lines, line: st.line, word: None },
    };
    match folded.line {
        Some(lf) => LayoutState {
            lines: folded.lines,
            line: Some(frag_add_tab(lf, lm, tab)),
            word: None,
        },
        None => LayoutState {
            lines: folded.lines,
            line: Some(frag_tab_start(lm, tab)),
            word: None,
        },
    }
}

/// Ordinary character, routed by wrap style. Word wrapping buffers the glyph
/// into the word fragment within the width limit, committing both fragments
/// on overflow; character wrapping appends to the line within the limit,
/// breaking on overflow; no wrapping appends unconditionally.
pub open spec fn step_char<T>(
    st: LayoutState<T>,
    store: FontStore,
    cfg: TextLayoutConfig,
    sf: SizedFont,
    font_id: u32,
    size: u32,
    ge: GlyphEntry,
    lm: LineMetrics,
    user: T,
) -> LayoutState<T> {
    let id = GlyphId { font_id, glyph_index: ge.glyph_index, size };
    match (cfg.wrap_style, st.line, st.word) {
        (WrapStyle::WordWrap, Some(lf), Some(wf)) => {
            let pk = push_kern(wf, sf, font_id, size, ge.glyph_index);
            let c = wf.cursor + pk;
            if fits(cfg.max_width, c + ge.metrics.xmin + ge.metrics.width) {
                LayoutState {
                    lines: st.lines,
                    line: Some(lf),
                    word: Some(frag_push(wf, id, ge.metrics, lm, user, pk)),
                }
            } else {
                LayoutState {
                    lines: st.lines.push(lf).push(wf),
                    line: None,
                    word: Some(frag_single(id, ge.metrics, lm, user)),
                }
            }
        },
        (WrapStyle::WordWrap, Some(lf), None) => LayoutState {
            lines: st.lines,
            line: Some(lf),
            word: Some(frag_single(id, ge.metrics, lm, user)),
        },
        (WrapStyle::WordWrap, None, Some(wf)) => {
            let pk = push_kern(wf, sf, font_id, size, ge.glyph_index);
            let c = wf.cursor + pk;
            if fits(cfg.max_width, c + ge.metrics.xmin + ge.metrics.width) {
                LayoutState {
                    lines: st.lines,
                    line: None,
                    word: Some(frag_push(wf, id, ge.metrics, lm, user, pk)),
                }
            } else {
                LayoutState {
                    lines: st.lines.push(wf),
                    line: None,
                    word: Some(frag_single(id, ge.metrics, lm, user)),
                }
            }
        },
        (WrapStyle::WordWrap, None, None) => LayoutState {
            lines: st.lines,
            line: None,
            word: Some(frag_single(id, ge.metrics, lm, user)),
        },
        (WrapStyle::CharWrap, Some(lf), _) => {
            let pk = push_kern(lf, sf, font_id, size, ge.glyph_index);
            let c = lf.cursor + pk;
            if fits(cfg.max_width, c + ge.metrics.xmin + ge.metrics.width) {
                LayoutState {
                    lines: st.lines,
                    line: Some(frag_push(lf, id, ge.metrics, lm, user, pk)),
                    word: None,
                }
            } else {
                LayoutState {
                    lines: st.lines.push(lf),
                    line: Some(frag_single(id, ge.metrics, lm, user)),
                    word: None,
                }
            }
        },
        (WrapStyle::CharWrap, None, _) => LayoutState {
            lines: st.lines,
            line: Some(frag_single(id, ge.metrics, lm, user)),
            word: None,
        },
        (WrapStyle::NoWrap, Some(lf), _) => {
            let pk = push_kern(lf, sf, font_id, size, ge.glyph_index);
            LayoutState {
                lines: st.lines,
                line: Some(frag_push(lf, id, ge.metrics, lm, user, pk)),
                word: None,
            }
        },
        (WrapStyle::NoWrap, None, _) => LayoutState {
            lines: st.lines,
            line: Some(frag_single(id, ge.metrics, lm, user)),
            word: None,
        },
    }
}

/// One character of one run: the character, the run's font handle, its
/// quantised size, and its user payload.
pub type Atom<T> = (char, u32, u32, T);

/// Processes one atom. A character whose font or line metrics the store does
/// not know, or whose glyph entry (the space glyph, for tabs) is missing, is
/// dropped silently.
pub open spec fn step_atom<T>(
    st: LayoutState<T>,
    store: FontStore,
    cfg: TextLayoutConfig,
    a: Atom<T>,
) -> LayoutState<T> {
    match store.spec_sized_font(a.1, a.2) {
        None => st,
        Some(sf) => match sf.line_metrics {
            None => st,
            Some(lm) => {
                if is_hard_break(a.0) {
                    step_newline(st, store, cfg)
                } else if a.0 == ' ' {
                    match sf.spec_glyph(' ') {
                        None => st,
                        Some(ge) => step_space(st, store, cfg, sf, a.1, a.2, ge, lm, a.3),
                    }
                } else if a.0 == '\t' {
                    match sf.spec_glyph(' ') {
                        None => st,
                        Some(ge) => step_tab(
                            st,
                            store,
                            cfg,
                            lm,
                            (ge.metrics.advance as int) * (cfg.tab_size_in_spaces as int),
                        ),
                    }
                } else {
                    match sf.spec_glyph(a.0) {
                        None => st,
                        Some(ge) => step_char(st, store, cfg, sf, a.1, a.2, ge, lm, a.3),
                    }
                }
            },
        },
    }
}

/// Processes a sequence of atoms in order.
pub open spec fn run_atoms<T>(
    st: LayoutState<T>,
    store: FontStore,
    cfg: TextLayoutConfig,
    atoms: Seq<Atom<T>>,
) -> LayoutState<T>
    decreases atoms.len(),
{
    if atoms.len() == 0 {
        st
    } else {
        run_atoms(step_atom(st, store, cfg, atoms.first()), store, cfg, atoms.drop_first())
    }
}

/// Final flush: fold any remaining word onto the line (under word wrapping
/// within the width limit, otherwise directly) and commit what remains.
pub open spec fn flush_state<T>(
    st: LayoutState<T>,
    store: FontStore,
    cfg: TextLayoutConfig,
) -> Seq<FragModel<T>> {
    match (st.line, st.word) {
        (Some(lf), Some(wf)) => {
            let k = concat_kern(store, lf, wf);
            if cfg.wrap_style is WordWrap {
                if fits(cfg.max_width, lf.cursor + k + wf.len) {
                    st.lines.push(frag_concat(lf, wf, k))
                } else {
                    st.lines.push(lf).push(wf)
                }
            } else {
                st.lines.push(frag_concat(lf, wf, k))
            }
        },
        (Some(f), None) => st.lines.push(f),
        (None, Some(f)) => st.lines.push(f),
        (None, None) => st.lines,
    }
}

/// One assembled line of the final layout.
#[verifier::ext_equal]
pub ghost struct LineModel<T> {
    pub line_height: int,
    pub line_width: int,
    pub top: int,
    pub bottom: int,
    pub glyphs: Seq<GlyphPos<T>>,
}

/// The final layout: the echoed configuration, the block totals, and the
/// lines from top to bottom.
#[verifier::ext_equal]
pub ghost struct LayoutModel<T> {
    pub config: TextLayoutConfig,
    pub total_height: int,
    pub total_width: int,
    pub lines: Seq<LineModel<T>>,
}

/// The scaled height of one line: content height (ascent minus the
/// non-positive descent) plus line gap, times the fixed-point scale.
pub open spec fn line_height_of<T>(f: FragModel<T>, scale: u32) -> int {
    scaled(f.ascent - f.descent + f.gap, scale)
}

/// Sum of the scaled line heights.
pub open spec fn total_height_of<T>(frags: Seq<FragModel<T>>, scale: u32) -> int
    decreases frags.len(),
{
    if frags.len() == 0 {
        0
    } else {
        total_height_of(frags.drop_last(), scale) + line_height_of(frags.last(), scale)
    }
}

/// Largest visual line length, at least zero.
pub open spec fn max_width_of<T>(frags: Seq<FragModel<T>>) -> int
    decreases frags.len(),
{
    if frags.len() == 0 {
        0
    } else {
        max_i(max_width_of(frags.drop_last()), frags.last().len)
    }
}

/// Per-line horizontal offset for an alignment within a container width.
pub open spec fn x_offset(align: HorizontalAlign, container: int, len: int) -> int {
    match align {
        HorizontalAlign::Left => 0,
        HorizontalAlign::Center => div2(container - len),
        HorizontalAlign::Right => container - len,
    }
}

/// Vertical start of the whole block within the layout height.
pub open spec fn block_y_start(align: VerticalAlign, layout_height: int, total_height: int) -> int {
    match align {
        VerticalAlign::Top => 0,
        VerticalAlign::Middle => div2(layout_height - total_height),
        VerticalAlign::Bottom => layout_height - total_height,
    }
}

/// Baseline of a line starting at `cur_y`: the typographic body is centered
/// in the scaled line box.
pub open spec fn baseline_of<T>(f: FragModel<T>, cur_y: int, lh: int) -> int {
    cur_y + div2(lh) - div2(f.ascent + f.descent)
}

/// Places one fragment as a final line at vertical position `cur_y`.
pub open spec fn place_line<T>(
    f: FragModel<T>,
    cfg: TextLayoutConfig,
    container: int,
    cur_y: int,
) -> LineModel<T> {
    let lh = line_height_of(f, cfg.line_height_scale);
    let xo = x_offset(cfg.horizontal_align, container, f.len);
    let base = baseline_of(f, cur_y, lh);
    LineModel {
        line_height: lh,
        line_width: f.len,
        top: cur_y,
        bottom: cur_y + lh,
        glyphs: offset_glyphs(f.glyphs, xo, base),
    }
}

/// Places every fragment, advancing the vertical cursor by each line height.
pub open spec fn place_lines<T>(
    frags: Seq<FragModel<T>>,
    cfg: TextLayoutConfig,
    container: int,
    cur_y: int,
) -> Seq<LineModel<T>>
    decreases frags.len(),
{
    if frags.len() == 0 {
        Seq::empty()
    } else {
        seq![place_line(frags.first(), cfg, container, cur_y)] + place_lines(
            frags.drop_first(),
            cfg,
            container,
            cur_y + line_height_of(frags.first(), cfg.line_height_scale),
        )
    }
}

/// Stage two: totals, container sizes, block start, and line placement.
pub open spec fn assemble<T>(frags: Seq<FragModel<T>>, cfg: TextLayoutConfig) -> LayoutModel<T> {
    let th = total_height_of(frags, cfg.line_height_scale);
    let tw = max_width_of(frags);
    let container = match cfg.max_width {
        Some(w) => w as int,
        None => tw,
    };
    let layout_h = match cfg.max_height {
        Some(h) => h as int,
        None => th,
    };
    let y0 = block_y_start(cfg.vertical_align, layout_h, th);
    LayoutModel {
        config: cfg,
        total_height: th,
        total_width: tw,
        lines: place_lines(frags, cfg, container, y0),
    }
}

/// The atoms of one run: each character paired with the run's font handle,
/// quantised size, and user payload.
pub open spec fn atoms_of_run<T>(font_id: u32, size: u32, content: Seq<char>, user: T) -> Seq<
    Atom<T>,
> {
    content.map(|i: int, ch: char| (ch, font_id, size, user))
}

/// Appending one character appends one atom.
pub proof fn lemma_atoms_of_run_push<T>(font_id: u32, size: u32, content: Seq<char>, ch: char, user: T)
    ensures
        atoms_of_run(font_id, size, content.push(ch), user) =~= atoms_of_run(
            font_id,
            size,
            content,
            user,
        ).push((ch, font_id, size, user)),
{
    let lhs = atoms_of_run(font_id, size, content.push(ch), user);
    let rhs = atoms_of_run(font_id, size, content, user).push((ch, font_id, size, user));
    assert(lhs.len() == rhs.len());
    assert forall|i: int| 0 <= i < lhs.len() implies lhs[i] == rhs[i] by {
        if i < content.len() {
            assert(content.push(ch)[i] == content[i]);
        } else {
            assert(content.push(ch)[i] == ch);
        }
    }
}

/// Processing a sequence and then one more atom.
pub proof fn lemma_run_atoms_snoc<T>(
    st: LayoutState<T>,
    store: FontStore,
    cfg: TextLayoutConfig,
    atoms: Seq<Atom<T>>,
    a: Atom<T>,
)
    ensures
        run_atoms(st, store, cfg, atoms.push(a)) == step_atom(
            run_atoms(st, store, cfg, atoms),
            store,
            cfg,
            a,
        ),
    decreases atoms.len(),
{
    if atoms.len() == 0 {
        assert(atoms.push(a).len() == 1);
        assert(atoms.push(a).first() == a);
        assert(atoms.push(a).drop_first() =~= Seq::<Atom<T>>::empty());
        assert(run_atoms(st, store, cfg, atoms.push(a)) == run_atoms(
            step_atom(st, store, cfg, a),
            store,
            cfg,
            atoms.push(a).drop_first(),
        ));
        assert(run_atoms(st, store, cfg, atoms) == st);
    } else {
        assert(atoms.push(a).len() == atoms.len() + 1);
        assert(atoms.push(a).first() == atoms.first());
        assert(atoms.push(a).drop_first() =~= atoms.drop_first().push(a));
        lemma_run_atoms_snoc(
            step_atom(st, store, cfg, atoms.first()),
            store,
            cfg,
            atoms.drop_first(),
            a,
        );
        assert(run_atoms(st, store, cfg, atoms.push(a)) == run_atoms(
            step_atom(st, store, cfg, atoms.first()),
            store,
            cfg,
            atoms.push(a).drop_first(),
        ));
        assert(run_atoms(st, store, cfg, atoms) == run_atoms(
            step_atom(st, store, cfg, atoms.first()),
            store,
            cfg,
            atoms.drop_first(),
        ));
    }
}

/// Processing a concatenation processes each part in turn.
pub proof fn lemma_run_atoms_append<T>(
    st: LayoutState<T>,
    store: FontStore,
    cfg: TextLayoutConfig,
    a: Seq<Atom<T>>,
    b: Seq<Atom<T>>,
)
    ensures
        run_atoms(st, store, cfg, a + b) == run_atoms(run_atoms(st, store, cfg, a), store, cfg, b),
    decreases b.len(),
{
    if b.len() == 0 {
        assert(a + b =~= a);
    } else {
        assert((a + b.drop_last()).push(b.last()) =~= a + b);
        assert(b.drop_last().push(b.last()) =~= b);
        lemma_run_atoms_append(st, store, cfg, a, b.drop_last());
        lemma_run_atoms_snoc(st, store, cfg, a + b.drop_last(), b.last());
        lemma_run_atoms_snoc(run_atoms(st, store, cfg, a), store, cfg, b.drop_last(), b.last());
        assert(run_atoms(st, store, cfg, a + b) == run_atoms(
            st,
            store,
            cfg,
            (a + b.drop_last()).push(b.last()),
        ));
        assert(run_atoms(run_atoms(st, store, cfg, a), store, cfg, b) == run_atoms(
            run_atoms(st, store, cfg, a),
            store,
            cfg,
            b.drop_last().push(b.last()),
        ));
    }
}

/// Atoms whose font the store does not know, or whose font lacks horizontal
/// line metrics, leave the state unchanged.
pub proof fn lemma_run_atoms_all_skip<T>(
    st: LayoutState<T>,
    store: FontStore,
    cfg: TextLayoutConfig,
    atoms: Seq<Atom<T>>,
)
    requires
        forall|i: int|
            0 <= i < atoms.len() ==> match store.spec_sized_font(
                (#[trigger] atoms[i]).1,
                atoms[i].2,
            ) {
                None => true,
                Some(sf) => sf.line_metrics is None,
            },
    ensures
        run_atoms(st, store, cfg, atoms) == st,
    decreases atoms.len(),
{
    if atoms.len() == 0 {
    } else {
        assert(step_atom(st, store, cfg, atoms.first()) == st);
        assert forall|i: int| 0 <= i < atoms.drop_first().len() implies match store.spec_sized_font(
            (#[trigger] atoms.drop_first()[i]).1,
            atoms.drop_first()[i].2,
        ) {
            None => true,
            Some(sf) => sf.line_metrics is None,
        } by {
            assert(atoms.drop_first()[i] == atoms[i + 1]);
        }
        lemma_run_atoms_all_skip(st, store, cfg, atoms.drop_first());
    }
}

/// One atom commits at most two fragments.
pub proof fn lemma_step_atom_lines_growth<T>(
    st: LayoutState<T>,
    store: FontStore,
    cfg: TextLayoutConfig,
    a: Atom<T>,
)
    ensures
        st.lines.len() <= step_atom(st, store, cfg, a).lines.len() <= st.lines.len() + 2,
{
}

/// The final flush commits at most two fragments.
pub proof fn lemma_flush_lines_growth<T>(st: LayoutState<T>, store: FontStore, cfg: TextLayoutConfig)
    ensures
        st.lines.len() <= flush_state(st, store, cfg).len() <= st.lines.len() + 2,
{
}

/// The flattened character stream of a whole text: the atoms of every run,
/// in order.
pub open spec fn atoms_of<T>(texts: Seq<crate::layout::TextElement<T>>) -> Seq<Atom<T>>
    decreases texts.len(),
{
    if texts.len() == 0 {
        Seq::empty()
    } else {
        atoms_of(texts.drop_last()) + atoms_of_run(
            texts.last().font_id,
            texts.last().font_size,
            texts.last().content@,
            texts.last().user_data,
        )
    }
}

/// Flattening distributes over concatenation of runs.
pub proof fn lemma_atoms_of_append<T>(
    a: Seq<crate::layout::TextElement<T>>,
    b: Seq<crate::layout::TextElement<T>>,
)
    ensures
        atoms_of(a + b) =~= atoms_of(a) + atoms_of(b),
    decreases b.len(),
{
    if b.len() == 0 {
        assert(a + b =~= a);
        assert(atoms_of(a) + atoms_of(b) =~= atoms_of(a));
    } else {
        assert((a + b).drop_last() =~= a + b.drop_last());
        assert((a + b).last() == b.last());
        lemma_atoms_of_append(a, b.drop_last());
    }
}

/// Every prefix of runs flattens to at most the whole stream's length.
pub proof fn lemma_atoms_of_take_len<T>(texts: Seq<crate::layout::TextElement<T>>, t: int)
    requires
        0 <= t <= texts.len(),
    ensures
        atoms_of(texts.take(t)).len() <= atoms_of(texts).len(),
{
    assert(texts.take(t) + texts.skip(t) =~= texts);
    lemma_atoms_of_append(texts.take(t), texts.skip(t));
}

/// Unfolding the total height from the front.
pub proof fn lemma_total_height_of_first<T>(frags: Seq<FragModel<T>>, scale: u32)
    requires
        frags.len() > 0,
    ensures
        total_height_of(frags, scale) == line_height_of(frags.first(), scale) + total_height_of(
            frags.drop_first(),
            scale,
        ),
    decreases frags.len(),
{
    if frags.len() == 1 {
        assert(frags.drop_first() =~= Seq::<FragModel<T>>::empty());
        assert(frags.drop_last() =~= Seq::<FragModel<T>>::empty());
    } else {
        lemma_total_height_of_first(frags.drop_last(), scale);
        assert(frags.drop_last().drop_first() =~= frags.drop_first().drop_last());
        assert(frags.drop_last().first() == frags.first());
        assert(frags.drop_first().last() == frags.last());
    }
}

/// Placing one more fragment places it below the previous ones.
pub proof fn lemma_place_lines_snoc<T>(
    frags: Seq<FragModel<T>>,
    x: FragModel<T>,
    cfg: TextLayoutConfig,
    container: int,
    cur_y: int,
)
    ensures
        place_lines(frags.push(x), cfg, container, cur_y) =~= place_lines(
            frags,
            cfg,
            container,
            cur_y,
        ).push(place_line(x, cfg, container, cur_y + total_height_of(frags, cfg.line_height_scale))),
    decreases frags.len(),
{
    if frags.len() == 0 {
        assert(frags.push(x).len() == 1);
        assert(frags.push(x).first() == x);
        assert(frags.push(x).drop_first() =~= Seq::<FragModel<T>>::empty());
        assert(place_lines(frags.push(x), cfg, container, cur_y) == seq![
            place_line(x, cfg, container, cur_y),
        ] + place_lines(
            frags.push(x).drop_first(),
            cfg,
            container,
            cur_y + line_height_of(x, cfg.line_height_scale),
        ));
        assert(place_lines(frags, cfg, container, cur_y) =~= Seq::<LineModel<T>>::empty());
        assert(place_lines(frags.push(x), cfg, container, cur_y) =~= place_lines(
            frags,
            cfg,
            container,
            cur_y,
        ).push(place_line(x, cfg, container, cur_y)));
    } else {
        let pl_first = place_line(frags.first(), cfg, container, cur_y);
        let rest = frags.drop_first();
        let y1 = cur_y + line_height_of(frags.first(), cfg.line_height_scale);
        assert(frags.push(x).len() == frags.len() + 1);
        assert(frags.push(x).first() == frags.first());
        assert(frags.push(x).drop_first() =~= rest.push(x));
        lemma_place_lines_snoc(rest, x, cfg, container, y1);
        lemma_total_height_of_first(frags, cfg.line_height_scale);
        let e = place_line(
            x,
            cfg,
            container,
            cur_y + total_height_of(frags, cfg.line_height_scale),
        );
        assert(place_lines(frags.push(x), cfg, container, cur_y) == seq![pl_first] + place_lines(
            frags.push(x).drop_first(),
            cfg,
            container,
            y1,
        ));
        assert(place_lines(frags, cfg, container, cur_y) == seq![pl_first] + place_lines(
            rest,
            cfg,
            container,
            y1,
        ));
        assert(place_lines(rest.push(x), cfg, container, y1) == place_lines(
            rest,
            cfg,
            container,
            y1,
        ).push(e));
        assert(seq![pl_first] + place_lines(rest, cfg, container, y1).push(e) =~= (seq![pl_first]
            + place_lines(rest, cfg, container, y1)).push(e));
    }
}

/// Largest scaled line height a bounded fragment can reach:
/// `3 * METRIC_LIMIT * SCALE_LIMIT / 64`, written as a literal so that height
/// sums stay linear.
pub open spec fn line_height_max() -> int {
    0x3_0000_0000
}

/// The scaled height of a bounded fragment is non-negative and bounded.
pub proof fn lemma_line_height_bounds<T>(f: FragModel<T>, scale: u32, b: int)
    requires
        frag_bounded(f, b),
        scale <= crate::config::SCALE_LIMIT,
    ensures
        0 <= line_height_of(f, scale) <= line_height_max(),
{
    let raw = f.ascent - f.descent + f.gap;
    assert(0 <= raw <= 3 * (METRIC_LIMIT as int));
    vstd::arithmetic::mul::lemma_mul_nonnegative(raw, scale as int);
    vstd::arithmetic::mul::lemma_mul_upper_bound(
        raw,
        3 * (METRIC_LIMIT as int),
        scale as int,
        crate::config::SCALE_LIMIT as int,
    );
    vstd::arithmetic::div_mod::lemma_div_is_ordered(
        raw * (scale as int),
        3 * (METRIC_LIMIT as int) * (crate::config::SCALE_LIMIT as int),
        64,
    );
    assert(3 * (METRIC_LIMIT as int) * (crate::config::SCALE_LIMIT as int) == 64
        * 0x3_0000_0000);
    vstd::arithmetic::div_mod::lemma_div_multiples_vanish(0x3_0000_0000, 64);
    assert(line_height_of(f, scale) >= 0) by {
        vstd::arithmetic::div_mod::lemma_div_pos_is_pos(raw * (scale as int), 64);
    }
}

/// The whole pipeline: flatten the runs, buffer the fragments, flush, and
/// assemble. This is what `layout` computes.
pub open spec fn layout_model<T>(
    texts: Seq<crate::layout::TextElement<T>>,
    cfg: TextLayoutConfig,
    store: FontStore,
) -> LayoutModel<T> {
    assemble(
        flush_state(run_atoms(state_init(), store, cfg, atoms_of(texts)), store, cfg),
        cfg,
    )
}

} // verus!
