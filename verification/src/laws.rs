//! Laws of the layout model.
//!
//! Public proof functions stating, over `crate::model`, what holds of every
//! layout: the totals, the vertical containment of lines, the effect of
//! switching alignment, and the independence of layout from how the
//! character stream is split into runs.

use vstd::prelude::*;

use crate::config::{HorizontalAlign, TextLayoutConfig, VerticalAlign};
use crate::font_store::FontStore;
use crate::layout::TextElement;
use crate::model::{
    atoms_of, atoms_of_run, block_y_start, div2, flush_state, frag_blank,
    frag_concat, frag_push, frag_single, layout_model, line_height_of, max_width_of, offset_glyphs,
    place_line, place_lines, run_atoms, state_init, step_atom, total_height_of, Atom, FragModel,
    LayoutModel, LayoutState, LineModel,
};

verus! {

/// The fragment metric maxima keep the signs the fonts supply: ascent and
/// line gap non-negative, descent non-positive.
pub open spec fn frag_metrics_ok<T>(f: FragModel<T>) -> bool {
    &&& f.ascent >= 0
    &&& f.descent <= 0
    &&& f.gap >= 0
}

/// Every fragment of a buffering state has well-signed metric maxima.
pub open spec fn state_metrics_ok<T>(st: LayoutState<T>) -> bool {
    &&& (st.line matches Some(f) ==> frag_metrics_ok(f))
    &&& (st.word matches Some(f) ==> frag_metrics_ok(f))
    &&& forall|i: int| 0 <= i < st.lines.len() ==> frag_metrics_ok(#[trigger] st.lines[i])
}

/// One step preserves well-signed metric maxima, because every line metric a
/// well-formed store supplies is well signed and the maxima only grow toward
/// them.
proof fn lemma_step_atom_metrics<T>(
    st: LayoutState<T>,
    store: FontStore,
    cfg: TextLayoutConfig,
    a: Atom<T>,
)
    requires
        store.wf(),
        state_metrics_ok(st),
    ensures
        state_metrics_ok(step_atom(st, store, cfg, a)),
{
    let r = step_atom(st, store, cfg, a);
    match store.spec_sized_font(a.1, a.2) {
        None => {},
        Some(sf) => {
            crate::font_store::lemma_find_sized_font_wf(store.fonts@, a.1, a.2);
            match sf.line_metrics {
                None => {},
                Some(lm) => {
                    assert(lm.wf());
                    assert forall|i: int| 0 <= i < r.lines.len() implies frag_metrics_ok(
                        #[trigger] r.lines[i],
                    ) by {
                        if i < st.lines.len() {
                            assert(r.lines[i] == st.lines[i]);
                        } else if i == st.lines.len() && r.lines.len() > st.lines.len() {
                            assert(r.lines[i] == r.lines[st.lines.len() as int]);
                        }
                    }
                },
            }
        },
    }
}

/// Running any atom sequence preserves well-signed metric maxima.
pub proof fn lemma_run_atoms_metrics<T>(
    st: LayoutState<T>,
    store: FontStore,
    cfg: TextLayoutConfig,
    atoms: Seq<Atom<T>>,
)
    requires
        store.wf(),
        state_metrics_ok(st),
    ensures
        state_metrics_ok(run_atoms(st, store, cfg, atoms)),
    decreases atoms.len(),
{
    if atoms.len() > 0 {
        lemma_step_atom_metrics(st, store, cfg, atoms.first());
        lemma_run_atoms_metrics(
            step_atom(st, store, cfg, atoms.first()),
            store,
            cfg,
            atoms.drop_first(),
        );
    }
}

/// The final flush preserves well-signed metric maxima of every line.
pub proof fn lemma_flush_metrics<T>(st: LayoutState<T>, store: FontStore, cfg: TextLayoutConfig)
    requires
        state_metrics_ok(st),
    ensures
        forall|i: int|
            0 <= i < flush_state(st, store, cfg).len() ==> frag_metrics_ok(
                #[trigger] flush_state(st, store, cfg)[i],
            ),
{
    let r = flush_state(st, store, cfg);
    assert forall|i: int| 0 <= i < r.len() implies frag_metrics_ok(#[trigger] r[i]) by {
        if i < st.lines.len() {
            assert(r[i] == st.lines[i]);
        }
    }
}

/// The fragments a layout of a well-formed store commits are all well
/// signed.
pub proof fn lemma_layout_frags_metrics<T>(
    texts: Seq<TextElement<T>>,
    cfg: TextLayoutConfig,
    store: FontStore,
)
    requires
        store.wf(),
    ensures
        forall|i: int|
            0 <= i < flush_state(
                run_atoms(state_init::<T>(), store, cfg, atoms_of(texts)),
                store,
                cfg,
            ).len() ==> frag_metrics_ok(
                #[trigger] flush_state(
                    run_atoms(state_init::<T>(), store, cfg, atoms_of(texts)),
                    store,
                    cfg,
                )[i],
            ),
{
    lemma_run_atoms_metrics(state_init::<T>(), store, cfg, atoms_of(texts));
    lemma_flush_metrics(run_atoms(state_init::<T>(), store, cfg, atoms_of(texts)), store, cfg);
}

/// The line a placement run puts at position `i`: the fragment placed below
/// the total height of the fragments before it.
pub proof fn lemma_place_lines_index<T>(
    frags: Seq<FragModel<T>>,
    cfg: TextLayoutConfig,
    container: int,
    cur_y: int,
    i: int,
)
    requires
        0 <= i < frags.len(),
    ensures
        place_lines(frags, cfg, container, cur_y).len() == frags.len(),
        place_lines(frags, cfg, container, cur_y)[i] == place_line(
            frags[i],
            cfg,
            container,
            cur_y + total_height_of(frags.take(i), cfg.line_height_scale),
        ),
    decreases frags.len(),
{
    lemma_place_lines_len(frags, cfg, container, cur_y);
    if i == 0 {
        assert(frags.take(0) =~= Seq::<FragModel<T>>::empty());
        assert(place_lines(frags, cfg, container, cur_y)[0] == place_line(
            frags.first(),
            cfg,
            container,
            cur_y,
        ));
    } else {
        let y1 = cur_y + line_height_of(frags.first(), cfg.line_height_scale);
        lemma_place_lines_index(frags.drop_first(), cfg, container, y1, i - 1);
        assert(frags.drop_first()[i - 1] == frags[i]);
        assert(frags.drop_first().take(i - 1) =~= frags.take(i).drop_first());
        crate::model::lemma_total_height_of_first(frags.take(i), cfg.line_height_scale);
        assert(frags.take(i).first() == frags.first());
        assert(place_lines(frags, cfg, container, cur_y)[i] == place_lines(
            frags.drop_first(),
            cfg,
            container,
            y1,
        )[i - 1]);
    }
}

/// A placement run yields one line per fragment.
pub proof fn lemma_place_lines_len<T>(
    frags: Seq<FragModel<T>>,
    cfg: TextLayoutConfig,
    container: int,
    cur_y: int,
)
    ensures
        place_lines(frags, cfg, container, cur_y).len() == frags.len(),
    decreases frags.len(),
{
    if frags.len() > 0 {
        lemma_place_lines_len(
            frags.drop_first(),
            cfg,
            container,
            cur_y + line_height_of(frags.first(), cfg.line_height_scale),
        );
    }
}

/// CONTAINMENT. In every layout of a well-formed store, each line's bottom
/// sits exactly one line height below its top, the line height is never
/// negative, and the top lies strictly above the bottom whenever the line
/// height is not zero. (A blank line of a text without metrics, or a zero
/// line-height scale, gives a zero-height line with `top == bottom`.)
pub proof fn lemma_line_containment<T>(
    texts: Seq<TextElement<T>>,
    cfg: TextLayoutConfig,
    store: FontStore,
    i: int,
)
    requires
        store.wf(),
        0 <= i < layout_model(texts, cfg, store).lines.len(),
    ensures
        layout_model(texts, cfg, store).lines[i].bottom == layout_model(texts, cfg, store).lines[i].top
            + layout_model(texts, cfg, store).lines[i].line_height,
        layout_model(texts, cfg, store).lines[i].line_height >= 0,
        layout_model(texts, cfg, store).lines[i].line_height > 0 ==> layout_model(
            texts,
            cfg,
            store,
        ).lines[i].top < layout_model(texts, cfg, store).lines[i].bottom,
{
    let frags = flush_state(
        run_atoms(state_init::<T>(), store, cfg, atoms_of(texts)),
        store,
        cfg,
    );
    let m = layout_model(texts, cfg, store);
    let th = total_height_of(frags, cfg.line_height_scale);
    let tw = max_width_of(frags);
    let container = match cfg.max_width {
        Some(w) => w as int,
        None => tw,
    };
    let layout_h = match cfg.max_height {
        Some(h) => h as int,
        None => th,
    };
    let y0 = block_y_start(cfg.vertical_align, layout_h, th);
    lemma_place_lines_len(frags, cfg, container, y0);
    lemma_place_lines_index(frags, cfg, container, y0, i);
    lemma_layout_frags_metrics(texts, cfg, store);
    assert(frag_metrics_ok(frags[i]));
    let raw = frags[i].ascent - frags[i].descent + frags[i].gap;
    assert(m.lines[i].line_height == raw * cfg.line_height_scale / 64);
    vstd::arithmetic::mul::lemma_mul_nonnegative(raw, cfg.line_height_scale as int);
    vstd::arithmetic::div_mod::lemma_div_pos_is_pos(raw * (cfg.line_height_scale as int), 64);
}

/// Sum of the line heights of assembled lines.
pub open spec fn sum_line_heights<T>(lines: Seq<LineModel<T>>) -> int
    decreases lines.len(),
{
    if lines.len() == 0 {
        0
    } else {
        lines.first().line_height + sum_line_heights(lines.drop_first())
    }
}

/// Largest line width of assembled lines, at least zero.
pub open spec fn max_line_widths<T>(lines: Seq<LineModel<T>>) -> int
    decreases lines.len(),
{
    if lines.len() == 0 {
        0
    } else {
        crate::model::max_i(lines.first().line_width, max_line_widths(lines.drop_first()))
    }
}

/// Placed lines carry exactly the fragment heights and widths.
proof fn lemma_place_lines_totals<T>(
    frags: Seq<FragModel<T>>,
    cfg: TextLayoutConfig,
    container: int,
    cur_y: int,
)
    ensures
        sum_line_heights(place_lines(frags, cfg, container, cur_y)) == total_height_of(
            frags,
            cfg.line_height_scale,
        ),
        max_line_widths(place_lines(frags, cfg, container, cur_y)) == max_width_of(frags),
    decreases frags.len(),
{
    if frags.len() == 0 {
    } else {
        let y1 = cur_y + line_height_of(frags.first(), cfg.line_height_scale);
        lemma_place_lines_totals(frags.drop_first(), cfg, container, y1);
        crate::model::lemma_total_height_of_first(frags, cfg.line_height_scale);
        lemma_max_width_of_first(frags);
        let pl = place_lines(frags, cfg, container, cur_y);
        assert(pl.first() == place_line(frags.first(), cfg, container, cur_y));
        assert(pl.drop_first() =~= place_lines(frags.drop_first(), cfg, container, y1));
    }
}

/// Unfolding the maximum width from the front.
proof fn lemma_max_width_of_first<T>(frags: Seq<FragModel<T>>)
    requires
        frags.len() > 0,
    ensures
        max_width_of(frags) == crate::model::max_i(
            frags.first().len,
            max_width_of(frags.drop_first()),
        ),
    decreases frags.len(),
{
    if frags.len() == 1 {
        assert(frags.drop_first() =~= Seq::<FragModel<T>>::empty());
        assert(frags.drop_last() =~= Seq::<FragModel<T>>::empty());
    } else {
        lemma_max_width_of_first(frags.drop_last());
        assert(frags.drop_last().drop_first() =~= frags.drop_first().drop_last());
        assert(frags.drop_last().first() == frags.first());
        assert(frags.drop_first().last() == frags.last());
    }
}

/// TOTALS. In every layout, the total height is the sum of the line heights
/// and the total width is the largest line width (zero with no lines).
pub proof fn lemma_totals<T>(texts: Seq<TextElement<T>>, cfg: TextLayoutConfig, store: FontStore)
    ensures
        layout_model(texts, cfg, store).total_height == sum_line_heights(
            layout_model(texts, cfg, store).lines,
        ),
        layout_model(texts, cfg, store).total_width == max_line_widths(
            layout_model(texts, cfg, store).lines,
        ),
{
    let frags = flush_state(
        run_atoms(state_init::<T>(), store, cfg, atoms_of(texts)),
        store,
        cfg,
    );
    let th = total_height_of(frags, cfg.line_height_scale);
    let tw = max_width_of(frags);
    let container = match cfg.max_width {
        Some(w) => w as int,
        None => tw,
    };
    let layout_h = match cfg.max_height {
        Some(h) => h as int,
        None => th,
    };
    let y0 = block_y_start(cfg.vertical_align, layout_h, th);
    lemma_place_lines_totals(frags, cfg, container, y0);
}

/// Stage one reads only the width limit, the wrap style, and the tab size of
/// a configuration; every other knob leaves the buffered fragments alone.
pub open spec fn same_stage_one_config(c1: TextLayoutConfig, c2: TextLayoutConfig) -> bool {
    &&& c1.max_width == c2.max_width
    &&& c1.wrap_style == c2.wrap_style
    &&& c1.tab_size_in_spaces == c2.tab_size_in_spaces
}

/// One step is the same under two configurations that agree on the stage-one
/// knobs.
proof fn lemma_step_atom_config<T>(
    st: LayoutState<T>,
    store: FontStore,
    c1: TextLayoutConfig,
    c2: TextLayoutConfig,
    a: Atom<T>,
)
    requires
        same_stage_one_config(c1, c2),
    ensures
        step_atom(st, store, c1, a) == step_atom(st, store, c2, a),
{
}

/// Whole runs are the same under two configurations that agree on the
/// stage-one knobs, and so is the final flush.
pub proof fn lemma_run_atoms_config<T>(
    st: LayoutState<T>,
    store: FontStore,
    c1: TextLayoutConfig,
    c2: TextLayoutConfig,
    atoms: Seq<Atom<T>>,
)
    requires
        same_stage_one_config(c1, c2),
    ensures
        run_atoms(st, store, c1, atoms) == run_atoms(st, store, c2, atoms),
        flush_state(run_atoms(st, store, c1, atoms), store, c1) == flush_state(
            run_atoms(st, store, c2, atoms),
            store,
            c2,
        ),
    decreases atoms.len(),
{
    if atoms.len() > 0 {
        lemma_step_atom_config(st, store, c1, c2, atoms.first());
        lemma_run_atoms_config(
            step_atom(st, store, c1, atoms.first()),
            store,
            c1,
            c2,
            atoms.drop_first(),
        );
        lemma_run_atoms_config(
            step_atom(st, store, c2, atoms.first()),
            store,
            c1,
            c2,
            atoms.drop_first(),
        );
    }
}

/// The container width a layout aligns within: the configured maximum, or
/// the total width.
pub open spec fn container_width_of<T>(m: LayoutModel<T>) -> int {
    match m.config.max_width {
        Some(w) => w as int,
        None => m.total_width,
    }
}

/// The layout height a block is aligned within: the configured maximum, or
/// the total height.
pub open spec fn layout_height_of<T>(m: LayoutModel<T>) -> int {
    match m.config.max_height {
        Some(h) => h as int,
        None => m.total_height,
    }
}

/// ALIGNMENT SYMMETRY. Switching the horizontal alignment from left to
/// right, all else equal, shifts every glyph of every line right by exactly
/// the container width minus that line's width, and changes nothing else
/// about the line.
pub proof fn lemma_align_left_right<T>(
    texts: Seq<TextElement<T>>,
    cfg: TextLayoutConfig,
    store: FontStore,
    i: int,
    j: int,
)
    requires
        cfg.horizontal_align == HorizontalAlign::Left,
        0 <= i < layout_model(texts, cfg, store).lines.len(),
        0 <= j < layout_model(texts, cfg, store).lines[i].glyphs.len(),
    ensures
        ({
            let left = layout_model(texts, cfg, store);
            let right = layout_model(
                texts,
                TextLayoutConfig { horizontal_align: HorizontalAlign::Right, ..cfg },
                store,
            );
            &&& right.lines.len() == left.lines.len()
            &&& right.lines[i].glyphs.len() == left.lines[i].glyphs.len()
            &&& right.lines[i].line_width == left.lines[i].line_width
            &&& right.lines[i].glyphs[j].x == left.lines[i].glyphs[j].x + (container_width_of(left)
                - left.lines[i].line_width)
            &&& right.lines[i].glyphs[j].y == left.lines[i].glyphs[j].y
        }),
{
    let cfg2 = TextLayoutConfig { horizontal_align: HorizontalAlign::Right, ..cfg };
    lemma_run_atoms_config(state_init::<T>(), store, cfg, cfg2, atoms_of(texts));
    let frags = flush_state(
        run_atoms(state_init::<T>(), store, cfg, atoms_of(texts)),
        store,
        cfg,
    );
    let th = total_height_of(frags, cfg.line_height_scale);
    let tw = max_width_of(frags);
    let container = match cfg.max_width {
        Some(w) => w as int,
        None => tw,
    };
    let layout_h = match cfg.max_height {
        Some(h) => h as int,
        None => th,
    };
    let y0 = block_y_start(cfg.vertical_align, layout_h, th);
    lemma_place_lines_len(frags, cfg, container, y0);
    lemma_place_lines_index(frags, cfg, container, y0, i);
    lemma_place_lines_index(frags, cfg2, container, y0, i);
    let cur_y = y0 + total_height_of(frags.take(i), cfg.line_height_scale);
    let lh = line_height_of(frags[i], cfg.line_height_scale);
    let base = crate::model::baseline_of(frags[i], cur_y, lh);
    assert(layout_model(texts, cfg, store).lines[i].glyphs == offset_glyphs(
        frags[i].glyphs,
        0,
        base,
    ));
    assert(layout_model(texts, cfg2, store).lines[i].glyphs == offset_glyphs(
        frags[i].glyphs,
        container - frags[i].len,
        base,
    ));
}

/// VERTICAL SYMMETRY. Switching the vertical alignment from top to middle,
/// all else equal, shifts every line and every glyph down by exactly half of
/// the layout height minus the total height (rounded toward zero), and
/// changes nothing else.
pub proof fn lemma_align_top_middle<T>(
    texts: Seq<TextElement<T>>,
    cfg: TextLayoutConfig,
    store: FontStore,
    i: int,
    j: int,
)
    requires
        cfg.vertical_align == VerticalAlign::Top,
        0 <= i < layout_model(texts, cfg, store).lines.len(),
        0 <= j < layout_model(texts, cfg, store).lines[i].glyphs.len(),
    ensures
        ({
            let top = layout_model(texts, cfg, store);
            let middle = layout_model(
                texts,
                TextLayoutConfig { vertical_align: VerticalAlign::Middle, ..cfg },
                store,
            );
            let d = div2(layout_height_of(top) - top.total_height);
            &&& middle.lines.len() == top.lines.len()
            &&& middle.lines[i].glyphs.len() == top.lines[i].glyphs.len()
            &&& middle.lines[i].top == top.lines[i].top + d
            &&& middle.lines[i].bottom == top.lines[i].bottom + d
            &&& middle.lines[i].glyphs[j].y == top.lines[i].glyphs[j].y + d
            &&& middle.lines[i].glyphs[j].x == top.lines[i].glyphs[j].x
        }),
{
    let cfg2 = TextLayoutConfig { vertical_align: VerticalAlign::Middle, ..cfg };
    lemma_run_atoms_config(state_init::<T>(), store, cfg, cfg2, atoms_of(texts));
    let frags = flush_state(
        run_atoms(state_init::<T>(), store, cfg, atoms_of(texts)),
        store,
        cfg,
    );
    let th = total_height_of(frags, cfg.line_height_scale);
    let tw = max_width_of(frags);
    let container = match cfg.max_width {
        Some(w) => w as int,
        None => tw,
    };
    let layout_h = match cfg.max_height {
        Some(h) => h as int,
        None => th,
    };
    let d = div2(layout_h - th);
    lemma_place_lines_len(frags, cfg, container, 0);
    lemma_place_lines_index(frags, cfg, container, 0, i);
    lemma_place_lines_index(frags, cfg2, container, d, i);
    let cur_y = total_height_of(frags.take(i), cfg.line_height_scale);
    let lh = line_height_of(frags[i], cfg.line_height_scale);
    assert(layout_model(texts, cfg, store).lines[i].glyphs == offset_glyphs(
        frags[i].glyphs,
        crate::model::x_offset(cfg.horizontal_align, container, frags[i].len),
        crate::model::baseline_of(frags[i], cur_y, lh),
    ));
    assert(layout_model(texts, cfg2, store).lines[i].glyphs == offset_glyphs(
        frags[i].glyphs,
        crate::model::x_offset(cfg.horizontal_align, container, frags[i].len),
        crate::model::baseline_of(frags[i], cur_y + d, lh),
    ));
}

/// A layout depends on the runs only through the flattened character
/// stream.
pub proof fn lemma_layout_by_atoms<T>(
    texts1: Seq<TextElement<T>>,
    texts2: Seq<TextElement<T>>,
    cfg: TextLayoutConfig,
    store: FontStore,
)
    requires
        atoms_of(texts1) == atoms_of(texts2),
    ensures
        layout_model(texts1, cfg, store) == layout_model(texts2, cfg, store),
{
}

/// Splitting one run's characters into two runs of the same font, size and
/// payload flattens to the same atoms.
pub proof fn lemma_split_run_atoms<T>(e: TextElement<T>, e1: TextElement<T>, e2: TextElement<T>)
    requires
        e1.font_id == e.font_id,
        e2.font_id == e.font_id,
        e1.font_size == e.font_size,
        e2.font_size == e.font_size,
        e1.user_data == e.user_data,
        e2.user_data == e.user_data,
        e1.content@ + e2.content@ == e.content@,
    ensures
        atoms_of(seq![e1, e2]) == atoms_of(seq![e]),
{
    let r = atoms_of_run(e.font_id, e.font_size, e.content@, e.user_data);
    let r1 = atoms_of_run(e.font_id, e.font_size, e1.content@, e.user_data);
    let r2 = atoms_of_run(e.font_id, e.font_size, e2.content@, e.user_data);
    assert(r1 + r2 =~= r);
    let empty_texts = Seq::<TextElement<T>>::empty();
    assert(atoms_of(empty_texts) =~= Seq::<Atom<T>>::empty());
    assert(seq![e1].drop_last() =~= empty_texts);
    assert(seq![e1].last() == e1);
    assert(atoms_of(seq![e1]) =~= r1);
    assert(seq![e1, e2].drop_last() =~= seq![e1]);
    assert(seq![e1, e2].last() == e2);
    assert(atoms_of(seq![e1, e2]) =~= r1 + r2);
    assert(seq![e].drop_last() =~= empty_texts);
    assert(seq![e].last() == e);
    assert(atoms_of(seq![e]) =~= r);
}

/// KERNING ACROSS RUNS. Laying out one run is the same as laying out the
/// same characters split into two adjacent runs of the same font, size and
/// payload: kerning applies across the run boundary exactly as within a run.
pub proof fn lemma_kerning_across_runs<T>(
    e: TextElement<T>,
    e1: TextElement<T>,
    e2: TextElement<T>,
    cfg: TextLayoutConfig,
    store: FontStore,
)
    requires
        e1.font_id == e.font_id,
        e2.font_id == e.font_id,
        e1.font_size == e.font_size,
        e2.font_size == e.font_size,
        e1.user_data == e.user_data,
        e2.user_data == e.user_data,
        e1.content@ + e2.content@ == e.content@,
    ensures
        layout_model(seq![e1, e2], cfg, store) == layout_model(seq![e], cfg, store),
{
    lemma_split_run_atoms(e, e1, e2);
    lemma_layout_by_atoms(seq![e1, e2], seq![e], cfg, store);
}

/// An atom the store can resolve: its font and line metrics are known, and
/// the glyph it needs (the space glyph, for spaces and tabs) is present.
pub open spec fn atom_resolvable<T>(store: FontStore, a: Atom<T>) -> bool {
    match store.spec_sized_font(a.1, a.2) {
        None => false,
        Some(sf) => {
            &&& sf.line_metrics is Some
            &&& (crate::model::is_hard_break(a.0) || if a.0 == ' ' || a.0 == '\t' {
                sf.spec_glyph(' ') is Some
            } else {
                sf.spec_glyph(a.0) is Some
            })
        },
    }
}

/// Number of hard break atoms.
pub open spec fn count_breaks<T>(atoms: Seq<Atom<T>>) -> int
    decreases atoms.len(),
{
    if atoms.len() == 0 {
        0
    } else {
        (if crate::model::is_hard_break(atoms.first().0) {
            1int
        } else {
            0int
        }) + count_breaks(atoms.drop_first())
    }
}

/// Whether a line fragment is still open after the atoms: true when any
/// resolvable atom follows the last hard break.
pub open spec fn ends_open<T>(line0: bool, atoms: Seq<Atom<T>>) -> bool
    decreases atoms.len(),
{
    if atoms.len() == 0 {
        line0
    } else {
        ends_open(!crate::model::is_hard_break(atoms.first().0), atoms.drop_first())
    }
}

/// Under no wrapping, every hard break commits exactly one line, no other
/// atom commits any, and the word fragment stays unused.
proof fn lemma_nowrap_run<T>(
    st: LayoutState<T>,
    store: FontStore,
    cfg: TextLayoutConfig,
    atoms: Seq<Atom<T>>,
)
    requires
        cfg.wrap_style == crate::config::WrapStyle::NoWrap,
        st.word is None,
        forall|i: int| 0 <= i < atoms.len() ==> atom_resolvable(store, #[trigger] atoms[i]),
    ensures
        run_atoms(st, store, cfg, atoms).lines.len() == st.lines.len() + count_breaks(atoms),
        run_atoms(st, store, cfg, atoms).word is None,
        (run_atoms(st, store, cfg, atoms).line is Some) == ends_open(st.line is Some, atoms),
    decreases atoms.len(),
{
    if atoms.len() > 0 {
        let a = atoms.first();
        assert(atom_resolvable(store, a));
        let st1 = step_atom(st, store, cfg, a);
        if crate::model::is_hard_break(a.0) {
            assert(st1.lines.len() == st.lines.len() + 1);
            assert(st1.line is None);
            assert(st1.word is None);
        } else {
            assert(st1.lines.len() == st.lines.len());
            assert(st1.line is Some);
            assert(st1.word is None);
        }
        assert forall|i: int| 0 <= i < atoms.drop_first().len() implies atom_resolvable(
            store,
            #[trigger] atoms.drop_first()[i],
        ) by {
            assert(atoms.drop_first()[i] == atoms[i + 1]);
        }
        lemma_nowrap_run(st1, store, cfg, atoms.drop_first());
    }
}

/// LINE COUNT WITHOUT WRAPPING. Under no wrapping, with every character
/// resolvable, the layout has one line per hard break, plus one more when
/// any character follows the last break (so a text that does not end at a
/// break has exactly one more line than it has hard breaks).
pub proof fn lemma_nowrap_line_count<T>(
    texts: Seq<TextElement<T>>,
    cfg: TextLayoutConfig,
    store: FontStore,
)
    requires
        cfg.wrap_style == crate::config::WrapStyle::NoWrap,
        forall|i: int|
            0 <= i < atoms_of(texts).len() ==> atom_resolvable(store, #[trigger] atoms_of(texts)[i]),
    ensures
        layout_model(texts, cfg, store).lines.len() == count_breaks(atoms_of(texts)) + (
        if ends_open(false, atoms_of(texts)) {
            1int
        } else {
            0int
        }),
{
    lemma_nowrap_run(state_init::<T>(), store, cfg, atoms_of(texts));
    let st = run_atoms(state_init::<T>(), store, cfg, atoms_of(texts));
    let frags = flush_state(st, store, cfg);
    let th = total_height_of(frags, cfg.line_height_scale);
    let tw = max_width_of(frags);
    let container = match cfg.max_width {
        Some(w) => w as int,
        None => tw,
    };
    let layout_h = match cfg.max_height {
        Some(h) => h as int,
        None => th,
    };
    let y0 = block_y_start(cfg.vertical_align, layout_h, th);
    lemma_place_lines_len(frags, cfg, container, y0);
}

/// Every glyph bitmap of every font in the store ends within `w` of its
/// origin.
pub open spec fn store_glyphs_fit(store: FontStore, w: int) -> bool {
    forall|p: int, i: int|
        0 <= p < store.fonts@.len() && 0 <= i < store.fonts@[p].glyphs@.len() ==> (
        #[trigger] store.fonts@[p].glyphs@[i]).metrics.xmin + store.fonts@[p].glyphs@[i].metrics.width
            <= w
}

/// A glyph found in a fitting table fits.
proof fn lemma_find_glyph_fit(glyphs: Seq<crate::font_store::GlyphEntry>, ch: char, w: int)
    requires
        forall|i: int|
            0 <= i < glyphs.len() ==> (#[trigger] glyphs[i]).metrics.xmin + glyphs[i].metrics.width
                <= w,
    ensures
        match crate::font_store::find_glyph(glyphs, ch) {
            Some(ge) => ge.metrics.xmin + ge.metrics.width <= w,
            None => true,
        },
    decreases glyphs.len(),
{
    if glyphs.len() == 0 {
    } else if glyphs[0].ch == ch {
    } else {
        assert forall|i: int|
            0 <= i < glyphs.drop_first().len() implies (#[trigger] glyphs.drop_first()[i]).metrics.xmin
                + glyphs.drop_first()[i].metrics.width <= w by {
            assert(glyphs.drop_first()[i] == glyphs[i + 1]);
        }
        lemma_find_glyph_fit(glyphs.drop_first(), ch, w);
    }
}

/// A font found in a fitting store keeps all its glyphs within `w`.
proof fn lemma_find_font_fit(fonts: Seq<crate::font_store::SizedFont>, font_id: u32, size: u32, w: int)
    requires
        forall|p: int, i: int|
            0 <= p < fonts.len() && 0 <= i < fonts[p].glyphs@.len() ==> (
            #[trigger] fonts[p].glyphs@[i]).metrics.xmin + fonts[p].glyphs@[i].metrics.width <= w,
    ensures
        match crate::font_store::find_sized_font(fonts, font_id, size) {
            Some(sf) => forall|i: int|
                0 <= i < sf.glyphs@.len() ==> (#[trigger] sf.glyphs@[i]).metrics.xmin
                    + sf.glyphs@[i].metrics.width <= w,
            None => true,
        },
    decreases fonts.len(),
{
    if fonts.len() == 0 {
    } else if fonts[0].font_id == font_id && fonts[0].size == size {
        assert forall|i: int|
            0 <= i < fonts[0].glyphs@.len() implies (#[trigger] fonts[0].glyphs@[i]).metrics.xmin
                + fonts[0].glyphs@[i].metrics.width <= w by {
            assert(fonts[0].glyphs@[i] == fonts[0].glyphs@[i]);
        }
    } else {
        assert forall|p: int, i: int|
            0 <= p < fonts.drop_first().len() && 0 <= i < fonts.drop_first()[p].glyphs@.len()
                implies (#[trigger] fonts.drop_first()[p].glyphs@[i]).metrics.xmin
                + fonts.drop_first()[p].glyphs@[i].metrics.width <= w by {
            assert(fonts.drop_first()[p] == fonts[p + 1]);
        }
        lemma_find_font_fit(fonts.drop_first(), font_id, size, w);
    }
}

/// Fragments within the width limit.
pub open spec fn frag_fits<T>(f: FragModel<T>, w: int) -> bool {
    f.len <= w
}

/// All fragments of a state within the width limit.
pub open spec fn state_fits<T>(st: LayoutState<T>, w: int) -> bool {
    &&& (st.line matches Some(f) ==> frag_fits(f, w))
    &&& (st.word matches Some(f) ==> frag_fits(f, w))
    &&& forall|i: int| 0 <= i < st.lines.len() ==> frag_fits(#[trigger] st.lines[i], w)
}

/// Appending a fitting fragment keeps all committed lines fitting.
proof fn lemma_fits_push<T>(lines: Seq<FragModel<T>>, f: FragModel<T>, w: int)
    requires
        forall|i: int| 0 <= i < lines.len() ==> frag_fits(#[trigger] lines[i], w),
        frag_fits(f, w),
    ensures
        forall|i: int| 0 <= i < lines.push(f).len() ==> frag_fits(#[trigger] lines.push(f)[i], w),
{
    assert forall|i: int| 0 <= i < lines.push(f).len() implies frag_fits(
        #[trigger] lines.push(f)[i],
        w,
    ) by {
        if i < lines.len() {
            assert(lines.push(f)[i] == lines[i]);
        } else {
            assert(lines.push(f)[i] == f);
        }
    }
}

/// Under word wrapping without spaces and tabs, with every glyph within the
/// width limit, every fragment stays within the limit.
proof fn lemma_wordwrap_run<T>(
    st: LayoutState<T>,
    store: FontStore,
    cfg: TextLayoutConfig,
    atoms: Seq<Atom<T>>,
    w: i64,
)
    requires
        cfg.wrap_style == crate::config::WrapStyle::WordWrap,
        cfg.max_width == Some(w),
        w >= 0,
        store_glyphs_fit(store, w as int),
        state_fits(st, w as int),
        forall|i: int| 0 <= i < atoms.len() ==> (#[trigger] atoms[i]).0 != ' ' && atoms[i].0 != '\t',
    ensures
        state_fits(run_atoms(st, store, cfg, atoms), w as int),
    decreases atoms.len(),
{
    if atoms.len() > 0 {
        let a = atoms.first();
        let st1 = step_atom(st, store, cfg, a);
        assert(state_fits(st1, w as int)) by {
            match store.spec_sized_font(a.1, a.2) {
                None => {},
                Some(sf) => {
                    lemma_find_font_fit(store.fonts@, a.1, a.2, w as int);
                    match sf.line_metrics {
                        None => {},
                        Some(lm) => {
                            if crate::model::is_hard_break(a.0) {
                                match (st.line, st.word) {
                                    (Some(lf), Some(wf)) => {
                                        let k = crate::model::concat_kern(store, lf, wf);
                                        if crate::model::fits(cfg.max_width, lf.cursor + k + wf.len) {
                                            lemma_fits_push(
                                                st.lines,
                                                crate::model::frag_concat(lf, wf, k),
                                                w as int,
                                            );
                                        } else {
                                            lemma_fits_push(st.lines, lf, w as int);
                                            lemma_fits_push(st.lines.push(lf), wf, w as int);
                                        }
                                    },
                                    (Some(f), None) => {
                                        lemma_fits_push(st.lines, f, w as int);
                                    },
                                    (None, Some(f)) => {
                                        lemma_fits_push(st.lines, f, w as int);
                                    },
                                    (None, None) => {
                                        lemma_fits_push(st.lines, frag_blank::<T>(), w as int);
                                    },
                                }
                            } else {
                                match sf.spec_glyph(a.0) {
                                    None => {},
                                    Some(ge) => {
                                        lemma_find_glyph_fit(sf.glyphs@, a.0, w as int);
                                        match (st.line, st.word) {
                                            (Some(lf), Some(wf)) => {
                                                lemma_fits_push(st.lines, lf, w as int);
                                                lemma_fits_push(st.lines.push(lf), wf, w as int);
                                            },
                                            (None, Some(wf)) => {
                                                lemma_fits_push(st.lines, wf, w as int);
                                            },
                                            _ => {},
                                        }
                                    },
                                }
                            }
                        },
                    }
                },
            }
        }
        assert forall|i: int|
            0 <= i < atoms.drop_first().len() implies (#[trigger] atoms.drop_first()[i]).0 != ' '
                && atoms.drop_first()[i].0 != '\t' by {
            assert(atoms.drop_first()[i] == atoms[i + 1]);
        }
        lemma_wordwrap_run(st1, store, cfg, atoms.drop_first(), w);
    }
}

/// WORD WRAP BREAK POINT. Under word wrapping with a finite width limit, a
/// text without spaces and tabs, every one of whose glyphs ends within the
/// limit, produces no line wider than the limit. (A line can exceed the
/// limit only through a glyph wider than the limit itself, or through the
/// cursor advance of trailing spaces or tabs.)
pub proof fn lemma_wordwrap_width<T>(
    texts: Seq<TextElement<T>>,
    cfg: TextLayoutConfig,
    store: FontStore,
    w: i64,
    i: int,
)
    requires
        cfg.wrap_style == crate::config::WrapStyle::WordWrap,
        cfg.max_width == Some(w),
        w >= 0,
        store_glyphs_fit(store, w as int),
        forall|k: int|
            0 <= k < atoms_of(texts).len() ==> (#[trigger] atoms_of(texts)[k]).0 != ' '
                && atoms_of(texts)[k].0 != '\t',
        0 <= i < layout_model(texts, cfg, store).lines.len(),
    ensures
        layout_model(texts, cfg, store).lines[i].line_width <= w,
{
    lemma_wordwrap_run(state_init::<T>(), store, cfg, atoms_of(texts), w);
    let st = run_atoms(state_init::<T>(), store, cfg, atoms_of(texts));
    let frags = flush_state(st, store, cfg);
    assert forall|j: int| 0 <= j < frags.len() implies frag_fits(#[trigger] frags[j], w as int) by {
        match (st.line, st.word) {
            (Some(lf), Some(wf)) => {
                let k = crate::model::concat_kern(store, lf, wf);
                if crate::model::fits(cfg.max_width, lf.cursor + k + wf.len) {
                    lemma_fits_push(st.lines, crate::model::frag_concat(lf, wf, k), w as int);
                } else {
                    lemma_fits_push(st.lines, lf, w as int);
                    lemma_fits_push(st.lines.push(lf), wf, w as int);
                }
            },
            (Some(f), None) => {
                lemma_fits_push(st.lines, f, w as int);
            },
            (None, Some(f)) => {
                lemma_fits_push(st.lines, f, w as int);
            },
            (None, None) => {},
        }
    }
    let th = total_height_of(frags, cfg.line_height_scale);
    let tw = max_width_of(frags);
    let container = w as int;
    let layout_h = match cfg.max_height {
        Some(h) => h as int,
        None => th,
    };
    let y0 = block_y_start(cfg.vertical_align, layout_h, th);
    lemma_place_lines_len(frags, cfg, container, y0);
    lemma_place_lines_index(frags, cfg, container, y0, i);
}

/// A fragment within the limit, or holding a glyph that itself ends beyond
/// the limit.
pub open spec fn frag_narrow<T>(f: FragModel<T>, w: int) -> bool {
    ||| f.len <= w
    ||| exists|j: int|
        0 <= j < f.glyphs.len() && (#[trigger] f.glyphs[j]).metrics.xmin + f.glyphs[j].metrics.width
            > w
}

/// All fragments of a state narrow.
pub open spec fn state_narrow<T>(st: LayoutState<T>, w: int) -> bool {
    &&& (st.line matches Some(f) ==> frag_narrow(f, w))
    &&& (st.word matches Some(f) ==> frag_narrow(f, w))
    &&& forall|i: int| 0 <= i < st.lines.len() ==> frag_narrow(#[trigger] st.lines[i], w)
}

/// Appending a narrow fragment keeps all committed lines narrow.
proof fn lemma_narrow_push<T>(lines: Seq<FragModel<T>>, f: FragModel<T>, w: int)
    requires
        forall|i: int| 0 <= i < lines.len() ==> frag_narrow(#[trigger] lines[i], w),
        frag_narrow(f, w),
    ensures
        forall|i: int| 0 <= i < lines.push(f).len() ==> frag_narrow(#[trigger] lines.push(f)[i], w),
{
    assert forall|i: int| 0 <= i < lines.push(f).len() implies frag_narrow(
        #[trigger] lines.push(f)[i],
        w,
    ) by {
        if i < lines.len() {
            assert(lines.push(f)[i] == lines[i]);
        } else {
            assert(lines.push(f)[i] == f);
        }
    }
}

/// Under character wrapping without spaces and tabs, every fragment stays
/// narrow: within the limit, or holding one over-wide glyph.
proof fn lemma_charwrap_run<T>(
    st: LayoutState<T>,
    store: FontStore,
    cfg: TextLayoutConfig,
    atoms: Seq<Atom<T>>,
    w: i64,
)
    requires
        cfg.wrap_style == crate::config::WrapStyle::CharWrap,
        cfg.max_width == Some(w),
        w >= 0,
        state_narrow(st, w as int),
        st.word is None,
        forall|i: int| 0 <= i < atoms.len() ==> (#[trigger] atoms[i]).0 != ' ' && atoms[i].0 != '\t',
    ensures
        state_narrow(run_atoms(st, store, cfg, atoms), w as int),
        run_atoms(st, store, cfg, atoms).word is None,
    decreases atoms.len(),
{
    if atoms.len() > 0 {
        let a = atoms.first();
        let st1 = step_atom(st, store, cfg, a);
        assert(state_narrow(st1, w as int) && st1.word is None) by {
            match store.spec_sized_font(a.1, a.2) {
                None => {},
                Some(sf) => {
                    match sf.line_metrics {
                        None => {},
                        Some(lm) => {
                            if crate::model::is_hard_break(a.0) {
                                match (st.line, st.word) {
                                    (Some(f), None) => {
                                        lemma_narrow_push(st.lines, f, w as int);
                                    },
                                    (None, None) => {
                                        lemma_narrow_push(st.lines, frag_blank::<T>(), w as int);
                                    },
                                    _ => {},
                                }
                            } else {
                                match sf.spec_glyph(a.0) {
                                    None => {},
                                    Some(ge) => {
                                        match st.line {
                                            Some(lf) => {
                                                let pk = crate::model::push_kern(
                                                    lf,
                                                    sf,
                                                    a.1,
                                                    a.2,
                                                    ge.glyph_index,
                                                );
                                                let c = lf.cursor + pk;
                                                if crate::model::fits(
                                                    cfg.max_width,
                                                    c + ge.metrics.xmin + ge.metrics.width,
                                                ) {
                                                    let nf = frag_push(
                                                        lf,
                                                        crate::glyph::GlyphId {
                                                            font_id: a.1,
                                                            glyph_index: ge.glyph_index,
                                                            size: a.2,
                                                        },
                                                        ge.metrics,
                                                        lm,
                                                        a.3,
                                                        pk,
                                                    );
                                                    assert(frag_narrow(nf, w as int)) by {
                                                        if lf.len <= w {
                                                        } else {
                                                            let j = choose|j: int|
                                                                0 <= j < lf.glyphs.len() && (
                                                                #[trigger] lf.glyphs[j]).metrics.xmin
                                                                    + lf.glyphs[j].metrics.width
                                                                    > w;
                                                            assert(nf.glyphs[j]
                                                                == lf.glyphs[j]);
                                                        }
                                                    }
                                                } else {
                                                    lemma_narrow_push(st.lines, lf, w as int);
                                                    let nf = frag_single(
                                                        crate::glyph::GlyphId {
                                                            font_id: a.1,
                                                            glyph_index: ge.glyph_index,
                                                            size: a.2,
                                                        },
                                                        ge.metrics,
                                                        lm,
                                                        a.3,
                                                    );
                                                    assert(frag_narrow(nf, w as int)) by {
                                                        if nf.len > w {
                                                            assert(nf.glyphs[0].metrics.xmin
                                                                + nf.glyphs[0].metrics.width > w);
                                                        }
                                                    }
                                                }
                                            },
                                            None => {
                                                let nf = frag_single(
                                                    crate::glyph::GlyphId {
                                                        font_id: a.1,
                                                        glyph_index: ge.glyph_index,
                                                        size: a.2,
                                                    },
                                                    ge.metrics,
                                                    lm,
                                                    a.3,
                                                );
                                                assert(frag_narrow(nf, w as int)) by {
                                                    if nf.len > w {
                                                        assert(nf.glyphs[0].metrics.xmin
                                                            + nf.glyphs[0].metrics.width > w);
                                                    }
                                                }
                                            },
                                        }
                                    },
                                }
                            }
                        },
                    }
                },
            }
        }
        assert forall|i: int|
            0 <= i < atoms.drop_first().len() implies (#[trigger] atoms.drop_first()[i]).0 != ' '
                && atoms.drop_first()[i].0 != '\t' by {
            assert(atoms.drop_first()[i] == atoms[i + 1]);
        }
        lemma_charwrap_run(st1, store, cfg, atoms.drop_first(), w);
    }
}

/// CHARACTER WRAP WIDTH. Under character wrapping with a finite width limit
/// and a text without spaces and tabs, every line is within the limit or
/// holds a glyph whose own extent exceeds the limit. (Spaces and tabs move
/// the cursor without a width check and are left out.)
pub proof fn lemma_charwrap_width<T>(
    texts: Seq<TextElement<T>>,
    cfg: TextLayoutConfig,
    store: FontStore,
    w: i64,
    i: int,
)
    requires
        cfg.wrap_style == crate::config::WrapStyle::CharWrap,
        cfg.max_width == Some(w),
        w >= 0,
        forall|k: int|
            0 <= k < atoms_of(texts).len() ==> (#[trigger] atoms_of(texts)[k]).0 != ' '
                && atoms_of(texts)[k].0 != '\t',
        0 <= i < layout_model(texts, cfg, store).lines.len(),
    ensures
        layout_model(texts, cfg, store).lines[i].line_width <= w || exists|j: int|
            0 <= j < layout_model(texts, cfg, store).lines[i].glyphs.len() && (
            #[trigger] layout_model(texts, cfg, store).lines[i].glyphs[j]).metrics.xmin
                + layout_model(texts, cfg, store).lines[i].glyphs[j].metrics.width > w,
{
    lemma_charwrap_run(state_init::<T>(), store, cfg, atoms_of(texts), w);
    let st = run_atoms(state_init::<T>(), store, cfg, atoms_of(texts));
    let frags = flush_state(st, store, cfg);
    assert forall|j: int| 0 <= j < frags.len() implies frag_narrow(#[trigger] frags[j], w as int) by {
        match (st.line, st.word) {
            (Some(f), None) => {
                lemma_narrow_push(st.lines, f, w as int);
            },
            (None, None) => {},
            _ => {},
        }
    }
    let th = total_height_of(frags, cfg.line_height_scale);
    let tw = max_width_of(frags);
    let container = w as int;
    let layout_h = match cfg.max_height {
        Some(h) => h as int,
        None => th,
    };
    let y0 = block_y_start(cfg.vertical_align, layout_h, th);
    lemma_place_lines_len(frags, cfg, container, y0);
    lemma_place_lines_index(frags, cfg, container, y0, i);
    let m = layout_model(texts, cfg, store);
    assert(m.lines[i].line_width == frags[i].len);
    if frags[i].len > w {
        let j = choose|j: int|
            0 <= j < frags[i].glyphs.len() && (#[trigger] frags[i].glyphs[j]).metrics.xmin
                + frags[i].glyphs[j].metrics.width > w;
        assert(m.lines[i].glyphs[j].metrics == frags[i].glyphs[j].metrics);
        assert(m.lines[i].glyphs[j].metrics.xmin + m.lines[i].glyphs[j].metrics.width > w);
    }
}

/// Metrics under which left-to-right input keeps non-decreasing
/// x-coordinates: every glyph starts at or after its origin and advances at
/// least past its own start, and no kerning pair is negative.
pub open spec fn store_order_friendly(store: FontStore) -> bool {
    &&& forall|p: int, i: int|
        0 <= p < store.fonts@.len() && 0 <= i < store.fonts@[p].glyphs@.len() ==> 0 <= (
        #[trigger] store.fonts@[p].glyphs@[i]).metrics.xmin
            <= store.fonts@[p].glyphs@[i].metrics.advance
    &&& forall|p: int, i: int|
        0 <= p < store.fonts@.len() && 0 <= i < store.fonts@[p].kerning@.len() ==> (
        #[trigger] store.fonts@[p].kerning@[i]).kern >= 0
}

/// The per-font form of `store_order_friendly`.
pub open spec fn font_order_friendly(sf: crate::font_store::SizedFont) -> bool {
    &&& forall|i: int|
        0 <= i < sf.glyphs@.len() ==> 0 <= (#[trigger] sf.glyphs@[i]).metrics.xmin
            <= sf.glyphs@[i].metrics.advance
    &&& forall|i: int| 0 <= i < sf.kerning@.len() ==> (#[trigger] sf.kerning@[i]).kern >= 0
}

/// A font found in an order-friendly store is order friendly.
proof fn lemma_find_font_order(fonts: Seq<crate::font_store::SizedFont>, font_id: u32, size: u32)
    requires
        forall|p: int, i: int|
            0 <= p < fonts.len() && 0 <= i < fonts[p].glyphs@.len() ==> 0 <= (
            #[trigger] fonts[p].glyphs@[i]).metrics.xmin <= fonts[p].glyphs@[i].metrics.advance,
        forall|p: int, i: int|
            0 <= p < fonts.len() && 0 <= i < fonts[p].kerning@.len() ==> (
            #[trigger] fonts[p].kerning@[i]).kern >= 0,
    ensures
        match crate::font_store::find_sized_font(fonts, font_id, size) {
            Some(sf) => font_order_friendly(sf),
            None => true,
        },
    decreases fonts.len(),
{
    if fonts.len() == 0 {
    } else if fonts[0].font_id == font_id && fonts[0].size == size {
        assert forall|i: int|
            0 <= i < fonts[0].glyphs@.len() implies 0 <= (#[trigger] fonts[0].glyphs@[i]).metrics.xmin
                <= fonts[0].glyphs@[i].metrics.advance by {}
        assert forall|i: int|
            0 <= i < fonts[0].kerning@.len() implies (#[trigger] fonts[0].kerning@[i]).kern >= 0 by {}
    } else {
        assert forall|p: int, i: int|
            0 <= p < fonts.drop_first().len() && 0 <= i < fonts.drop_first()[p].glyphs@.len()
                implies 0 <= (#[trigger] fonts.drop_first()[p].glyphs@[i]).metrics.xmin
                <= fonts.drop_first()[p].glyphs@[i].metrics.advance by {
            assert(fonts.drop_first()[p] == fonts[p + 1]);
        }
        assert forall|p: int, i: int|
            0 <= p < fonts.drop_first().len() && 0 <= i < fonts.drop_first()[p].kerning@.len()
                implies (#[trigger] fonts.drop_first()[p].kerning@[i]).kern >= 0 by {
            assert(fonts.drop_first()[p] == fonts[p + 1]);
        }
        lemma_find_font_order(fonts.drop_first(), font_id, size);
    }
}

/// A kerning value of an order-friendly table is non-negative.
proof fn lemma_find_kern_nonneg(kerning: Seq<crate::font_store::KernEntry>, left: u16, right: u16)
    requires
        forall|i: int| 0 <= i < kerning.len() ==> (#[trigger] kerning[i]).kern >= 0,
    ensures
        match crate::font_store::find_kern(kerning, left, right) {
            Some(k) => k >= 0,
            None => true,
        },
    decreases kerning.len(),
{
    if kerning.len() == 0 {
    } else if kerning[0].left == left && kerning[0].right == right {
    } else {
        assert forall|i: int|
            0 <= i < kerning.drop_first().len() implies (#[trigger] kerning.drop_first()[i]).kern
                >= 0 by {
            assert(kerning.drop_first()[i] == kerning[i + 1]);
        }
        lemma_find_kern_nonneg(kerning.drop_first(), left, right);
    }
}

/// A glyph of an order-friendly table starts at or after its origin.
proof fn lemma_find_glyph_order(glyphs: Seq<crate::font_store::GlyphEntry>, ch: char)
    requires
        forall|i: int|
            0 <= i < glyphs.len() ==> 0 <= (#[trigger] glyphs[i]).metrics.xmin
                <= glyphs[i].metrics.advance,
    ensures
        match crate::font_store::find_glyph(glyphs, ch) {
            Some(ge) => 0 <= ge.metrics.xmin <= ge.metrics.advance,
            None => true,
        },
    decreases glyphs.len(),
{
    if glyphs.len() == 0 {
    } else if glyphs[0].ch == ch {
    } else {
        assert forall|i: int|
            0 <= i < glyphs.drop_first().len() implies 0 <= (
            #[trigger] glyphs.drop_first()[i]).metrics.xmin <= glyphs.drop_first()[i].metrics.advance by {
            assert(glyphs.drop_first()[i] == glyphs[i + 1]);
        }
        lemma_find_glyph_order(glyphs.drop_first(), ch);
    }
}

/// Glyph x-coordinates non-decreasing and non-negative, the last one at or
/// before the cursor, the cursor non-negative.
pub open spec fn frag_ordered<T>(f: FragModel<T>) -> bool {
    &&& forall|a: int| 0 <= a < f.glyphs.len() - 1 ==> (#[trigger] f.glyphs[a]).x <= f.glyphs[a + 1].x
    &&& forall|a: int| 0 <= a < f.glyphs.len() ==> (#[trigger] f.glyphs[a]).x >= 0
    &&& (f.glyphs.len() > 0 ==> f.glyphs.last().x <= f.cursor)
    &&& f.cursor >= 0
}

/// All fragments of a state ordered.
pub open spec fn state_ordered<T>(st: LayoutState<T>) -> bool {
    &&& (st.line matches Some(f) ==> frag_ordered(f))
    &&& (st.word matches Some(f) ==> frag_ordered(f))
    &&& forall|i: int| 0 <= i < st.lines.len() ==> frag_ordered(#[trigger] st.lines[i])
}

/// Appending an ordered fragment keeps all committed lines ordered.
proof fn lemma_ordered_push<T>(lines: Seq<FragModel<T>>, f: FragModel<T>)
    requires
        forall|i: int| 0 <= i < lines.len() ==> frag_ordered(#[trigger] lines[i]),
        frag_ordered(f),
    ensures
        forall|i: int| 0 <= i < lines.push(f).len() ==> frag_ordered(#[trigger] lines.push(f)[i]),
{
    assert forall|i: int| 0 <= i < lines.push(f).len() implies frag_ordered(
        #[trigger] lines.push(f)[i],
    ) by {
        if i < lines.len() {
            assert(lines.push(f)[i] == lines[i]);
        } else {
            assert(lines.push(f)[i] == f);
        }
    }
}

/// Pushing a glyph with non-negative kerning, whose origin offset is within
/// its advance, keeps a fragment ordered.
proof fn lemma_push_ordered<T>(
    f: FragModel<T>,
    id: crate::glyph::GlyphId,
    m: crate::glyph::GlyphMetrics,
    lm: crate::font_store::LineMetrics,
    user: T,
    kern: int,
)
    requires
        frag_ordered(f),
        kern >= 0,
        0 <= m.xmin <= m.advance,
    ensures
        frag_ordered(frag_push(f, id, m, lm, user, kern)),
{
    let nf = frag_push(f, id, m, lm, user, kern);
    assert forall|a: int| 0 <= a < nf.glyphs.len() - 1 implies (#[trigger] nf.glyphs[a]).x
        <= nf.glyphs[a + 1].x by {
        if a < f.glyphs.len() - 1 {
            assert(nf.glyphs[a] == f.glyphs[a]);
            assert(nf.glyphs[a + 1] == f.glyphs[a + 1]);
        } else {
            assert(nf.glyphs[a] == f.glyphs.last());
        }
    }
    assert forall|a: int| 0 <= a < nf.glyphs.len() implies (#[trigger] nf.glyphs[a]).x >= 0 by {
        if a < f.glyphs.len() {
            assert(nf.glyphs[a] == f.glyphs[a]);
        }
    }
}

/// Starting a fragment from one glyph keeps it ordered.
proof fn lemma_single_ordered<T>(
    id: crate::glyph::GlyphId,
    m: crate::glyph::GlyphMetrics,
    lm: crate::font_store::LineMetrics,
    user: T,
)
    requires
        0 <= m.xmin <= m.advance,
    ensures
        frag_ordered(frag_single(id, m, lm, user)),
{
}

/// Folding an ordered word onto an ordered line with non-negative kerning
/// keeps the result ordered.
proof fn lemma_concat_ordered<T>(lf: FragModel<T>, wf: FragModel<T>, kern: int)
    requires
        frag_ordered(lf),
        frag_ordered(wf),
        kern >= 0,
    ensures
        frag_ordered(frag_concat(lf, wf, kern)),
{
    let c = lf.cursor + kern;
    let nf = frag_concat(lf, wf, kern);
    let shifted = crate::model::offset_glyphs(wf.glyphs, c, 0);
    assert(nf.glyphs == lf.glyphs + shifted);
    assert forall|a: int| 0 <= a < nf.glyphs.len() - 1 implies (#[trigger] nf.glyphs[a]).x
        <= nf.glyphs[a + 1].x by {
        if a + 1 < lf.glyphs.len() {
            assert(nf.glyphs[a] == lf.glyphs[a]);
            assert(nf.glyphs[a + 1] == lf.glyphs[a + 1]);
        } else if a + 1 == lf.glyphs.len() {
            assert(nf.glyphs[a] == lf.glyphs[a]);
            assert(nf.glyphs[a + 1] == shifted[0]);
            assert(lf.glyphs[a].x <= lf.cursor);
            assert(shifted[0].x == wf.glyphs[0].x + c);
            assert(wf.glyphs[0].x >= 0);
        } else {
            let b = a - lf.glyphs.len();
            assert(nf.glyphs[a] == shifted[b]);
            assert(nf.glyphs[a + 1] == shifted[b + 1]);
            assert(shifted[b].x == wf.glyphs[b].x + c);
            assert(shifted[b + 1].x == wf.glyphs[b + 1].x + c);
            assert(wf.glyphs[b].x <= wf.glyphs[b + 1].x);
        }
    }
    assert forall|a: int| 0 <= a < nf.glyphs.len() implies (#[trigger] nf.glyphs[a]).x >= 0 by {
        if a < lf.glyphs.len() {
            assert(nf.glyphs[a] == lf.glyphs[a]);
        } else {
            assert(nf.glyphs[a] == shifted[a - lf.glyphs.len()]);
            assert(shifted[a - lf.glyphs.len()].x == wf.glyphs[a - lf.glyphs.len()].x + c);
            assert(wf.glyphs[a - lf.glyphs.len()].x >= 0);
        }
    }
    if nf.glyphs.len() > 0 {
        if wf.glyphs.len() > 0 {
            assert(nf.glyphs.last() == shifted[wf.glyphs.len() - 1]);
            assert(shifted[wf.glyphs.len() - 1].x == wf.glyphs.last().x + c);
        } else {
            assert(nf.glyphs =~= lf.glyphs);
            assert(nf.glyphs.last() == lf.glyphs.last());
        }
    }
}

/// One step preserves ordering under an order-friendly, well-formed store.
proof fn lemma_step_atom_ordered<T>(
    st: LayoutState<T>,
    store: FontStore,
    cfg: TextLayoutConfig,
    a: Atom<T>,
)
    requires
        store.wf(),
        store_order_friendly(store),
        state_ordered(st),
    ensures
        state_ordered(step_atom(st, store, cfg, a)),
{
    match store.spec_sized_font(a.1, a.2) {
        None => {},
        Some(sf) => {
            lemma_find_font_order(store.fonts@, a.1, a.2);
            crate::font_store::lemma_find_sized_font_wf(store.fonts@, a.1, a.2);
            match sf.line_metrics {
                None => {},
                Some(lm) => {
                    if crate::model::is_hard_break(a.0) {
                        lemma_newline_ordered(st, store, cfg);
                    } else if a.0 == ' ' {
                        match sf.spec_glyph(' ') {
                            None => {},
                            Some(ge) => {
                                lemma_find_glyph_order(sf.glyphs@, ' ');
                                lemma_space_ordered(st, store, cfg, sf, a.1, a.2, ge, lm, a.3);
                            },
                        }
                    } else if a.0 == '\t' {
                        match sf.spec_glyph(' ') {
                            None => {},
                            Some(ge) => {
                                lemma_find_glyph_order(sf.glyphs@, ' ');
                                crate::font_store::lemma_find_glyph_wf(sf.glyphs@, ' ');
                                vstd::arithmetic::mul::lemma_mul_nonnegative(
                                    ge.metrics.advance as int,
                                    cfg.tab_size_in_spaces as int,
                                );
                                lemma_tab_ordered(
                                    st,
                                    store,
                                    cfg,
                                    lm,
                                    (ge.metrics.advance as int) * (cfg.tab_size_in_spaces as int),
                                );
                            },
                        }
                    } else {
                        match sf.spec_glyph(a.0) {
                            None => {},
                            Some(ge) => {
                                lemma_find_glyph_order(sf.glyphs@, a.0);
                                lemma_char_ordered(st, store, cfg, sf, a.1, a.2, ge, lm, a.3);
                            },
                        }
                    }
                },
            }
        },
    }
}

/// A hard break preserves ordering.
proof fn lemma_newline_ordered<T>(st: LayoutState<T>, store: FontStore, cfg: TextLayoutConfig)
    requires
        store_order_friendly(store),
        state_ordered(st),
    ensures
        state_ordered(crate::model::step_newline(st, store, cfg)),
{
    match (st.line, st.word) {
        (Some(lf), Some(wf)) => {
            let k = crate::model::concat_kern(store, lf, wf);
            lemma_concat_kern_nonneg(store, lf, wf);
            if crate::model::fits(cfg.max_width, lf.cursor + k + wf.len) {
                lemma_concat_ordered(lf, wf, k);
                lemma_ordered_push(st.lines, frag_concat(lf, wf, k));
            } else {
                lemma_ordered_push(st.lines, lf);
                lemma_ordered_push(st.lines.push(lf), wf);
            }
        },
        (Some(f), None) => {
            lemma_ordered_push(st.lines, f);
        },
        (None, Some(f)) => {
            lemma_ordered_push(st.lines, f);
        },
        (None, None) => {
            lemma_ordered_push(st.lines, frag_blank::<T>());
        },
    }
}

/// The kerning between two fragments of an order-friendly store is
/// non-negative.
proof fn lemma_concat_kern_nonneg<T>(store: FontStore, line: FragModel<T>, word: FragModel<T>)
    requires
        store_order_friendly(store),
    ensures
        crate::model::concat_kern(store, line, word) >= 0,
{
    if line.glyphs.len() > 0 && word.glyphs.len() > 0 {
        let l = line.glyphs.last();
        let w = word.glyphs.first();
        if l.id.font_id == w.id.font_id && l.id.size == w.id.size {
            lemma_find_font_order(store.fonts@, l.id.font_id, l.id.size);
            match store.spec_sized_font(l.id.font_id, l.id.size) {
                Some(sf) => {
                    lemma_find_kern_nonneg(sf.kerning@, l.id.glyph_index, w.id.glyph_index);
                },
                None => {},
            }
        }
    }
}

/// The kerning before a push from an order-friendly font is non-negative.
proof fn lemma_push_kern_nonneg<T>(
    frag: FragModel<T>,
    sf: crate::font_store::SizedFont,
    font_id: u32,
    size: u32,
    idx: u16,
)
    requires
        font_order_friendly(sf),
    ensures
        crate::model::push_kern(frag, sf, font_id, size, idx) >= 0,
{
    if frag.glyphs.len() > 0 && frag.glyphs.last().id.font_id == font_id
        && frag.glyphs.last().id.size == size {
        lemma_find_kern_nonneg(sf.kerning@, frag.glyphs.last().id.glyph_index, idx);
    }
}

/// A space preserves ordering.
proof fn lemma_space_ordered<T>(
    st: LayoutState<T>,
    store: FontStore,
    cfg: TextLayoutConfig,
    sf: crate::font_store::SizedFont,
    font_id: u32,
    size: u32,
    ge: crate::font_store::GlyphEntry,
    lm: crate::font_store::LineMetrics,
    user: T,
)
    requires
        store_order_friendly(store),
        font_order_friendly(sf),
        0 <= ge.metrics.xmin <= ge.metrics.advance,
        state_ordered(st),
    ensures
        state_ordered(crate::model::step_space(st, store, cfg, sf, font_id, size, ge, lm, user)),
{
    let id = crate::glyph::GlyphId { font_id, glyph_index: ge.glyph_index, size };
    match (cfg.wrap_style, st.line, st.word) {
        (crate::config::WrapStyle::WordWrap, Some(lf), Some(wf)) => {
            let k = crate::model::concat_kern(store, lf, wf);
            lemma_concat_kern_nonneg(store, lf, wf);
            if crate::model::fits(cfg.max_width, lf.cursor + k + wf.len) {
                let merged = frag_concat(lf, wf, k);
                lemma_concat_ordered(lf, wf, k);
                lemma_push_kern_nonneg(merged, sf, font_id, size, ge.glyph_index);
                lemma_push_ordered(
                    merged,
                    id,
                    ge.metrics,
                    lm,
                    user,
                    crate::model::push_kern(merged, sf, font_id, size, ge.glyph_index),
                );
            } else {
                lemma_ordered_push(st.lines, lf);
                lemma_push_kern_nonneg(wf, sf, font_id, size, ge.glyph_index);
                lemma_push_ordered(
                    wf,
                    id,
                    ge.metrics,
                    lm,
                    user,
                    crate::model::push_kern(wf, sf, font_id, size, ge.glyph_index),
                );
            }
        },
        (crate::config::WrapStyle::WordWrap, Some(lf), None) => {
            lemma_push_kern_nonneg(lf, sf, font_id, size, ge.glyph_index);
            lemma_push_ordered(
                lf,
                id,
                ge.metrics,
                lm,
                user,
                crate::model::push_kern(lf, sf, font_id, size, ge.glyph_index),
            );
        },
        (crate::config::WrapStyle::WordWrap, None, Some(wf)) => {
            lemma_push_kern_nonneg(wf, sf, font_id, size, ge.glyph_index);
            lemma_push_ordered(
                wf,
                id,
                ge.metrics,
                lm,
                user,
                crate::model::push_kern(wf, sf, font_id, size, ge.glyph_index),
            );
        },
        (crate::config::WrapStyle::WordWrap, None, None) => {
            lemma_single_ordered(id, ge.metrics, lm, user);
        },
        (_, Some(lf), _) => {
            lemma_push_kern_nonneg(lf, sf, font_id, size, ge.glyph_index);
            lemma_push_ordered(
                lf,
                id,
                ge.metrics,
                lm,
                user,
                crate::model::push_kern(lf, sf, font_id, size, ge.glyph_index),
            );
        },
        (_, None, _) => {
            lemma_single_ordered(id, ge.metrics, lm, user);
        },
    }
}

/// A tab preserves ordering.
proof fn lemma_tab_ordered<T>(
    st: LayoutState<T>,
    store: FontStore,
    cfg: TextLayoutConfig,
    lm: crate::font_store::LineMetrics,
    tab: int,
)
    requires
        store_order_friendly(store),
        state_ordered(st),
        tab >= 0,
    ensures
        state_ordered(crate::model::step_tab(st, store, cfg, lm, tab)),
{
    match (st.line, st.word) {
        (Some(lf), Some(wf)) => {
            let k = crate::model::concat_kern(store, lf, wf);
            lemma_concat_kern_nonneg(store, lf, wf);
            if crate::model::fits(cfg.max_width, lf.cursor + k + wf.len) {
                lemma_concat_ordered(lf, wf, k);
            } else {
                lemma_ordered_push(st.lines, lf);
            }
        },
        _ => {},
    }
}

/// An ordinary character preserves ordering.
proof fn lemma_char_ordered<T>(
    st: LayoutState<T>,
    store: FontStore,
    cfg: TextLayoutConfig,
    sf: crate::font_store::SizedFont,
    font_id: u32,
    size: u32,
    ge: crate::font_store::GlyphEntry,
    lm: crate::font_store::LineMetrics,
    user: T,
)
    requires
        store_order_friendly(store),
        font_order_friendly(sf),
        0 <= ge.metrics.xmin <= ge.metrics.advance,
        state_ordered(st),
    ensures
        state_ordered(crate::model::step_char(st, store, cfg, sf, font_id, size, ge, lm, user)),
{
    let id = crate::glyph::GlyphId { font_id, glyph_index: ge.glyph_index, size };
    match (cfg.wrap_style, st.line, st.word) {
        (crate::config::WrapStyle::WordWrap, line, Some(wf)) => {
            lemma_push_kern_nonneg(wf, sf, font_id, size, ge.glyph_index);
            lemma_push_ordered(
                wf,
                id,
                ge.metrics,
                lm,
                user,
                crate::model::push_kern(wf, sf, font_id, size, ge.glyph_index),
            );
            lemma_single_ordered(id, ge.metrics, lm, user);
            match line {
                Some(lf) => {
                    lemma_ordered_push(st.lines, lf);
                    lemma_ordered_push(st.lines.push(lf), wf);
                },
                None => {
                    lemma_ordered_push(st.lines, wf);
                },
            }
        },
        (crate::config::WrapStyle::WordWrap, _, None) => {
            lemma_single_ordered(id, ge.metrics, lm, user);
        },
        (crate::config::WrapStyle::CharWrap, Some(lf), _) => {
            lemma_push_kern_nonneg(lf, sf, font_id, size, ge.glyph_index);
            lemma_push_ordered(
                lf,
                id,
                ge.metrics,
                lm,
                user,
                crate::model::push_kern(lf, sf, font_id, size, ge.glyph_index),
            );
            lemma_single_ordered(id, ge.metrics, lm, user);
            lemma_ordered_push(st.lines, lf);
        },
        (crate::config::WrapStyle::CharWrap, None, _) => {
            lemma_single_ordered(id, ge.metrics, lm, user);
        },
        (crate::config::WrapStyle::NoWrap, Some(lf), _) => {
            lemma_push_kern_nonneg(lf, sf, font_id, size, ge.glyph_index);
            lemma_push_ordered(
                lf,
                id,
                ge.metrics,
                lm,
                user,
                crate::model::push_kern(lf, sf, font_id, size, ge.glyph_index),
            );
        },
        (crate::config::WrapStyle::NoWrap, None, _) => {
            lemma_single_ordered(id, ge.metrics, lm, user);
        },
    }
}

/// Running any atom sequence preserves ordering.
proof fn lemma_run_atoms_ordered<T>(
    st: LayoutState<T>,
    store: FontStore,
    cfg: TextLayoutConfig,
    atoms: Seq<Atom<T>>,
)
    requires
        store.wf(),
        store_order_friendly(store),
        state_ordered(st),
    ensures
        state_ordered(run_atoms(st, store, cfg, atoms)),
    decreases atoms.len(),
{
    if atoms.len() > 0 {
        lemma_step_atom_ordered(st, store, cfg, atoms.first());
        lemma_run_atoms_ordered(
            step_atom(st, store, cfg, atoms.first()),
            store,
            cfg,
            atoms.drop_first(),
        );
    }
}

/// READING ORDER. In every layout of a well-formed, order-friendly store
/// (glyphs start at or after their origin, advances reach past the origin
/// offset, kerning pairs are non-negative), the glyph x-coordinates of every
/// line are non-decreasing. (A negative kerning pair, or a bitmap hanging
/// left of its origin, can reorder coordinates and is left out.)
pub proof fn lemma_reading_order<T>(
    texts: Seq<TextElement<T>>,
    cfg: TextLayoutConfig,
    store: FontStore,
    i: int,
    j: int,
)
    requires
        store.wf(),
        store_order_friendly(store),
        0 <= i < layout_model(texts, cfg, store).lines.len(),
        0 <= j < layout_model(texts, cfg, store).lines[i].glyphs.len() - 1,
    ensures
        layout_model(texts, cfg, store).lines[i].glyphs[j].x <= layout_model(
            texts,
            cfg,
            store,
        ).lines[i].glyphs[j + 1].x,
{
    lemma_run_atoms_ordered(state_init::<T>(), store, cfg, atoms_of(texts));
    let st = run_atoms(state_init::<T>(), store, cfg, atoms_of(texts));
    let frags = flush_state(st, store, cfg);
    assert forall|n: int| 0 <= n < frags.len() implies frag_ordered(#[trigger] frags[n]) by {
        match (st.line, st.word) {
            (Some(lf), Some(wf)) => {
                let k = crate::model::concat_kern(store, lf, wf);
                lemma_concat_kern_nonneg(store, lf, wf);
                if cfg.wrap_style is WordWrap {
                    if crate::model::fits(cfg.max_width, lf.cursor + k + wf.len) {
                        lemma_concat_ordered(lf, wf, k);
                        lemma_ordered_push(st.lines, frag_concat(lf, wf, k));
                    } else {
                        lemma_ordered_push(st.lines, lf);
                        lemma_ordered_push(st.lines.push(lf), wf);
                    }
                } else {
                    lemma_concat_ordered(lf, wf, k);
                    lemma_ordered_push(st.lines, frag_concat(lf, wf, k));
                }
            },
            (Some(f), None) => {
                lemma_ordered_push(st.lines, f);
            },
            (None, Some(f)) => {
                lemma_ordered_push(st.lines, f);
            },
            (None, None) => {},
        }
    }
    let th = total_height_of(frags, cfg.line_height_scale);
    let tw = max_width_of(frags);
    let container = match cfg.max_width {
        Some(w) => w as int,
        None => tw,
    };
    let layout_h = match cfg.max_height {
        Some(h) => h as int,
        None => th,
    };
    let y0 = block_y_start(cfg.vertical_align, layout_h, th);
    lemma_place_lines_len(frags, cfg, container, y0);
    lemma_place_lines_index(frags, cfg, container, y0, i);
    let m = layout_model(texts, cfg, store);
    let xo = crate::model::x_offset(cfg.horizontal_align, container, frags[i].len);
    let cur_y = y0 + total_height_of(frags.take(i), cfg.line_height_scale);
    let base = crate::model::baseline_of(
        frags[i],
        cur_y,
        line_height_of(frags[i], cfg.line_height_scale),
    );
    assert(m.lines[i].glyphs == crate::model::offset_glyphs(frags[i].glyphs, xo, base));
    assert(m.lines[i].glyphs[j].x == frags[i].glyphs[j].x + xo);
    assert(m.lines[i].glyphs[j + 1].x == frags[i].glyphs[j + 1].x + xo);
    assert(frags[i].glyphs[j].x <= frags[i].glyphs[j + 1].x);
}

} // verus!
