//! The fragment-buffering state machine of stage one.
//!
//! A `LayoutContext` holds the committed lines and the open line and word
//! fragments. Each handler consumes one character class and is proved equal
//! to its transition in `crate::model`. The ghost budgets `bl`/`bw` bound the
//! magnitudes of the open fragments; each handler grows their sum by at most
//! `step_budget`, so that `CHAR_LIMIT` characters stay within `budget_max`.

use vstd::prelude::*;

use crate::config::{TextLayoutConfig, WrapStyle, TAB_LIMIT};
use crate::font_store::{FontStore, GlyphEntry, LineMetrics, SizedFont};
use crate::fragment::LayoutFragment;
use crate::glyph::{GlyphId, METRIC_LIMIT};
use crate::model::{
    budget_max, frag_bounded, lemma_concat_kern_bounded, lemma_frag_bounded_mono,
    lemma_push_kern_bounded, state_bounded, step_budget, step_char, step_newline, step_space,
    step_tab, LayoutState,
};

verus! {

/// The model view of a fragment buffer.
pub open spec fn frags_view<T>(v: Seq<LayoutFragment<T>>) -> Seq<crate::model::FragModel<T>> {
    v.map(|i: int, f: LayoutFragment<T>| f@)
}

/// Stage-one state: committed lines, open line fragment, open word fragment.
pub struct LayoutContext<T> {
    pub lines: Vec<LayoutFragment<T>>,
    pub line: Option<LayoutFragment<T>>,
    pub word: Option<LayoutFragment<T>>,
}

impl<T> View for LayoutContext<T> {
    type V = LayoutState<T>;

    open spec fn view(&self) -> LayoutState<T> {
        LayoutState {
            lines: frags_view(self.lines@),
            line: match self.line {
                Some(f) => Some(f@),
                None => None,
            },
            word: match self.word {
                Some(f) => Some(f@),
                None => None,
            },
        }
    }
}

/// The width limit handed to fragment operations: the configured maximum, or
/// no effective limit.
fn width_limit(cfg: &TextLayoutConfig) -> (r: i64)
    ensures
        r as int == match cfg.max_width {
            Some(w) => w as int,
            None => i64::MAX as int,
        },
{
    match cfg.max_width {
        Some(w) => w,
        None => i64::MAX,
    }
}

impl<T: Copy> LayoutContext<T> {
    /// The empty state a layout call starts from.
    pub fn new() -> (r: Self)
        ensures
            r@ == crate::model::state_init::<T>(),
            state_bounded(r@, 0, 0),
    {
        let r = LayoutContext { lines: Vec::new(), line: None, word: None };
        proof {
            assert(r@.lines =~= crate::model::state_init::<T>().lines);
            assert(r@ =~= crate::model::state_init::<T>());
        }
        r
    }

    /// Commits a fragment to the finished lines.
    fn commit(&mut self, f: LayoutFragment<T>, Ghost(b): Ghost<int>)
        requires
            frag_bounded(f@, b),
            0 <= b <= budget_max(),
            forall|i: int|
                0 <= i < old(self)@.lines.len() ==> frag_bounded(
                    #[trigger] old(self)@.lines[i],
                    budget_max(),
                ),
        ensures
            final(self)@ == (LayoutState {
                lines: old(self)@.lines.push(f@),
                ..old(self)@
            }),
            forall|i: int|
                0 <= i < final(self)@.lines.len() ==> frag_bounded(
                    #[trigger] final(self)@.lines[i],
                    budget_max(),
                ),
    {
        self.lines.push(f);
        proof {
            lemma_frag_bounded_mono(f@, b, budget_max());
            assert(self@.lines =~= old(self)@.lines.push(f@));
            assert(self@ =~= (LayoutState { lines: old(self)@.lines.push(f@), ..old(self)@ }));
        }
    }

    /// Hard line break.
    pub fn handle_newline(
        &mut self,
        store: &FontStore,
        cfg: &TextLayoutConfig,
        Ghost(bl): Ghost<int>,
        Ghost(bw): Ghost<int>,
    )
        requires
            store.wf(),
            cfg.wf(),
            state_bounded(old(self)@, bl, bw),
            0 <= bl,
            0 <= bw,
            bl + bw + step_budget() <= budget_max(),
        ensures
            final(self)@ == step_newline(old(self)@, *store, *cfg),
            state_bounded(final(self)@, 0, 0),
    {
        let line = self.line.take();
        let word = self.word.take();
        proof {
            assert(self@.lines == old(self)@.lines);
        }
        match (line, word) {
            (Some(mut lf), Some(wf)) => {
                proof {
                    lemma_concat_kern_bounded(*store, lf@, wf@);
                }
                let limit = width_limit(cfg);
                if lf.try_concat_in_length(&wf, store, limit, Ghost(bl), Ghost(bw)) {
                    self.commit(lf, Ghost(bl + bw + METRIC_LIMIT as int));
                } else {
                    self.commit(lf, Ghost(bl));
                    self.commit(wf, Ghost(bw));
                }
            },
            (Some(f), None) => {
                self.commit(f, Ghost(bl));
            },
            (None, Some(f)) => {
                self.commit(f, Ghost(bw));
            },
            (None, None) => {
                self.commit(LayoutFragment::new_blank(), Ghost(0));
            },
        }
    }

    /// Word separator.
    pub fn handle_space(
        &mut self,
        store: &FontStore,
        cfg: &TextLayoutConfig,
        sf: &SizedFont,
        font_id: u32,
        size: u32,
        ge: GlyphEntry,
        lm: LineMetrics,
        user: T,
        Ghost(bl): Ghost<int>,
        Ghost(bw): Ghost<int>,
    ) -> (nb: Ghost<(int, int)>)
        requires
            store.wf(),
            cfg.wf(),
            sf.wf(),
            ge.metrics.wf(),
            lm.wf(),
            state_bounded(old(self)@, bl, bw),
            0 <= bl,
            0 <= bw,
            bl + bw + step_budget() <= budget_max(),
        ensures
            final(self)@ == step_space(old(self)@, *store, *cfg, *sf, font_id, size, ge, lm, user),
            state_bounded(final(self)@, nb@.0, nb@.1),
            0 <= nb@.0,
            0 <= nb@.1,
            nb@.0 + nb@.1 <= bl + bw + step_budget(),
    {
        let id = GlyphId::new(font_id, ge.glyph_index, size);
        let line = self.line.take();
        let word = self.word.take();
        proof {
            assert(self@.lines == old(self)@.lines);
        }
        match (cfg.wrap_style, line, word) {
            (WrapStyle::WordWrap, Some(mut lf), Some(wf)) => {
                proof {
                    lemma_concat_kern_bounded(*store, lf@, wf@);
                }
                let limit = width_limit(cfg);
                if lf.try_concat_in_length(&wf, store, limit, Ghost(bl), Ghost(bw)) {
                    lf.push_char(sf, id, ge.metrics, lm, user, Ghost(bl + bw + METRIC_LIMIT as int));
                    self.line = Some(lf);
                    Ghost((bl + bw + 5 * METRIC_LIMIT as int, 0))
                } else {
                    self.commit(lf, Ghost(bl));
                    let mut wf = wf;
                    wf.push_char(sf, id, ge.metrics, lm, user, Ghost(bw));
                    self.line = Some(wf);
                    Ghost((bw + 4 * METRIC_LIMIT as int, 0))
                }
            },
            (WrapStyle::WordWrap, Some(mut lf), None) => {
                lf.push_char(sf, id, ge.metrics, lm, user, Ghost(bl));
                self.line = Some(lf);
                Ghost((bl + 4 * METRIC_LIMIT as int, 0))
            },
            (WrapStyle::WordWrap, None, Some(mut wf)) => {
                wf.push_char(sf, id, ge.metrics, lm, user, Ghost(bw));
                self.line = Some(wf);
                Ghost((bw + 4 * METRIC_LIMIT as int, 0))
            },
            (WrapStyle::WordWrap, None, None) => {
                self.line = Some(LayoutFragment::new(id, ge.metrics, lm, user));
                Ghost((2 * METRIC_LIMIT as int, 0))
            },
            (_, Some(mut lf), _) => {
                lf.push_char(sf, id, ge.metrics, lm, user, Ghost(bl));
                self.line = Some(lf);
                Ghost((bl + 4 * METRIC_LIMIT as int, 0))
            },
            (_, None, _) => {
                self.line = Some(LayoutFragment::new(id, ge.metrics, lm, user));
                Ghost((2 * METRIC_LIMIT as int, 0))
            },
        }
    }

    /// Tab: fold the word, then advance the line cursor by `space_adv` times
    /// the configured tab size; a tab that opens a fresh line seeds it with
    /// the run's line metrics.
    pub fn handle_tab(
        &mut self,
        store: &FontStore,
        cfg: &TextLayoutConfig,
        lm: LineMetrics,
        space_adv: i64,
        Ghost(bl): Ghost<int>,
        Ghost(bw): Ghost<int>,
    ) -> (nb: Ghost<(int, int)>)
        requires
            store.wf(),
            cfg.wf(),
            lm.wf(),
            0 <= space_adv <= METRIC_LIMIT,
            state_bounded(old(self)@, bl, bw),
            0 <= bl,
            0 <= bw,
            bl + bw + step_budget() <= budget_max(),
        ensures
            final(self)@ == step_tab(
                old(self)@,
                *store,
                *cfg,
                lm,
                (space_adv as int) * (cfg.tab_size_in_spaces as int),
            ),
            state_bounded(final(self)@, nb@.0, nb@.1),
            0 <= nb@.0,
            0 <= nb@.1,
            nb@.0 + nb@.1 <= bl + bw + step_budget(),
    {
        proof {
            assert(0 <= (space_adv as int) * (cfg.tab_size_in_spaces as int) <= (METRIC_LIMIT
                as int) * (TAB_LIMIT as int)) by (nonlinear_arith)
                requires
                    0 <= space_adv <= METRIC_LIMIT,
                    0 <= cfg.tab_size_in_spaces <= TAB_LIMIT,
            ;
        }
        let tab = space_adv * (cfg.tab_size_in_spaces as i64);
        let word = self.word.take();
        proof {
            assert(self@.lines == old(self)@.lines);
        }
        let ghost mut nbl: int = bl;
        if let Some(wf) = word {
            let line = self.line.take();
            if let Some(mut lf) = line {
                proof {
                    lemma_concat_kern_bounded(*store, lf@, wf@);
                }
                let limit = width_limit(cfg);
                if lf.try_concat_in_length(&wf, store, limit, Ghost(bl), Ghost(bw)) {
                    self.line = Some(lf);
                    proof {
                        nbl = bl + bw + METRIC_LIMIT as int;
                    }
                } else {
                    self.commit(lf, Ghost(bl));
                    self.line = Some(wf);
                    proof {
                        nbl = bw;
                    }
                }
            } else {
                self.line = Some(wf);
                proof {
                    nbl = bw;
                }
            }
        }
        let line = self.line.take();
        match line {
            Some(mut lf) => {
                lf.add_tab(lm, tab, Ghost(nbl));
                self.line = Some(lf);
                Ghost((nbl + tab as int, 0))
            },
            None => {
                self.line = Some(LayoutFragment::new_tab(lm, tab));
                Ghost((tab as int, 0))
            },
        }
    }

    /// Ordinary character, routed by wrap style.
    pub fn handle_char(
        &mut self,
        store: &FontStore,
        cfg: &TextLayoutConfig,
        sf: &SizedFont,
        font_id: u32,
        size: u32,
        ge: GlyphEntry,
        lm: LineMetrics,
        user: T,
        Ghost(bl): Ghost<int>,
        Ghost(bw): Ghost<int>,
    ) -> (nb: Ghost<(int, int)>)
        requires
            store.wf(),
            cfg.wf(),
            sf.wf(),
            ge.metrics.wf(),
            lm.wf(),
            state_bounded(old(self)@, bl, bw),
            0 <= bl,
            0 <= bw,
            bl + bw + step_budget() <= budget_max(),
        ensures
            final(self)@ == step_char(old(self)@, *store, *cfg, *sf, font_id, size, ge, lm, user),
            state_bounded(final(self)@, nb@.0, nb@.1),
            0 <= nb@.0,
            0 <= nb@.1,
            nb@.0 + nb@.1 <= bl + bw + step_budget(),
    {
        let id = GlyphId::new(font_id, ge.glyph_index, size);
        let line = self.line.take();
        let word = self.word.take();
        proof {
            assert(self@.lines == old(self)@.lines);
        }
        match (cfg.wrap_style, line, word) {
            (WrapStyle::WordWrap, Some(lf), Some(mut wf)) => {
                proof {
                    lemma_push_kern_bounded(wf@, *sf, font_id, size, ge.glyph_index);
                }
                let limit = width_limit(cfg);
                if wf.try_push_char_in_length(sf, id, ge.metrics, lm, user, limit, Ghost(bw)) {
                    self.line = Some(lf);
                    self.word = Some(wf);
                    Ghost((bl, bw + 4 * METRIC_LIMIT as int))
                } else {
                    self.commit(lf, Ghost(bl));
                    self.commit(wf, Ghost(bw));
                    self.word = Some(LayoutFragment::new(id, ge.metrics, lm, user));
                    Ghost((0, 2 * METRIC_LIMIT as int))
                }
            },
            (WrapStyle::WordWrap, Some(lf), None) => {
                self.line = Some(lf);
                self.word = Some(LayoutFragment::new(id, ge.metrics, lm, user));
                Ghost((bl, 2 * METRIC_LIMIT as int))
            },
            (WrapStyle::WordWrap, None, Some(mut wf)) => {
                proof {
                    lemma_push_kern_bounded(wf@, *sf, font_id, size, ge.glyph_index);
                }
                let limit = width_limit(cfg);
                if wf.try_push_char_in_length(sf, id, ge.metrics, lm, user, limit, Ghost(bw)) {
                    self.word = Some(wf);
                    Ghost((0, bw + 4 * METRIC_LIMIT as int))
                } else {
                    self.commit(wf, Ghost(bw));
                    self.word = Some(LayoutFragment::new(id, ge.metrics, lm, user));
                    Ghost((0, 2 * METRIC_LIMIT as int))
                }
            },
            (WrapStyle::WordWrap, None, None) => {
                self.word = Some(LayoutFragment::new(id, ge.metrics, lm, user));
                Ghost((0, 2 * METRIC_LIMIT as int))
            },
            (WrapStyle::CharWrap, Some(mut lf), _) => {
                proof {
                    lemma_push_kern_bounded(lf@, *sf, font_id, size, ge.glyph_index);
                }
                let limit = width_limit(cfg);
                if lf.try_push_char_in_length(sf, id, ge.metrics, lm, user, limit, Ghost(bl)) {
                    self.line = Some(lf);
                    Ghost((bl + 4 * METRIC_LIMIT as int, 0))
                } else {
                    self.commit(lf, Ghost(bl));
                    self.line = Some(LayoutFragment::new(id, ge.metrics, lm, user));
                    Ghost((2 * METRIC_LIMIT as int, 0))
                }
            },
            (WrapStyle::CharWrap, None, _) => {
                self.line = Some(LayoutFragment::new(id, ge.metrics, lm, user));
                Ghost((2 * METRIC_LIMIT as int, 0))
            },
            (WrapStyle::NoWrap, Some(mut lf), _) => {
                lf.push_char(sf, id, ge.metrics, lm, user, Ghost(bl));
                self.line = Some(lf);
                Ghost((bl + 4 * METRIC_LIMIT as int, 0))
            },
            (WrapStyle::NoWrap, None, _) => {
                self.line = Some(LayoutFragment::new(id, ge.metrics, lm, user));
                Ghost((2 * METRIC_LIMIT as int, 0))
            },
        }
    }

    /// Final flush: fold any remaining word onto the line and commit what
    /// remains.
    pub fn flush(
        &mut self,
        store: &FontStore,
        cfg: &TextLayoutConfig,
        Ghost(bl): Ghost<int>,
        Ghost(bw): Ghost<int>,
    )
        requires
            store.wf(),
            cfg.wf(),
            state_bounded(old(self)@, bl, bw),
            0 <= bl,
            0 <= bw,
            bl + bw + step_budget() <= budget_max(),
        ensures
            final(self)@.lines == crate::model::flush_state(old(self)@, *store, *cfg),
            final(self)@.line is None,
            final(self)@.word is None,
            forall|i: int|
                0 <= i < final(self)@.lines.len() ==> frag_bounded(
                    #[trigger] final(self)@.lines[i],
                    budget_max(),
                ),
    {
        let line = self.line.take();
        let word = self.word.take();
        proof {
            assert(self@.lines == old(self)@.lines);
        }
        match (line, word) {
            (Some(mut lf), Some(wf)) => {
                proof {
                    lemma_concat_kern_bounded(*store, lf@, wf@);
                }
                let limit = if matches!(cfg.wrap_style, WrapStyle::WordWrap) {
                    width_limit(cfg)
                } else {
                    i64::MAX
                };
                if lf.try_concat_in_length(&wf, store, limit, Ghost(bl), Ghost(bw)) {
                    self.commit(lf, Ghost(bl + bw + METRIC_LIMIT as int));
                } else {
                    self.commit(lf, Ghost(bl));
                    self.commit(wf, Ghost(bw));
                }
            },
            (Some(f), None) => {
                self.commit(f, Ghost(bl));
            },
            (None, Some(f)) => {
                self.commit(f, Ghost(bw));
            },
            (None, None) => {},
        }
    }
}

} // verus!
