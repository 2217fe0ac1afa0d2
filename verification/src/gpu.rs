//! Atlas-based GPU renderer.
//!
//! `render` walks a layout in reading order, places each glyph's bitmap in
//! the atlas, and emits an event stream: atlas updates, instanced quad
//! batches, and standalone glyphs for bitmaps no page accepts. The contracts
//! carry the two cache guarantees: an instance only ever references a slot
//! that is still live and protected when the call ends, and every slot an
//! instance references was either delivered by an earlier update event of
//! the same call or already present when the call began.

use vstd::prelude::*;

use crate::atlas::{AtlasEntry, AtlasPage, GpuCacheConfig};
use crate::glyph::GlyphId;
use crate::layout::TextLayout;
use crate::raster::RasterStore;

verus! {

/// Instances buffered before a draw batch is emitted.
pub const INSTANCE_BATCH_LIMIT: usize = 1024;

/// One region of one atlas page to upload: a tightly packed grayscale
/// bitmap, its destination rectangle, and the glyph it belongs to.
pub struct AtlasUpdate {
    pub glyph_id: GlyphId,
    pub texture_index: usize,
    pub x: usize,
    pub y: usize,
    pub width: usize,
    pub height: usize,
    pub pixels: Vec<u8>,
}

/// One glyph quad drawn from an atlas page: the source rectangle in texels
/// and the screen position in subunits.
pub struct GlyphInstance<T> {
    pub atlas_page: usize,
    pub uv_x: usize,
    pub uv_y: usize,
    pub uv_w: usize,
    pub uv_h: usize,
    pub x: i64,
    pub y: i64,
    pub width: usize,
    pub height: usize,
    pub user_data: T,
}

/// One glyph drawn outside the atlas, with its own bitmap.
pub struct StandaloneGlyph<T> {
    pub glyph_id: GlyphId,
    pub width: usize,
    pub height: usize,
    pub pixels: Vec<u8>,
    pub x: i64,
    pub y: i64,
    pub user_data: T,
}

/// One step of a render call, in emission order.
pub enum GpuEvent<T> {
    /// Upload these atlas regions before the following draws.
    Updates(Vec<AtlasUpdate>),
    /// Draw this batch of atlas-backed quads.
    Instances(Vec<GlyphInstance<T>>),
    /// Draw this glyph from its own bitmap.
    Standalone(StandaloneGlyph<T>),
}

/// The multi-page atlas with its batch counter.
pub struct AtlasCache {
    pub pages: Vec<AtlasPage>,
    pub batch: u64,
}

/// An entry of `c` at page `page` occupies exactly the slot `(x, y, w, h)`.
pub open spec fn has_slot(c: AtlasCache, page: int, x: int, y: int, w: int, h: int) -> bool {
    &&& 0 <= page < c.pages@.len()
    &&& exists|j: int|
        0 <= j < c.pages@[page].entries@.len() && {
            let e = #[trigger] c.pages@[page].entries@[j];
            &&& e.slot_x == x
            &&& e.slot_y == y
            &&& e.width == w
            &&& e.height == h
        }
}

/// As `has_slot`, and the entry is protected: its batch is at least `frame`.
pub open spec fn has_live_slot(
    c: AtlasCache,
    page: int,
    x: int,
    y: int,
    w: int,
    h: int,
    frame: u64,
) -> bool {
    &&& 0 <= page < c.pages@.len()
    &&& exists|j: int|
        0 <= j < c.pages@[page].entries@.len() && {
            let e = #[trigger] c.pages@[page].entries@[j];
            &&& e.slot_x == x
            &&& e.slot_y == y
            &&& e.width == w
            &&& e.height == h
            &&& e.batch_id >= frame
        }
}

/// From `c1` to `c2`, pages keep their place and configuration, entries are
/// never dropped, and every entry protected by `frame` is untouched.
pub open spec fn protected_stable(c1: AtlasCache, c2: AtlasCache, frame: u64) -> bool {
    &&& c2.pages@.len() == c1.pages@.len()
    &&& c2.batch == c1.batch
    &&& forall|p: int|
        0 <= p < c1.pages@.len() ==> {
            let p1 = #[trigger] c1.pages@[p];
            let p2 = c2.pages@[p];
            &&& p2.config == p1.config
            &&& p2.entries@.len() >= p1.entries@.len()
            &&& forall|j: int|
                0 <= j < p1.entries@.len() && (#[trigger] p1.entries@[j]).batch_id >= frame
                    ==> p2.entries@[j] == p1.entries@[j]
        }
}

/// From `c0` to `c`, every entry whose batch is older than `frame` is one
/// that `c0` already held, unchanged, at the same place.
pub open spec fn stale_from(c0: AtlasCache, c: AtlasCache, frame: u64) -> bool {
    forall|p: int, j: int|
        0 <= p < c.pages@.len() && 0 <= j < c.pages@[p].entries@.len() && (#[trigger] c.pages@[p].entries@[j]).batch_id
            < frame ==> 0 <= p < c0.pages@.len() && j < c0.pages@[p].entries@.len()
            && c0.pages@[p].entries@[j] == c.pages@[p].entries@[j]
}

/// From `c1` to `c2`, every entry protected by `frame` either was already
/// protected and untouched, or sits at page `page` with slot rectangle
/// `(x, y)` and extents `(w, h)` — the one slot the step placed or touched.
pub open spec fn live_delta(
    c1: AtlasCache,
    c2: AtlasCache,
    frame: u64,
    page: int,
    x: int,
    y: int,
    w: int,
    h: int,
) -> bool {
    forall|p: int, j: int|
        0 <= p < c2.pages@.len() && 0 <= j < c2.pages@[p].entries@.len() && (#[trigger] c2.pages@[p].entries@[j]).batch_id
            >= frame ==> {
            ||| (0 <= p < c1.pages@.len() && j < c1.pages@[p].entries@.len() && c1.pages@[p].entries@[j]
                == c2.pages@[p].entries@[j] && c1.pages@[p].entries@[j].batch_id >= frame)
            ||| (p == page && c2.pages@[p].entries@[j].slot_x == x && c2.pages@[p].entries@[j].slot_y
                == y && c2.pages@[p].entries@[j].width == w && c2.pages@[p].entries@[j].height == h)
        }
}

/// An entry of `c`, on any page, holds glyph `id` with bitmap extents
/// `(w, h)`.
pub open spec fn has_glyph_slot(c: AtlasCache, id: GlyphId, w: int, h: int) -> bool {
    exists|p: int, j: int|
        0 <= p < c.pages@.len() && 0 <= j < c.pages@[p].entries@.len() && {
            let e = #[trigger] c.pages@[p].entries@[j];
            &&& e.glyph_id == id
            &&& e.width == w
            &&& e.height == h
        }
}

/// An entry of page `page` holds glyph `id` at slot `(x, y)` with extents
/// `(w, h)`.
pub open spec fn glyph_at(
    c: AtlasCache,
    id: GlyphId,
    page: int,
    x: int,
    y: int,
    w: int,
    h: int,
) -> bool {
    &&& 0 <= page < c.pages@.len()
    &&& exists|j: int|
        0 <= j < c.pages@[page].entries@.len() && {
            let e = #[trigger] c.pages@[page].entries@[j];
            &&& e.glyph_id == id
            &&& e.slot_x == x
            &&& e.slot_y == y
            &&& e.width == w
            &&& e.height == h
        }
}

/// As `glyph_at`, and the entry is protected by `frame`.
pub open spec fn glyph_live_at(
    c: AtlasCache,
    id: GlyphId,
    page: int,
    x: int,
    y: int,
    w: int,
    h: int,
    frame: u64,
) -> bool {
    &&& 0 <= page < c.pages@.len()
    &&& exists|j: int|
        0 <= j < c.pages@[page].entries@.len() && {
            let e = #[trigger] c.pages@[page].entries@[j];
            &&& e.glyph_id == id
            &&& e.slot_x == x
            &&& e.slot_y == y
            &&& e.width == w
            &&& e.height == h
            &&& e.batch_id >= frame
        }
}

/// Some page of `c` both accepts extents `(w, h)` and has room for them
/// under the protection frame.
pub open spec fn cache_can_place(c: AtlasCache, w: usize, h: usize, frame: u64) -> bool {
    exists|p: int|
        0 <= p < c.pages@.len() && (#[trigger] c.pages@[p]).config.spec_accepts(w, h)
            && c.pages@[p].can_place(w, h, frame)
}

/// From `c1` to `c2`, every entry keeps its page, index, glyph identity,
/// slot and extents; only batch marks may differ.
pub open spec fn glyph_slots_unchanged(c1: AtlasCache, c2: AtlasCache) -> bool {
    &&& c2.pages@.len() == c1.pages@.len()
    &&& forall|p: int|
        0 <= p < c1.pages@.len() ==> (#[trigger] c2.pages@[p]).entries@.len()
            == c1.pages@[p].entries@.len() && c2.pages@[p].config == c1.pages@[p].config
    &&& forall|p: int, j: int|
        0 <= p < c1.pages@.len() && 0 <= j < c1.pages@[p].entries@.len() ==> {
            let e1 = #[trigger] c1.pages@[p].entries@[j];
            let e2 = c2.pages@[p].entries@[j];
            &&& e2.glyph_id == e1.glyph_id
            &&& e2.slot_x == e1.slot_x
            &&& e2.slot_y == e1.slot_y
            &&& e2.slot_w == e1.slot_w
            &&& e2.slot_h == e1.slot_h
            &&& e2.width == e1.width
            &&& e2.height == e1.height
        }
}

/// `glyph_slots_unchanged` composes.
pub proof fn lemma_glyph_slots_unchanged_trans(c1: AtlasCache, c2: AtlasCache, c3: AtlasCache)
    requires
        glyph_slots_unchanged(c1, c2),
        glyph_slots_unchanged(c2, c3),
    ensures
        glyph_slots_unchanged(c1, c3),
{
    assert forall|p: int, j: int|
        0 <= p < c1.pages@.len() && 0 <= j < c1.pages@[p].entries@.len() implies {
        let e1 = #[trigger] c1.pages@[p].entries@[j];
        let e3 = c3.pages@[p].entries@[j];
        &&& e3.glyph_id == e1.glyph_id
        &&& e3.slot_x == e1.slot_x
        &&& e3.slot_y == e1.slot_y
        &&& e3.slot_w == e1.slot_w
        &&& e3.slot_h == e1.slot_h
        &&& e3.width == e1.width
        &&& e3.height == e1.height
    } by {
        assert(c2.pages@[p].entries@.len() == c1.pages@[p].entries@.len());
        assert(c2.pages@[p].entries@[j].glyph_id == c1.pages@[p].entries@[j].glyph_id);
    }
}

/// A glyph's slot survives a step that keeps all glyph slots.
pub proof fn lemma_has_glyph_slot_unchanged(c1: AtlasCache, c2: AtlasCache, id: GlyphId, w: int, h: int)
    requires
        glyph_slots_unchanged(c1, c2),
        has_glyph_slot(c1, id, w, h),
    ensures
        has_glyph_slot(c2, id, w, h),
{
    let (p, j) = choose|p: int, j: int|
        0 <= p < c1.pages@.len() && 0 <= j < c1.pages@[p].entries@.len() && {
            let e = #[trigger] c1.pages@[p].entries@[j];
            &&& e.glyph_id == id
            &&& e.width == w
            &&& e.height == h
        };
    assert(c2.pages@[p].entries@[j].glyph_id == id);
}

/// `protected_stable` composes.
pub proof fn lemma_protected_stable_trans(c1: AtlasCache, c2: AtlasCache, c3: AtlasCache, frame: u64)
    requires
        protected_stable(c1, c2, frame),
        protected_stable(c2, c3, frame),
    ensures
        protected_stable(c1, c3, frame),
{
    assert forall|p: int| 0 <= p < c1.pages@.len() implies {
        let p1 = #[trigger] c1.pages@[p];
        let p3 = c3.pages@[p];
        &&& p3.config == p1.config
        &&& p3.entries@.len() >= p1.entries@.len()
        &&& forall|j: int|
            0 <= j < p1.entries@.len() && (#[trigger] p1.entries@[j]).batch_id >= frame
                ==> p3.entries@[j] == p1.entries@[j]
    } by {
        assert(c2.pages@[p].config == c1.pages@[p].config);
        assert forall|j: int|
            0 <= j < c1.pages@[p].entries@.len() && (#[trigger] c1.pages@[p].entries@[j]).batch_id
                >= frame implies c3.pages@[p].entries@[j] == c1.pages@[p].entries@[j] by {
            assert(c2.pages@[p].entries@[j] == c1.pages@[p].entries@[j]);
        }
    }
}

/// A live slot stays live across a `protected_stable` step.
pub proof fn lemma_live_slot_stable(
    c1: AtlasCache,
    c2: AtlasCache,
    frame: u64,
    page: int,
    x: int,
    y: int,
    w: int,
    h: int,
)
    requires
        protected_stable(c1, c2, frame),
        has_live_slot(c1, page, x, y, w, h, frame),
    ensures
        has_live_slot(c2, page, x, y, w, h, frame),
{
    let j = choose|j: int|
        0 <= j < c1.pages@[page].entries@.len() && {
            let e = #[trigger] c1.pages@[page].entries@[j];
            &&& e.slot_x == x
            &&& e.slot_y == y
            &&& e.width == w
            &&& e.height == h
            &&& e.batch_id >= frame
        };
    assert(c2.pages@[page].entries@[j] == c1.pages@[page].entries@[j]);
}

/// Where a glyph was placed, if anywhere.
pub enum AtlasPlacement {
    /// The glyph already sat at this slot; it is now protected.
    Found { page: usize, x: usize, y: usize },
    /// The glyph was placed at this slot; its bitmap must be uploaded.
    Inserted { page: usize, x: usize, y: usize },
    /// No page accepts the glyph under the current protection state.
    Rejected,
}

impl AtlasCache {
    /// Every page is well formed and no entry's batch is ahead of the
    /// counter.
    pub open spec fn wf(self) -> bool {
        &&& forall|p: int| 0 <= p < self.pages@.len() ==> (#[trigger] self.pages@[p]).wf()
        &&& forall|p: int, j: int|
            0 <= p < self.pages@.len() && 0 <= j < self.pages@[p].entries@.len() ==> (
            #[trigger] self.pages@[p].entries@[j]).batch_id <= self.batch
    }

    /// One page per configuration, all empty, batch zero.
    pub fn new(configs: &Vec<GpuCacheConfig>) -> (r: AtlasCache)
        requires
            forall|i: int| 0 <= i < configs@.len() ==> (#[trigger] configs@[i]).wf(),
        ensures
            r.wf(),
            r.batch == 0,
            r.pages@.len() == configs@.len(),
            forall|p: int|
                0 <= p < configs@.len() ==> (#[trigger] r.pages@[p]).config == configs@[p]
                    && r.pages@[p].entries@.len() == 0 && r.pages@[p].shelf_x == 0
                    && r.pages@[p].shelf_y == 0 && r.pages@[p].shelf_h == 0,
    {
        let mut pages: Vec<AtlasPage> = Vec::new();
        let n = configs.len();
        for i in 0..n
            invariant
                n == configs@.len(),
                pages@.len() == i,
                forall|k: int| 0 <= k < configs@.len() ==> (#[trigger] configs@[k]).wf(),
                forall|p: int|
                    0 <= p < i ==> (#[trigger] pages@[p]).config == configs@[p] && pages@[p].wf()
                        && pages@[p].entries@.len() == 0 && pages@[p].shelf_x == 0
                        && pages@[p].shelf_y == 0 && pages@[p].shelf_h == 0,
        {
            pages.push(AtlasPage::new(configs[i]));
        }
        AtlasCache { pages, batch: 0 }
    }

    /// Drops all placements and resets the shelves across all pages; every
    /// page is left exactly as a freshly built page of its configuration, so
    /// subsequent renders behave as from a new renderer.
    pub fn clear(&mut self)
        requires
            old(self).wf(),
        ensures
            final(self).wf(),
            final(self).batch == old(self).batch,
            final(self).pages@.len() == old(self).pages@.len(),
            forall|p: int|
                0 <= p < final(self).pages@.len() ==> (#[trigger] final(self).pages@[p]).config
                    == old(self).pages@[p].config && final(self).pages@[p].entries@.len() == 0
                    && final(self).pages@[p].shelf_x == 0 && final(self).pages@[p].shelf_y == 0
                    && final(self).pages@[p].shelf_h == 0,
    {
        let n = self.pages.len();
        for i in 0..n
            invariant
                n == self.pages@.len(),
                self.batch == old(self).batch,
                forall|p: int|
                    0 <= p < n ==> (#[trigger] self.pages@[p]).config == old(self).pages@[p].config,
                forall|p: int| 0 <= p < n ==> (#[trigger] self.pages@[p]).wf(),
                forall|p: int|
                    0 <= p < i ==> (#[trigger] self.pages@[p]).entries@.len() == 0
                        && self.pages@[p].shelf_x == 0 && self.pages@[p].shelf_y == 0
                        && self.pages@[p].shelf_h == 0,
        {
            self.pages[i].clear();
        }
    }

    /// Advances the protection epoch, saturating at the counter's end.
    pub fn new_batch(&mut self)
        requires
            old(self).wf(),
        ensures
            final(self).wf(),
            final(self).pages == old(self).pages,
            old(self).batch < u64::MAX ==> final(self).batch == old(self).batch + 1,
            old(self).batch == u64::MAX ==> final(self).batch == u64::MAX,
    {
        if self.batch < u64::MAX {
            self.batch = self.batch + 1;
        }
    }

    /// Finds the page and index of an entry for `id` with extents `(w, h)`;
    /// answers nothing exactly when the cache holds no such entry.
    #[verifier::loop_isolation(false)]
    fn find(&self, id: GlyphId, w: usize, h: usize) -> (r: Option<(usize, usize)>)
        ensures
            match r {
                Some((p, j)) => {
                    &&& 0 <= (p as int) < self.pages@.len()
                    &&& 0 <= (j as int) < self.pages@[p as int].entries@.len()
                    &&& self.pages@[p as int].entries@[j as int].glyph_id == id
                    &&& self.pages@[p as int].entries@[j as int].width == w
                    &&& self.pages@[p as int].entries@[j as int].height == h
                },
                None => !has_glyph_slot(*self, id, w as int, h as int),
            },
    {
        let np = self.pages.len();
        for p in 0..np
            invariant
                np == self.pages@.len(),
                forall|pp: int, jj: int|
                    0 <= pp < p && 0 <= jj < self.pages@[pp].entries@.len() ==> !{
                        let e = #[trigger] self.pages@[pp].entries@[jj];
                        &&& e.glyph_id == id
                        &&& e.width == w
                        &&& e.height == h
                    },
        {
            let ne = self.pages[p].entries.len();
            for j in 0..ne
                invariant
                    np == self.pages@.len(),
                    p < np,
                    ne == self.pages@[p as int].entries@.len(),
                    forall|pp: int, jj: int|
                        0 <= pp < p && 0 <= jj < self.pages@[pp].entries@.len() ==> !{
                            let e = #[trigger] self.pages@[pp].entries@[jj];
                            &&& e.glyph_id == id
                            &&& e.width == w
                            &&& e.height == h
                        },
                    forall|jj: int|
                        0 <= jj < j ==> !{
                            let e = #[trigger] self.pages@[p as int].entries@[jj];
                            &&& e.glyph_id == id
                            &&& e.width == w
                            &&& e.height == h
                        },
            {
                let e = &self.pages[p].entries[j];
                if e.glyph_id.font_id == id.font_id && e.glyph_id.glyph_index == id.glyph_index
                    && e.glyph_id.size == id.size && e.width == w && e.height == h {
                    proof {
                        assert(e.glyph_id == id);
                    }
                    return Some((p, j));
                }
            }
        }
        None
    }

    /// Looks the glyph up; protects it when present, places it when absent.
    /// Entries protected by the current batch keep their place; entries of
    /// older batches may lose their slot to the new glyph. A glyph already
    /// resident with these extents is always found, and rejection happens
    /// exactly when no page both accepts the extents and has room for them.
    #[verifier::loop_isolation(false)]
    #[verifier::rlimit(60)]
    pub fn get_or_insert(&mut self, id: GlyphId, w: usize, h: usize) -> (r: AtlasPlacement)
        requires
            old(self).wf(),
            0 < w,
            0 < h,
        ensures
            final(self).wf(),
            final(self).batch == old(self).batch,
            protected_stable(*old(self), *final(self), old(self).batch),
            stale_from(*old(self), *final(self), old(self).batch),
            has_glyph_slot(*old(self), id, w as int, h as int) ==> r is Found,
            match r {
                AtlasPlacement::Found { page, x, y } => has_live_slot(
                    *final(self),
                    page as int,
                    x as int,
                    y as int,
                    w as int,
                    h as int,
                    final(self).batch,
                ) && glyph_live_at(
                    *final(self),
                    id,
                    page as int,
                    x as int,
                    y as int,
                    w as int,
                    h as int,
                    final(self).batch,
                ) && glyph_at(*old(self), id, page as int, x as int, y as int, w as int, h as int)
                    && glyph_slots_unchanged(*old(self), *final(self)) && live_delta(
                    *old(self),
                    *final(self),
                    old(self).batch,
                    page as int,
                    x as int,
                    y as int,
                    w as int,
                    h as int,
                ),
                AtlasPlacement::Inserted { page, x, y } => has_live_slot(
                    *final(self),
                    page as int,
                    x as int,
                    y as int,
                    w as int,
                    h as int,
                    final(self).batch,
                ) && glyph_live_at(
                    *final(self),
                    id,
                    page as int,
                    x as int,
                    y as int,
                    w as int,
                    h as int,
                    final(self).batch,
                ) && live_delta(
                    *old(self),
                    *final(self),
                    old(self).batch,
                    page as int,
                    x as int,
                    y as int,
                    w as int,
                    h as int,
                ),
                AtlasPlacement::Rejected => final(self).pages@ == old(self).pages@
                    && !has_glyph_slot(*old(self), id, w as int, h as int) && !cache_can_place(
                    *old(self),
                    w,
                    h,
                    old(self).batch,
                ),
            },
    {
        let ghost frame = self.batch;
        match self.find(id, w, h) {
            Some((p, j)) => {
                let ghost pi = p as int;
                let ghost ji = j as int;
                let e = self.pages[p].entries[j];
                let ne = AtlasEntry { batch_id: self.batch, ..e };
                self.pages[p].entries.set(j, ne);
                proof {
                    assert(self.pages@[pi].entries@ == old(self).pages@[pi].entries@.update(
                        ji,
                        ne,
                    ));
                    assert forall|pp: int| 0 <= pp < self.pages@.len() implies (
                    #[trigger] self.pages@[pp]).wf() by {
                        if pp != pi {
                            assert(self.pages@[pp] == old(self).pages@[pp]);
                        } else {
                            assert forall|i: int|
                                0 <= i < self.pages@[pp].entries@.len() implies (
                            #[trigger] self.pages@[pp].entries@[i]).wf(
                                self.pages@[pp].config.texture_size,
                            ) by {
                                if i != ji {
                                    assert(self.pages@[pp].entries@[i] == old(
                                        self,
                                    ).pages@[pp].entries@[i]);
                                }
                            }
                        }
                    }
                    assert forall|pp: int, jj: int|
                        0 <= pp < self.pages@.len() && 0 <= jj < self.pages@[pp].entries@.len()
                            implies (#[trigger] self.pages@[pp].entries@[jj]).batch_id
                            <= self.batch by {
                        if pp != pi {
                            assert(self.pages@[pp] == old(self).pages@[pp]);
                        } else if jj != ji {
                            assert(self.pages@[pp].entries@[jj] == old(self).pages@[pp].entries@[jj]);
                        }
                    }
                    assert(protected_stable(*old(self), *self, frame)) by {
                        assert forall|pp: int| 0 <= pp < old(self).pages@.len() implies {
                            let p1 = #[trigger] old(self).pages@[pp];
                            let p2 = self.pages@[pp];
                            &&& p2.config == p1.config
                            &&& p2.entries@.len() >= p1.entries@.len()
                            &&& forall|jj: int|
                                0 <= jj < p1.entries@.len() && (#[trigger] p1.entries@[jj]).batch_id
                                    >= frame ==> p2.entries@[jj] == p1.entries@[jj]
                        } by {
                            if pp != pi {
                                assert(self.pages@[pp] == old(self).pages@[pp]);
                            } else {
                                assert forall|jj: int|
                                    0 <= jj < old(self).pages@[pp].entries@.len() && (
                                #[trigger] old(self).pages@[pp].entries@[jj]).batch_id >= frame
                                    implies self.pages@[pp].entries@[jj] == old(
                                    self,
                                ).pages@[pp].entries@[jj] by {
                                    if jj == ji {
                                        assert(e.batch_id <= frame);
                                        assert(ne == e);
                                    }
                                }
                            }
                        }
                    }
                    assert(stale_from(*old(self), *self, frame)) by {
                        assert forall|pp: int, jj: int|
                            0 <= pp < self.pages@.len() && 0 <= jj < self.pages@[pp].entries@.len()
                                && (#[trigger] self.pages@[pp].entries@[jj]).batch_id < frame
                                implies 0 <= pp < old(self).pages@.len() && jj < old(
                                self,
                            ).pages@[pp].entries@.len() && old(self).pages@[pp].entries@[jj]
                                == self.pages@[pp].entries@[jj] by {
                            if pp != pi {
                                assert(self.pages@[pp] == old(self).pages@[pp]);
                            } else {
                                assert(jj != ji);
                                assert(self.pages@[pp].entries@[jj] == old(
                                    self,
                                ).pages@[pp].entries@[jj]);
                            }
                        }
                    }
                    assert(self.pages@[pi].entries@[ji] == ne);
                    assert(old(self).pages@[pi].entries@[ji] == e);
                    assert(self.pages@[pi].entries@[ji].glyph_id == id);
                    assert(old(self).pages@[pi].entries@[ji].glyph_id == id);
                    assert(glyph_slots_unchanged(*old(self), *self)) by {
                        assert forall|pp: int, jj: int|
                            0 <= pp < old(self).pages@.len() && 0 <= jj < old(
                                self,
                            ).pages@[pp].entries@.len() implies {
                            let e1 = #[trigger] old(self).pages@[pp].entries@[jj];
                            let e2 = self.pages@[pp].entries@[jj];
                            &&& e2.glyph_id == e1.glyph_id
                            &&& e2.slot_x == e1.slot_x
                            &&& e2.slot_y == e1.slot_y
                            &&& e2.slot_w == e1.slot_w
                            &&& e2.slot_h == e1.slot_h
                            &&& e2.width == e1.width
                            &&& e2.height == e1.height
                        } by {
                            if pp != pi || jj != ji {
                                assert(self.pages@[pp].entries@[jj] == old(
                                    self,
                                ).pages@[pp].entries@[jj]);
                            }
                        }
                    }
                }
                AtlasPlacement::Found { page: p, x: e.slot_x, y: e.slot_y }
            },
            None => {
                let np = self.pages.len();
                for p in 0..np
                    invariant
                        np == self.pages@.len(),
                        self.batch == frame,
                        self.pages@ == old(self).pages@,
                        forall|pp: int|
                            0 <= pp < p ==> !((#[trigger] old(self).pages@[pp]).config.spec_accepts(
                                w,
                                h,
                            ) && old(self).pages@[pp].can_place(w, h, frame)),
                {
                    let accepts = self.pages[p].config.accepts(w, h);
                    if accepts {
                        let b = self.batch;
                        let ghost pi = p as int;
                        let placed = self.pages[p].try_place(id, w, h, b, b);
                        match placed {
                            Some(k) => {
                                let ghost ki = k as int;
                                proof {
                                    assert forall|pp: int|
                                        0 <= pp < self.pages@.len() implies (
                                    #[trigger] self.pages@[pp]).wf() by {
                                        if pp != pi {
                                            assert(self.pages@[pp] == old(self).pages@[pp]);
                                        }
                                    }
                                    assert forall|pp: int, jj: int|
                                        0 <= pp < self.pages@.len() && 0 <= jj
                                            < self.pages@[pp].entries@.len() implies (
                                    #[trigger] self.pages@[pp].entries@[jj]).batch_id
                                        <= self.batch by {
                                        if pp != pi {
                                            assert(self.pages@[pp] == old(self).pages@[pp]);
                                        } else if jj != ki {
                                            assert(self.pages@[pp].entries@[jj] == old(
                                                self,
                                            ).pages@[pp].entries@[jj]);
                                        }
                                    }
                                    assert(protected_stable(*old(self), *self, frame)) by {
                                        assert forall|pp: int|
                                            0 <= pp < old(self).pages@.len() implies {
                                            let p1 = #[trigger] old(self).pages@[pp];
                                            let p2 = self.pages@[pp];
                                            &&& p2.config == p1.config
                                            &&& p2.entries@.len() >= p1.entries@.len()
                                            &&& forall|jj: int|
                                                0 <= jj < p1.entries@.len() && (
                                                #[trigger] p1.entries@[jj]).batch_id >= frame
                                                    ==> p2.entries@[jj] == p1.entries@[jj]
                                        } by {
                                            if pp != pi {
                                                assert(self.pages@[pp] == old(self).pages@[pp]);
                                            }
                                        }
                                    }
                                    assert(stale_from(*old(self), *self, frame)) by {
                                        assert forall|pp: int, jj: int|
                                            0 <= pp < self.pages@.len() && 0 <= jj
                                                < self.pages@[pp].entries@.len() && (
                                            #[trigger] self.pages@[pp].entries@[jj]).batch_id
                                            < frame implies 0 <= pp < old(self).pages@.len() && jj
                                            < old(self).pages@[pp].entries@.len() && old(
                                            self,
                                        ).pages@[pp].entries@[jj] == self.pages@[pp].entries@[jj] by {
                                            if pp != pi {
                                                assert(self.pages@[pp] == old(self).pages@[pp]);
                                            } else {
                                                assert(jj != ki);
                                                assert(self.pages@[pp].entries@[jj] == old(
                                                    self,
                                                ).pages@[pp].entries@[jj]);
                                            }
                                        }
                                    }
                                }
                                let e = self.pages[p].entries[k];
                                proof {
                                    assert(self.pages@[pi].entries@[ki] == e);
                                    assert(e.slot_x == e.slot_x && e.slot_y == e.slot_y && e.width
                                        == w && e.height == h && e.batch_id >= self.batch
                                        && e.glyph_id == id);
                                }
                                return AtlasPlacement::Inserted { page: p, x: e.slot_x, y: e.slot_y };
                            },
                            None => {
                                proof {
                                    assert(self.pages@ =~= old(self).pages@);
                                }
                            },
                        }
                    }
                }
                AtlasPlacement::Rejected
            },
        }
    }
}

/// Some update in `us` uploads exactly the rectangle `(x, y, w, h)` of page
/// `page`.
pub open spec fn rect_covered_in(
    us: Seq<AtlasUpdate>,
    page: int,
    x: int,
    y: int,
    w: int,
    h: int,
) -> bool {
    exists|j: int|
        0 <= j < us.len() && {
            let u = #[trigger] us[j];
            &&& u.texture_index == page
            &&& u.x == x
            &&& u.y == y
            &&& u.width == w
            &&& u.height == h
        }
}

/// Some updates event strictly before position `p` uploads the rectangle.
pub open spec fn rect_covered_before<T>(
    events: Seq<GpuEvent<T>>,
    p: int,
    page: int,
    x: int,
    y: int,
    w: int,
    h: int,
) -> bool {
    exists|q: int|
        0 <= q < p && ((#[trigger] events[q]) matches GpuEvent::Updates(us) && rect_covered_in(
            us@,
            page,
            x,
            y,
            w,
            h,
        ))
}

/// The rectangle an instance samples is covered: by a pending update, by an
/// update event already emitted, or by a slot the cache held at `c0`.
pub open spec fn inst_covered<T>(
    events: Seq<GpuEvent<T>>,
    pu: Seq<AtlasUpdate>,
    c0: AtlasCache,
    inst: GlyphInstance<T>,
) -> bool {
    ||| rect_covered_in(pu, inst.atlas_page as int, inst.uv_x as int, inst.uv_y as int, inst.uv_w as int, inst.uv_h as int)
    ||| rect_covered_before(
        events,
        events.len() as int,
        inst.atlas_page as int,
        inst.uv_x as int,
        inst.uv_y as int,
        inst.uv_w as int,
        inst.uv_h as int,
    )
    ||| has_slot(c0, inst.atlas_page as int, inst.uv_x as int, inst.uv_y as int, inst.uv_w as int, inst.uv_h as int)
}

/// One drawn glyph, page-independent: screen position, bitmap extents, and
/// the user payload.
pub type DrawRec<T> = (int, int, int, int, T);

/// The records of one instance batch.
pub open spec fn recs_of_instances<T>(is: Seq<GlyphInstance<T>>) -> Seq<DrawRec<T>> {
    is.map(
        |i: int, inst: GlyphInstance<T>| (
            inst.x as int,
            inst.y as int,
            inst.width as int,
            inst.height as int,
            inst.user_data,
        ),
    )
}

/// Everything an event stream draws, atlas-backed or standalone, in order.
pub open spec fn drawn_recs<T>(events: Seq<GpuEvent<T>>) -> Seq<DrawRec<T>>
    decreases events.len(),
{
    if events.len() == 0 {
        Seq::empty()
    } else {
        drawn_recs(events.drop_last()) + (match events.last() {
            GpuEvent::Updates(_) => Seq::<DrawRec<T>>::empty(),
            GpuEvent::Instances(is) => recs_of_instances(is@),
            GpuEvent::Standalone(g) => seq![
                (g.x as int, g.y as int, g.width as int, g.height as int, g.user_data),
            ],
        })
    }
}

/// The glyphs of a line prefix the store can draw: those with a non-empty
/// bitmap.
pub open spec fn drawable_of_glyphs<T>(
    glyphs: Seq<crate::model::GlyphPos<T>>,
    store: RasterStore,
) -> Seq<DrawRec<T>>
    decreases glyphs.len(),
{
    if glyphs.len() == 0 {
        Seq::empty()
    } else {
        drawable_of_glyphs(glyphs.drop_last(), store) + (match store.spec_raster(
            glyphs.last().id,
        ) {
            Some(r) => if r.width > 0 && r.height > 0 {
                seq![
                    (
                        glyphs.last().x,
                        glyphs.last().y,
                        r.width as int,
                        r.height as int,
                        glyphs.last().user,
                    ),
                ]
            } else {
                Seq::<DrawRec<T>>::empty()
            },
            None => Seq::<DrawRec<T>>::empty(),
        })
    }
}

/// The drawable glyphs of a layout prefix, in reading order.
pub open spec fn drawable_of_lines<T>(
    lines: Seq<crate::model::LineModel<T>>,
    store: RasterStore,
) -> Seq<DrawRec<T>>
    decreases lines.len(),
{
    if lines.len() == 0 {
        Seq::empty()
    } else {
        drawable_of_lines(lines.drop_last(), store) + drawable_of_glyphs(
            lines.last().glyphs,
            store,
        )
    }
}

/// The update carries exactly the store's bitmap for its glyph.
pub open spec fn update_matches_store(u: AtlasUpdate, store: RasterStore) -> bool {
    match store.spec_raster(u.glyph_id) {
        Some(r) => {
            &&& u.width == r.width
            &&& u.height == r.height
            &&& u.pixels@ == r.pixels@
            &&& r.width > 0
            &&& r.height > 0
        },
        None => false,
    }
}

/// Every update of the sequence carries its glyph's store bitmap.
pub open spec fn updates_match_store(us: Seq<AtlasUpdate>, store: RasterStore) -> bool {
    forall|j: int| 0 <= j < us.len() ==> update_matches_store(#[trigger] us[j], store)
}

/// The standalone record carries exactly the store's bitmap for its glyph.
pub open spec fn standalone_matches_store<T>(g: StandaloneGlyph<T>, store: RasterStore) -> bool {
    match store.spec_raster(g.glyph_id) {
        Some(r) => {
            &&& g.width == r.width
            &&& g.height == r.height
            &&& g.pixels@ == r.pixels@
        },
        None => false,
    }
}

/// The instance samples exactly its glyph's bitmap extents.
pub open spec fn inst_uv_ok<T>(inst: GlyphInstance<T>) -> bool {
    &&& inst.uv_w == inst.width
    &&& inst.uv_h == inst.height
}

/// Every record of the stream carries honest content: updates and
/// standalones hold their glyph's store bitmap, instances sample their
/// glyph's bitmap extents.
pub open spec fn events_content_ok<T>(events: Seq<GpuEvent<T>>, store: RasterStore) -> bool {
    forall|p: int|
        0 <= p < events.len() ==> match #[trigger] events[p] {
            GpuEvent::Updates(us) => updates_match_store(us@, store),
            GpuEvent::Instances(is) => forall|k: int|
                0 <= k < is@.len() ==> inst_uv_ok(#[trigger] is@[k]),
            GpuEvent::Standalone(g) => standalone_matches_store(g, store),
        }
}

/// Every update of the stream names a slot that still holds its glyph,
/// protected, in the cache `c`.
pub open spec fn updates_live<T>(events: Seq<GpuEvent<T>>, c: AtlasCache, frame: u64) -> bool {
    forall|p: int|
        0 <= p < events.len() ==> ((#[trigger] events[p]) matches GpuEvent::Updates(us)
            ==> forall|j: int|
            0 <= j < us@.len() ==> glyph_live_at(
                c,
                (#[trigger] us@[j]).glyph_id,
                us@[j].texture_index as int,
                us@[j].x as int,
                us@[j].y as int,
                us@[j].width as int,
                us@[j].height as int,
                frame,
            ))
}

/// Every drawable glyph of the layout already sits in the cache with its
/// bitmap extents.
pub open spec fn all_resident<T>(
    c: AtlasCache,
    lines: Seq<crate::model::LineModel<T>>,
    store: RasterStore,
) -> bool {
    forall|i: int, k: int|
        0 <= i < lines.len() && 0 <= k < lines[i].glyphs.len() ==> match store.spec_raster(
            (#[trigger] lines[i].glyphs[k]).id,
        ) {
            Some(r) => r.width > 0 && r.height > 0 ==> has_glyph_slot(
                c,
                lines[i].glyphs[k].id,
                r.width as int,
                r.height as int,
            ),
            None => true,
        }
}

/// The stream uploads nothing and draws nothing standalone: every updates
/// event is empty and no standalone event occurs.
pub open spec fn no_new_uploads<T>(events: Seq<GpuEvent<T>>) -> bool {
    forall|p: int|
        0 <= p < events.len() ==> match #[trigger] events[p] {
            GpuEvent::Updates(us) => us@.len() == 0,
            GpuEvent::Instances(_) => true,
            GpuEvent::Standalone(_) => false,
        }
}

/// ATLAS OVERFLOW. Every instance a render call emits has bitmap extents
/// that one of the pages configured before the call accepts: a glyph whose
/// extents no configured page accepts is never instanced, so (with the
/// drawn-records completeness of `render`) it can only be drawn standalone.
/// The hypotheses are exactly clauses of `GpuRenderer::render`'s ensures.
pub proof fn lemma_oversized_never_instanced<T>(
    events: Seq<GpuEvent<T>>,
    c_old: AtlasCache,
    c_final: AtlasCache,
    frame: u64,
    inst: GlyphInstance<T>,
    p: int,
    k: int,
)
    requires
        c_final.wf(),
        c_final.pages@.len() == c_old.pages@.len(),
        forall|q: int|
            0 <= q < c_old.pages@.len() ==> (#[trigger] c_final.pages@[q]).config
                == c_old.pages@[q].config,
        events_live(events, c_final, frame),
        0 <= p < events.len(),
        events[p] matches GpuEvent::Instances(is) && 0 <= k < is@.len() && is@[k] == inst,
    ensures
        exists|q: int|
            0 <= q < c_old.pages@.len() && (#[trigger] c_old.pages@[q]).config.spec_accepts(
                inst.uv_w,
                inst.uv_h,
            ),
{
    assert(inst_live(c_final, inst, frame));
    let page = inst.atlas_page as int;
    let j = choose|j: int|
        0 <= j < c_final.pages@[page].entries@.len() && {
            let e = #[trigger] c_final.pages@[page].entries@[j];
            &&& e.slot_x == inst.uv_x
            &&& e.slot_y == inst.uv_y
            &&& e.width == inst.uv_w
            &&& e.height == inst.uv_h
            &&& e.batch_id >= frame
        };
    assert(c_final.pages@[page].wf());
    assert(c_final.pages@[page].config.spec_accepts(inst.uv_w, inst.uv_h));
    assert(c_old.pages@[page].config.spec_accepts(inst.uv_w, inst.uv_h));
}

/// A glyph's protected slot survives a `protected_stable` step.
pub proof fn lemma_glyph_live_stable(
    c1: AtlasCache,
    c2: AtlasCache,
    frame: u64,
    id: GlyphId,
    page: int,
    x: int,
    y: int,
    w: int,
    h: int,
)
    requires
        protected_stable(c1, c2, frame),
        glyph_live_at(c1, id, page, x, y, w, h, frame),
    ensures
        glyph_live_at(c2, id, page, x, y, w, h, frame),
{
    let j = choose|j: int|
        0 <= j < c1.pages@[page].entries@.len() && {
            let e = #[trigger] c1.pages@[page].entries@[j];
            &&& e.glyph_id == id
            &&& e.slot_x == x
            &&& e.slot_y == y
            &&& e.width == w
            &&& e.height == h
            &&& e.batch_id >= frame
        };
    assert(c2.pages@[page].entries@[j] == c1.pages@[page].entries@[j]);
}

/// The instance references a slot that is live and protected in `c`.
pub open spec fn inst_live<T>(c: AtlasCache, inst: GlyphInstance<T>, frame: u64) -> bool {
    has_live_slot(
        c,
        inst.atlas_page as int,
        inst.uv_x as int,
        inst.uv_y as int,
        inst.uv_w as int,
        inst.uv_h as int,
        frame,
    )
}

/// ATLAS PROTECTION. Every instance of every batch of the event stream
/// references a slot that is still live and protected in the cache `c`.
pub open spec fn events_live<T>(events: Seq<GpuEvent<T>>, c: AtlasCache, frame: u64) -> bool {
    forall|p: int|
        0 <= p < events.len() ==> ((#[trigger] events[p]) matches GpuEvent::Instances(insts)
            ==> forall|k: int| 0 <= k < insts@.len() ==> inst_live(c, #[trigger] insts@[k], frame))
}

/// ATLAS UPDATE BEFORE USE. Every instance of every batch references a slot
/// delivered by an update event earlier in the same stream, or one the cache
/// already held at `c0` when the call began.
pub open spec fn events_updated_before_use<T>(events: Seq<GpuEvent<T>>, c0: AtlasCache) -> bool {
    forall|p: int|
        0 <= p < events.len() ==> ((#[trigger] events[p]) matches GpuEvent::Instances(insts)
            ==> forall|k: int|
            0 <= k < insts@.len() ==> rect_covered_before(
                events,
                p,
                (#[trigger] insts@[k]).atlas_page as int,
                insts@[k].uv_x as int,
                insts@[k].uv_y as int,
                insts@[k].uv_w as int,
                insts@[k].uv_h as int,
            ) || has_slot(
                c0,
                insts@[k].atlas_page as int,
                insts@[k].uv_x as int,
                insts@[k].uv_y as int,
                insts@[k].uv_w as int,
                insts@[k].uv_h as int,
            ))
}

/// Every live slot of `c` is covered by the pending updates, an emitted
/// update event, or a slot of `c0`.
pub open spec fn live_slots_covered<T>(
    c: AtlasCache,
    frame: u64,
    events: Seq<GpuEvent<T>>,
    pu: Seq<AtlasUpdate>,
    c0: AtlasCache,
) -> bool {
    forall|p: int, j: int|
        0 <= p < c.pages@.len() && 0 <= j < c.pages@[p].entries@.len() && (#[trigger] c.pages@[p].entries@[j]).batch_id
            >= frame ==> {
            let e = c.pages@[p].entries@[j];
            ||| rect_covered_in(pu, p, e.slot_x as int, e.slot_y as int, e.width as int, e.height as int)
            ||| rect_covered_before(
                events,
                events.len() as int,
                p,
                e.slot_x as int,
                e.slot_y as int,
                e.width as int,
                e.height as int,
            )
            ||| has_slot(c0, p, e.slot_x as int, e.slot_y as int, e.width as int, e.height as int)
        }
}

/// An exact copy of a byte vector.
fn copy_bytes(v: &Vec<u8>) -> (r: Vec<u8>)
    ensures
        r@ == v@,
{
    let mut r: Vec<u8> = Vec::new();
    let n = v.len();
    for i in 0..n
        invariant
            n == v@.len(),
            r@ == v@.take(i as int),
    {
        r.push(v[i]);
        proof {
            assert(v@.take(i as int + 1) =~= v@.take(i as int).push(v@[i as int]));
        }
    }
    proof {
        assert(v@.take(n as int) =~= v@);
    }
    r
}

/// A text renderer that packs glyph bitmaps into atlas pages and emits
/// instanced draw records.
pub struct GpuRenderer {
    pub cache: AtlasCache,
}

impl GpuRenderer {
    /// A renderer with one empty atlas page per configuration.
    pub fn new(configs: &Vec<GpuCacheConfig>) -> (r: GpuRenderer)
        requires
            forall|i: int| 0 <= i < configs@.len() ==> (#[trigger] configs@[i]).wf(),
        ensures
            r.cache.wf(),
            r.cache.batch == 0,
            r.cache.pages@.len() == configs@.len(),
            forall|p: int|
                0 <= p < configs@.len() ==> (#[trigger] r.cache.pages@[p]).config == configs@[p]
                    && r.cache.pages@[p].entries@.len() == 0 && r.cache.pages@[p].shelf_x == 0
                    && r.cache.pages@[p].shelf_y == 0 && r.cache.pages@[p].shelf_h == 0,
    {
        GpuRenderer { cache: AtlasCache::new(configs) }
    }

    /// Drops all placements and resets the shelves across all pages; every
    /// page is left exactly as a freshly built page of its configuration, so
    /// subsequent renders behave as from a new renderer.
    pub fn clear_cache(&mut self)
        requires
            old(self).cache.wf(),
        ensures
            final(self).cache.wf(),
            final(self).cache.batch == old(self).cache.batch,
            final(self).cache.pages@.len() == old(self).cache.pages@.len(),
            forall|p: int|
                0 <= p < final(self).cache.pages@.len() ==> (
                #[trigger] final(self).cache.pages@[p]).config == old(self).cache.pages@[p].config
                    && final(self).cache.pages@[p].entries@.len() == 0
                    && final(self).cache.pages@[p].shelf_x == 0
                    && final(self).cache.pages@[p].shelf_y == 0
                    && final(self).cache.pages@[p].shelf_h == 0,
    {
        self.cache.clear();
    }

    /// Walks the layout in reading order and emits the frame's event stream:
    /// update events always precede the instance batches that sample them,
    /// and nothing placed or touched by this call loses its slot before the
    /// call ends. Glyphs without a bitmap in the store, and empty bitmaps,
    /// are skipped; glyphs no page accepts are emitted standalone.
    #[verifier::loop_isolation(false)]
    #[verifier::rlimit(100)]
    pub fn render<T: Copy>(&mut self, layout: &TextLayout<T>, rasters: &RasterStore) -> (events:
        Vec<GpuEvent<T>>)
        requires
            old(self).cache.wf(),
            rasters.wf(),
        ensures
            final(self).cache.wf(),
            final(self).cache.pages@.len() == old(self).cache.pages@.len(),
            forall|p: int|
                0 <= p < old(self).cache.pages@.len() ==> (
                #[trigger] final(self).cache.pages@[p]).config == old(self).cache.pages@[p].config,
            events_live(events@, final(self).cache, final(self).cache.batch),
            events_updated_before_use(events@, old(self).cache),
            drawn_recs(events@) == drawable_of_lines(layout@.lines, *rasters),
            events_content_ok(events@, *rasters),
            updates_live(events@, final(self).cache, final(self).cache.batch),
            all_resident(old(self).cache, layout@.lines, *rasters) ==> no_new_uploads(events@)
                && glyph_slots_unchanged(old(self).cache, final(self).cache),
    {
        let ghost cstart = self.cache;
        self.cache.new_batch();
        let ghost c0 = self.cache;
        let ghost frame = self.cache.batch;
        proof {
            assert(protected_stable(c0, self.cache, frame));
            assert(stale_from(c0, self.cache, frame));
            assert(glyph_slots_unchanged(cstart, self.cache));
        }
        let mut events: Vec<GpuEvent<T>> = Vec::new();
        let mut pu: Vec<AtlasUpdate> = Vec::new();
        let mut pi: Vec<GlyphInstance<T>> = Vec::new();
        let nl = layout.lines.len();
        for li in 0..nl
            invariant
                nl == layout.lines@.len(),
                self.cache.wf(),
                self.cache.batch == frame,
                protected_stable(c0, self.cache, frame),
                stale_from(c0, self.cache, frame),
                live_slots_covered(self.cache, frame, events@, pu@, c0),
                events_live(events@, self.cache, frame),
                events_updated_before_use(events@, c0),
                forall|k: int|
                    0 <= k < pi@.len() ==> inst_live(self.cache, #[trigger] pi@[k], frame),
                forall|k: int| 0 <= k < pi@.len() ==> inst_covered(events@, pu@, c0, #[trigger] pi@[k]),
                drawn_recs(events@) + recs_of_instances(pi@) == drawable_of_lines(
                    layout@.lines.take(li as int),
                    *rasters,
                ),
                events_content_ok(events@, *rasters),
                updates_match_store(pu@, *rasters),
                forall|k: int| 0 <= k < pi@.len() ==> inst_uv_ok(#[trigger] pi@[k]),
                updates_live(events@, self.cache, frame),
                forall|j: int|
                    0 <= j < pu@.len() ==> glyph_live_at(
                        self.cache,
                        (#[trigger] pu@[j]).glyph_id,
                        pu@[j].texture_index as int,
                        pu@[j].x as int,
                        pu@[j].y as int,
                        pu@[j].width as int,
                        pu@[j].height as int,
                        frame,
                    ),
                all_resident(cstart, layout@.lines, *rasters) ==> no_new_uploads(events@) && pu@.len()
                    == 0 && glyph_slots_unchanged(cstart, self.cache),
        {
            proof {
                assert(layout@.lines.take(0int) =~= Seq::<crate::model::LineModel<T>>::empty());
            }
            let ghost lm_glyphs = layout@.lines[li as int].glyphs;
            let ng = layout.lines[li].glyphs.len();
            proof {
                assert(lm_glyphs.take(0int) =~= Seq::<crate::model::GlyphPos<T>>::empty());
                assert(drawn_recs(events@) + recs_of_instances(pi@) =~= drawable_of_lines(
                    layout@.lines.take(li as int),
                    *rasters,
                ) + drawable_of_glyphs(lm_glyphs.take(0int), *rasters));
            }
            for gi in 0..ng
                invariant
                    nl == layout.lines@.len(),
                    li < nl,
                    ng == layout.lines@[li as int].glyphs@.len(),
                    self.cache.wf(),
                    self.cache.batch == frame,
                    protected_stable(c0, self.cache, frame),
                    stale_from(c0, self.cache, frame),
                    live_slots_covered(self.cache, frame, events@, pu@, c0),
                    events_live(events@, self.cache, frame),
                    events_updated_before_use(events@, c0),
                    forall|k: int|
                        0 <= k < pi@.len() ==> inst_live(self.cache, #[trigger] pi@[k], frame),
                    forall|k: int|
                        0 <= k < pi@.len() ==> inst_covered(events@, pu@, c0, #[trigger] pi@[k]),
                    lm_glyphs == layout@.lines[li as int].glyphs,
                    drawn_recs(events@) + recs_of_instances(pi@) == drawable_of_lines(
                        layout@.lines.take(li as int),
                        *rasters,
                    ) + drawable_of_glyphs(lm_glyphs.take(gi as int), *rasters),
                    events_content_ok(events@, *rasters),
                    updates_match_store(pu@, *rasters),
                    forall|k: int| 0 <= k < pi@.len() ==> inst_uv_ok(#[trigger] pi@[k]),
                    updates_live(events@, self.cache, frame),
                    forall|j: int|
                        0 <= j < pu@.len() ==> glyph_live_at(
                            self.cache,
                            (#[trigger] pu@[j]).glyph_id,
                            pu@[j].texture_index as int,
                            pu@[j].x as int,
                            pu@[j].y as int,
                            pu@[j].width as int,
                            pu@[j].height as int,
                            frame,
                        ),
                    all_resident(cstart, layout@.lines, *rasters) ==> no_new_uploads(events@)
                        && pu@.len() == 0 && glyph_slots_unchanged(cstart, self.cache),
            {
                let ghost recs_pre = drawn_recs(events@) + recs_of_instances(pi@);
                let g = &layout.lines[li].glyphs[gi];
                proof {
                    assert(lm_glyphs[gi as int] == layout.lines@[li as int].glyphs@[gi as int]@);
                }
                let ghost gm = lm_glyphs[gi as int];
                let ghost appended: Seq<DrawRec<T>> = match rasters.spec_raster(gm.id) {
                    Some(r) => if r.width > 0 && r.height > 0 {
                        seq![(gm.x, gm.y, r.width as int, r.height as int, gm.user)]
                    } else {
                        Seq::empty()
                    },
                    None => Seq::empty(),
                };
                let found = rasters.raster(g.glyph_id);
                match found {
                    None => {
                        proof {
                            assert(drawn_recs(events@) + recs_of_instances(pi@) =~= recs_pre
                                + appended);
                        }
                    },
                    Some(raster) => {
                        proof {
                            rasters.lemma_raster_wf(g.glyph_id);
                        }
                        if raster.width > 0 && raster.height > 0 {
                            let ghost pre = self.cache;
                            let placement = self.cache.get_or_insert(
                                g.glyph_id,
                                raster.width,
                                raster.height,
                            );
                            proof {
                                lemma_protected_stable_trans(c0, pre, self.cache, frame);
                                lemma_stale_from_trans(c0, pre, self.cache, frame);
                                lemma_pending_after_step(
                                    pre,
                                    self.cache,
                                    frame,
                                    events@,
                                    pu@,
                                    c0,
                                    pi@,
                                );
                            }
                            match placement {
                                AtlasPlacement::Found { page, x, y } => {
                                    proof {
                                        if all_resident(cstart, layout@.lines, *rasters) {
                                            lemma_glyph_slots_unchanged_trans(
                                                cstart,
                                                pre,
                                                self.cache,
                                            );
                                        }
                                        lemma_found_covered(
                                            pre,
                                            self.cache,
                                            frame,
                                            events@,
                                            pu@,
                                            c0,
                                            page as int,
                                            x as int,
                                            y as int,
                                            raster.width as int,
                                            raster.height as int,
                                        );
                                    }
                                    let inst = GlyphInstance {
                                        atlas_page: page,
                                        uv_x: x,
                                        uv_y: y,
                                        uv_w: raster.width,
                                        uv_h: raster.height,
                                        x: g.x,
                                        y: g.y,
                                        width: raster.width,
                                        height: raster.height,
                                        user_data: g.user_data,
                                    };
                                    let ghost pi0 = pi@;
                                    pi.push(inst);
                                    proof {
                                        lemma_recs_push(pi0, inst);
                                        assert(drawn_recs(events@) + recs_of_instances(pi@)
                                            =~= recs_pre + appended);
                                    }
                                },
                                AtlasPlacement::Inserted { page, x, y } => {
                                    proof {
                                        if all_resident(cstart, layout@.lines, *rasters) {
                                            assert(layout@.lines[li as int].glyphs[gi as int]
                                                == gm);
                                            assert(has_glyph_slot(
                                                cstart,
                                                gm.id,
                                                raster.width as int,
                                                raster.height as int,
                                            ));
                                            lemma_has_glyph_slot_unchanged(
                                                cstart,
                                                pre,
                                                gm.id,
                                                raster.width as int,
                                                raster.height as int,
                                            );
                                            assert(false);
                                        }
                                    }
                                    let upd = AtlasUpdate {
                                        glyph_id: g.glyph_id,
                                        texture_index: page,
                                        x,
                                        y,
                                        width: raster.width,
                                        height: raster.height,
                                        pixels: copy_bytes(&raster.pixels),
                                    };
                                    let ghost pu0 = pu@;
                                    pu.push(upd);
                                    proof {
                                        lemma_pu_grow(events@, pu0, pu@, c0, pi@);
                                        lemma_inserted_covered(
                                            pre,
                                            self.cache,
                                            frame,
                                            events@,
                                            pu0,
                                            pu@,
                                            c0,
                                            page as int,
                                            x as int,
                                            y as int,
                                            raster.width as int,
                                            raster.height as int,
                                        );
                                        assert(rect_covered_in(
                                            pu@,
                                            page as int,
                                            x as int,
                                            y as int,
                                            raster.width as int,
                                            raster.height as int,
                                        )) by {
                                            assert(pu@[pu0.len() as int].texture_index == page);
                                        }
                                    }
                                    let inst = GlyphInstance {
                                        atlas_page: page,
                                        uv_x: x,
                                        uv_y: y,
                                        uv_w: raster.width,
                                        uv_h: raster.height,
                                        x: g.x,
                                        y: g.y,
                                        width: raster.width,
                                        height: raster.height,
                                        user_data: g.user_data,
                                    };
                                    let ghost pi0 = pi@;
                                    pi.push(inst);
                                    proof {
                                        lemma_recs_push(pi0, inst);
                                        assert(drawn_recs(events@) + recs_of_instances(pi@)
                                            =~= recs_pre + appended);
                                    }
                                },
                                AtlasPlacement::Rejected => {
                                    proof {
                                        if all_resident(cstart, layout@.lines, *rasters) {
                                            assert(layout@.lines[li as int].glyphs[gi as int]
                                                == gm);
                                            assert(has_glyph_slot(
                                                cstart,
                                                gm.id,
                                                raster.width as int,
                                                raster.height as int,
                                            ));
                                            lemma_has_glyph_slot_unchanged(
                                                cstart,
                                                pre,
                                                gm.id,
                                                raster.width as int,
                                                raster.height as int,
                                            );
                                            assert(false);
                                        }
                                    }
                                    let pu_done = pu;
                                    let pi_done = pi;
                                    pu = Vec::new();
                                    pi = Vec::new();
                                    flush_events(
                                        &mut events,
                                        pu_done,
                                        pi_done,
                                        Ghost(self.cache),
                                        Ghost(frame),
                                        Ghost(c0),
                                        Ghost(*rasters),
                                    );
                                    let standalone = StandaloneGlyph {
                                        glyph_id: g.glyph_id,
                                        width: raster.width,
                                        height: raster.height,
                                        pixels: copy_bytes(&raster.pixels),
                                        x: g.x,
                                        y: g.y,
                                        user_data: g.user_data,
                                    };
                                    let ghost srec: DrawRec<T> = (
                                        g.x as int,
                                        g.y as int,
                                        raster.width as int,
                                        raster.height as int,
                                        g.user_data,
                                    );
                                    let ghost ev0 = events@;
                                    events.push(GpuEvent::Standalone(standalone));
                                    proof {
                                        lemma_events_grow(
                                            ev0,
                                            events@,
                                            self.cache,
                                            frame,
                                            pu@,
                                            c0,
                                            pi@,
                                        );
                                        assert(events@.drop_last() =~= ev0);
                                        assert(drawn_recs(events@) =~= drawn_recs(ev0)
                                            + seq![srec]);
                                        assert(recs_of_instances(pi@)
                                            =~= Seq::<DrawRec<T>>::empty());
                                        assert(drawn_recs(events@) + recs_of_instances(pi@)
                                            =~= recs_pre + seq![srec]);
                                        assert(appended =~= seq![srec]);
                                        assert(drawn_recs(events@) + recs_of_instances(pi@)
                                            =~= recs_pre + appended);
                                    }
                                },
                            }
                            let ghost total_now = drawn_recs(events@) + recs_of_instances(pi@);
                            if pi.len() >= INSTANCE_BATCH_LIMIT {
                                let ghost ev_pre = events@;
                                let ghost pu_pre = pu@;
                                let pu_done = pu;
                                let pi_done = pi;
                                pu = Vec::new();
                                pi = Vec::new();
                                flush_events(
                                    &mut events,
                                    pu_done,
                                    pi_done,
                                    Ghost(self.cache),
                                    Ghost(frame),
                                    Ghost(c0),
                                    Ghost(*rasters),
                                );
                                proof {
                                    assert(recs_of_instances(pi@)
                                        =~= Seq::<DrawRec<T>>::empty());
                                    assert(drawn_recs(events@) + recs_of_instances(pi@)
                                        =~= total_now);
                                    if all_resident(cstart, layout@.lines, *rasters) {
                                        assert(no_new_uploads(events@)) by {
                                            assert forall|q: int|
                                                0 <= q < events@.len() implies match
                                                #[trigger] events@[q] {
                                                GpuEvent::Updates(us) => us@.len() == 0,
                                                GpuEvent::Instances(_) => true,
                                                GpuEvent::Standalone(_) => false,
                                            } by {
                                                if q < ev_pre.len() {
                                                    assert(events@[q] == ev_pre[q]);
                                                } else if q == ev_pre.len() {
                                                    assert(events@[q] matches GpuEvent::Updates(us)
                                                        && us@ == pu_pre);
                                                }
                                            }
                                        }
                                    }
                                }
                            }
                        } else {
                            proof {
                                assert(drawn_recs(events@) + recs_of_instances(pi@) =~= recs_pre
                                    + appended);
                            }
                        }
                    },
                }
                proof {
                    assert(lm_glyphs.take(gi as int + 1).drop_last() =~= lm_glyphs.take(gi as int));
                    assert(lm_glyphs.take(gi as int + 1).last() == gm);
                    assert(drawable_of_glyphs(lm_glyphs.take(gi as int + 1), *rasters)
                        =~= drawable_of_glyphs(lm_glyphs.take(gi as int), *rasters) + appended);
                    assert(drawn_recs(events@) + recs_of_instances(pi@) =~= recs_pre + appended);
                    assert(drawn_recs(events@) + recs_of_instances(pi@) =~= drawable_of_lines(
                        layout@.lines.take(li as int),
                        *rasters,
                    ) + drawable_of_glyphs(lm_glyphs.take(gi as int + 1), *rasters));
                }
            }
            proof {
                assert(lm_glyphs.take(ng as int) =~= lm_glyphs);
                assert(layout@.lines.take(li as int + 1).drop_last() =~= layout@.lines.take(
                    li as int,
                ));
                assert(layout@.lines.take(li as int + 1).last() == layout@.lines[li as int]);
                assert(drawn_recs(events@) + recs_of_instances(pi@) =~= drawable_of_lines(
                    layout@.lines.take(li as int + 1),
                    *rasters,
                ));
            }
        }
        let pu_done = pu;
        let pi_done = pi;
        let ghost ev_before_final = events@;
        let ghost pu_before_final = pu_done@;
        flush_events(
            &mut events,
            pu_done,
            pi_done,
            Ghost(self.cache),
            Ghost(frame),
            Ghost(c0),
            Ghost(*rasters),
        );
        proof {
            assert(layout@.lines.take(nl as int) =~= layout@.lines);
            assert(drawn_recs(events@) =~= drawable_of_lines(layout@.lines, *rasters));
            if all_resident(cstart, layout@.lines, *rasters) {
                assert(no_new_uploads(events@)) by {
                    assert forall|q: int|
                        0 <= q < events@.len() implies match #[trigger] events@[q] {
                        GpuEvent::Updates(us) => us@.len() == 0,
                        GpuEvent::Instances(_) => true,
                        GpuEvent::Standalone(_) => false,
                    } by {
                        if q < ev_before_final.len() {
                            assert(events@[q] == ev_before_final[q]);
                        } else if q == ev_before_final.len() {
                            assert(events@[q] matches GpuEvent::Updates(us) && us@
                                == pu_before_final);
                        }
                    }
                }
            }
        }
        events
    }
}

/// The records of one more instance.
proof fn lemma_recs_push<T>(is: Seq<GlyphInstance<T>>, inst: GlyphInstance<T>)
    ensures
        recs_of_instances(is.push(inst)) =~= recs_of_instances(is).push(
            (inst.x as int, inst.y as int, inst.width as int, inst.height as int, inst.user_data),
        ),
{
}

/// `stale_from` composes.
pub proof fn lemma_stale_from_trans(c0: AtlasCache, c1: AtlasCache, c2: AtlasCache, frame: u64)
    requires
        stale_from(c0, c1, frame),
        stale_from(c1, c2, frame),
    ensures
        stale_from(c0, c2, frame),
{
    assert forall|p: int, j: int|
        0 <= p < c2.pages@.len() && 0 <= j < c2.pages@[p].entries@.len() && (#[trigger] c2.pages@[p].entries@[j]).batch_id
            < frame implies 0 <= p < c0.pages@.len() && j < c0.pages@[p].entries@.len()
        && c0.pages@[p].entries@[j] == c2.pages@[p].entries@[j] by {
        assert(c1.pages@[p].entries@[j] == c2.pages@[p].entries@[j]);
    }
}

/// After a `protected_stable` step that at most placed one slot, the pending
/// and emitted instances and updates stay live, and the live-slot coverage
/// survives for the slots that were already live.
proof fn lemma_pending_after_step<T>(
    pre: AtlasCache,
    cur: AtlasCache,
    frame: u64,
    events: Seq<GpuEvent<T>>,
    pu: Seq<AtlasUpdate>,
    c0: AtlasCache,
    pi: Seq<GlyphInstance<T>>,
)
    requires
        protected_stable(pre, cur, frame),
        forall|k: int| 0 <= k < pi.len() ==> inst_live(pre, #[trigger] pi[k], frame),
        events_live(events, pre, frame),
        forall|j: int|
            0 <= j < pu.len() ==> glyph_live_at(
                pre,
                (#[trigger] pu[j]).glyph_id,
                pu[j].texture_index as int,
                pu[j].x as int,
                pu[j].y as int,
                pu[j].width as int,
                pu[j].height as int,
                frame,
            ),
        updates_live(events, pre, frame),
    ensures
        forall|k: int| 0 <= k < pi.len() ==> inst_live(cur, #[trigger] pi[k], frame),
        events_live(events, cur, frame),
        forall|j: int|
            0 <= j < pu.len() ==> glyph_live_at(
                cur,
                (#[trigger] pu[j]).glyph_id,
                pu[j].texture_index as int,
                pu[j].x as int,
                pu[j].y as int,
                pu[j].width as int,
                pu[j].height as int,
                frame,
            ),
        updates_live(events, cur, frame),
{
    assert forall|j: int| 0 <= j < pu.len() implies glyph_live_at(
        cur,
        (#[trigger] pu[j]).glyph_id,
        pu[j].texture_index as int,
        pu[j].x as int,
        pu[j].y as int,
        pu[j].width as int,
        pu[j].height as int,
        frame,
    ) by {
        lemma_glyph_live_stable(
            pre,
            cur,
            frame,
            pu[j].glyph_id,
            pu[j].texture_index as int,
            pu[j].x as int,
            pu[j].y as int,
            pu[j].width as int,
            pu[j].height as int,
        );
    }
    assert forall|p: int|
        0 <= p < events.len() implies ((#[trigger] events[p]) matches GpuEvent::Updates(us)
        ==> forall|j: int|
            0 <= j < us@.len() ==> glyph_live_at(
            cur,
            (#[trigger] us@[j]).glyph_id,
            us@[j].texture_index as int,
            us@[j].x as int,
            us@[j].y as int,
            us@[j].width as int,
            us@[j].height as int,
            frame,
        )) by {
        match events[p] {
            GpuEvent::Updates(us) => {
                assert forall|j: int| 0 <= j < us@.len() implies glyph_live_at(
                    cur,
                    (#[trigger] us@[j]).glyph_id,
                    us@[j].texture_index as int,
                    us@[j].x as int,
                    us@[j].y as int,
                    us@[j].width as int,
                    us@[j].height as int,
                    frame,
                ) by {
                    lemma_glyph_live_stable(
                        pre,
                        cur,
                        frame,
                        us@[j].glyph_id,
                        us@[j].texture_index as int,
                        us@[j].x as int,
                        us@[j].y as int,
                        us@[j].width as int,
                        us@[j].height as int,
                    );
                }
            },
            _ => {},
        }
    }
    assert forall|k: int| 0 <= k < pi.len() implies inst_live(cur, #[trigger] pi[k], frame) by {
        lemma_live_slot_stable(
            pre,
            cur,
            frame,
            pi[k].atlas_page as int,
            pi[k].uv_x as int,
            pi[k].uv_y as int,
            pi[k].uv_w as int,
            pi[k].uv_h as int,
        );
    }
    assert forall|p: int|
        0 <= p < events.len() implies ((#[trigger] events[p]) matches GpuEvent::Instances(insts)
        ==> forall|k: int| 0 <= k < insts@.len() ==> inst_live(cur, #[trigger] insts@[k], frame)) by {
        match events[p] {
            GpuEvent::Instances(insts) => {
                assert forall|k: int| 0 <= k < insts@.len() implies inst_live(
                    cur,
                    #[trigger] insts@[k],
                    frame,
                ) by {
                    assert(inst_live(pre, insts@[k], frame));
                    lemma_live_slot_stable(
                        pre,
                        cur,
                        frame,
                        insts@[k].atlas_page as int,
                        insts@[k].uv_x as int,
                        insts@[k].uv_y as int,
                        insts@[k].uv_w as int,
                        insts@[k].uv_h as int,
                    );
                }
            },
            _ => {},
        }
    }
}

/// A slot found in place was recorded earlier: it is covered by the pending
/// updates, an emitted update, or a slot of `c0`.
proof fn lemma_found_covered<T>(
    pre: AtlasCache,
    cur: AtlasCache,
    frame: u64,
    events: Seq<GpuEvent<T>>,
    pu: Seq<AtlasUpdate>,
    c0: AtlasCache,
    page: int,
    x: int,
    y: int,
    w: int,
    h: int,
)
    requires
        live_slots_covered(pre, frame, events, pu, c0),
        stale_from(c0, pre, frame),
        has_slot(pre, page, x, y, w, h),
        protected_stable(pre, cur, frame),
        live_delta(pre, cur, frame, page, x, y, w, h),
        cur.pages@.len() == pre.pages@.len(),
    ensures
        live_slots_covered(cur, frame, events, pu, c0),
        rect_covered_in(pu, page, x, y, w, h) || rect_covered_before(
            events,
            events.len() as int,
            page,
            x,
            y,
            w,
            h,
        ) || has_slot(c0, page, x, y, w, h),
{
    let j = choose|j: int|
        0 <= j < pre.pages@[page].entries@.len() && {
            let e = #[trigger] pre.pages@[page].entries@[j];
            &&& e.slot_x == x
            &&& e.slot_y == y
            &&& e.width == w
            &&& e.height == h
        };
    let e = pre.pages@[page].entries@[j];
    if e.batch_id >= frame {
        assert(rect_covered_in(pu, page, x, y, w, h) || rect_covered_before(
            events,
            events.len() as int,
            page,
            x,
            y,
            w,
            h,
        ) || has_slot(c0, page, x, y, w, h));
    } else {
        assert(c0.pages@[page].entries@[j] == e);
        assert(has_slot(c0, page, x, y, w, h));
    }
    assert forall|p: int, jj: int|
        0 <= p < cur.pages@.len() && 0 <= jj < cur.pages@[p].entries@.len() && (#[trigger] cur.pages@[p].entries@[jj]).batch_id
            >= frame implies {
        let en = cur.pages@[p].entries@[jj];
        ||| rect_covered_in(pu, p, en.slot_x as int, en.slot_y as int, en.width as int, en.height as int)
        ||| rect_covered_before(
            events,
            events.len() as int,
            p,
            en.slot_x as int,
            en.slot_y as int,
            en.width as int,
            en.height as int,
        )
        ||| has_slot(c0, p, en.slot_x as int, en.slot_y as int, en.width as int, en.height as int)
    } by {
        let en = cur.pages@[p].entries@[jj];
        if 0 <= p < pre.pages@.len() && jj < pre.pages@[p].entries@.len() && pre.pages@[p].entries@[jj]
            == en && pre.pages@[p].entries@[jj].batch_id >= frame {
        } else {
            assert(p == page && en.slot_x == x && en.slot_y == y && en.width == w && en.height
                == h);
        }
    }
}

/// Extending the pending updates keeps the pending-instance coverage.
proof fn lemma_pu_grow<T>(
    events: Seq<GpuEvent<T>>,
    pu0: Seq<AtlasUpdate>,
    pu1: Seq<AtlasUpdate>,
    c0: AtlasCache,
    pi: Seq<GlyphInstance<T>>,
)
    requires
        pu1.len() >= pu0.len(),
        forall|j: int| 0 <= j < pu0.len() ==> pu1[j] == pu0[j],
        forall|k: int| 0 <= k < pi.len() ==> inst_covered(events, pu0, c0, #[trigger] pi[k]),
    ensures
        forall|k: int| 0 <= k < pi.len() ==> inst_covered(events, pu1, c0, #[trigger] pi[k]),
{
    lemma_rect_covered_in_grow(pu0, pu1);
}

/// A rectangle covered by a prefix of updates is covered by the whole.
proof fn lemma_rect_covered_in_grow(pu0: Seq<AtlasUpdate>, pu1: Seq<AtlasUpdate>)
    requires
        pu1.len() >= pu0.len(),
        forall|j: int| 0 <= j < pu0.len() ==> pu1[j] == pu0[j],
    ensures
        forall|page: int, x: int, y: int, w: int, h: int|
            rect_covered_in(pu0, page, x, y, w, h) ==> #[trigger] rect_covered_in(
                pu1,
                page,
                x,
                y,
                w,
                h,
            ),
{
    assert forall|page: int, x: int, y: int, w: int, h: int|
        rect_covered_in(pu0, page, x, y, w, h) implies #[trigger] rect_covered_in(
        pu1,
        page,
        x,
        y,
        w,
        h,
    ) by {
        let j = choose|j: int|
            0 <= j < pu0.len() && {
                let u = #[trigger] pu0[j];
                &&& u.texture_index == page
                &&& u.x == x
                &&& u.y == y
                &&& u.width == w
                &&& u.height == h
            };
        assert(pu1[j] == pu0[j]);
    }
}

/// After an insertion whose bitmap was appended to the pending updates,
/// every live slot is covered again.
proof fn lemma_inserted_covered<T>(
    pre: AtlasCache,
    cur: AtlasCache,
    frame: u64,
    events: Seq<GpuEvent<T>>,
    pu0: Seq<AtlasUpdate>,
    pu1: Seq<AtlasUpdate>,
    c0: AtlasCache,
    page: int,
    x: int,
    y: int,
    w: int,
    h: int,
)
    requires
        live_slots_covered(pre, frame, events, pu0, c0),
        live_delta(pre, cur, frame, page, x, y, w, h),
        pu1.len() == pu0.len() + 1,
        forall|j: int| 0 <= j < pu0.len() ==> pu1[j] == pu0[j],
        pu1[pu0.len() as int].texture_index == page,
        pu1[pu0.len() as int].x == x,
        pu1[pu0.len() as int].y == y,
        pu1[pu0.len() as int].width == w,
        pu1[pu0.len() as int].height == h,
    ensures
        live_slots_covered(cur, frame, events, pu1, c0),
{
    lemma_rect_covered_in_grow(pu0, pu1);
    assert(rect_covered_in(pu1, page, x, y, w, h)) by {
        assert(pu1[pu0.len() as int].texture_index == page);
    }
    assert forall|p: int, jj: int|
        0 <= p < cur.pages@.len() && 0 <= jj < cur.pages@[p].entries@.len() && (
    #[trigger] cur.pages@[p].entries@[jj]).batch_id >= frame implies {
        let en = cur.pages@[p].entries@[jj];
        ||| rect_covered_in(pu1, p, en.slot_x as int, en.slot_y as int, en.width as int, en.height as int)
        ||| rect_covered_before(
            events,
            events.len() as int,
            p,
            en.slot_x as int,
            en.slot_y as int,
            en.width as int,
            en.height as int,
        )
        ||| has_slot(c0, p, en.slot_x as int, en.slot_y as int, en.width as int, en.height as int)
    } by {
        let en = cur.pages@[p].entries@[jj];
        if 0 <= p < pre.pages@.len() && jj < pre.pages@[p].entries@.len() && pre.pages@[p].entries@[jj]
            == en && pre.pages@[p].entries@[jj].batch_id >= frame {
        } else {
            assert(p == page && en.slot_x == x && en.slot_y == y && en.width == w && en.height
                == h);
        }
    }
}

/// Extending the event stream keeps the coverage facts that speak of earlier
/// positions.
proof fn lemma_events_grow<T>(
    ev0: Seq<GpuEvent<T>>,
    ev1: Seq<GpuEvent<T>>,
    c: AtlasCache,
    frame: u64,
    pu: Seq<AtlasUpdate>,
    c0: AtlasCache,
    pi: Seq<GlyphInstance<T>>,
)
    requires
        ev1.len() >= ev0.len(),
        forall|q: int| 0 <= q < ev0.len() ==> ev1[q] == ev0[q],
        forall|q: int| ev0.len() <= q < ev1.len() ==> !((#[trigger] ev1[q]) is Instances),
        events_live(ev0, c, frame),
        events_updated_before_use(ev0, c0),
        live_slots_covered(c, frame, ev0, pu, c0),
        forall|k: int| 0 <= k < pi.len() ==> inst_covered(ev0, pu, c0, #[trigger] pi[k]),
    ensures
        events_live(ev1, c, frame),
        events_updated_before_use(ev1, c0),
        live_slots_covered(c, frame, ev1, pu, c0),
        forall|k: int| 0 <= k < pi.len() ==> inst_covered(ev1, pu, c0, #[trigger] pi[k]),
{
    assert forall|page: int, x: int, y: int, w: int, h: int, p: int|
        0 <= p <= ev0.len() && rect_covered_before(ev0, p, page, x, y, w, h) implies
        #[trigger] rect_covered_before(ev1, p, page, x, y, w, h) by {
        let q = choose|q: int|
            0 <= q < p && ((#[trigger] ev0[q]) matches GpuEvent::Updates(us) && rect_covered_in(
                us@,
                page,
                x,
                y,
                w,
                h,
            ));
        assert(ev1[q] == ev0[q]);
    }
    assert forall|p: int|
        0 <= p < ev1.len() implies ((#[trigger] ev1[p]) matches GpuEvent::Instances(insts)
        ==> forall|k: int| 0 <= k < insts@.len() ==> inst_live(c, #[trigger] insts@[k], frame)) by {
        if p < ev0.len() {
            assert(ev1[p] == ev0[p]);
        }
    }
    assert forall|p: int|
        0 <= p < ev1.len() implies ((#[trigger] ev1[p]) matches GpuEvent::Instances(insts)
        ==> forall|k: int|
            0 <= k < insts@.len() ==> rect_covered_before(
            ev1,
            p,
            (#[trigger] insts@[k]).atlas_page as int,
            insts@[k].uv_x as int,
            insts@[k].uv_y as int,
            insts@[k].uv_w as int,
            insts@[k].uv_h as int,
        ) || has_slot(
            c0,
            insts@[k].atlas_page as int,
            insts@[k].uv_x as int,
            insts@[k].uv_y as int,
            insts@[k].uv_w as int,
            insts@[k].uv_h as int,
        )) by {
        if p < ev0.len() {
            assert(ev1[p] == ev0[p]);
            match ev0[p] {
                GpuEvent::Instances(insts) => {
                    assert forall|k: int|
                        0 <= k < insts@.len() implies rect_covered_before(
                        ev1,
                        p,
                        (#[trigger] insts@[k]).atlas_page as int,
                        insts@[k].uv_x as int,
                        insts@[k].uv_y as int,
                        insts@[k].uv_w as int,
                        insts@[k].uv_h as int,
                    ) || has_slot(
                        c0,
                        insts@[k].atlas_page as int,
                        insts@[k].uv_x as int,
                        insts@[k].uv_y as int,
                        insts@[k].uv_w as int,
                        insts@[k].uv_h as int,
                    ) by {
                        if rect_covered_before(
                            ev0,
                            p,
                            insts@[k].atlas_page as int,
                            insts@[k].uv_x as int,
                            insts@[k].uv_y as int,
                            insts@[k].uv_w as int,
                            insts@[k].uv_h as int,
                        ) {
                            assert(rect_covered_before(
                                ev1,
                                p,
                                insts@[k].atlas_page as int,
                                insts@[k].uv_x as int,
                                insts@[k].uv_y as int,
                                insts@[k].uv_w as int,
                                insts@[k].uv_h as int,
                            ));
                        }
                    }
                },
                _ => {},
            }
        }
    }
}

/// Emits the pending updates and then the pending instances, keeping every
/// stream guarantee.
#[verifier::rlimit(60)]
fn flush_events<T: Copy>(
    events: &mut Vec<GpuEvent<T>>,
    pu: Vec<AtlasUpdate>,
    pi: Vec<GlyphInstance<T>>,
    Ghost(cache): Ghost<AtlasCache>,
    Ghost(frame): Ghost<u64>,
    Ghost(c0): Ghost<AtlasCache>,
    Ghost(store): Ghost<RasterStore>,
)
    requires
        events_live(old(events)@, cache, frame),
        events_updated_before_use(old(events)@, c0),
        live_slots_covered(cache, frame, old(events)@, pu@, c0),
        forall|k: int| 0 <= k < pi@.len() ==> inst_live(cache, #[trigger] pi@[k], frame),
        forall|k: int| 0 <= k < pi@.len() ==> inst_covered(old(events)@, pu@, c0, #[trigger] pi@[k]),
        events_content_ok(old(events)@, store),
        updates_match_store(pu@, store),
        forall|k: int| 0 <= k < pi@.len() ==> inst_uv_ok(#[trigger] pi@[k]),
        updates_live(old(events)@, cache, frame),
        forall|j: int|
            0 <= j < pu@.len() ==> glyph_live_at(
                cache,
                (#[trigger] pu@[j]).glyph_id,
                pu@[j].texture_index as int,
                pu@[j].x as int,
                pu@[j].y as int,
                pu@[j].width as int,
                pu@[j].height as int,
                frame,
            ),
    ensures
        events_live(final(events)@, cache, frame),
        events_updated_before_use(final(events)@, c0),
        live_slots_covered(cache, frame, final(events)@, Seq::<AtlasUpdate>::empty(), c0),
        final(events)@.len() == old(events)@.len() + 2,
        forall|q: int| 0 <= q < old(events)@.len() ==> final(events)@[q] == old(events)@[q],
        drawn_recs(final(events)@) == drawn_recs(old(events)@) + recs_of_instances(pi@),
        events_content_ok(final(events)@, store),
        updates_live(final(events)@, cache, frame),
        (final(events)@[old(events)@.len() as int] matches GpuEvent::Updates(us) && us@ == pu@),
        final(events)@[old(events)@.len() as int + 1] is Instances,
{
    let ghost ev0 = events@;
    let ghost puv = pu@;
    events.push(GpuEvent::Updates(pu));
    let ghost ev1 = events@;
    proof {
        assert(ev1.drop_last() =~= ev0);
        assert(drawn_recs(ev1) =~= drawn_recs(ev0));
        assert(ev1[ev0.len() as int] matches GpuEvent::Updates(us) && us@ == puv);
        assert forall|page: int, x: int, y: int, w: int, h: int|
            rect_covered_in(puv, page, x, y, w, h) implies #[trigger] rect_covered_before(
            ev1,
            ev1.len() as int,
            page,
            x,
            y,
            w,
            h,
        ) by {
            assert(ev1[ev0.len() as int] matches GpuEvent::Updates(us) && rect_covered_in(
                us@,
                page,
                x,
                y,
                w,
                h,
            ));
        }
        lemma_events_grow(ev0, ev1, cache, frame, puv, c0, pi@);
    }
    let ghost piv = pi@;
    events.push(GpuEvent::Instances(pi));
    let ghost ev2 = events@;
    proof {
        assert(ev2.drop_last() =~= ev1);
        assert(drawn_recs(ev2) =~= drawn_recs(ev1) + recs_of_instances(piv));
        assert forall|q: int| 0 <= q < ev1.len() implies ev2[q] == ev1[q] by {}
        assert forall|page: int, x: int, y: int, w: int, h: int, p: int|
            0 <= p <= ev1.len() && rect_covered_before(ev1, p, page, x, y, w, h) implies
            #[trigger] rect_covered_before(ev2, p, page, x, y, w, h) by {
            let q = choose|q: int|
                0 <= q < p && ((#[trigger] ev1[q]) matches GpuEvent::Updates(us) && rect_covered_in(
                    us@,
                    page,
                    x,
                    y,
                    w,
                    h,
                ));
            assert(ev2[q] == ev1[q]);
        }
        // The new instances batch: live and covered.
        assert forall|p: int|
            0 <= p < ev2.len() implies ((#[trigger] ev2[p]) matches GpuEvent::Instances(insts)
            ==> forall|k: int| 0 <= k < insts@.len() ==> inst_live(cache, #[trigger] insts@[k], frame)) by {
            if p < ev1.len() {
                assert(ev2[p] == ev1[p]);
            } else {
                assert(ev2[p] matches GpuEvent::Instances(insts) && insts@ == piv);
            }
        }
        assert forall|p: int|
            0 <= p < ev2.len() implies ((#[trigger] ev2[p]) matches GpuEvent::Instances(insts)
            ==> forall|k: int|
                0 <= k < insts@.len() ==> rect_covered_before(
                ev2,
                p,
                (#[trigger] insts@[k]).atlas_page as int,
                insts@[k].uv_x as int,
                insts@[k].uv_y as int,
                insts@[k].uv_w as int,
                insts@[k].uv_h as int,
            ) || has_slot(
                c0,
                insts@[k].atlas_page as int,
                insts@[k].uv_x as int,
                insts@[k].uv_y as int,
                insts@[k].uv_w as int,
                insts@[k].uv_h as int,
            )) by {
            if p < ev1.len() {
                assert(ev2[p] == ev1[p]);
                match ev1[p] {
                    GpuEvent::Instances(insts) => {
                        assert forall|k: int|
                            0 <= k < insts@.len() implies rect_covered_before(
                            ev2,
                            p,
                            (#[trigger] insts@[k]).atlas_page as int,
                            insts@[k].uv_x as int,
                            insts@[k].uv_y as int,
                            insts@[k].uv_w as int,
                            insts@[k].uv_h as int,
                        ) || has_slot(
                            c0,
                            insts@[k].atlas_page as int,
                            insts@[k].uv_x as int,
                            insts@[k].uv_y as int,
                            insts@[k].uv_w as int,
                            insts@[k].uv_h as int,
                        ) by {
                            if rect_covered_before(
                                ev1,
                                p,
                                insts@[k].atlas_page as int,
                                insts@[k].uv_x as int,
                                insts@[k].uv_y as int,
                                insts@[k].uv_w as int,
                                insts@[k].uv_h as int,
                            ) {
                            }
                        }
                    },
                    _ => {},
                }
            } else {
                assert(ev2[p] matches GpuEvent::Instances(insts) && insts@ == piv);
                assert forall|k: int|
                    0 <= k < piv.len() implies rect_covered_before(
                    ev2,
                    p,
                    (#[trigger] piv[k]).atlas_page as int,
                    piv[k].uv_x as int,
                    piv[k].uv_y as int,
                    piv[k].uv_w as int,
                    piv[k].uv_h as int,
                ) || has_slot(
                    c0,
                    piv[k].atlas_page as int,
                    piv[k].uv_x as int,
                    piv[k].uv_y as int,
                    piv[k].uv_w as int,
                    piv[k].uv_h as int,
                ) by {
                    if rect_covered_in(
                        puv,
                        piv[k].atlas_page as int,
                        piv[k].uv_x as int,
                        piv[k].uv_y as int,
                        piv[k].uv_w as int,
                        piv[k].uv_h as int,
                    ) {
                        assert(rect_covered_before(
                            ev1,
                            ev1.len() as int,
                            piv[k].atlas_page as int,
                            piv[k].uv_x as int,
                            piv[k].uv_y as int,
                            piv[k].uv_w as int,
                            piv[k].uv_h as int,
                        ));
                    } else if rect_covered_before(
                        ev0,
                        ev0.len() as int,
                        piv[k].atlas_page as int,
                        piv[k].uv_x as int,
                        piv[k].uv_y as int,
                        piv[k].uv_w as int,
                        piv[k].uv_h as int,
                    ) {
                        let q = choose|q: int|
                            0 <= q < ev0.len() && ((#[trigger] ev0[q]) matches GpuEvent::Updates(us)
                                && rect_covered_in(
                                us@,
                                piv[k].atlas_page as int,
                                piv[k].uv_x as int,
                                piv[k].uv_y as int,
                                piv[k].uv_w as int,
                                piv[k].uv_h as int,
                            ));
                        assert(ev2[q] == ev0[q]);
                    }
                }
            }
        }
        // Live slots remain covered with the pending updates emptied.
        assert forall|p: int, j: int|
            0 <= p < cache.pages@.len() && 0 <= j < cache.pages@[p].entries@.len() && (
        #[trigger] cache.pages@[p].entries@[j]).batch_id >= frame implies {
            let e = cache.pages@[p].entries@[j];
            ||| rect_covered_in(
                Seq::<AtlasUpdate>::empty(),
                p,
                e.slot_x as int,
                e.slot_y as int,
                e.width as int,
                e.height as int,
            )
            ||| rect_covered_before(
                ev2,
                ev2.len() as int,
                p,
                e.slot_x as int,
                e.slot_y as int,
                e.width as int,
                e.height as int,
            )
            ||| has_slot(c0, p, e.slot_x as int, e.slot_y as int, e.width as int, e.height as int)
        } by {
            let e = cache.pages@[p].entries@[j];
            if rect_covered_in(
                puv,
                p,
                e.slot_x as int,
                e.slot_y as int,
                e.width as int,
                e.height as int,
            ) {
                assert(rect_covered_before(
                    ev1,
                    ev1.len() as int,
                    p,
                    e.slot_x as int,
                    e.slot_y as int,
                    e.width as int,
                    e.height as int,
                ));
            } else if rect_covered_before(
                ev0,
                ev0.len() as int,
                p,
                e.slot_x as int,
                e.slot_y as int,
                e.width as int,
                e.height as int,
            ) {
                let q = choose|q: int|
                    0 <= q < ev0.len() && ((#[trigger] ev0[q]) matches GpuEvent::Updates(us)
                        && rect_covered_in(
                        us@,
                        p,
                        e.slot_x as int,
                        e.slot_y as int,
                        e.width as int,
                        e.height as int,
                    ));
                assert(ev2[q] == ev0[q]);
            }
        }
        // Content and update liveness carry over to the two new events.
        assert forall|p: int|
            0 <= p < ev2.len() implies match #[trigger] ev2[p] {
            GpuEvent::Updates(us) => updates_match_store(us@, store),
            GpuEvent::Instances(is) => forall|k: int|
                0 <= k < is@.len() ==> inst_uv_ok(#[trigger] is@[k]),
            GpuEvent::Standalone(g) => standalone_matches_store(g, store),
        } by {
            if p < ev0.len() {
                assert(ev2[p] == ev0[p]);
            } else if p == ev0.len() {
                assert(ev2[p] matches GpuEvent::Updates(us) && us@ == puv);
            } else {
                assert(ev2[p] matches GpuEvent::Instances(is) && is@ == piv);
            }
        }
        assert forall|p: int|
            0 <= p < ev2.len() implies ((#[trigger] ev2[p]) matches GpuEvent::Updates(us)
            ==> forall|j: int|
                0 <= j < us@.len() ==> glyph_live_at(
                cache,
                (#[trigger] us@[j]).glyph_id,
                us@[j].texture_index as int,
                us@[j].x as int,
                us@[j].y as int,
                us@[j].width as int,
                us@[j].height as int,
                frame,
            )) by {
            if p < ev0.len() {
                assert(ev2[p] == ev0[p]);
            } else if p == ev0.len() {
                assert(ev2[p] matches GpuEvent::Updates(us) && us@ == puv);
            }
        }
    }
}

} // verus!
