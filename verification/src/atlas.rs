//! Multi-page glyph atlas with per-batch protection.
//!
//! Each configured page is a square grayscale surface packed by shelves:
//! an open shelf has an x-cursor and the height of its first glyph; glyphs
//! no taller than the shelf advance the cursor, taller glyphs open a new
//! shelf below. A full page reuses the slot of an entry whose batch is older
//! than the current one; entries touched in the current batch are never
//! displaced.

use vstd::prelude::*;

use crate::glyph::GlyphId;
use crate::raster::RASTER_LIMIT;

verus! {

/// Configuration of one atlas page: the square texture side and the range
/// of glyph sizes (largest bitmap extent) the page accepts.
#[derive(Clone, Copy, Debug)]
pub struct GpuCacheConfig {
    pub texture_size: usize,
    pub min_glyph_size: usize,
    pub max_glyph_size: usize,
}

impl GpuCacheConfig {
    /// A usable page: positive bounded side, ordered size range within the
    /// side.
    pub open spec fn wf(self) -> bool {
        &&& 0 < self.texture_size <= RASTER_LIMIT
        &&& self.min_glyph_size <= self.max_glyph_size <= self.texture_size
    }

    /// Reports whether the configuration is usable.
    pub fn is_wf(&self) -> (r: bool)
        ensures
            r == self.wf(),
    {
        0 < self.texture_size && self.texture_size <= RASTER_LIMIT && self.min_glyph_size
            <= self.max_glyph_size && self.max_glyph_size <= self.texture_size
    }

    /// Whether a bitmap of the given extents belongs on this page.
    pub open spec fn spec_accepts(self, w: usize, h: usize) -> bool {
        &&& self.min_glyph_size <= crate::model::max_i(w as int, h as int) <= self.max_glyph_size
        &&& w > 0
        &&& h > 0
    }

    /// Executable form of `spec_accepts`.
    pub fn accepts(&self, w: usize, h: usize) -> (r: bool)
        ensures
            r == self.spec_accepts(w, h),
    {
        let m = if w >= h {
            w
        } else {
            h
        };
        w > 0 && h > 0 && self.min_glyph_size <= m && m <= self.max_glyph_size
    }
}

/// One placed glyph: the reserved slot rectangle, the bitmap extents inside
/// it, and the batch that last used it.
#[derive(Clone, Copy, Debug)]
pub struct AtlasEntry {
    pub glyph_id: GlyphId,
    pub slot_x: usize,
    pub slot_y: usize,
    pub slot_w: usize,
    pub slot_h: usize,
    pub width: usize,
    pub height: usize,
    pub batch_id: u64,
}

impl AtlasEntry {
    /// The slot lies within a texture of side `ts` and contains the bitmap.
    pub open spec fn wf(self, ts: usize) -> bool {
        &&& self.slot_x + self.slot_w <= ts
        &&& self.slot_y + self.slot_h <= ts
        &&& 0 < self.width <= self.slot_w
        &&& 0 < self.height <= self.slot_h
    }
}

/// One atlas page: its configuration, the placed entries, and the open
/// shelf (cursor, top, height).
pub struct AtlasPage {
    pub config: GpuCacheConfig,
    pub entries: Vec<AtlasEntry>,
    pub shelf_x: usize,
    pub shelf_y: usize,
    pub shelf_h: usize,
}

impl AtlasPage {
    /// Entries and the shelf stay within the texture, and every entry's
    /// bitmap extents are ones this page's configuration accepts.
    pub open spec fn wf(self) -> bool {
        &&& self.config.wf()
        &&& self.shelf_x <= self.config.texture_size
        &&& self.shelf_y + self.shelf_h <= self.config.texture_size
        &&& forall|i: int|
            0 <= i < self.entries@.len() ==> (#[trigger] self.entries@[i]).wf(
                self.config.texture_size,
            ) && self.config.spec_accepts(self.entries@[i].width, self.entries@[i].height)
    }

    /// A fresh page for a configuration.
    pub fn new(config: GpuCacheConfig) -> (r: AtlasPage)
        requires
            config.wf(),
        ensures
            r.wf(),
            r.config == config,
            r.entries@ =~= Seq::<AtlasEntry>::empty(),
            r.shelf_x == 0,
            r.shelf_y == 0,
            r.shelf_h == 0,
    {
        AtlasPage { config, entries: Vec::new(), shelf_x: 0, shelf_y: 0, shelf_h: 0 }
    }

    /// Drops all placements and resets the shelf.
    pub fn clear(&mut self)
        ensures
            final(self).wf() == old(self).config.wf(),
            final(self).config == old(self).config,
            final(self).entries@ =~= Seq::<AtlasEntry>::empty(),
            final(self).shelf_x == 0,
            final(self).shelf_y == 0,
            final(self).shelf_h == 0,
    {
        self.entries = Vec::new();
        self.shelf_x = 0;
        self.shelf_y = 0;
        self.shelf_h = 0;
    }

    /// A bitmap of extents `(w, h)` has room on this page: on the open shelf,
    /// on a new shelf below it, or in the slot of an entry older than
    /// `frame`.
    pub open spec fn can_place(self, w: usize, h: usize, frame: u64) -> bool {
        ||| (w + self.shelf_x <= self.config.texture_size && h <= self.shelf_h)
        ||| (w <= self.config.texture_size && h + self.shelf_y + self.shelf_h
            <= self.config.texture_size)
        ||| exists|j: int|
            0 <= j < self.entries@.len() && {
                let e = #[trigger] self.entries@[j];
                &&& e.batch_id < frame
                &&& w <= e.slot_w
                &&& h <= e.slot_h
            }
    }

    /// Tries to place a bitmap of extents `(w, h)` for `id`: first on the
    /// open shelf, then on a new shelf below, then by reusing the slot of an
    /// entry older than `frame`. Entries with a batch at least `frame` keep
    /// their index, identity, slot and extents; placement fails exactly when
    /// the page has no room.
    #[verifier::loop_isolation(false)]
    pub fn try_place(&mut self, id: GlyphId, w: usize, h: usize, batch: u64, frame: u64) -> (r:
        Option<usize>)
        requires
            old(self).wf(),
            old(self).config.spec_accepts(w, h),
            0 < w,
            0 < h,
            batch >= frame,
        ensures
            final(self).wf(),
            final(self).config == old(self).config,
            final(self).entries@.len() >= old(self).entries@.len(),
            (r is None) == !old(self).can_place(w, h, frame),
            forall|j: int|
                0 <= j < old(self).entries@.len() && (#[trigger] old(self).entries@[j]).batch_id
                    >= frame ==> final(self).entries@[j] == old(self).entries@[j],
            match r {
                Some(k) => {
                    &&& 0 <= k < final(self).entries@.len()
                    &&& final(self).entries@[k as int].glyph_id == id
                    &&& final(self).entries@[k as int].width == w
                    &&& final(self).entries@[k as int].height == h
                    &&& final(self).entries@[k as int].batch_id == batch
                    &&& forall|j: int|
                        0 <= j < final(self).entries@.len() && j != k ==> j < old(self).entries@.len()
                            && final(self).entries@[j] == old(self).entries@[j]
                    &&& (k < old(self).entries@.len() ==> old(self).entries@[k as int].batch_id
                        < frame && final(self).entries@.len() == old(self).entries@.len())
                    &&& (k >= old(self).entries@.len() ==> k == old(self).entries@.len()
                        && final(self).entries@.len() == old(self).entries@.len() + 1)
                },
                None => *final(self) == *old(self),
            },
    {
        let ts = self.config.texture_size;
        if w <= ts {
            // Fit on the open shelf.
            if h <= self.shelf_h && w <= ts - self.shelf_x {
                let x = self.shelf_x;
                let y = self.shelf_y;
                let e = AtlasEntry {
                    glyph_id: id,
                    slot_x: x,
                    slot_y: y,
                    slot_w: w,
                    slot_h: h,
                    width: w,
                    height: h,
                    batch_id: batch,
                };
                self.entries.push(e);
                self.shelf_x = x + w;
                let k = self.entries.len() - 1;
                return Some(k);
            }
            // Open a new shelf below.
            if h <= ts - (self.shelf_y + self.shelf_h) {
                let y = self.shelf_y + self.shelf_h;
                let e = AtlasEntry {
                    glyph_id: id,
                    slot_x: 0,
                    slot_y: y,
                    slot_w: w,
                    slot_h: h,
                    width: w,
                    height: h,
                    batch_id: batch,
                };
                self.entries.push(e);
                self.shelf_x = w;
                self.shelf_y = y;
                self.shelf_h = h;
                let k = self.entries.len() - 1;
                return Some(k);
            }
        }
        // Reuse the slot of an evictable entry.
        let n = self.entries.len();
        for j in 0..n
            invariant
                n == self.entries@.len(),
                *self == *old(self),
                forall|jj: int|
                    0 <= jj < j ==> !{
                        let e = #[trigger] self.entries@[jj];
                        &&& e.batch_id < frame
                        &&& w <= e.slot_w
                        &&& h <= e.slot_h
                    },
        {
            let e = self.entries[j];
            if e.batch_id < frame && w <= e.slot_w && h <= e.slot_h {
                let ne = AtlasEntry {
                    glyph_id: id,
                    slot_x: e.slot_x,
                    slot_y: e.slot_y,
                    slot_w: e.slot_w,
                    slot_h: e.slot_h,
                    width: w,
                    height: h,
                    batch_id: batch,
                };
                self.entries.set(j, ne);
                proof {
                    assert forall|i: int| 0 <= i < self.entries@.len() implies (
                    #[trigger] self.entries@[i]).wf(self.config.texture_size)
                        && self.config.spec_accepts(
                        self.entries@[i].width,
                        self.entries@[i].height,
                    ) by {
                        if i != j as int {
                            assert(self.entries@[i] == old(self).entries@[i]);
                        }
                    }
                }
                return Some(j);
            }
        }
        None
    }
}

} // verus!
