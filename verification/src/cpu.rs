//! CPU renderer with a size-bounded glyph cache.
//!
//! `render` walks a layout in reading order and emits one coverage byte per
//! bitmap pixel that falls inside the target image; compositing belongs to
//! the caller. Bitmaps come from the raster store through a set of
//! size-bounded caches with least-recently-used eviction; the caches are
//! transparent: the emitted pixels are exactly those of the store's bitmaps.

use vstd::prelude::*;

use crate::glyph::GlyphId;
use crate::layout::TextLayout;
use crate::model::{GlyphPos, LineModel};
use crate::raster::{RasterEntry, RasterGlyph, RasterStore};

verus! {

/// Configuration of one CPU cache: the quantised size range it serves and
/// how many entries it holds.
#[derive(Clone, Copy, Debug)]
pub struct CpuCacheConfig {
    pub min_size: u32,
    pub max_size: u32,
    pub capacity: usize,
}

impl CpuCacheConfig {
    /// An ordered size range and room for at least one entry.
    pub open spec fn wf(self) -> bool {
        &&& self.min_size <= self.max_size
        &&& self.capacity >= 1
    }

    /// Reports whether the configuration is usable.
    pub fn is_wf(&self) -> (r: bool)
        ensures
            r == self.wf(),
    {
        self.min_size <= self.max_size && self.capacity >= 1
    }
}

/// Two bitmaps with the same extents and bytes.
pub open spec fn raster_eq(a: RasterGlyph, b: RasterGlyph) -> bool {
    &&& a.width == b.width
    &&& a.height == b.height
    &&& a.pixels@ == b.pixels@
}

/// One size-bounded cache: entries in least-recently-used order, the most
/// recent last.
pub struct CpuGlyphCache {
    pub config: CpuCacheConfig,
    pub entries: Vec<RasterEntry>,
}

impl CpuGlyphCache {
    /// Within capacity, with well-formed bitmaps.
    pub open spec fn wf(self) -> bool {
        &&& self.config.wf()
        &&& self.entries@.len() <= self.config.capacity
        &&& forall|i: int| 0 <= i < self.entries@.len() ==> (#[trigger] self.entries@[i]).raster.wf()
    }

    /// Every cached bitmap is what the store answers for its glyph.
    pub open spec fn consistent_with(self, store: RasterStore) -> bool {
        forall|i: int|
            0 <= i < self.entries@.len() ==> match store.spec_raster(
                (#[trigger] self.entries@[i]).glyph_id,
            ) {
                Some(g) => raster_eq(g, self.entries@[i].raster),
                None => false,
            }
    }
}

/// One emitted pixel: its image coordinates, the coverage byte, and the user
/// payload of the glyph it belongs to.
#[derive(Clone, Copy, Debug)]
pub struct PixelDraw<T> {
    pub x: usize,
    pub y: usize,
    pub coverage: u8,
    pub user_data: T,
}

/// Subunit coordinate truncated to whole pixels, toward zero.
pub open spec fn px_of(v: int) -> int {
    if v >= 0 {
        v / 64
    } else {
        -((-v) / 64)
    }
}

/// One pixel of a glyph bitmap, kept only inside the image.
pub open spec fn pixel_at<T>(
    px: int,
    py: int,
    w: int,
    pixels: Seq<u8>,
    img_w: int,
    img_h: int,
    user: T,
    row: int,
    col: int,
) -> Seq<PixelDraw<T>> {
    let dx = px + col;
    let dy = py + row;
    if 0 <= dx < img_w && 0 <= dy < img_h {
        seq![
            PixelDraw {
                x: dx as usize,
                y: dy as usize,
                coverage: pixels[row * w + col],
                user_data: user,
            },
        ]
    } else {
        Seq::empty()
    }
}

/// The first `ncols` pixels of one bitmap row, left to right.
pub open spec fn row_draws<T>(
    px: int,
    py: int,
    w: int,
    pixels: Seq<u8>,
    img_w: int,
    img_h: int,
    user: T,
    row: int,
    ncols: int,
) -> Seq<PixelDraw<T>>
    decreases ncols,
{
    if ncols <= 0 {
        Seq::empty()
    } else {
        row_draws(px, py, w, pixels, img_w, img_h, user, row, ncols - 1) + pixel_at(
            px,
            py,
            w,
            pixels,
            img_w,
            img_h,
            user,
            row,
            ncols - 1,
        )
    }
}

/// The first `nrows` rows of one glyph bitmap, top to bottom.
pub open spec fn glyph_draws<T>(
    px: int,
    py: int,
    w: int,
    pixels: Seq<u8>,
    img_w: int,
    img_h: int,
    user: T,
    nrows: int,
) -> Seq<PixelDraw<T>>
    decreases nrows,
{
    if nrows <= 0 {
        Seq::empty()
    } else {
        glyph_draws(px, py, w, pixels, img_w, img_h, user, nrows - 1) + row_draws(
            px,
            py,
            w,
            pixels,
            img_w,
            img_h,
            user,
            nrows - 1,
            w,
        )
    }
}

/// The pixels of a prefix of one line's glyphs, per the store's bitmaps.
pub open spec fn draws_of_glyphs<T>(
    glyphs: Seq<GlyphPos<T>>,
    store: RasterStore,
    img_w: int,
    img_h: int,
) -> Seq<PixelDraw<T>>
    decreases glyphs.len(),
{
    if glyphs.len() == 0 {
        Seq::empty()
    } else {
        draws_of_glyphs(glyphs.drop_last(), store, img_w, img_h) + (match store.spec_raster(
            glyphs.last().id,
        ) {
            Some(r) => glyph_draws(
                px_of(glyphs.last().x),
                px_of(glyphs.last().y),
                r.width as int,
                r.pixels@,
                img_w,
                img_h,
                glyphs.last().user,
                r.height as int,
            ),
            None => Seq::empty(),
        })
    }
}

/// The pixels of a prefix of a layout's lines.
pub open spec fn draws_of_lines<T>(
    lines: Seq<LineModel<T>>,
    store: RasterStore,
    img_w: int,
    img_h: int,
) -> Seq<PixelDraw<T>>
    decreases lines.len(),
{
    if lines.len() == 0 {
        Seq::empty()
    } else {
        draws_of_lines(lines.drop_last(), store, img_w, img_h) + draws_of_glyphs(
            lines.last().glyphs,
            store,
            img_w,
            img_h,
        )
    }
}

/// An exact owned copy of a bitmap.
fn copy_raster(g: &RasterGlyph) -> (r: RasterGlyph)
    ensures
        raster_eq(r, *g),
{
    let mut pixels: Vec<u8> = Vec::new();
    let n = g.pixels.len();
    for i in 0..n
        invariant
            n == g.pixels@.len(),
            pixels@ == g.pixels@.take(i as int),
    {
        pixels.push(g.pixels[i]);
        proof {
            assert(g.pixels@.take(i as int + 1) =~= g.pixels@.take(i as int).push(
                g.pixels@[i as int],
            ));
        }
    }
    proof {
        assert(g.pixels@.take(n as int) =~= g.pixels@);
    }
    RasterGlyph { width: g.width, height: g.height, pixels }
}

/// A text renderer that rasterises into a caller-driven pixel stream, with
/// size-bounded caches over the raster store.
pub struct CpuRenderer {
    pub caches: Vec<CpuGlyphCache>,
}

impl CpuRenderer {
    /// Every cache is well formed.
    pub open spec fn wf(self) -> bool {
        forall|c: int| 0 <= c < self.caches@.len() ==> (#[trigger] self.caches@[c]).wf()
    }

    /// Every cache agrees with the store.
    pub open spec fn consistent_with(self, store: RasterStore) -> bool {
        forall|c: int| 0 <= c < self.caches@.len() ==> (#[trigger] self.caches@[c]).consistent_with(store)
    }

    /// One empty cache per configuration.
    pub fn new(configs: &Vec<CpuCacheConfig>) -> (r: CpuRenderer)
        requires
            forall|i: int| 0 <= i < configs@.len() ==> (#[trigger] configs@[i]).wf(),
        ensures
            r.wf(),
            forall|store: RasterStore| r.consistent_with(store),
            r.caches@.len() == configs@.len(),
    {
        let mut caches: Vec<CpuGlyphCache> = Vec::new();
        let n = configs.len();
        for i in 0..n
            invariant
                n == configs@.len(),
                caches@.len() == i,
                forall|k: int| 0 <= k < configs@.len() ==> (#[trigger] configs@[k]).wf(),
                forall|c: int|
                    0 <= c < i ==> (#[trigger] caches@[c]).wf() && caches@[c].entries@.len() == 0,
        {
            caches.push(CpuGlyphCache { config: configs[i], entries: Vec::new() });
        }
        let r = CpuRenderer { caches };
        proof {
            assert forall|store: RasterStore| r.consistent_with(store) by {
                assert forall|c: int|
                    0 <= c < r.caches@.len() implies (#[trigger] r.caches@[c]).consistent_with(
                    store,
                ) by {
                    assert(r.caches@[c].entries@.len() == 0);
                }
            }
        }
        r
    }

    /// Drops all cached bitmaps.
    pub fn clear_cache(&mut self)
        requires
            old(self).wf(),
        ensures
            final(self).wf(),
            forall|store: RasterStore| final(self).consistent_with(store),
            final(self).caches@.len() == old(self).caches@.len(),
    {
        let n = self.caches.len();
        for i in 0..n
            invariant
                n == self.caches@.len(),
                forall|c: int| 0 <= c < n ==> (#[trigger] self.caches@[c]).wf(),
                forall|c: int| 0 <= c < i ==> (#[trigger] self.caches@[c]).entries@.len() == 0,
        {
            let cfg = self.caches[i].config;
            self.caches.set(i, CpuGlyphCache { config: cfg, entries: Vec::new() });
            proof {
                assert forall|c: int| 0 <= c < n implies (#[trigger] self.caches@[c]).wf() by {}
            }
        }
        proof {
            assert forall|store: RasterStore| final(self).consistent_with(store) by {
                assert forall|c: int|
                    0 <= c < self.caches@.len() implies (#[trigger] self.caches@[c]).consistent_with(
                    store,
                ) by {
                    assert(self.caches@[c].entries@.len() == 0);
                }
            }
        }
    }

    /// The bitmap for a glyph: from the cache of its size range when cached
    /// (promoting it), from the store otherwise (inserting it, evicting the
    /// least recently used entry of a full cache). The result is exactly the
    /// store's answer.
    #[verifier::loop_isolation(false)]
    fn get_raster(&mut self, id: GlyphId, rasters: &RasterStore) -> (r: Option<RasterGlyph>)
        requires
            old(self).wf(),
            rasters.wf(),
            old(self).consistent_with(*rasters),
        ensures
            final(self).wf(),
            final(self).consistent_with(*rasters),
            match r {
                Some(g) => (rasters.spec_raster(id) matches Some(orig) && raster_eq(g, orig)
                    && g.wf()),
                None => rasters.spec_raster(id) is None,
            },
    {
        proof {
            rasters.lemma_raster_wf(id);
        }
        // Select the cache whose size range contains the quantised size.
        let nc = self.caches.len();
        let mut which: Option<usize> = None;
        for c in 0..nc
            invariant
                which matches Some(ci) ==> ci < nc,
                *self == *old(self),
        {
            if which.is_none() && self.caches[c].config.min_size <= id.size && id.size
                <= self.caches[c].config.max_size {
                which = Some(c);
            }
        }
        match which {
            None => {
                // No cache serves this size: answer from the store directly.
                match rasters.raster(id) {
                    Some(g) => Some(copy_raster(g)),
                    None => None,
                }
            },
            Some(ci) => {
                // Look for a cached entry.
                let ne = self.caches[ci].entries.len();
                let mut hit: Option<usize> = None;
                for j in 0..ne
                    invariant
                        ci < nc,
                        ne == self.caches@[ci as int].entries@.len(),
                        *self == *old(self),
                        hit matches Some(k) ==> k < ne && self.caches@[ci as int].entries@[k as int].glyph_id
                            == id,
                {
                    let e = &self.caches[ci].entries[j];
                    if hit.is_none() && e.glyph_id.font_id == id.font_id && e.glyph_id.glyph_index
                        == id.glyph_index && e.glyph_id.size == id.size {
                        proof {
                            assert(e.glyph_id == id);
                        }
                        hit = Some(j);
                    }
                }
                match hit {
                    Some(j) => {
                        // Promote to most recently used.
                        let e = self.caches[ci].entries.remove(j);
                        let r = copy_raster(&e.raster);
                        self.caches[ci].entries.push(e);
                        proof {
                            lemma_cache_rotate(old(self).caches@[ci as int].entries@, j as int);
                            assert forall|c: int|
                                0 <= c < self.caches@.len() implies (#[trigger] self.caches@[c]).wf()
                                    && self.caches@[c].consistent_with(*rasters) by {
                                if c != ci as int {
                                    assert(self.caches@[c] == old(self).caches@[c]);
                                }
                            }
                            assert(match rasters.spec_raster(id) {
                                Some(g) => raster_eq(g, e.raster),
                                None => false,
                            });
                        }
                        Some(r)
                    },
                    None => {
                        // Miss: take the store's bitmap and cache a copy.
                        match rasters.raster(id) {
                            Some(g) => {
                                let stored = copy_raster(g);
                                let out = copy_raster(g);
                                if self.caches[ci].entries.len() >= self.caches[ci].config.capacity {
                                    let _evicted = self.caches[ci].entries.remove(0);
                                }
                                self.caches[ci].entries.push(
                                    RasterEntry { glyph_id: id, raster: stored },
                                );
                                proof {
                                    assert forall|c: int|
                                        0 <= c < self.caches@.len() implies (
                                    #[trigger] self.caches@[c]).wf() && self.caches@[c].consistent_with(
                                        *rasters,
                                    ) by {
                                        if c != ci as int {
                                            assert(self.caches@[c] == old(self).caches@[c]);
                                        } else {
                                            lemma_cache_insert(
                                                old(self).caches@[c].entries@,
                                                self.caches@[c].entries@,
                                                *rasters,
                                                old(self).caches@[c].config.capacity as int,
                                            );
                                        }
                                    }
                                }
                                Some(out)
                            },
                            None => None,
                        }
                    },
                }
            },
        }
    }

    /// Walks the layout in reading order and emits, for every bitmap pixel
    /// that falls inside `image_size`, its coverage byte and the glyph's
    /// user payload — exactly the pixels of the store's bitmaps.
    #[verifier::loop_isolation(false)]
    #[verifier::rlimit(100)]
    pub fn render<T: Copy>(
        &mut self,
        layout: &TextLayout<T>,
        image_size: [usize; 2],
        rasters: &RasterStore,
    ) -> (out: Vec<PixelDraw<T>>)
        requires
            old(self).wf(),
            rasters.wf(),
            old(self).consistent_with(*rasters),
            image_size[0] <= 0x1_0000_0000,
            image_size[1] <= 0x1_0000_0000,
        ensures
            final(self).wf(),
            final(self).consistent_with(*rasters),
            out@ == draws_of_lines(
                layout@.lines,
                *rasters,
                image_size[0] as int,
                image_size[1] as int,
            ),
    {
        let img_w = image_size[0];
        let img_h = image_size[1];
        let mut out: Vec<PixelDraw<T>> = Vec::new();
        let nl = layout.lines.len();
        proof {
            assert(layout@.lines.take(0) =~= Seq::<LineModel<T>>::empty());
        }
        for li in 0..nl
            invariant
                nl == layout.lines@.len(),
                self.wf(),
                self.consistent_with(*rasters),
                out@ == draws_of_lines(
                    layout@.lines.take(li as int),
                    *rasters,
                    img_w as int,
                    img_h as int,
                ),
        {
            let ghost glyphs_model = layout@.lines[li as int].glyphs;
            let ghost base = out@;
            let ng = layout.lines[li].glyphs.len();
            proof {
                assert(glyphs_model.take(0) =~= Seq::<GlyphPos<T>>::empty());
                assert(glyphs_model.len() == layout.lines@[li as int].glyphs@.len());
            }
            for gi in 0..ng
                invariant
                    nl == layout.lines@.len(),
                    li < nl,
                    ng == layout.lines@[li as int].glyphs@.len(),
                    glyphs_model == layout@.lines[li as int].glyphs,
                    self.wf(),
                    self.consistent_with(*rasters),
                    out@ == base + draws_of_glyphs(
                        glyphs_model.take(gi as int),
                        *rasters,
                        img_w as int,
                        img_h as int,
                    ),
            {
                let g = &layout.lines[li].glyphs[gi];
                proof {
                    assert(glyphs_model[gi as int] == layout.lines@[li as int].glyphs@[gi as int]@);
                }
                let found = self.get_raster(g.glyph_id, rasters);
                let ghost out_pre = out@;
                match found {
                    None => {},
                    Some(raster) => {
                        draw_bitmap(&mut out, g.x, g.y, &raster, img_w, img_h, g.user_data);
                    },
                }
                proof {
                    assert(glyphs_model.take(gi as int + 1).drop_last() =~= glyphs_model.take(
                        gi as int,
                    ));
                    assert(glyphs_model.take(gi as int + 1).last() == glyphs_model[gi as int]);
                    assert(out@ =~= base + draws_of_glyphs(
                        glyphs_model.take(gi as int + 1),
                        *rasters,
                        img_w as int,
                        img_h as int,
                    ));
                }
            }
            proof {
                assert(glyphs_model.take(ng as int) =~= glyphs_model);
                assert(layout@.lines.take(li as int + 1).drop_last() =~= layout@.lines.take(
                    li as int,
                ));
                assert(layout@.lines.take(li as int + 1).last() == layout@.lines[li as int]);
                assert(out@ =~= draws_of_lines(
                    layout@.lines.take(li as int + 1),
                    *rasters,
                    img_w as int,
                    img_h as int,
                ));
            }
        }
        proof {
            assert(layout@.lines.take(nl as int) =~= layout@.lines);
        }
        out
    }
}

/// Rotating one entry to the back keeps well-formedness and consistency
/// facts pointwise.
proof fn lemma_cache_rotate(entries: Seq<RasterEntry>, j: int)
    requires
        0 <= j < entries.len(),
    ensures
        forall|i: int|
            0 <= i < entries.remove(j).push(entries[j]).len()
                ==> exists|k: int|
                0 <= k < entries.len() && #[trigger] entries.remove(j).push(entries[j])[i]
                    == entries[k],
{
    let rotated = entries.remove(j).push(entries[j]);
    assert forall|i: int| 0 <= i < rotated.len() implies exists|k: int|
        0 <= k < entries.len() && #[trigger] rotated[i] == entries[k] by {
        if i < j {
            assert(rotated[i] == entries[i]);
        } else if i < entries.len() - 1 {
            assert(rotated[i] == entries[i + 1]);
        } else {
            assert(rotated[i] == entries[j]);
        }
    }
}

/// Inserting a consistent entry, after evicting the front of a full cache,
/// keeps every entry consistent and within capacity.
proof fn lemma_cache_insert(
    before: Seq<RasterEntry>,
    after: Seq<RasterEntry>,
    store: RasterStore,
    capacity: int,
)
    requires
        before.len() <= capacity,
        capacity >= 1,
        after == (if before.len() >= capacity {
            before.remove(0).push(after.last())
        } else {
            before.push(after.last())
        }),
        after.len() > 0,
        forall|i: int|
            0 <= i < before.len() ==> match store.spec_raster((#[trigger] before[i]).glyph_id) {
                Some(g) => raster_eq(g, before[i].raster),
                None => false,
            },
        forall|i: int| 0 <= i < before.len() ==> (#[trigger] before[i]).raster.wf(),
        match store.spec_raster(after.last().glyph_id) {
            Some(g) => raster_eq(g, after.last().raster),
            None => false,
        },
        after.last().raster.wf(),
    ensures
        after.len() <= capacity,
        forall|i: int|
            0 <= i < after.len() ==> match store.spec_raster((#[trigger] after[i]).glyph_id) {
                Some(g) => raster_eq(g, after[i].raster),
                None => false,
            },
        forall|i: int| 0 <= i < after.len() ==> (#[trigger] after[i]).raster.wf(),
{
    assert forall|i: int| 0 <= i < after.len() implies (match store.spec_raster(
        (#[trigger] after[i]).glyph_id,
    ) {
        Some(g) => raster_eq(g, after[i].raster),
        None => false,
    }) && after[i].raster.wf() by {
        if i < after.len() - 1 {
            if before.len() >= capacity {
                assert(after[i] == before[i + 1]);
            } else {
                assert(after[i] == before[i]);
            }
        }
    }
}

/// Appends every in-image pixel of one bitmap placed at subunit position
/// `(x, y)`.
#[verifier::loop_isolation(false)]
#[verifier::rlimit(60)]
fn draw_bitmap<T: Copy>(
    out: &mut Vec<PixelDraw<T>>,
    x: i64,
    y: i64,
    raster: &RasterGlyph,
    img_w: usize,
    img_h: usize,
    user: T,
)
    requires
        raster.wf(),
        img_w <= 0x1_0000_0000,
        img_h <= 0x1_0000_0000,
    ensures
        final(out)@ == old(out)@ + glyph_draws(
            px_of(x as int),
            px_of(y as int),
            raster.width as int,
            raster.pixels@,
            img_w as int,
            img_h as int,
            user,
            raster.height as int,
        ),
{
    let px = px_exec(x);
    let py = px_exec(y);
    let w = raster.width;
    let h = raster.height;
    let ghost base = out@;
    proof {
        assert(base + glyph_draws(
            px as int,
            py as int,
            w as int,
            raster.pixels@,
            img_w as int,
            img_h as int,
            user,
            0,
        ) =~= base);
    }
    for row in 0..h
        invariant
            w == raster.width,
            h == raster.height,
            out@ == base + glyph_draws(
                px as int,
                py as int,
                w as int,
                raster.pixels@,
                img_w as int,
                img_h as int,
                user,
                row as int,
            ),
    {
        let ghost row_base = out@;
        proof {
            assert(row_base + row_draws(
                px as int,
                py as int,
                w as int,
                raster.pixels@,
                img_w as int,
                img_h as int,
                user,
                row as int,
                0,
            ) =~= row_base);
        }
        for col in 0..w
            invariant
                w == raster.width,
                h == raster.height,
                row < h,
                out@ == row_base + row_draws(
                    px as int,
                    py as int,
                    w as int,
                    raster.pixels@,
                    img_w as int,
                    img_h as int,
                    user,
                    row as int,
                    col as int,
                ),
        {
            let dx = px + col as i64;
            let dy = py + row as i64;
            if 0 <= dx && dx < img_w as i64 && 0 <= dy && dy < img_h as i64 {
                proof {
                    vstd::arithmetic::mul::lemma_mul_inequality(
                        row as int + 1,
                        h as int,
                        w as int,
                    );
                    vstd::arithmetic::mul::lemma_mul_is_distributive_add_other_way(
                        w as int,
                        row as int,
                        1,
                    );
                    vstd::arithmetic::mul::lemma_mul_nonnegative(row as int, w as int);
                    vstd::arithmetic::mul::lemma_mul_is_commutative(w as int, h as int);
                    vstd::arithmetic::mul::lemma_mul_upper_bound(
                        row as int,
                        0x8000,
                        w as int,
                        0x8000,
                    );
                }
                let idx = row * w + col;
                let coverage = raster.pixels[idx];
                out.push(
                    PixelDraw { x: dx as usize, y: dy as usize, coverage, user_data: user },
                );
            }
            proof {
                assert(out@ =~= row_base + row_draws(
                    px as int,
                    py as int,
                    w as int,
                    raster.pixels@,
                    img_w as int,
                    img_h as int,
                    user,
                    row as int,
                    col as int + 1,
                ));
            }
        }
        proof {
            assert(out@ =~= base + glyph_draws(
                px as int,
                py as int,
                w as int,
                raster.pixels@,
                img_w as int,
                img_h as int,
                user,
                row as int + 1,
            ));
        }
    }
}

/// Subunit coordinate truncated to whole pixels, toward zero.
fn px_exec(v: i64) -> (r: i64)
    ensures
        r as int == px_of(v as int),
        -0x2000_0000_0000_0000 <= r <= 0x2000_0000_0000_0000,
{
    if v >= 0 {
        let r = ((v as u64) / 64) as i64;
        proof {
            vstd::arithmetic::div_mod::lemma_div_nonincreasing(v as int, 64);
            vstd::arithmetic::div_mod::lemma_div_pos_is_pos(v as int, 64);
        }
        r
    } else if v == i64::MIN {
        proof {
            assert(px_of(v as int) == -(0x8000_0000_0000_0000int / 64));
        }
        -0x200_0000_0000_0000
    } else {
        let m = -v;
        let r = -(((m as u64) / 64) as i64);
        proof {
            vstd::arithmetic::div_mod::lemma_div_nonincreasing(m as int, 64);
            vstd::arithmetic::div_mod::lemma_div_pos_is_pos(m as int, 64);
        }
        r
    }
}

} // verus!
