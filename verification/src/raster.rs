//! Rasterised glyph bitmaps.
//!
//! The rasteriser is an outside collaborator; the engine receives each
//! glyph's grayscale bitmap as plain bytes, row-major and tightly packed,
//! keyed by the glyph's identity.

use vstd::prelude::*;

use crate::glyph::GlyphId;

verus! {

/// Largest accepted bitmap extent, in pixels.
pub const RASTER_LIMIT: usize = 0x8000;

/// One rasterised glyph: a row-major, tightly packed grayscale bitmap.
#[derive(Clone, Debug)]
pub struct RasterGlyph {
    pub width: usize,
    pub height: usize,
    pub pixels: Vec<u8>,
}

impl RasterGlyph {
    /// The bitmap has exactly one byte per pixel and bounded extents.
    pub open spec fn wf(self) -> bool {
        &&& self.pixels@.len() == self.width * self.height
        &&& self.width <= RASTER_LIMIT
        &&& self.height <= RASTER_LIMIT
    }
}

/// One raster table entry.
#[derive(Clone, Debug)]
pub struct RasterEntry {
    pub glyph_id: GlyphId,
    pub raster: RasterGlyph,
}

/// First raster for a glyph identity, in table order.
pub open spec fn find_raster(entries: Seq<RasterEntry>, id: GlyphId) -> Option<RasterGlyph>
    decreases entries.len(),
{
    if entries.len() == 0 {
        None
    } else if entries[0].glyph_id == id {
        Some(entries[0].raster)
    } else {
        find_raster(entries.drop_first(), id)
    }
}

/// The bitmaps available to one render call, keyed by glyph identity.
#[derive(Clone, Debug)]
pub struct RasterStore {
    pub entries: Vec<RasterEntry>,
}

impl RasterStore {
    /// Every bitmap in the store is well formed.
    pub open spec fn wf(self) -> bool {
        forall|i: int| 0 <= i < self.entries@.len() ==> (#[trigger] self.entries@[i]).raster.wf()
    }

    /// The bitmap the store answers for a glyph identity.
    pub open spec fn spec_raster(self, id: GlyphId) -> Option<RasterGlyph> {
        find_raster(self.entries@, id)
    }

    /// An empty store.
    pub fn new() -> (r: RasterStore)
        ensures
            r.entries@ =~= Seq::<RasterEntry>::empty(),
            r.wf(),
    {
        RasterStore { entries: Vec::new() }
    }

    /// Adds a bitmap for a glyph identity. Returns false, leaving the store
    /// unchanged, when the bitmap is malformed.
    pub fn add_raster(&mut self, glyph_id: GlyphId, raster: RasterGlyph) -> (r: bool)
        requires
            old(self).wf(),
        ensures
            final(self).wf(),
            r == raster.wf(),
            r ==> final(self).entries@ == old(self).entries@.push(
                RasterEntry { glyph_id, raster },
            ),
            !r ==> final(self).entries@ == old(self).entries@,
    {
        let ok = raster.width <= RASTER_LIMIT && raster.height <= RASTER_LIMIT
            && raster.width.checked_mul(raster.height) == Some(raster.pixels.len());
        if ok {
            self.entries.push(RasterEntry { glyph_id, raster });
            true
        } else {
            false
        }
    }

    /// Looks up the bitmap for a glyph identity, first match in table order.
    pub fn raster(&self, id: GlyphId) -> (r: Option<&RasterGlyph>)
        ensures
            match r {
                Some(g) => self.spec_raster(id) == Some(*g),
                None => self.spec_raster(id) is None,
            },
    {
        let n = self.entries.len();
        proof {
            assert(self.entries@.skip(0) =~= self.entries@);
        }
        for i in 0..n
            invariant
                n == self.entries@.len(),
                find_raster(self.entries@.skip(i as int), id) == find_raster(self.entries@, id),
        {
            proof {
                assert(self.entries@.skip(i as int).drop_first() =~= self.entries@.skip(
                    i as int + 1,
                ));
            }
            let e = &self.entries[i];
            if e.glyph_id.font_id == id.font_id && e.glyph_id.glyph_index == id.glyph_index
                && e.glyph_id.size == id.size {
                proof {
                    assert(e.glyph_id == id);
                }
                return Some(&e.raster);
            }
        }
        None
    }

    /// A raster found in a well-formed store is well formed.
    pub proof fn lemma_raster_wf(self, id: GlyphId)
        requires
            self.wf(),
        ensures
            match self.spec_raster(id) {
                Some(g) => g.wf(),
                None => true,
            },
    {
        lemma_find_raster_wf(self.entries@, id);
    }
}

/// A raster found among well-formed entries is well formed.
pub proof fn lemma_find_raster_wf(entries: Seq<RasterEntry>, id: GlyphId)
    requires
        forall|i: int| 0 <= i < entries.len() ==> (#[trigger] entries[i]).raster.wf(),
    ensures
        match find_raster(entries, id) {
            Some(g) => g.wf(),
            None => true,
        },
    decreases entries.len(),
{
    if entries.len() == 0 {
    } else if entries[0].glyph_id == id {
    } else {
        assert forall|i: int| 0 <= i < entries.drop_first().len() implies (#[trigger] entries.drop_first()[i]).raster.wf() by {
            assert(entries.drop_first()[i] == entries[i + 1]);
        }
        lemma_find_raster_wf(entries.drop_first(), id);
    }
}

} // verus!
