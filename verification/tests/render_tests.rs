//! CPU and GPU renderer behaviour on concrete bitmaps.

use typeset::config::TextLayoutConfig;
use typeset::cpu::{CpuCacheConfig, CpuRenderer};
use typeset::font_store::{FontStore, LineMetrics, SizedFont};
use typeset::glyph::{GlyphId, GlyphMetrics};
use typeset::gpu::{AtlasUpdate, GpuEvent, GpuRenderer};
use typeset::atlas::GpuCacheConfig;
use typeset::layout::{TextData, TextElement, TextLayout};
use typeset::raster::{RasterGlyph, RasterStore};

const SIZE16: u32 = 16 * 64;

fn store_with(chars: &[(char, u16, i64)]) -> FontStore {
    let mut sf = SizedFont::new(0, SIZE16);
    assert!(sf.set_line_metrics(LineMetrics { ascent: 768, descent: -256, line_gap: 0 }));
    for &(ch, idx, advance) in chars {
        assert!(sf.push_glyph(
            ch,
            idx,
            GlyphMetrics { width: 128, height: 128, xmin: 0, ymin: 0, advance }
        ));
    }
    let mut store = FontStore::new();
    store.add_font(sf);
    store
}

fn rasters_with(entries: &[(u16, usize, usize)]) -> RasterStore {
    let mut rasters = RasterStore::new();
    for &(idx, w, h) in entries {
        let mut pixels = Vec::new();
        for i in 0..w * h {
            pixels.push((i % 251) as u8 + 1);
        }
        assert!(rasters.add_raster(
            GlyphId::new(0, idx, SIZE16),
            RasterGlyph { width: w, height: h, pixels }
        ));
    }
    rasters
}

fn simple_layout(content: &str, chars: &[(char, u16, i64)]) -> TextLayout<u8> {
    let store = store_with(chars);
    let mut data = TextData::new();
    data.push(TextElement {
        font_id: 0,
        font_size: SIZE16,
        content: content.chars().collect(),
        user_data: 5u8,
    });
    data.layout(&TextLayoutConfig::default(), &store)
}

fn update_count(events: &[GpuEvent<u8>]) -> usize {
    events
        .iter()
        .map(|e| match e {
            GpuEvent::Updates(us) => us.len(),
            _ => 0,
        })
        .sum()
}

fn instance_count(events: &[GpuEvent<u8>]) -> usize {
    events
        .iter()
        .map(|e| match e {
            GpuEvent::Instances(is) => is.len(),
            _ => 0,
        })
        .sum()
}

fn standalone_count(events: &[GpuEvent<u8>]) -> usize {
    events
        .iter()
        .filter(|e| matches!(e, GpuEvent::Standalone(_)))
        .count()
}

#[test]
fn gpu_first_frame_uploads_then_draws() {
    let chars = [('a', 1, 640), ('b', 2, 640)];
    let layout = simple_layout("ab", &chars);
    let rasters = rasters_with(&[(1, 3, 3), (2, 4, 4)]);
    let configs = vec![GpuCacheConfig { texture_size: 64, min_glyph_size: 0, max_glyph_size: 64 }];
    let mut renderer = GpuRenderer::new(&configs);
    let events = renderer.render(&layout, &rasters);
    assert_eq!(update_count(&events), 2);
    assert_eq!(instance_count(&events), 2);
    assert_eq!(standalone_count(&events), 0);
    // Every upload names its glyph and carries exactly that glyph's bitmap
    // and extents, and every instance samples its bitmap extents.
    let uploads: Vec<&AtlasUpdate> = events
        .iter()
        .flat_map(|e| match e {
            GpuEvent::Updates(us) => us.iter().collect::<Vec<_>>(),
            _ => Vec::new(),
        })
        .collect();
    for u in &uploads {
        let (w, h) = if u.glyph_id.glyph_index == 1 { (3, 3) } else { (4, 4) };
        assert_eq!(u.glyph_id.font_id, 0);
        assert_eq!(u.width, w);
        assert_eq!(u.height, h);
        assert_eq!(u.pixels.len(), w * h);
    }
    for e in &events {
        if let GpuEvent::Instances(is) = e {
            for inst in is {
                assert_eq!(inst.uv_w, inst.width);
                assert_eq!(inst.uv_h, inst.height);
            }
        }
    }
    // The updates event comes before the instances event that samples it.
    let first_updates = events
        .iter()
        .position(|e| matches!(e, GpuEvent::Updates(us) if !us.is_empty()))
        .unwrap();
    let first_instances = events
        .iter()
        .position(|e| matches!(e, GpuEvent::Instances(is) if !is.is_empty()))
        .unwrap();
    assert!(first_updates < first_instances);
}

#[test]
fn gpu_second_frame_reuses_atlas() {
    let chars = [('a', 1, 640), ('b', 2, 640)];
    let layout = simple_layout("ab", &chars);
    let rasters = rasters_with(&[(1, 3, 3), (2, 4, 4)]);
    let configs = vec![GpuCacheConfig { texture_size: 64, min_glyph_size: 0, max_glyph_size: 64 }];
    let mut renderer = GpuRenderer::new(&configs);
    let _ = renderer.render(&layout, &rasters);
    let events = renderer.render(&layout, &rasters);
    assert_eq!(update_count(&events), 0);
    assert_eq!(instance_count(&events), 2);
}

#[test]
fn gpu_oversized_glyph_goes_standalone() {
    let chars = [('W', 1, 640)];
    let layout = simple_layout("W", &chars);
    let rasters = rasters_with(&[(1, 64, 64)]);
    let configs = vec![GpuCacheConfig { texture_size: 32, min_glyph_size: 0, max_glyph_size: 32 }];
    let mut renderer = GpuRenderer::new(&configs);
    let events = renderer.render(&layout, &rasters);
    assert_eq!(standalone_count(&events), 1);
    assert_eq!(instance_count(&events), 0);
    match events
        .iter()
        .find(|e| matches!(e, GpuEvent::Standalone(_)))
        .unwrap()
    {
        GpuEvent::Standalone(g) => {
            assert_eq!(g.glyph_id, GlyphId::new(0, 1, SIZE16));
            assert_eq!(g.width, 64);
            assert_eq!(g.height, 64);
            assert_eq!(g.pixels.len(), 64 * 64);
        },
        _ => unreachable!(),
    }
}

#[test]
fn gpu_clear_cache_forces_reupload() {
    let chars = [('a', 1, 640)];
    let layout = simple_layout("a", &chars);
    let rasters = rasters_with(&[(1, 3, 3)]);
    let configs = vec![GpuCacheConfig { texture_size: 64, min_glyph_size: 0, max_glyph_size: 64 }];
    let mut renderer = GpuRenderer::new(&configs);
    let _ = renderer.render(&layout, &rasters);
    renderer.clear_cache();
    let events = renderer.render(&layout, &rasters);
    assert_eq!(update_count(&events), 1);
}

#[test]
fn gpu_eviction_prefers_stale_entries() {
    // One page that fits exactly one 16x16 glyph per shelf and has no room
    // for a second shelf.
    let configs = vec![GpuCacheConfig { texture_size: 16, min_glyph_size: 0, max_glyph_size: 16 }];
    let chars_a = [('a', 1, 640)];
    let chars_b = [('b', 2, 640)];
    let rasters = rasters_with(&[(1, 16, 16), (2, 16, 16)]);
    let mut renderer = GpuRenderer::new(&configs);
    let la = simple_layout("a", &chars_a);
    let lb = simple_layout("b", &chars_b);
    let e1 = renderer.render(&la, &rasters);
    assert_eq!(update_count(&e1), 1);
    // Next frame: 'b' evicts the stale slot of 'a'.
    let e2 = renderer.render(&lb, &rasters);
    assert_eq!(update_count(&e2), 1);
    assert_eq!(instance_count(&e2), 1);
    assert_eq!(standalone_count(&e2), 0);
}

#[test]
fn gpu_same_frame_protection_rejects_second_glyph() {
    // Both glyphs of one frame compete for a single slot: the second cannot
    // evict the first and goes standalone.
    let configs = vec![GpuCacheConfig { texture_size: 16, min_glyph_size: 0, max_glyph_size: 16 }];
    let chars = [('a', 1, 640), ('b', 2, 640)];
    let rasters = rasters_with(&[(1, 16, 16), (2, 16, 16)]);
    let mut renderer = GpuRenderer::new(&configs);
    let layout = simple_layout("ab", &chars);
    let events = renderer.render(&layout, &rasters);
    assert_eq!(instance_count(&events), 1);
    assert_eq!(standalone_count(&events), 1);
}

#[test]
fn cpu_emits_bitmap_pixels() {
    let chars = [('a', 1, 640)];
    let layout = simple_layout("a", &chars);
    let rasters = rasters_with(&[(1, 2, 2)]);
    let mut renderer = CpuRenderer::new(&vec![
        CpuCacheConfig { min_size: 0, max_size: u32::MAX, capacity: 8 },
    ]);
    let draws = renderer.render(&layout, [100, 100], &rasters);
    assert_eq!(draws.len(), 4);
    // Glyph 'a' sits at x = 0 subunits; its baseline placement gives the
    // top-left pixel of the 2x2 bitmap.
    let x0 = draws[0].x;
    let y0 = draws[0].y;
    assert_eq!(draws[1].x, x0 + 1);
    assert_eq!(draws[1].y, y0);
    assert_eq!(draws[2].x, x0);
    assert_eq!(draws[2].y, y0 + 1);
    for d in &draws {
        assert_eq!(d.user_data, 5u8);
        assert!(d.coverage > 0);
    }
}

#[test]
fn cpu_clips_to_image_bounds() {
    let chars = [('a', 1, 640)];
    let layout = simple_layout("a", &chars);
    let rasters = rasters_with(&[(1, 8, 8)]);
    let mut renderer = CpuRenderer::new(&vec![
        CpuCacheConfig { min_size: 0, max_size: u32::MAX, capacity: 8 },
    ]);
    let all = renderer.render(&layout, [100, 100], &rasters);
    let clipped = renderer.render(&layout, [0, 0], &rasters);
    assert_eq!(all.len(), 64);
    assert_eq!(clipped.len(), 0);
    for d in &all {
        assert!(d.x < 100 && d.y < 100);
    }
}

#[test]
fn cpu_cache_keeps_results_identical() {
    let chars = [('a', 1, 640), ('b', 2, 640)];
    let layout = simple_layout("abab", &chars);
    let rasters = rasters_with(&[(1, 2, 2), (2, 3, 3)]);
    let mut renderer = CpuRenderer::new(&vec![
        CpuCacheConfig { min_size: 0, max_size: u32::MAX, capacity: 1 },
    ]);
    let first = renderer.render(&layout, [200, 200], &rasters);
    let second = renderer.render(&layout, [200, 200], &rasters);
    assert_eq!(first.len(), second.len());
    for (a, b) in first.iter().zip(second.iter()) {
        assert_eq!(a.x, b.x);
        assert_eq!(a.y, b.y);
        assert_eq!(a.coverage, b.coverage);
    }
    renderer.clear_cache();
    let third = renderer.render(&layout, [200, 200], &rasters);
    assert_eq!(first.len(), third.len());
}

#[test]
fn cpu_skips_glyphs_without_bitmaps() {
    let chars = [('a', 1, 640), ('b', 2, 640)];
    let layout = simple_layout("ab", &chars);
    let rasters = rasters_with(&[(1, 2, 2)]);
    let mut renderer = CpuRenderer::new(&vec![]);
    let draws = renderer.render(&layout, [100, 100], &rasters);
    assert_eq!(draws.len(), 4);
}
