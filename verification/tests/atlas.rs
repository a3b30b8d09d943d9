use mica::atlas::{Atlas, GlyphEntry, GlyphId, GlyphKey, MAX_PAGES};
use mica::fontset::{CellMetrics, Style};
use mica::packer::Rect;
use mica::raster::{rasterize_scalar, Bitmap, PixelFormat};

fn metrics() -> CellMetrics {
    CellMetrics::measured(16, 31, 24, 17)
}

/// A font that has every character, and draws emoji and clusters in colour.
fn draw(key: GlyphKey, text: Option<&str>) -> Option<Bitmap> {
    match key.id {
        GlyphId::Scalar(ch) => rasterize_scalar(ch, metrics(), key.columns, || {
            Some(filled(if ch >= '\u{1F000}' { PixelFormat::Bgra8 } else { PixelFormat::Alpha8 }))
        }),
        GlyphId::Cluster(_) => text.map(|_| filled(PixelFormat::Bgra8)),
    }
}

fn filled(format: PixelFormat) -> Bitmap {
    let data = vec![255u8; 12 * 14 * format.bytes_per_pixel()];
    Bitmap { width: 12, height: 14, format, data, left: 1, top: 3 }
}

fn look(a: &mut Atlas, key: GlyphKey) -> Option<GlyphEntry> {
    a.glyph(key, || draw(key, None))
}

fn atlas() -> Atlas {
    Atlas::new(metrics())
}

#[test]
fn a_letter_is_rasterised_once_and_cached_thereafter() {
    let mut a = atlas();
    let key = GlyphKey::scalar('A', Style::regular());

    let first = look(&mut a, key).unwrap();
    assert_eq!(a.take_uploads().len(), 1, "the first lookup must upload");

    let second = look(&mut a, key).unwrap();
    assert_eq!(first, second);
    assert!(a.take_uploads().is_empty(), "a cache hit must not re-upload");
}

#[test]
fn a_streaming_log_stops_rasterising_after_the_first_screenful() {
    // The load-bearing claim: a 200 MB log costs what an empty prompt
    // costs, because the glyph repertoire is bounded.
    let mut a = atlas();
    let text = "  Compiling mica-core v0.1.0 (/Users/me/Mica)";
    for ch in text.chars() {
        look(&mut a, GlyphKey::scalar(ch, Style::regular()));
    }
    let distinct = a.glyph_count();
    a.take_uploads();

    // Now "stream" the same line ten thousand more times.
    for _ in 0..10_000 {
        for ch in text.chars() {
            look(&mut a, GlyphKey::scalar(ch, Style::regular()));
        }
    }
    assert_eq!(a.glyph_count(), distinct, "the repertoire grew while streaming");
    assert!(a.take_uploads().is_empty(), "streaming re-uploaded glyphs");
}

#[test]
fn each_style_is_its_own_glyph() {
    let mut a = atlas();
    let regular = look(&mut a, GlyphKey::scalar('A', Style::regular())).unwrap();
    let bold = look(&mut a, GlyphKey::scalar('A', Style::new(true, false))).unwrap();
    assert_ne!(regular.rect, bold.rect, "bold and regular share a rectangle");
    assert_eq!(a.glyph_count(), 2);
}

#[test]
fn a_space_costs_no_texture_space_but_is_still_cached() {
    let mut a = atlas();
    let entry = look(&mut a, GlyphKey::scalar(' ', Style::regular())).unwrap();
    assert!(entry.is_blank());
    assert!(a.take_uploads().is_empty(), "a space must not produce an upload");
    assert_eq!(a.page_count(), 0, "a screen of spaces must not open a page");

    // Cached, so a screen full of spaces does not re-enter the rasteriser.
    look(&mut a, GlyphKey::scalar(' ', Style::regular())).unwrap();
    assert_eq!(a.glyph_count(), 1);
}

#[test]
fn colour_and_greyscale_never_share_a_page() {
    let mut a = atlas();
    let letter = look(&mut a, GlyphKey::scalar('A', Style::regular())).unwrap();
    let emoji = look(&mut a, GlyphKey::wide('\u{1F680}', Style::regular())).unwrap();

    assert_eq!(letter.format, PixelFormat::Alpha8);
    assert_eq!(emoji.format, PixelFormat::Bgra8);
    assert_ne!(letter.page, emoji.page, "an emoji landed on the greyscale page");
    assert_eq!(a.page_format(letter.page), Some(PixelFormat::Alpha8));
    assert_eq!(a.page_format(emoji.page), Some(PixelFormat::Bgra8));
}

#[test]
fn a_cluster_asks_for_its_text_only_on_a_miss() {
    let mut a = atlas();
    let key = GlyphKey::cluster(7, Style::regular(), 2);
    let family = "\u{1F468}\u{200D}\u{1F469}\u{200D}\u{1F467}";

    let mut asked = 0;
    let mut lookup = |a: &mut Atlas, asked: &mut i32| {
        a.glyph(key, || {
            *asked += 1;
            draw(key, Some(family))
        })
    };
    assert!(lookup(&mut a, &mut asked).is_some());
    assert_eq!(asked, 1);
    assert!(lookup(&mut a, &mut asked).is_some());
    assert_eq!(asked, 1, "a cache hit must not reach into the side table");
}

#[test]
fn a_cluster_with_no_text_available_is_not_cached_as_a_failure_forever() {
    let mut a = atlas();
    let key = GlyphKey::cluster(99, Style::regular(), 1);
    assert!(look(&mut a, key).is_none());
    // The id later becomes resolvable; the atlas must not have given up.
    assert!(a.glyph(key, || draw(key, Some("\u{1F1FA}\u{1F1F8}"))).is_some());
}

#[test]
fn uploads_are_drained_not_repeated() {
    let mut a = atlas();
    for ch in "hello".chars() {
        look(&mut a, GlyphKey::scalar(ch, Style::regular()));
    }
    assert!(a.has_uploads());
    let first = a.take_uploads();
    assert_eq!(first.len(), 4, "h, e, l, o — the second l is a cache hit");
    assert!(!a.has_uploads());
    assert!(a.take_uploads().is_empty());
}

#[test]
fn an_upload_carries_exactly_its_rectangle_of_pixels() {
    let mut a = atlas();
    look(&mut a, GlyphKey::scalar('W', Style::regular())).unwrap();
    let upload = a.take_uploads().pop().unwrap();
    let expected = upload.rect.area() as usize * upload.format.bytes_per_pixel();
    assert_eq!(upload.data.len(), expected, "upload size disagrees with its rect");
}

#[test]
fn allocated_rectangles_never_overlap_within_a_page() {
    let mut a = atlas();
    let mut placed: Vec<(u16, Rect)> = Vec::new();
    for ch in ('!'..='~').chain('\u{2500}'..='\u{2540}') {
        if let Some(e) = look(&mut a, GlyphKey::scalar(ch, Style::regular())) {
            if e.is_blank() {
                continue;
            }
            for (page, rect) in &placed {
                if *page == e.page {
                    assert!(!e.rect.intersects(rect), "{:?} overlaps {rect:?}", e.rect);
                }
            }
            placed.push((e.page, e.rect));
        }
    }
    assert!(placed.len() > 100);
}

#[test]
fn rebuilding_for_a_new_size_invalidates_everything() {
    let mut a = atlas();
    look(&mut a, GlyphKey::scalar('A', Style::regular())).unwrap();
    a.take_uploads();
    let generation = a.generation();

    a.rebuild(CellMetrics::measured(29, 56, 45, 31));
    assert_ne!(a.generation(), generation, "the renderer was not told to drop its textures");
    assert_eq!(a.glyph_count(), 0);
    assert_eq!(a.page_count(), 0);

    // …and the next lookup rasterises at the new size.
    let entry = look(&mut a, GlyphKey::scalar('A', Style::regular())).unwrap();
    assert!(!entry.is_blank());
    assert_eq!(a.take_uploads().len(), 1);
}

#[test]
fn a_full_atlas_evicts_a_page_rather_than_failing() {
    // A tiny page forces the eviction path that would otherwise never run.
    let mut a = Atlas::with_page_size(CellMetrics::measured(8, 16, 12, 8), 64);
    let mut placed = 0;
    for cp in 0x4E00u32..0x4E00 + 4000 {
        let ch = char::from_u32(cp).unwrap();
        a.begin_frame();
        if look(&mut a, GlyphKey::wide(ch, Style::regular())).is_some() {
            placed += 1;
        }
        a.take_uploads();
    }
    assert!(placed > 100, "eviction stalled after {placed} glyphs");
    assert!(a.generation() > 0, "pages were never evicted");
    assert!(a.page_count() <= MAX_PAGES);
}

#[test]
fn texture_memory_stays_bounded() {
    let mut a = Atlas::with_page_size(CellMetrics::measured(8, 16, 12, 8), 256);
    for cp in 0x4E00u32..0x4E00 + 3000 {
        a.begin_frame();
        look(&mut a, GlyphKey::wide(char::from_u32(cp).unwrap(), Style::regular()));
        a.take_uploads();
    }
    // Eight 256² pages at four bytes is the absolute ceiling.
    assert!(a.texture_bytes() <= MAX_PAGES as u64 * 256 * 256 * 4);
}

#[test]
fn box_drawing_glyphs_are_cell_exact_in_the_atlas() {
    let mut a = atlas();
    let m = a.metrics();
    let entry = look(&mut a, GlyphKey::scalar('\u{253C}', Style::regular())).unwrap();
    assert_eq!(entry.rect.width, m.width);
    assert_eq!(entry.rect.height, m.height);
    assert_eq!((entry.left, entry.top), (0, 0));
}
