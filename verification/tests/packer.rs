use mica::packer::{Rect, ShelfPacker};

/// The part of a page that is used.
fn occupancy(p: &ShelfPacker) -> f32 {
    let (used, whole) = p.occupancy();
    used as f32 / whole as f32
}

#[test]
fn a_fresh_page_is_empty() {
    let p = ShelfPacker::new(256, 256);
    assert_eq!(occupancy(&p), 0.0);
    assert_eq!(p.dimensions(), (256, 256));
}

#[test]
fn allocations_do_not_overlap() {
    let mut p = ShelfPacker::new(128, 128);
    let mut placed: Vec<Rect> = Vec::new();
    // A spread of sizes, including a couple of tall ones, in an order that
    // forces both the shelf-reuse and the new-shelf path.
    for (w, h) in [(8, 16), (8, 16), (10, 20), (8, 16), (30, 8), (8, 16), (12, 24)] {
        let r = p.allocate(w, h).expect("128x128 has room for these");
        for existing in &placed {
            assert!(!r.intersects(existing), "{r:?} overlaps {existing:?}");
        }
        placed.push(r);
    }
    assert_eq!(placed.len(), 7);
}

#[test]
fn every_allocation_stays_inside_the_page() {
    let mut p = ShelfPacker::new(64, 64);
    while let Some(r) = p.allocate(9, 17) {
        assert!(r.x + r.width <= 64, "{r:?} runs off the right edge");
        assert!(r.y + r.height <= 64, "{r:?} runs off the bottom edge");
    }
}

#[test]
fn a_glyph_larger_than_the_page_is_refused_rather_than_clipped() {
    let mut p = ShelfPacker::new(32, 32);
    assert_eq!(p.allocate(64, 8), None);
    assert_eq!(p.allocate(8, 64), None);
    // …and refusing it must not corrupt the page for the next glyph.
    assert!(p.allocate(8, 8).is_some());
}

#[test]
fn a_zero_sized_glyph_consumes_no_space() {
    let mut p = ShelfPacker::new(64, 64);
    let r = p.allocate(0, 0).unwrap();
    assert_eq!(r.area(), 0);
    assert_eq!(occupancy(&p), 0.0, "a space must not cost atlas area");
}

#[test]
fn a_full_page_reports_full_instead_of_wrapping() {
    let mut p = ShelfPacker::new(16, 16);
    let mut count = 0;
    while p.allocate(7, 7).is_some() {
        count += 1;
        assert!(count < 100, "the packer never reported the page full");
    }
    assert!(count > 0);
}

#[test]
fn uniform_glyphs_pack_densely() {
    // The realistic case: one cell size, hundreds of glyphs. Padding costs
    // roughly 1px in each direction, so ~70% is the floor worth holding to.
    let mut p = ShelfPacker::new(512, 512);
    let mut n = 0;
    while p.allocate(9, 18).is_some() {
        n += 1;
    }
    assert!(n >= 1300, "only packed {n} cells into 512x512");
    assert!(occupancy(&p) > 0.7, "occupancy was {}", occupancy(&p));
}

#[test]
fn best_fit_keeps_a_tall_shelf_from_swallowing_short_glyphs() {
    let mut p = ShelfPacker::new(256, 64);
    // One tall glyph opens a 40px shelf, then a short one opens its own.
    p.allocate(10, 39).unwrap();
    let short = p.allocate(10, 8).unwrap();
    assert_ne!(short.y, 0, "the short glyph should not sit on the tall shelf");
}

#[test]
fn reset_makes_the_page_reusable() {
    let mut p = ShelfPacker::new(64, 64);
    while p.allocate(10, 20).is_some() {}
    p.reset();
    assert_eq!(occupancy(&p), 0.0);
    assert_eq!(p.allocate(10, 20), Some(Rect { x: 0, y: 0, width: 10, height: 20 }));
}

#[test]
fn allocations_stay_apart_by_the_padding() {
    let mut p = ShelfPacker::new(64, 64);
    let mut placed: Vec<Rect> = Vec::new();
    for (w, h) in [(8, 16), (8, 16), (10, 20), (8, 12), (30, 8), (5, 7), (20, 3)] {
        let Some(r) = p.allocate(w, h) else { continue };
        assert_eq!((r.width, r.height), (w, h));
        assert!(r.x + r.width + 1 <= 64 && r.y + r.height + 1 <= 64, "{r:?} leaves the page");
        let grown = Rect { width: r.width + 1, height: r.height + 1, ..r };
        for e in &placed {
            let other = Rect { width: e.width + 1, height: e.height + 1, ..*e };
            assert!(!grown.intersects(&other), "{r:?} is too close to {e:?}");
        }
        placed.push(r);
    }
    assert!(placed.len() >= 6);
}
