use mica::atlas::{Atlas, GlyphId, GlyphKey};
use mica::find::Find;
use mica::fontset::CellMetrics;
use mica::grid::InstanceBuffers;
use mica::material::{builtin, Material};
use mica::overlay::OverlayMetrics;
use mica::raster::{rasterize_scalar, Bitmap, PixelFormat};

fn metrics() -> CellMetrics {
    CellMetrics::measured(16, 31, 24, 17)
}

/// A font that has every character: a filled box for each.
fn font(key: GlyphKey, _text: Option<&str>) -> Option<Bitmap> {
    match key.id {
        GlyphId::Scalar(ch) => rasterize_scalar(ch, metrics(), key.columns, || Some(filled())),
        GlyphId::Cluster(_) => Some(filled()),
    }
}

fn filled() -> Bitmap {
    Bitmap { width: 6, height: 9, format: PixelFormat::Alpha8, data: vec![255u8; 54], left: 1, top: 3 }
}

const CORPUS: &[(i32, &str)] = &[
    (-1, "error: first"),
    (0, "ok"),
    (1, "error: second"),
    (2, "error: third"),
];

fn find_with(query: &str) -> Find {
    let mut find = Find::new();
    find.open();
    for ch in query.chars() {
        find.type_char(ch);
    }
    find.run(CORPUS, 0);
    find
}

fn setup() -> (Atlas, Material, OverlayMetrics) {
    let atlas = Atlas::new(metrics());
    let material = Material::from_theme(&builtin("slate").unwrap()).unwrap();
    let metrics = OverlayMetrics::from_atlas(&atlas, (800, 600));
    (atlas, material, metrics)
}

#[test]
fn a_new_find_is_closed_and_empty() {
    let find = Find::new();
    assert!(!find.is_open());
    assert_eq!(find.query(), "");
    assert_eq!(find.status(), "");
}

#[test]
fn typing_marks_the_search_dirty_without_running_it() {
    // The search reads every line of scrollback; doing it inside render
    // would put a full history walk in the frame path.
    let mut find = Find::new();
    find.open();
    find.type_char('e');
    assert!(find.needs_search());
    find.run(CORPUS, 0);
    assert!(!find.needs_search());
}

#[test]
fn matches_are_found_and_counted() {
    let find = find_with("error");
    assert_eq!(find.search().len(), 3);
    // Lines -1 and 1 are equidistant from the focus line; the tie goes to
    // the earlier match, so the readout starts at the first of the three.
    assert_eq!(find.status(), "1 / 3");
    assert_eq!(find.current().unwrap().line, -1);
}

#[test]
fn a_query_with_no_matches_says_so() {
    let find = find_with("zzz");
    assert_eq!(find.status(), "no results");
    assert!(find.current().is_none());
}

#[test]
fn next_and_previous_move_through_the_matches() {
    let mut find = find_with("error");
    let first = find.current().unwrap().line;
    let second = find.next().unwrap().line;
    assert_ne!(first, second);
    assert_eq!(find.previous().unwrap().line, first);
}

#[test]
fn the_query_survives_closing_and_reopening() {
    // Searching for the same thing again is the common case.
    let mut find = find_with("error");
    find.close();
    assert!(find.search().is_empty(), "closing must drop the highlights");
    find.open();
    assert_eq!(find.query(), "error");
    assert!(find.needs_search());
}

#[test]
fn a_closed_find_draws_nothing() {
    let (mut atlas, material, metrics) = setup();
    let mut out = InstanceBuffers::default();
    Find::new().render(&mut atlas, &font, &material, metrics, 0, 24, (0, 0), &mut out);
    assert!(out.is_empty());
}

#[test]
fn highlights_are_quads_and_never_touch_the_cell_pipeline() {
    // The distinction the module exists to preserve: a highlight is drawn
    // over the text, not written into it.
    let (mut atlas, material, metrics) = setup();
    let mut out = InstanceBuffers::default();
    find_with("error").render(&mut atlas, &font, &material, metrics, -1, 24, (0, 0), &mut out);

    assert!(out.quads.len() >= 4, "expected three highlights plus the bar");
    assert!(out.glyphs.is_empty(), "find wrote into the cell pipeline");
    assert!(out.backgrounds.is_empty(), "find mutated cell backgrounds");
    assert!(!out.ui_text.is_empty(), "the find bar drew no text");
}

#[test]
fn matches_outside_the_viewport_are_skipped_not_clamped() {
    // A match one line above the fold must not paint a stripe at the top.
    let (mut atlas, material, metrics) = setup();
    let mut with_history = InstanceBuffers::default();
    find_with("error").render(
        &mut atlas,
        &font,
        &material,
        metrics,
        -1,
        24,
        (0, 0),
        &mut with_history,
    );

    let mut without_history = InstanceBuffers::default();
    find_with("error").render(
        &mut atlas,
        &font,
        &material,
        metrics,
        1, // line -1 is now scrolled off the top
        24,
        (0, 0),
        &mut without_history,
    );
    assert!(
        without_history.quads.len() < with_history.quads.len(),
        "an off-screen match was still drawn"
    );
}

#[test]
fn the_current_match_is_drawn_differently_from_the_others() {
    let (mut atlas, material, metrics) = setup();
    let mut out = InstanceBuffers::default();
    find_with("error").render(&mut atlas, &font, &material, metrics, -1, 24, (0, 0), &mut out);

    // Three highlights, and they must not all be the same colour.
    let highlights: Vec<_> = out.quads.iter().take(3).map(|q| q.fill).collect();
    let distinct: std::collections::HashSet<_> = highlights.iter().collect();
    assert!(distinct.len() > 1, "the current match is indistinguishable from the rest");
}

#[test]
fn the_bar_stays_inside_a_narrow_window() {
    let (mut atlas, material, _) = setup();
    let metrics = OverlayMetrics::from_atlas(&atlas, (300, 200));
    let mut out = InstanceBuffers::default();
    find_with("e").render(&mut atlas, &font, &material, metrics, 0, 12, (0, 0), &mut out);

    let bar = out.quads.iter().find(|q| q.border_width > 0).expect("no panel drawn");
    assert!(bar.origin.0 >= 0, "the find bar starts off the left edge");
}
