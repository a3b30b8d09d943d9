use mica::atlas::{Atlas, GlyphId, GlyphKey};
use mica::fontset::CellMetrics;
use mica::grid::InstanceBuffers;
use mica::material::{builtin, Material};
use mica::overlay::OverlayMetrics;
use mica::raster::{rasterize_scalar, Bitmap, PixelFormat};
use mica::shortcuts::{footer_hint, render, ShortcutRow, ShortcutView};

fn metrics() -> CellMetrics {
    CellMetrics::measured(8, 16, 12, 8)
}

/// A font that has every character: a filled box for each.
fn font(key: GlyphKey, _text: Option<&str>) -> Option<Bitmap> {
    match key.id {
        GlyphId::Scalar(ch) => rasterize_scalar(ch, metrics(), key.columns, || Some(filled())),
        GlyphId::Cluster(_) => Some(filled()),
    }
}

fn filled() -> Bitmap {
    Bitmap { width: 6, height: 9, format: PixelFormat::Alpha8, data: vec![255u8; 54], left: 1, top: 3 }
}

fn setup() -> (Atlas, Material, OverlayMetrics) {
    let atlas = Atlas::new(metrics());
    let material = Material::from_theme(&builtin("slate").unwrap()).unwrap();
    let metrics = OverlayMetrics::from_atlas(&atlas, (1200, 700));
    (atlas, material, metrics)
}

fn rows() -> Vec<ShortcutRow<'static>> {
    vec![
        ShortcutRow { label: "Command Palette", chord: "⇧⌘P" },
        ShortcutRow { label: "Find in Scrollback", chord: "⌘F" },
        ShortcutRow { label: "Next Match", chord: "" },
    ]
}

#[test]
fn the_panel_draws_a_background_and_some_text() {
    let (mut atlas, material, metrics) = setup();
    let mut out = InstanceBuffers::default();
    let rows = rows();
    render(
        ShortcutView { rows: &rows, selected: 0, capturing: false, notice: None },
        &mut atlas,
        &font,
        &material,
        metrics,
        &mut out,
    );
    assert!(!out.quads.is_empty(), "the panel drew no background");
    assert!(!out.ui_text.is_empty(), "the panel drew no text");
}

#[test]
fn the_selected_row_is_highlighted_and_only_that_row() {
    let (mut atlas, material, metrics) = setup();
    let rows = rows();
    let mut count = |selected| {
        let mut out = InstanceBuffers::default();
        render(
            ShortcutView { rows: &rows, selected, capturing: false, notice: None },
            &mut atlas,
            &font,
            &material,
            metrics,
            &mut out,
        );
        out.quads.len()
    };
    // One panel plus one highlight, whichever row is selected.
    assert_eq!(count(0), count(1));
    assert_eq!(count(0), 2);
}

#[test]
fn capturing_says_so_instead_of_showing_the_old_chord() {
    // Otherwise the panel looks identical whether or not it is waiting for
    // a keystroke, and the user cannot tell that it has the keyboard.
    let (mut atlas, material, metrics) = setup();
    let rows = rows();
    let mut text_len = |capturing| {
        let mut out = InstanceBuffers::default();
        render(
            ShortcutView { rows: &rows, selected: 0, capturing, notice: None },
            &mut atlas,
            &font,
            &material,
            metrics,
            &mut out,
        );
        out.ui_text.len()
    };
    assert_ne!(text_len(false), text_len(true), "capturing looks the same as not capturing");
}

#[test]
fn a_notice_replaces_the_hint_rather_than_being_dropped() {
    let (mut atlas, material, metrics) = setup();
    let rows = rows();
    let mut with = InstanceBuffers::default();
    render(
        ShortcutView {
            rows: &rows,
            selected: 0,
            capturing: false,
            notice: Some("⌘F taken from Find in Scrollback"),
        },
        &mut atlas,
        &font,
        &material,
        metrics,
        &mut with,
    );
    let mut without = InstanceBuffers::default();
    render(
        ShortcutView { rows: &rows, selected: 0, capturing: false, notice: None },
        &mut atlas,
        &font,
        &material,
        metrics,
        &mut without,
    );
    assert_ne!(with.ui_text.len(), without.ui_text.len());
}

#[test]
fn a_long_list_scrolls_rather_than_drawing_past_the_panel() {
    let (mut atlas, material, metrics) = setup();
    let many: Vec<ShortcutRow> =
        (0..40).map(|_| ShortcutRow { label: "Action", chord: "⌘K" }).collect();
    let mut out = InstanceBuffers::default();
    render(
        ShortcutView { rows: &many, selected: 39, capturing: false, notice: None },
        &mut atlas,
        &font,
        &material,
        metrics,
        &mut out,
    );
    // Ten rows of label and chord, plus the header and the footer.
    assert!(
        out.ui_text.len() < 40 * 20,
        "the panel drew every row instead of a window of them"
    );
    assert_eq!(out.quads.len(), 2, "the selected row is off-screen, so nothing highlighted");
}

#[test]
fn an_empty_list_does_not_panic() {
    let (mut atlas, material, metrics) = setup();
    let mut out = InstanceBuffers::default();
    render(
        ShortcutView { rows: &[], selected: 0, capturing: false, notice: None },
        &mut atlas,
        &font,
        &material,
        metrics,
        &mut out,
    );
    assert!(!out.quads.is_empty());
}

#[test]
fn the_footer_names_its_keys_in_words_rather_than_drawing_them() {
    // Reported from a screenshot: `⌫ unbind · ⎋ close` read as a circled
    // cross and a circular arrow, and neither said what to press.
    let (hint, _) = footer_hint(None, false);
    for word in ["move", "rebind", "unbind", "close"] {
        assert!(hint.contains(word), "`{word}` is missing from `{hint}`");
    }
    for drawn in ['\u{232b}', '\u{238b}'] {
        assert!(!hint.contains(drawn), "`{drawn}` is back in `{hint}`");
    }
    assert!(footer_hint(None, true).0.starts_with("esc"), "the capture hint still draws its key");

    // A notice still wins the footer, and is not a hint.
    assert_eq!(footer_hint(Some("taken"), false).0, "taken");
}
