use mica::atlas::{Atlas, GlyphId, GlyphKey};
use mica::fontset::CellMetrics;
use mica::grid::InstanceBuffers;
use mica::material::{builtin, Material};
use mica::overlay::OverlayMetrics;
use mica::palette::{default_actions, Palette, VISIBLE_ROWS};
use mica::raster::{rasterize_scalar, Bitmap, PixelFormat};

fn metrics() -> CellMetrics {
    CellMetrics::measured(16, 31, 24, 17)
}

/// A font that has every character: a filled box for each.
fn font(key: GlyphKey, _text: Option<&str>) -> Option<Bitmap> {
    match key.id {
        GlyphId::Scalar(ch) => rasterize_scalar(ch, metrics(), key.columns, || Some(filled())),
        GlyphId::Cluster(_) => Some(filled()),
    }
}

fn filled() -> Bitmap {
    Bitmap { width: 6, height: 9, format: PixelFormat::Alpha8, data: vec![255u8; 54], left: 1, top: 3 }
}

fn palette() -> Palette {
    Palette::new(default_actions(&[
        "slate".to_owned(),
        "quartz".to_owned(),
        "basalt".to_owned(),
    ]))
}

#[test]
fn a_palette_starts_closed() {
    assert!(!palette().is_open());
}

#[test]
fn opening_shows_every_action() {
    let mut p = palette();
    p.open();
    assert!(p.is_open());
    assert_eq!(p.results().len(), p.actions().len());
    assert_eq!(p.query(), "");
}

#[test]
fn themes_appear_as_actions_without_a_special_case() {
    let p = palette();
    let ids: Vec<&str> = p.actions().iter().map(|a| a.id.as_str()).collect();
    assert!(ids.contains(&"theme.quartz"));
    assert!(ids.contains(&"theme.basalt"));
}

#[test]
fn typing_narrows_the_list_and_ranks_the_obvious_answer_first() {
    let mut p = palette();
    p.open();
    for ch in "snt".chars() {
        assert!(p.type_char(ch));
    }
    assert_eq!(p.selected().unwrap().id, "session.next_tab");
    assert!(p.results().len() < p.actions().len());
}

#[test]
fn a_theme_can_be_reached_by_its_name() {
    let mut p = palette();
    p.open();
    for ch in "quartz".chars() {
        p.type_char(ch);
    }
    assert_eq!(p.selected().unwrap().id, "theme.quartz");
}

#[test]
fn backspace_widens_the_list_again() {
    let mut p = palette();
    p.open();
    for ch in "snt".chars() {
        p.type_char(ch);
    }
    let narrow = p.results().len();
    assert!(p.backspace());
    assert!(p.results().len() > narrow);
}

#[test]
fn a_query_matching_nothing_leaves_no_selection() {
    let mut p = palette();
    p.open();
    for ch in "zzzzz".chars() {
        p.type_char(ch);
    }
    assert!(p.results().is_empty());
    assert!(p.selected().is_none());
    assert_eq!(p.accept(), None, "accepting nothing must not dispatch");
}

#[test]
fn selection_wraps_in_both_directions() {
    let mut p = palette();
    p.open();
    let first = p.selected().unwrap().id.clone();
    assert!(p.select_previous());
    let last = p.selected().unwrap().id.clone();
    assert_ne!(first, last);
    assert!(p.select_next());
    assert_eq!(p.selected().unwrap().id, first);
}

#[test]
fn typing_resets_the_selection_to_the_best_match() {
    // Otherwise a selection five rows down survives a query change and
    // Enter runs something the user never looked at.
    let mut p = palette();
    p.open();
    p.select_next();
    p.select_next();
    p.type_char('s');
    assert_eq!(p.selected().map(|a| a.id.as_str()), p.results().first().map(|a| a.id.as_str()));
}

#[test]
fn accepting_returns_the_id_and_closes() {
    let mut p = palette();
    p.open();
    for ch in "snt".chars() {
        p.type_char(ch);
    }
    assert_eq!(p.accept().as_deref(), Some("session.next_tab"));
    assert!(!p.is_open());
}

#[test]
fn closing_forgets_the_query() {
    // A palette that remembers the last thing you typed makes the first
    // keystroke of the next invocation unpredictable.
    let mut p = palette();
    p.open();
    p.type_char('s');
    p.close();
    p.open();
    assert_eq!(p.query(), "");
    assert_eq!(p.results().len(), p.actions().len());
}

#[test]
fn a_closed_palette_ignores_input() {
    let mut p = palette();
    assert!(!p.type_char('s'));
    assert!(!p.backspace());
    assert_eq!(p.query(), "");
}

#[test]
fn control_characters_are_not_typed_into_the_query() {
    let mut p = palette();
    p.open();
    assert!(!p.type_char('\u{1b}'));
    assert!(!p.type_char('\r'));
    assert_eq!(p.query(), "");
}

#[test]
fn a_long_result_list_scrolls_to_follow_the_selection() {
    let mut p = palette();
    p.open();
    assert!(p.actions().len() > VISIBLE_ROWS, "this test needs a list longer than a page");
    for _ in 0..VISIBLE_ROWS {
        p.select_next();
    }
    // The selection has to still be on screen, which means the window moved.
    assert!(p.scroll() > 0, "the result list did not scroll to follow the selection");
}

#[test]
fn a_closed_palette_draws_nothing() {
    let mut atlas = Atlas::new(metrics());
    let material = Material::from_theme(&builtin("slate").unwrap()).unwrap();
    let metrics = OverlayMetrics::from_atlas(&atlas, (800, 600));
    let mut out = InstanceBuffers::default();

    palette().render(&mut atlas, &font, &material, metrics, &mut out);
    assert!(out.is_empty(), "a closed palette produced {} instances", out.total());
}

#[test]
fn an_open_palette_draws_a_panel_and_its_rows() {
    let mut atlas = Atlas::new(metrics());
    let material = Material::from_theme(&builtin("slate").unwrap()).unwrap();
    let metrics = OverlayMetrics::from_atlas(&atlas, (800, 600));
    let mut out = InstanceBuffers::default();

    let mut p = palette();
    p.open();
    p.render(&mut atlas, &font, &material, metrics, &mut out);

    assert!(!out.quads.is_empty(), "no panel was drawn");
    assert!(!out.ui_text.is_empty(), "no text was drawn");
    // Chrome must go through ui_text, never through the cell pipeline —
    // the grid and the overlay have different coordinate systems.
    assert!(out.glyphs.is_empty(), "overlay text leaked into the cell pipeline");
    assert!(out.backgrounds.is_empty());
}

#[test]
fn the_palette_stays_inside_the_viewport() {
    let mut atlas = Atlas::new(metrics());
    let material = Material::from_theme(&builtin("slate").unwrap()).unwrap();
    let mut out = InstanceBuffers::default();

    // A narrow window is where a fixed-width panel would escape.
    let metrics = OverlayMetrics::from_atlas(&atlas, (400, 300));
    let mut p = palette();
    p.open();
    p.render(&mut atlas, &font, &material, metrics, &mut out);

    let panel = out.quads[0];
    assert!(panel.origin.0 >= 0, "the panel starts off the left edge");
    assert!(
        panel.origin.0 + panel.size.0 <= metrics.viewport.0 as i128 * 100 + 100,
        "the panel runs off the right edge"
    );
}
