use mica::atlas::{Atlas, GlyphId, GlyphKey};
use mica::fontset::{CellMetrics, Style};
use mica::grid::Rgba;
use mica::material::{builtin, Fraction, Material, Rgb, Role};
use mica::overlay::{fill, layout_text, panel, text_width, OverlayMetrics, TextField};
use mica::raster::{Bitmap, PixelFormat};

#[test]
fn a_new_field_is_empty_with_the_caret_at_the_start() {
    let field = TextField::new();
    assert!(field.is_empty());
    assert_eq!(field.caret(), 0);
}

#[test]
fn typing_advances_the_caret() {
    let mut field = TextField::new();
    field.insert_str("error");
    assert_eq!(field.text(), "error");
    assert_eq!(field.caret(), 5);
}

#[test]
fn backspace_at_the_start_reports_that_nothing_happened() {
    // The caller uses this to decide whether to schedule a frame; always
    // returning true would redraw on every rejected keystroke.
    let mut field = TextField::new();
    assert!(!field.backspace());
    field.insert('a');
    assert!(field.backspace());
    assert!(field.is_empty());
}

#[test]
fn editing_happens_at_the_caret_not_at_the_end() {
    let mut field = TextField::new();
    field.insert_str("eror");
    field.move_home();
    field.move_right();
    field.insert('r');
    assert_eq!(field.text(), "error");
}

#[test]
fn delete_forward_removes_the_character_under_the_caret() {
    let mut field = TextField::new();
    field.set("errror");
    field.move_home();
    field.move_right();
    assert!(field.delete_forward());
    assert_eq!(field.text(), "error");
}

#[test]
fn the_caret_cannot_leave_the_string() {
    let mut field = TextField::new();
    field.set("ab");
    assert!(!field.move_right(), "the caret walked past the end");
    field.move_home();
    assert!(!field.move_left(), "the caret walked before the start");
}

#[test]
fn multi_byte_characters_are_handled_by_character_not_by_byte() {
    // A query field that panics on an accent is a query field nobody can
    // search a log with.
    let mut field = TextField::new();
    field.insert_str("héllo→");
    assert_eq!(field.caret(), 6);
    assert!(field.backspace());
    assert_eq!(field.text(), "héllo");
    field.move_home();
    field.move_right();
    field.insert('X');
    assert_eq!(field.text(), "hXéllo");
}

#[test]
fn deleting_a_multi_byte_character_removes_all_of_it() {
    let mut field = TextField::new();
    field.set("a→b");
    field.move_home();
    field.move_right();
    assert!(field.delete_forward());
    assert_eq!(field.text(), "ab");
}

#[test]
fn text_width_counts_characters_not_bytes() {
    let metrics = OverlayMetrics {
        viewport: (800, 600),
        cell_width: 10,
        cell_height: 20,
        baseline: 15,
    };
    // In hundredths of a pixel.
    assert_eq!(text_width("abc", metrics), 3000);
    assert_eq!(text_width("→→→", metrics), 3000, "three arrows are three cells");
}

#[test]
fn the_caret_moves_to_either_end() {
    let mut field = TextField::new();
    field.set("été");
    field.move_home();
    assert_eq!(field.caret(), 0);
    field.move_end();
    assert_eq!(field.caret(), 3);
}

/// A font with two characters: a mask, and a picture in colours.
fn two_glyphs(key: GlyphKey, _text: Option<&str>) -> Option<Bitmap> {
    let format = match key.id {
        GlyphId::Scalar('a') => PixelFormat::Alpha8,
        GlyphId::Scalar('b') => PixelFormat::Bgra8,
        _ => return None,
    };
    let data = vec![9u8; 6 * format.bytes_per_pixel()];
    Some(Bitmap { width: 2, height: 3, format, data, left: 1, top: 4 })
}

#[test]
fn every_character_is_as_wide_as_a_cell() {
    let mut atlas = Atlas::new(CellMetrics::measured(8, 16, 12, 8));
    let metrics = OverlayMetrics::from_atlas(&atlas, (800, 600));
    let mut out = Vec::new();
    let width = layout_text(
        &mut atlas,
        &two_glyphs,
        "a ?b",
        (1000, 2000),
        Rgb::new(1, 2, 3),
        Fraction::new(1, 2),
        metrics,
        Style::regular(),
        &mut out,
    );
    assert_eq!(width, 3200, "four cells of eight pixels, in hundredths");
    assert_eq!(width, text_width("a ?b", metrics));
    assert_eq!(out.len(), 2, "neither a space nor a missing glyph is drawn");
    assert_eq!(out[0].origin, (1100, 2400));
    assert_eq!(out[1].origin, (3500, 2400));
    assert_eq!((out[0].size, out[0].flags), ((2, 3), 0));
    assert_eq!((out[1].size, out[1].flags), ((2, 3), 1));
    assert_eq!(out[0].color, Rgba { r: 1, g: 2, b: 3, a: 128 });
}

#[test]
fn a_panel_is_the_background_slightly_raised() {
    let material = Material::from_theme(&builtin("slate").unwrap()).unwrap();
    let q = panel((0, 0), (100, 200), &material, Fraction::one());
    let raised =
        material.role(Role::Background).lerp(material.role(Role::Dim), Fraction::new(16, 100));
    assert_eq!(q.fill, Rgba { r: raised.r, g: raised.g, b: raised.b, a: 250 });
    assert_eq!(q.border.a, 128);
    assert_eq!((q.radius, q.border_width), (1000, 100));
    let f = fill((0, 0), (100, 200), Rgb::new(9, 8, 7), Fraction::new(3, 10));
    assert_eq!(f.fill, Rgba { r: 9, g: 8, b: 7, a: 77 });
    assert_eq!((f.radius, f.border_width), (300, 0));
}
