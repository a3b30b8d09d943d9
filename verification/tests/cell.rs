use mica::cell::{Cell, CellContent, Color};

#[test]
fn cell_is_twenty_bytes() {
    assert_eq!(core::mem::size_of::<Cell>(), 20);
}

#[test]
fn color_roundtrips_through_its_packing() {
    assert!(Color::theme_default().is_default());
    assert_eq!(Color::palette(9).as_palette(), Some(9));
    assert_eq!(Color::rgb(1, 2, 3).as_rgb(), Some((1, 2, 3)));
    assert_eq!(Color::rgb(1, 2, 3).as_palette(), None);
    assert!(!Color::palette(0).is_default());
}

#[test]
fn max_scalar_char_does_not_collide_with_the_cluster_tag() {
    let c = CellContent::scalar('\u{10FFFF}');
    assert_eq!(c.as_scalar(), Some('\u{10FFFF}'));
    assert_eq!(c.as_cluster(), None);
}

#[test]
fn cluster_index_survives_tagging() {
    let c = CellContent::cluster(0x7FFF_FFFE);
    assert_eq!(c.as_cluster(), Some(0x7FFF_FFFE));
    assert_eq!(c.as_scalar(), None);
}

#[test]
fn empty_cell_is_blank_but_a_coloured_background_is_not() {
    assert!(Cell::empty().is_blank());
    let mut c = Cell::empty();
    c.bg = Color::palette(1);
    assert!(!c.is_blank());
}
