use mica::cell::{Cell, CellContent, CellFlags, Color};
use mica::mirror::Mirror;

fn row_of(text: &str, cols: usize) -> Vec<Cell> {
    let mut v = vec![Cell::empty(); cols];
    for (i, ch) in text.chars().enumerate().take(cols) {
        v[i] = Cell::new(
            CellContent::scalar(ch),
            Color::theme_default(),
            Color::theme_default(),
            CellFlags::empty(),
        );
    }
    v
}

#[test]
fn a_fresh_mirror_is_entirely_dirty() {
    let m = Mirror::new(10, 4);
    assert_eq!(m.dirty_count(), 4);
    assert_eq!(m.dirty_rows().len(), 4);
}

#[test]
fn clearing_damage_yields_no_dirty_rows() {
    let mut m = Mirror::new(10, 4);
    m.clear_damage();
    assert!(!m.has_damage());
    assert_eq!(m.dirty_rows().len(), 0);
}

#[test]
fn writing_an_identical_row_does_not_redirty_it() {
    let mut m = Mirror::new(10, 4);
    let r = row_of("hello", 10);
    m.put_row(1, &r, false);
    m.clear_damage();

    assert!(!m.put_row(1, &r, false), "identical content must not report a change");
    assert!(!m.has_damage(), "an idle repaint must not wake the renderer");
}

#[test]
fn writing_a_changed_row_dirties_exactly_that_row() {
    let mut m = Mirror::new(10, 4);
    m.clear_damage();
    m.put_row(2, &row_of("hi", 10), false);
    assert_eq!(m.dirty_count(), 1);
    let dirty: Vec<u16> = m.dirty_rows().iter().map(|r| r.index).collect();
    assert_eq!(dirty, vec![2]);
}

#[test]
fn damage_count_is_exact_when_rows_do_not_fill_a_bitset_word() {
    let mut m = Mirror::new(10, 70);
    m.clear_damage();
    m.damage_all();
    assert_eq!(m.dirty_count(), 70);
    assert_eq!(m.dirty_rows().len(), 70);
}

#[test]
fn a_shorter_row_blanks_the_tail() {
    let mut m = Mirror::new(10, 2);
    m.put_row(0, &row_of("abcdefghij", 10), false);
    m.put_row(0, &row_of("ab", 2), false);
    assert_eq!(m.row(0)[5], Cell::empty());
}
