use mica::boxdraw::{is_synthesised, render, render_block, Coverage, BOX_TABLE};

const W: u16 = 9;
const H: u16 = 18;

fn draw(ch: char) -> Coverage {
    render(ch, W, H).unwrap_or_else(|| panic!("{ch:?} should be synthesised"))
}

#[test]
fn the_table_covers_the_whole_box_drawing_block() {
    assert_eq!(BOX_TABLE.len(), 128);
    for cp in 0x2500u32..=0x259F {
        let ch = char::from_u32(cp).unwrap();
        assert!(is_synthesised(ch), "U+{cp:04X} is not claimed");
        assert!(render(ch, W, H).is_some(), "U+{cp:04X} did not render");
    }
}

#[test]
fn ordinary_text_is_left_to_the_font() {
    assert!(!is_synthesised('A'));
    assert!(!is_synthesised('\u{4E16}'));
    assert_eq!(render('A', W, H), None);
}

#[test]
fn a_horizontal_line_spans_the_full_width_and_nothing_else() {
    let c = draw('\u{2500}');
    let mid = H / 2;
    for x in 0..W {
        assert_ne!(c.get(x, mid), 0, "column {x} of a horizontal rule is empty");
    }
    assert_eq!(c.get(W / 2, 0), 0, "a horizontal rule must not reach the top edge");
}

#[test]
fn a_vertical_line_spans_the_full_height() {
    let c = draw('\u{2502}');
    for y in 0..H {
        assert_ne!(c.get(W / 2, y), 0, "row {y} of a vertical rule is empty");
    }
}

#[test]
fn horizontal_lines_tile_without_a_seam() {
    // The entire reason this module exists. Two cells side by side must
    // join: the rightmost column of one and the leftmost of the next are
    // both inked, at the same row.
    let c = draw('\u{2500}');
    let mid = H / 2;
    assert_ne!(c.get(0, mid), 0, "left edge is not inked — a seam would show");
    assert_ne!(c.get(W - 1, mid), 0, "right edge is not inked — a seam would show");
}

#[test]
fn vertical_lines_tile_without_a_seam() {
    let c = draw('\u{2502}');
    let mid = W / 2;
    assert_ne!(c.get(mid, 0), 0, "top edge is not inked");
    assert_ne!(c.get(mid, H - 1), 0, "bottom edge is not inked");
}

#[test]
fn a_corner_reaches_exactly_two_edges() {
    // ┌ opens down and right, so it must touch those two edges and neither
    // of the others.
    let c = draw('\u{250C}');
    assert_ne!(c.get(W - 1, H / 2), 0, "no stroke reaching the right edge");
    assert_ne!(c.get(W / 2, H - 1), 0, "no stroke reaching the bottom edge");
    assert_eq!(c.get(0, H / 2), 0, "stroke leaked to the left edge");
    assert_eq!(c.get(W / 2, 0), 0, "stroke leaked to the top edge");
}

#[test]
fn all_four_corners_face_the_right_way() {
    for (ch, right, down) in [
        ('\u{250C}', true, true),
        ('\u{2510}', false, true),
        ('\u{2514}', true, false),
        ('\u{2518}', false, false),
    ] {
        let c = draw(ch);
        assert_eq!(c.get(W - 1, H / 2) != 0, right, "{ch:?} right edge");
        assert_eq!(c.get(0, H / 2) != 0, !right, "{ch:?} left edge");
        assert_eq!(c.get(W / 2, H - 1) != 0, down, "{ch:?} bottom edge");
        assert_eq!(c.get(W / 2, 0) != 0, !down, "{ch:?} top edge");
    }
}

#[test]
fn a_cross_reaches_all_four_edges() {
    let c = draw('\u{253C}');
    assert_ne!(c.get(0, H / 2), 0);
    assert_ne!(c.get(W - 1, H / 2), 0);
    assert_ne!(c.get(W / 2, 0), 0);
    assert_ne!(c.get(W / 2, H - 1), 0);
}

#[test]
fn a_heavy_line_is_thicker_than_a_light_one() {
    let light = draw('\u{2500}');
    let heavy = draw('\u{2501}');
    let ink = |c: &Coverage| c.data.iter().filter(|&&v| v > 0).count();
    assert!(ink(&heavy) > ink(&light), "heavy must lay down more ink than light");
}

#[test]
fn a_double_line_is_two_rails_with_a_gap_between_them() {
    let c = draw('\u{2550}');
    let column: Vec<u8> = (0..H).map(|y| c.get(W / 2, y)).collect();
    // Count runs of ink down the middle column: a double rule has two.
    let mut runs = 0;
    let mut inside = false;
    for v in column {
        if v > 0 && !inside {
            runs += 1;
            inside = true;
        } else if v == 0 {
            inside = false;
        }
    }
    assert_eq!(runs, 2, "a double rule must be two separate rails");
}

#[test]
fn a_dashed_line_has_gaps_and_a_solid_one_does_not() {
    let solid = draw('\u{2500}');
    let dashed = draw('\u{2504}');
    let mid = H / 2;
    let holes = |c: &Coverage| (0..W).filter(|&x| c.get(x, mid) == 0).count();
    assert_eq!(holes(&solid), 0);
    assert!(holes(&dashed) > 0, "a triple-dash rule must have visible gaps");
}

#[test]
fn arcs_reach_their_two_edges_and_curve_between_them() {
    let c = draw('\u{256D}'); // ╭ — down and right
    assert_ne!(c.get(W - 1, H / 2), 0, "arc must meet the right edge");
    assert_ne!(c.get(W / 2, H - 1), 0, "arc must meet the bottom edge");
    // The defining property of an arc: the corner point itself is empty.
    assert_eq!(c.get(W / 2, H / 2), 0, "an arc must not pass through the cell centre");
}

#[test]
fn diagonals_run_corner_to_corner() {
    let slash = draw('\u{2571}'); // ╱ upper-right to lower-left
    assert_ne!(slash.get(W - 1, 0), 0);
    assert_ne!(slash.get(0, H - 1), 0);
    assert_eq!(slash.get(0, 0), 0);

    let cross = draw('\u{2573}');
    assert_ne!(cross.get(0, 0), 0);
    assert_ne!(cross.get(W - 1, 0), 0);
}

#[test]
fn a_full_block_covers_every_pixel() {
    let c = draw('\u{2588}');
    assert!(c.data.iter().all(|&v| v == 255));
}

#[test]
fn complementary_half_blocks_tile_the_cell_exactly() {
    // Upper half plus lower half must cover the cell with no gap row and
    // no doubled row — this is what a progress bar is built out of.
    let upper = draw('\u{2580}');
    let lower = render('\u{2584}', W, H).unwrap(); // lower half = lower 4/8
    for y in 0..H {
        for x in 0..W {
            let covered = (upper.get(x, y) > 0) as u8 + (lower.get(x, y) > 0) as u8;
            assert_eq!(covered, 1, "pixel ({x},{y}) covered {covered} times");
        }
    }
}

#[test]
fn the_eighth_blocks_increase_monotonically() {
    let ink = |ch: char| draw(ch).data.iter().filter(|&&v| v > 0).count();
    let mut previous = 0;
    for cp in 0x2581u32..=0x2588 {
        let n = ink(char::from_u32(cp).unwrap());
        assert!(n > previous, "U+{cp:04X} did not grow: {n} <= {previous}");
        previous = n;
    }
}

#[test]
fn the_shades_are_ordered_light_to_dark() {
    let alpha = |ch: char| draw(ch).data[0];
    assert!(alpha('\u{2591}') < alpha('\u{2592}'));
    assert!(alpha('\u{2592}') < alpha('\u{2593}'));
    assert!(alpha('\u{2593}') < 255);
}

#[test]
fn quadrants_cover_exactly_their_own_quarter() {
    let c = draw('\u{2598}'); // upper left
    assert_ne!(c.get(0, 0), 0);
    assert_eq!(c.get(W - 1, 0), 0);
    assert_eq!(c.get(0, H - 1), 0);
}

#[test]
fn every_glyph_renders_at_a_tiny_cell_without_panicking() {
    // A 3x4 cell is absurd, but a font-size slider can produce one and a
    // panic in the atlas takes the whole terminal down.
    for cp in 0x2500u32..=0x259F {
        let ch = char::from_u32(cp).unwrap();
        let c = render(ch, 3, 4).unwrap();
        assert_eq!(c.data.len(), 12);
    }
}

#[test]
fn a_stroke_is_never_blank_when_a_weight_was_requested() {
    for cp in 0x2500u32..=0x257F {
        let ch = char::from_u32(cp).unwrap();
        assert!(!draw(ch).is_blank(), "U+{cp:04X} rendered nothing at all");
    }
}

/// Pixels of a column that hold ink.
fn column_ink(c: &Coverage, x: u16) -> usize {
    (0..c.height).filter(|&y| c.get(x, y) != 0).count()
}

/// Pixels of a row that hold ink.
fn row_ink(c: &Coverage, y: u16) -> usize {
    (0..c.width).filter(|&x| c.get(x, y) != 0).count()
}

#[test]
fn each_edge_carries_the_weight_of_its_own_direction() {
    let heavy_right = draw('\u{257C}');
    assert!(column_ink(&heavy_right, W - 1) > column_ink(&heavy_right, 0));
    let heavy_down = draw('\u{257D}');
    assert!(row_ink(&heavy_down, H - 1) > row_ink(&heavy_down, 0));
    let heavy_left = draw('\u{257E}');
    assert!(column_ink(&heavy_left, 0) > column_ink(&heavy_left, W - 1));
    let heavy_up = draw('\u{257F}');
    assert!(row_ink(&heavy_up, 0) > row_ink(&heavy_up, H - 1));
}

#[test]
fn a_mixed_cross_has_the_ink_of_each_plain_line_at_its_edges() {
    let (light, heavy) = (draw('\u{2500}'), draw('\u{2501}'));
    // Left light and right, up and down heavy.
    let cross = draw('\u{254A}');
    assert_eq!(column_ink(&cross, W - 1), column_ink(&heavy, W - 1));
    assert_eq!(column_ink(&cross, 0), column_ink(&light, 0));
    let upright = draw('\u{2503}');
    assert_eq!(row_ink(&cross, 0), row_ink(&upright, 0));
    assert_eq!(row_ink(&cross, H - 1), row_ink(&upright, H - 1));
}

#[test]
fn an_arm_meets_its_opposite_without_a_gap() {
    for ch in ['\u{257C}', '\u{257E}'] {
        let c = draw(ch);
        assert!((0..W).all(|x| column_ink(&c, x) > 0), "{ch:?} is broken");
    }
    for ch in ['\u{257D}', '\u{257F}'] {
        let c = draw(ch);
        assert!((0..H).all(|y| row_ink(&c, y) > 0), "{ch:?} is broken");
    }
}

#[test]
fn complementary_blocks_tile_a_cell_of_any_size() {
    let pairs = [
        ('\u{2580}', '\u{2584}'),
        ('\u{258C}', '\u{2590}'),
        ('\u{2594}', '\u{2587}'),
        ('\u{2595}', '\u{2589}'),
    ];
    for (a, b) in pairs {
        for (w, h) in [(9, 18), (8, 16), (4, 4), (1, 1), (7, 3), (3, 5), (11, 23)] {
            let (a, b) = (render_block(a, w, h), render_block(b, w, h));
            for y in 0..h {
                for x in 0..w {
                    let covered = (a.get(x, y) > 0) as u8 + (b.get(x, y) > 0) as u8;
                    assert_eq!(covered, 1, "({x},{y}) of {w}x{h} covered {covered} times");
                }
            }
        }
    }
}

#[test]
fn quadrant_figures_are_unions_of_quadrants() {
    let (ul, ur, ll, lr) = ('\u{2598}', '\u{259D}', '\u{2596}', '\u{2597}');
    let figures = [
        ('\u{2599}', vec![ul, ll, lr]),
        ('\u{259A}', vec![ul, lr]),
        ('\u{259B}', vec![ul, ur, ll]),
        ('\u{259C}', vec![ul, ur, lr]),
        ('\u{259E}', vec![ur, ll]),
        ('\u{259F}', vec![ur, ll, lr]),
    ];
    for (w, h) in [(9, 18), (5, 3)] {
        for (figure, parts) in &figures {
            let drawn = render_block(*figure, w, h);
            for y in 0..h {
                for x in 0..w {
                    let inked = parts.iter().any(|&p| render_block(p, w, h).get(x, y) > 0);
                    assert_eq!(drawn.get(x, y) > 0, inked, "{figure:?} at ({x},{y})");
                }
            }
        }
        for y in 0..h {
            for x in 0..w {
                let parts = [ul, ur, ll, lr];
                let n = parts.iter().filter(|&&p| render_block(p, w, h).get(x, y) > 0).count();
                assert_eq!(n, 1, "({x},{y}) lies in {n} quadrants");
            }
        }
    }
}

#[test]
fn a_letter_is_no_block() {
    assert!(render_block('a', 4, 4).is_blank());
}
