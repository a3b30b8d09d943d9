use mica::fontset::CellMetrics;
use mica::raster::{
    baseline_above, canvas_size, downscale_to_width, rasterize_cluster, rasterize_fallback,
    rasterize_scalar, scalar_path, tintable, Bitmap, Canvas, PixelFormat, ScalarPath,
};

fn metrics() -> CellMetrics {
    CellMetrics::measured(17, 33, 26, 18)
}

/// A buffer of the size that a glyph gets, inked where `ink` says so.
fn canvas(format: PixelFormat, columns: u8, ink: impl Fn(usize, usize) -> [u8; 4]) -> Canvas {
    let (width, height) = canvas_size(metrics(), columns);
    let mut data = Vec::new();
    for y in 0..height {
        for x in 0..width {
            let pixel = ink(x, y);
            match format {
                PixelFormat::Alpha8 => data.push(pixel[3]),
                PixelFormat::Bgra8 => data.extend_from_slice(&pixel),
            }
        }
    }
    Canvas { data, width, height, format }
}

#[test]
fn a_letter_rasterises_to_something_visible() {
    let drawn = canvas(PixelFormat::Alpha8, 1, |x, y| [0, 0, 0, if x > 9 && y > 20 { 200 } else { 0 }]);
    let bitmap = rasterize_scalar('A', metrics(), 1, || Some(drawn.trim(8, 8))).unwrap();
    assert!(!bitmap.is_empty(), "an A produced no pixels");
    assert_eq!(bitmap.format, PixelFormat::Alpha8);
    assert!(bitmap.data.iter().any(|&v| v > 0));
}

#[test]
fn a_space_produces_no_pixels_and_costs_no_atlas_space() {
    let bitmap = rasterize_scalar(' ', metrics(), 1, || panic!("a space was drawn")).unwrap();
    assert!(bitmap.is_empty());
    assert!(bitmap.data.is_empty());
}

#[test]
fn glyphs_are_trimmed_to_their_ink() {
    // A period is a small mark; if trimming is not working it would come back
    // the size of the whole padded box.
    let m = metrics();
    let drawn = canvas(PixelFormat::Alpha8, 1, |x, y| {
        [0, 0, 0, if (15..18).contains(&x) && (31..34).contains(&y) { 255 } else { 0 }]
    });
    let dot = rasterize_scalar('.', m, 1, || Some(drawn.trim(8, 8))).unwrap();
    assert!(dot.height < m.height, "'.' was not trimmed: {}x{}", dot.width, dot.height);
    assert!(dot.top > 0, "'.' should sit below the top of the cell");
    assert_eq!((dot.width, dot.height), (3, 3));
    assert_eq!((dot.left, dot.top), (7, 23));
    assert_eq!(dot.data, vec![255u8; 9]);
}

#[test]
fn a_blank_buffer_trims_to_nothing() {
    let drawn = canvas(PixelFormat::Bgra8, 2, |_, _| [0; 4]);
    let bitmap = drawn.trim(8, 8);
    assert!(bitmap.is_empty());
    assert_eq!((bitmap.left, bitmap.top), (0, 0));
    assert_eq!(bitmap.format, PixelFormat::Bgra8);
}

#[test]
fn box_drawing_bypasses_the_font_entirely() {
    let m = metrics();
    let bitmap = rasterize_scalar('\u{2500}', m, 1, || panic!("the font was asked")).unwrap();
    // Synthesised glyphs are cell-exact and untrimmed, which is precisely what
    // makes them tile without seams.
    assert_eq!(bitmap.width, m.width);
    assert_eq!(bitmap.height, m.height);
    assert_eq!((bitmap.left, bitmap.top), (0, 0));
}

#[test]
fn every_character_takes_one_path() {
    assert_eq!(scalar_path('\u{2588}'), ScalarPath::Synthesised);
    assert_eq!(scalar_path('\u{a0}'), ScalarPath::Blank);
    assert_eq!(scalar_path('\u{3000}'), ScalarPath::Blank);
    assert_eq!(scalar_path('\u{7}'), ScalarPath::Blank);
    assert_eq!(scalar_path('A'), ScalarPath::Font);
}

#[test]
fn a_buffer_has_room_around_its_cells() {
    let m = metrics();
    assert_eq!(canvas_size(m, 1), (17 + 16, 33 + 16));
    assert_eq!(canvas_size(m, 2), (34 + 16, 33 + 16));
    assert_eq!(canvas_size(m, 0), (17 + 16, 33 + 16));
    assert_eq!(baseline_above(m), 33 + 8 - 26);
}

#[test]
fn an_emoji_takes_the_colour_path() {
    let drawn = canvas(PixelFormat::Bgra8, 2, |x, y| [(x * 3) as u8, (y * 2) as u8, 9, 255]);
    let bitmap = rasterize_fallback(Some(drawn), metrics(), 2).unwrap();
    assert_eq!(bitmap.format, PixelFormat::Bgra8, "an emoji must not be greyscale");
    assert!(!bitmap.is_empty());
    // A colour glyph has more than one distinct colour in it; a fallback box
    // would not.
    let distinct: std::collections::HashSet<[u8; 3]> = bitmap
        .data
        .chunks_exact(4)
        .filter(|p| p[3] > 0)
        .map(|p| [p[0], p[1], p[2]])
        .collect();
    assert!(distinct.len() > 1, "the emoji came out monochrome");
}

#[test]
fn a_zwj_cluster_is_one_glyph_in_one_cell() {
    let m = metrics();
    let drawn = canvas(PixelFormat::Bgra8, 2, |_, _| [10, 20, 30, 255]);
    let family = rasterize_cluster(Some(drawn), m, 2).unwrap();
    assert!(!family.is_empty());
    assert!(
        family.width <= m.width * 2,
        "the cluster is {} px wide, wider than its two cells",
        family.width
    );
    assert_eq!((family.width, family.height), (34, 33));
}

#[test]
fn a_flag_sequence_is_one_glyph() {
    let drawn = canvas(PixelFormat::Bgra8, 2, |x, _| [x as u8, 0, 0, 255]);
    let flag = rasterize_cluster(Some(drawn), metrics(), 2).unwrap();
    assert!(!flag.is_empty());
    assert_eq!(flag.format, PixelFormat::Bgra8);
}

#[test]
fn an_oversized_colour_glyph_is_scaled_into_its_cells() {
    let m = metrics();
    let drawn = canvas(PixelFormat::Bgra8, 2, |x, y| [x as u8, y as u8, 0, 255]);
    let emoji = rasterize_fallback(Some(drawn), m, 2).unwrap();
    assert!(
        emoji.width <= m.width * 2,
        "emoji {} px exceeds its {} px of cells",
        emoji.width,
        m.width * 2
    );
}

#[test]
fn nothing_drawn_is_nothing_rasterised() {
    assert_eq!(rasterize_cluster(None, metrics(), 1), None);
    assert_eq!(rasterize_fallback(None, metrics(), 1), None);
}

#[test]
fn downscaling_preserves_the_aspect_ratio_and_the_format() {
    let source = Bitmap {
        width: 40,
        height: 20,
        format: PixelFormat::Bgra8,
        data: vec![255u8; 40 * 20 * 4],
        left: 4,
        top: 2,
    };
    let scaled = downscale_to_width(&source, 20);
    assert_eq!((scaled.width, scaled.height), (20, 10));
    assert_eq!(scaled.format, PixelFormat::Bgra8);
    assert_eq!(scaled.data.len(), 20 * 10 * 4);
    assert!(scaled.data.iter().all(|&v| v == 255), "a flat image must stay flat");
    assert_eq!((scaled.left, scaled.top), (2, 1));
}

#[test]
fn downscaling_averages_each_box() {
    let source = Bitmap {
        width: 4,
        height: 2,
        format: PixelFormat::Alpha8,
        data: vec![0, 10, 100, 200, 20, 30, 100, 201],
        left: 0,
        top: 0,
    };
    let scaled = downscale_to_width(&source, 2);
    assert_eq!((scaled.width, scaled.height), (2, 1));
    assert_eq!(scaled.data, vec![15, 150]);
}

#[test]
fn every_shortcut_symbol_comes_back_tintable() {
    // A colour glyph ignores the cell's foreground. A symbol that arrived in
    // colour would be locked to whatever colour the fallback font drew it in
    // and would disappear against half the themes.
    let drawn = canvas(PixelFormat::Bgra8, 1, |x, y| {
        let v = if (9..20).contains(&x) && (12..30).contains(&y) { (x * y) as u8 | 1 } else { 0 };
        [v; 4]
    });
    let bitmap = rasterize_fallback(Some(drawn), metrics(), 1).unwrap();
    assert_eq!(bitmap.format, PixelFormat::Alpha8);
    assert_eq!((bitmap.width, bitmap.height), (11, 18));
    assert_eq!(bitmap.data.len(), 11 * 18);
    assert_eq!(bitmap.data[0], (9 * 12) as u8 | 1);
    let right = bitmap.left as i32 + bitmap.width as i32;
    assert!(right <= metrics().width as i32 + 1);
}

#[test]
fn one_coloured_pixel_keeps_the_colours() {
    let mut data = vec![7u8; 4 * 6];
    let plain = Bitmap {
        width: 3,
        height: 2,
        format: PixelFormat::Bgra8,
        data: data.clone(),
        left: -1,
        top: 2,
    };
    let mask = tintable(plain.clone());
    assert_eq!(mask.data, vec![7u8; 6]);
    assert_eq!(mask.format, PixelFormat::Alpha8);
    assert_eq!((mask.left, mask.top), (-1, 2));
    data[4 * 5 + 1] = 8;
    let coloured = Bitmap { data, ..plain };
    assert_eq!(tintable(coloured.clone()), coloured);
}
