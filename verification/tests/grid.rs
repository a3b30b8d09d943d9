use mica::atlas::{Atlas, GlyphId, GlyphKey};
use mica::cell::{Cell, CellContent, CellFlags, Color};
use mica::fontset::CellMetrics;
use mica::grid::{
    block_gutters, resolve_colors, underline_style, GlyphInstance, InstanceBuffers, Rgba,
    RowBuilder, GLYPH_FLAG_COLOR,
};
use mica::material::{builtin, Fraction, Material, Rgb, Role, Theme};
use mica::mirror::RowRef;
use mica::raster::{rasterize_scalar, Bitmap, PixelFormat};
use mica::semantic::{Block, BlockStatus};
use mica::sidetable::{Extras, SideTables};

fn metrics() -> CellMetrics {
    CellMetrics::measured(16, 31, 24, 17)
}

/// A font that has every character, and draws clusters in colour.
fn font(key: GlyphKey, text: Option<&str>) -> Option<Bitmap> {
    match key.id {
        GlyphId::Scalar(ch) => {
            rasterize_scalar(ch, metrics(), key.columns, || Some(filled(PixelFormat::Alpha8)))
        }
        GlyphId::Cluster(_) => text.map(|_| filled(PixelFormat::Bgra8)),
    }
}

fn filled(format: PixelFormat) -> Bitmap {
    let data = vec![255u8; 6 * 9 * format.bytes_per_pixel()];
    Bitmap { width: 6, height: 9, format, data, left: 1, top: 3 }
}


fn material() -> Material {
    Material::from_theme(&builtin("slate").unwrap()).unwrap()
}

fn atlas() -> Atlas {
    Atlas::new(metrics())
}

fn text_row(text: &str, cols: usize) -> Vec<Cell> {
    let mut cells = vec![Cell::empty(); cols];
    for (i, ch) in text.chars().enumerate().take(cols) {
        cells[i] = Cell::new(
            CellContent::scalar(ch),
            Color::theme_default(),
            Color::theme_default(),
            CellFlags::empty(),
        );
    }
    cells
}

fn build(cells: &[Cell], tables: &SideTables) -> (InstanceBuffers, Atlas) {
    let material = material();
    let mut atlas = atlas();
    let metrics = atlas.metrics();
    let builder = RowBuilder { material: &material, tables, metrics, alpha: Fraction::one() };
    let mut out = InstanceBuffers::default();
    builder.build_row(RowRef { index: 0, cells, wrapped: false }, &mut atlas, &font, &mut out);
    (out, atlas)
}

#[test]
fn a_plain_line_produces_one_glyph_per_visible_character_and_no_backgrounds() {
    // The common case, and the one that has to be cheap: default colours
    // mean the substrate already painted the background.
    let tables = SideTables::new();
    let (out, _) = build(&text_row("hello world", 40), &tables);
    assert_eq!(out.glyphs.len(), 10, "h e l l o w o r l d, spaces excluded");
    assert!(out.backgrounds.is_empty(), "default backgrounds must not be drawn");
    assert!(out.rules.is_empty());
}

#[test]
fn a_coloured_background_does_produce_a_quad() {
    let tables = SideTables::new();
    let mut cells = text_row("x", 4);
    cells[0].bg = Color::palette(1);
    let (out, _) = build(&cells, &tables);
    assert_eq!(out.backgrounds.len(), 1);
    assert_eq!(out.backgrounds[0].cell, (0, 0));
}

#[test]
fn ansi_colours_are_resolved_through_the_theme() {
    let tables = SideTables::new();
    let m = material();
    let mut cells = text_row("x", 4);
    cells[0].fg = Color::palette(1); // red == the theme's error role
    let (out, _) = build(&cells, &tables);
    assert_eq!(out.glyphs[0].color, Rgba::opaque(m.role(Role::Error)));
}

#[test]
fn inverse_swaps_the_two_colours() {
    let m = material();
    let mut cell = Cell::new(
        CellContent::scalar('x'),
        Color::theme_default(),
        Color::theme_default(),
        CellFlags::inverse(),
    );
    cell.width = 1;
    let (fg, bg) = resolve_colors(&cell, &m);
    assert_eq!(fg, m.role(Role::Background));
    assert_eq!(bg, m.role(Role::Foreground));
}

#[test]
fn inverse_produces_a_background_quad_where_a_plain_cell_would_not() {
    let tables = SideTables::new();
    let mut cells = text_row("x", 4);
    cells[0].flags.insert(CellFlags::inverse());
    let (out, _) = build(&cells, &tables);
    assert_eq!(out.backgrounds.len(), 1, "an inverted cell needs its background drawn");
}

#[test]
fn dim_moves_the_text_toward_the_background_without_reaching_it() {
    let m = material();
    let cell = Cell::new(
        CellContent::scalar('x'),
        Color::theme_default(),
        Color::theme_default(),
        CellFlags::dim(),
    );
    let (fg, _) = resolve_colors(&cell, &m);
    assert_ne!(fg, m.role(Role::Foreground), "dim did nothing");
    assert_ne!(fg, m.role(Role::Background), "dim made the text invisible");
}

#[test]
fn dim_text_is_seven_tenths_of_the_way_to_the_background() {
    let m = material();
    let mut cell = Cell::new(
        CellContent::scalar('x'),
        Color::rgb(200, 100, 0),
        Color::rgb(0, 0, 0),
        CellFlags::dim(),
    );
    cell.width = 1;
    let (fg, bg) = resolve_colors(&cell, &m);
    assert_eq!(fg, Rgb { r: 60, g: 30, b: 0 });
    assert_eq!(bg, Rgb { r: 0, g: 0, b: 0 }, "the background is not dimmed");
}

#[test]
fn hidden_text_is_drawn_in_the_background_colour_and_not_at_all() {
    let tables = SideTables::new();
    let mut cells = text_row("secret", 10);
    for cell in &mut cells[..6] {
        cell.flags.insert(CellFlags::hidden());
    }
    let (out, _) = build(&cells, &tables);
    assert!(out.glyphs.is_empty(), "hidden text must not reach the atlas");
}

#[test]
fn every_underline_style_maps_to_its_own_shader_branch() {
    for (flag, expected) in [
        (CellFlags::underline_single(), 1),
        (CellFlags::underline_double(), 2),
        (CellFlags::underline_curly(), 3),
        (CellFlags::underline_dotted(), 4),
        (CellFlags::underline_dashed(), 5),
    ] {
        assert_eq!(underline_style(flag), expected, "{flag:?}");
    }
    assert_eq!(underline_style(CellFlags::bold()), 0, "bold is not an underline");
}

#[test]
fn strikethrough_and_underline_are_two_separate_rules() {
    let tables = SideTables::new();
    let mut cells = text_row("x", 4);
    cells[0].flags.insert(CellFlags::underline_single());
    cells[0].flags.insert(CellFlags::strikethrough());
    let (out, _) = build(&cells, &tables);
    assert_eq!(out.rules.len(), 2);
    assert_ne!(out.rules[0].offset, out.rules[1].offset, "both rules sit at the same height");
}

#[test]
fn a_per_cell_underline_colour_overrides_the_text_colour() {
    let mut tables = SideTables::new();
    let underline = Color::rgb(1, 2, 3);
    let extra = tables.extras.intern(Extras { underline_color: Some(underline), hyperlink: None });

    let mut cells = text_row("x", 4);
    cells[0].flags.insert(CellFlags::underline_curly());
    cells[0].extra = extra;

    let (out, _) = build(&cells, &tables);
    assert_eq!(out.rules.len(), 1);
    assert_eq!(out.rules[0].color, Rgba::opaque(Rgb::new(1, 2, 3)));
    assert_ne!(out.rules[0].color, out.glyphs[0].color, "the rule took the text colour");
}

#[test]
fn a_wide_character_produces_one_instance_two_cells_wide() {
    let tables = SideTables::new();
    let mut cells = vec![Cell::empty(); 6];
    cells[0] = Cell::new(
        CellContent::scalar('\u{4E16}'),
        Color::palette(2),
        Color::palette(4),
        CellFlags::empty(),
    );
    cells[0].width = 2;
    cells[1].flags.insert(CellFlags::wide_spacer());
    cells[1].bg = Color::palette(4);

    let (out, _) = build(&cells, &tables);
    assert_eq!(out.glyphs.len(), 1, "the spacer must not produce its own glyph");
    assert_eq!(out.backgrounds.len(), 1, "the spacer must not produce its own background");
    assert_eq!(out.backgrounds[0].width, 2, "the background must span both columns");
}

#[test]
fn an_emoji_is_flagged_as_colour_so_the_shader_does_not_tint_it() {
    let mut tables = SideTables::new();
    let id = tables.graphemes.intern("\u{1F468}\u{200D}\u{1F469}\u{200D}\u{1F467}");

    let mut cells = vec![Cell::empty(); 6];
    cells[0] = Cell::new(
        CellContent::cluster(id),
        Color::theme_default(),
        Color::theme_default(),
        CellFlags::empty(),
    );
    cells[0].width = 2;
    cells[1].flags.insert(CellFlags::wide_spacer());

    let (out, _) = build(&cells, &tables);
    assert_eq!(out.glyphs.len(), 1);
    assert_eq!(
        out.glyphs[0].flags & GLYPH_FLAG_COLOR,
        GLYPH_FLAG_COLOR,
        "a cluster must take the colour path"
    );
}

#[test]
fn a_blank_row_produces_nothing_at_all() {
    let tables = SideTables::new();
    let (out, _) = build(&vec![Cell::empty(); 80], &tables);
    assert!(out.is_empty(), "an empty row produced {} instances", out.total());
}

#[test]
fn clearing_keeps_capacity_so_a_steady_frame_does_not_allocate() {
    let glyph = GlyphInstance {
        cell: (0, 0),
        offset: (0, 0),
        size: (0, 0),
        uv_origin: (0, 0),
        color: Rgba { r: 0, g: 0, b: 0, a: 0 },
        page: 0,
        flags: 0,
    };
    let mut buffers = InstanceBuffers::default();
    buffers.glyphs.extend(std::iter::repeat_n(glyph, 500));
    let capacity = buffers.glyphs.capacity();
    buffers.clear();
    assert!(buffers.is_empty());
    assert_eq!(buffers.glyphs.capacity(), capacity, "clear() released the buffer");
}

#[test]
fn a_failed_block_gets_a_gutter_mark_in_the_error_colour() {
    let m = material();
    let metrics = atlas().metrics();
    let block = Block {
        id: 1,
        start_row: 5,
        output_row: Some(6),
        end_row: Some(9),
        command: Some("false".into()),
        cwd: None,
        status: BlockStatus::Failed(1),
        started_ms: Some(0),
        duration_ms: Some(4),
        folded: false,
    };
    let mut out = Vec::new();
    block_gutters(&[block], 0, 24, &m, metrics, &mut out);

    assert_eq!(out.len(), 1);
    assert_eq!(out[0].row, 5);
    assert_eq!(out[0].rows, 4);
    assert_eq!(out[0].color, Rgba::opaque(m.role(Role::Error)));
}

#[test]
fn blocks_scrolled_out_of_view_produce_no_marks() {
    let m = material();
    let metrics = atlas().metrics();
    let block = |start, end| Block {
        id: 1,
        start_row: start,
        output_row: None,
        end_row: Some(end),
        command: None,
        cwd: None,
        status: BlockStatus::Succeeded,
        started_ms: None,
        duration_ms: None,
        folded: false,
    };
    let mut out = Vec::new();
    // Entirely above the viewport, and entirely below it.
    block_gutters(&[block(0, 5), block(100, 105)], 10, 24, &m, metrics, &mut out);
    assert!(out.is_empty(), "off-screen blocks produced {} marks", out.len());
}

#[test]
fn a_block_straddling_the_top_of_the_viewport_is_clipped_not_dropped() {
    let m = material();
    let metrics = atlas().metrics();
    let block = Block {
        id: 1,
        start_row: 5,
        output_row: None,
        end_row: Some(20),
        command: None,
        cwd: None,
        status: BlockStatus::Running,
        started_ms: None,
        duration_ms: None,
        folded: false,
    };
    let mut out = Vec::new();
    block_gutters(&[block], 10, 24, &m, metrics, &mut out);
    assert_eq!(out.len(), 1);
    assert_eq!(out[0].row, 0, "the mark should start at the top of the viewport");
    assert_eq!(out[0].rows, 10);
}

#[test]
fn the_theme_alpha_reaches_every_instance() {
    // The cross-fade works by fading the whole grid, so anything that
    // ignores `alpha` would visibly pop during a theme change.
    let tables = SideTables::new();
    let material = material();
    let mut atlas = atlas();
    let metrics = atlas.metrics();
    let mut cells = text_row("x", 4);
    cells[0].bg = Color::palette(2);
    cells[0].flags.insert(CellFlags::underline_single());

    let builder = RowBuilder { material: &material, tables: &tables, metrics, alpha: Fraction::new(1, 2) };
    let mut out = InstanceBuffers::default();
    builder.build_row(
        RowRef { index: 0, cells: &cells, wrapped: false },
        &mut atlas,
        &font,
        &mut out,
    );

    assert_eq!(out.backgrounds[0].color.alpha(), 128);
    assert_eq!(out.glyphs[0].color.alpha(), 128);
    assert_eq!(out.rules[0].color.alpha(), 128);
}

#[test]
fn a_theme_with_a_bad_colour_is_rejected_before_it_reaches_the_renderer() {
    let broken = Theme { error: "not a colour".into(), ..builtin("slate").unwrap() };
    assert!(Material::from_theme(&broken).is_err());
}
